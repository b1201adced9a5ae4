use vstd::prelude::*;
use vstd::arithmetic::div_mod::{lemma_fundamental_div_mod, lemma_mod_multiples_basic, lemma_small_mod};
use vstd::arithmetic::mul::lemma_mul_is_associative;
use vstd::arithmetic::power2::{
    lemma2_to64,
    lemma_pow2_adds,
    lemma_pow2_pos,
    lemma_pow2_strictly_increases,
    lemma_pow2_unfold,
    pow2,
};

pub mod traits;
pub mod pool;
pub mod generator;

use crate::traits::{Prf, Timer, KEY_LENGTH};
use crate::pool::Pool;
use crate::generator::{Generator, ctr_add, keystream, blocks_for};

verus! {

/// The number of entropy pools.
pub const POOLS_NUM: usize = 32;

/// The number of bytes pool 0 must hold before a reseed.
pub const MIN_POOL_SIZE: usize = 64;

/// The largest request that one generator call serves: 2^20 bytes.
pub const MAX_GENERATE_SIZE: usize = 1048576;

/// The time in milliseconds that must pass between two reseeds.
pub const RESEED_MIN_INTERVAL_MS: u64 = 100;

/// The error of a request that came before the generator could be seeded.
#[must_use]
#[derive(Debug)]
pub struct NotSeeded;

/// The state of an accumulator as its contracts see it.
pub struct FortunaView {
    /// The bytes absorbed by each of the 32 pools since it was last harvested.
    pub pools: Seq<Seq<u8>>,
    /// The byte count of each pool.
    pub counts: Seq<nat>,
    /// The generator's key.
    pub key: Seq<u8>,
    /// The generator's counter.
    pub ctr: u128,
    /// The number of reseeds so far (wrapping).
    pub reseed_cnt: u32,
}

/// The state of a new accumulator: empty pools and an unseeded generator.
pub open spec fn initial_view() -> FortunaView {
    FortunaView {
        pools: Seq::new(32, |i: int| Seq::<u8>::empty()),
        counts: Seq::new(32, |i: int| 0nat),
        key: Seq::new(32, |i: int| 0u8),
        ctr: 0,
        reseed_cnt: 0,
    }
}

/// The state after event `e` from source `s` went to pool `i`: the pool absorbs
/// the header `[s, e.len()]` and then `e`.
pub open spec fn event_added(v: FortunaView, s: u8, i: int, e: Seq<u8>) -> FortunaView {
    FortunaView {
        pools: v.pools.update(i, v.pools[i] + seq![s, e.len() as u8] + e),
        counts: v.counts.update(i, v.counts[i] + 2 + e.len()),
        ..v
    }
}

/// The number of pools that reseed number `k` harvests, counting from
/// pool `i`: pools are taken in ascending order while `2^i` divides `k`.
pub open spec fn harvest_count_from(k: u32, i: nat) -> nat
    decreases 32 - i,
{
    if i < 32 && (k as nat) % pow2(i) == 0 {
        harvest_count_from(k, i + 1)
    } else {
        i
    }
}

/// The number of pools (a prefix of them) that reseed number `k` harvests.
pub open spec fn harvest_count(k: u32) -> nat {
    harvest_count_from(k, 0)
}

/// The digests of the first `n` pools, in ascending order.
pub open spec fn pool_seed<H: crate::traits::Hash>(pools: Seq<Seq<u8>>, n: nat) -> Seq<u8>
    decreases n,
{
    if n == 0 {
        Seq::empty()
    } else {
        pool_seed::<H>(pools, (n - 1) as nat) + H::digest(pools[n - 1])
    }
}

/// The reseed counter after one more reseed (wrapping).
pub open spec fn next_reseed_cnt(c: u32) -> u32 {
    if c == u32::MAX {
        0
    } else {
        (c + 1) as u32
    }
}

/// Whether a request reseeds, given the time since the last reseed: pool 0
/// holds enough bytes, and either no reseed happened yet or enough time passed.
pub open spec fn reseed_due(v: FortunaView, elapsed_ms: u64) -> bool {
    &&& v.counts[0] >= MIN_POOL_SIZE
    &&& (v.reseed_cnt == 0 || elapsed_ms > RESEED_MIN_INTERVAL_MS)
}

/// The state after a reseed: the harvested pools are emptied and their digests,
/// in ascending order, are hashed into the key after the old key.
pub open spec fn reseeded<H: crate::traits::Hash>(v: FortunaView) -> FortunaView {
    let k = next_reseed_cnt(v.reseed_cnt);
    let n = harvest_count(k);
    FortunaView {
        pools: Seq::new(32, |i: int| if i < n { Seq::<u8>::empty() } else { v.pools[i] }),
        counts: Seq::new(32, |i: int| if i < n { 0nat } else { v.counts[i] }),
        key: H::digest(v.key + pool_seed::<H>(v.pools, n)),
        ctr: ctr_add(v.ctr, 1),
        reseed_cnt: k,
    }
}

/// A request of `len` bytes served in chunks of at most `MAX_GENERATE_SIZE`
/// bytes, each by one generator call with its own rekey: the output, and the
/// generator's key and counter afterwards.
pub open spec fn chunked_stream<P: Prf>(key: Seq<u8>, ctr: u128, len: nat) -> (Seq<u8>, Seq<u8>, u128)
    decreases len,
{
    if len == 0 {
        (Seq::empty(), key, ctr)
    } else {
        let n: nat = if len < MAX_GENERATE_SIZE { len } else { MAX_GENERATE_SIZE as nat };
        let out = keystream::<P>(key, ctr, n);
        let next_key = keystream::<P>(key, ctr_add(ctr, blocks_for(n)), 32);
        let next_ctr = ctr_add(ctr, blocks_for(n) + 2);
        let rest = chunked_stream::<P>(next_key, next_ctr, (len - n) as nat);
        (out + rest.0, rest.1, rest.2)
    }
}

/// A request for `out.len()` bytes, given the time since the last reseed: the
/// new state, the new contents of the output buffer, and whether it succeeded.
/// It fails, leaving the buffer as it was, exactly when no reseed has happened.
/// The generator's counter wraps.
pub open spec fn random_data_result<P: Prf, H: crate::traits::Hash>(
    v: FortunaView,
    elapsed_ms: u64,
    out: Seq<u8>,
) -> (FortunaView, Seq<u8>, bool) {
    let v1 = if reseed_due(v, elapsed_ms) { reseeded::<H>(v) } else { v };
    if v1.reseed_cnt == 0 {
        (v1, out, false)
    } else {
        let c = chunked_stream::<P>(v1.key, v1.ctr, out.len());
        (FortunaView { key: c.1, ctr: c.2, ..v1 }, c.0, true)
    }
}


proof fn lemma_harvest_count_shape(k: u32, j: nat)
    requires
        j <= 32,
    ensures
        j <= harvest_count_from(k, j) <= 32,
        forall|i: nat| j <= i < harvest_count_from(k, j) ==> (k as nat) % #[trigger] pow2(i) == 0,
        harvest_count_from(k, j) < 32 ==> (k as nat) % pow2(harvest_count_from(k, j)) != 0,
    decreases 32 - j,
{
    if j < 32 && (k as nat) % pow2(j) == 0 {
        lemma_harvest_count_shape(k, j + 1);
    }
}

proof fn lemma_pow2_divides_smaller(k: nat, j: nat, i: nat)
    requires
        j <= i,
        k % pow2(i) == 0,
    ensures
        k % pow2(j) == 0,
{
    lemma_pow2_pos(i);
    lemma_pow2_pos(j);
    lemma_pow2_adds(j, (i - j) as nat);
    lemma_fundamental_div_mod(k as int, pow2(i) as int);
    let q = k as int / pow2(i) as int;
    lemma_mul_is_associative(pow2(j) as int, pow2((i - j) as nat) as int, q);
    lemma_mod_multiples_basic(q * pow2((i - j) as nat), pow2(j) as int);
    assert(k as int == (q * pow2((i - j) as nat)) * pow2(j)) by (nonlinear_arith)
        requires
            k as int == pow2(i) * q,
            pow2(i) == pow2(j) * pow2((i - j) as nat),
    ;
}

/// Reseed number `k` harvests pool `i` exactly when `2^i` divides `k`: pool 0
/// takes part in every reseed, pool 1 in every second, pool 2 in every fourth.
/// The harvested pools are a prefix, and `reseeded` hashes their digests in
/// ascending order.
pub proof fn lemma_reseed_schedule(k: u32, i: nat)
    requires
        i < POOLS_NUM,
    ensures
        i < harvest_count(k) <==> (k as nat) % pow2(i) == 0,
{
    lemma_harvest_count_shape(k, 0);
    let n = harvest_count(k);
    if (k as nat) % pow2(i) == 0 && n <= i {
        lemma_pow2_divides_smaller(k as nat, n, i);
    }
}

/// A new accumulator refuses every request, whatever the timer reads, and
/// leaves both its state and the output buffer as they were.
pub proof fn lemma_fresh_refuses<P: Prf, H: crate::traits::Hash>(elapsed_ms: u64, out: Seq<u8>)
    ensures
        !random_data_result::<P, H>(initial_view(), elapsed_ms, out).2,
        random_data_result::<P, H>(initial_view(), elapsed_ms, out).1 == out,
        random_data_result::<P, H>(initial_view(), elapsed_ms, out).0 == initial_view(),
{
}

/// Before the first reseed, a request fails and changes nothing as long as
/// pool 0 holds fewer than `MIN_POOL_SIZE` bytes (event headers included).
pub proof fn lemma_unseeded_below_min<P: Prf, H: crate::traits::Hash>(
    v: FortunaView,
    elapsed_ms: u64,
    out: Seq<u8>,
)
    requires
        v.reseed_cnt == 0,
        v.counts[0] < MIN_POOL_SIZE,
    ensures
        !random_data_result::<P, H>(v, elapsed_ms, out).2,
        random_data_result::<P, H>(v, elapsed_ms, out).1 == out,
        random_data_result::<P, H>(v, elapsed_ms, out).0 == v,
{
}

/// Of two requests that both find pool 0 full enough, the second issued within
/// `RESEED_MIN_INTERVAL_MS` of the reseed made by the first, only the first
/// reseeds. (The reseed counter must not wrap to zero on the first.)
pub proof fn lemma_time_gate<P: Prf, H: crate::traits::Hash>(
    v: FortunaView,
    elapsed1: u64,
    out1: Seq<u8>,
    elapsed2: u64,
    out2: Seq<u8>,
)
    requires
        reseed_due(v, elapsed1),
        v.reseed_cnt < u32::MAX,
        elapsed2 <= RESEED_MIN_INTERVAL_MS,
    ensures
        ({
            let v1 = random_data_result::<P, H>(v, elapsed1, out1).0;
            let v2 = random_data_result::<P, H>(v1, elapsed2, out2).0;
            &&& v1.reseed_cnt == v.reseed_cnt + 1
            &&& !reseed_due(v1, elapsed2)
            &&& v2.reseed_cnt == v1.reseed_cnt
            &&& v2.pools == v1.pools
            &&& v2.counts == v1.counts
        }),
{
}

/// A request larger than `MAX_GENERATE_SIZE` gives what a generator call on
/// its first `MAX_GENERATE_SIZE` bytes gives, followed by what the rest of the
/// request gives from the state that call leaves (its rekey included).
pub proof fn lemma_chunking<P: Prf>(key: Seq<u8>, ctr: u128, len: nat)
    requires
        len > MAX_GENERATE_SIZE,
    ensures
        ({
            let m = MAX_GENERATE_SIZE as nat;
            let key1 = keystream::<P>(key, ctr_add(ctr, blocks_for(m)), 32);
            let ctr1 = ctr_add(ctr, blocks_for(m) + 2);
            chunked_stream::<P>(key, ctr, len) == (
                keystream::<P>(key, ctr, m) + chunked_stream::<P>(key1, ctr1, (len - m) as nat).0,
                chunked_stream::<P>(key1, ctr1, (len - m) as nat).1,
                chunked_stream::<P>(key1, ctr1, (len - m) as nat).2,
            )
        }),
{
}

/// Where the counter does not wrap, a served request leaves it larger than it
/// found it (after any reseed), by at most three steps per byte.
pub proof fn lemma_chunked_counter_increases<P: Prf>(key: Seq<u8>, ctr: u128, len: nat)
    requires
        ctr + 3 * len <= u128::MAX,
        len > 0,
    ensures
        ctr < chunked_stream::<P>(key, ctr, len).2 <= ctr + 3 * len,
    decreases len,
{
    let n: nat = if len < MAX_GENERATE_SIZE { len } else { MAX_GENERATE_SIZE as nat };
    assert(blocks_for(n) <= n) by (nonlinear_arith)
        requires n >= 1;
    lemma_small_mod(ctr as nat + blocks_for(n) + 2, u128::MAX as nat + 1);
    let next_key = keystream::<P>(key, ctr_add(ctr, blocks_for(n)), 32);
    let next_ctr = ctr_add(ctr, blocks_for(n) + 2);
    assert(next_ctr == ctr + blocks_for(n) + 2);
    assert(next_ctr + 3 * ((len - n) as nat) <= ctr + 3 * len);
    let rest = chunked_stream::<P>(next_key, next_ctr, (len - n) as nat);
    assert(chunked_stream::<P>(key, ctr, len).2 == rest.2);
    if len > n {
        lemma_chunked_counter_increases::<P>(next_key, next_ctr, (len - n) as nat);
    }
}

/// The outcome of a request depends on the state, the timer reading and the
/// request's length alone, not on what the buffer held: two accumulators in
/// the same state, read the same time, give the same bytes and the same state.
pub proof fn lemma_deterministic<P: Prf, H: crate::traits::Hash>(
    v: FortunaView,
    elapsed_ms: u64,
    out1: Seq<u8>,
    out2: Seq<u8>,
)
    requires
        out1.len() == out2.len(),
    ensures
        random_data_result::<P, H>(v, elapsed_ms, out1).0 == random_data_result::<P, H>(v, elapsed_ms, out2).0,
        random_data_result::<P, H>(v, elapsed_ms, out1).2 == random_data_result::<P, H>(v, elapsed_ms, out2).2,
        random_data_result::<P, H>(v, elapsed_ms, out1).2 ==> random_data_result::<P, H>(v, elapsed_ms, out1).1
            == random_data_result::<P, H>(v, elapsed_ms, out2).1,
{
}

/// The accumulator: 32 entropy pools feeding a generator, reseeded on an
/// exponential schedule.
pub struct Fortuna<P: Prf, H: crate::traits::Hash, T: Timer> {
    pool: Vec<Pool<H>>,
    generator: Generator<P, H>,
    reseed_cnt: u32,
    timer: T,
}

impl<P: Prf, H: crate::traits::Hash, T: Timer> View for Fortuna<P, H, T> {
    type V = FortunaView;

    closed spec fn view(&self) -> FortunaView {
        FortunaView {
            pools: Seq::new(32, |i: int| self.pool@[i].absorbed()),
            counts: Seq::new(32, |i: int| self.pool@[i].count()),
            key: self.generator.spec_key(),
            ctr: self.generator.spec_ctr(),
            reseed_cnt: self.reseed_cnt,
        }
    }
}

impl<P: Prf, H: crate::traits::Hash, T: Timer> Fortuna<P, H, T> {
    /// The accumulator holds its 32 pools.
    pub closed spec fn wf(&self) -> bool {
        self.pool@.len() == POOLS_NUM
    }

    /// The timer the accumulator owns.
    pub closed spec fn timer(&self) -> T {
        self.timer
    }

    /// A new accumulator with empty pools and an unseeded generator, owning
    /// `timer` as it was given.
    pub fn new(timer: T) -> (r: Self)
        ensures
            r.wf(),
            r@ == initial_view(),
            r.timer() == timer,
    {
        let mut pool: Vec<Pool<H>> = Vec::new();
        let mut i: usize = 0;
        while i < POOLS_NUM
            invariant
                i <= POOLS_NUM,
                pool@.len() == i,
                forall|j: int| 0 <= j < i ==> (#[trigger] pool@[j]).is_empty(),
            decreases POOLS_NUM - i,
        {
            pool.push(Pool::new());
            i = i + 1;
        }
        let r = Fortuna { pool, generator: Generator::default(), reseed_cnt: 0, timer };
        assert(r@.pools =~= initial_view().pools);
        assert(r@.counts =~= initial_view().counts);
        r
    }

    /// Harvests the pools that the next reseed takes, in ascending order,
    /// hashes their digests into the generator's key, and resets the timer.
    fn reseed(&mut self)
        requires
            old(self).wf(),
        ensures
            final(self).wf(),
            final(self)@ == reseeded::<H>(old(self)@),
            final(self).timer().resets() == old(self).timer().resets() + 1,
    {
        let ghost v0 = self@;
        let k = self.reseed_cnt.wrapping_add(1);
        self.reseed_cnt = k;
        self.timer.reset();
        let ghost t1 = self.timer;
        let mut seed: Vec<u8> = Vec::new();
        let mut i: usize = 0;
        let mut d: u64 = 1;
        proof {
            lemma2_to64();
        }
        while i < POOLS_NUM && (k as u64) % d == 0
            invariant
                self.wf(),
                i <= POOLS_NUM,
                d == pow2(i as nat),
                d >= 1,
                harvest_count_from(k, i as nat) == harvest_count(k),
                seed@ == pool_seed::<H>(v0.pools, i as nat),
                forall|j: int| 0 <= j < i ==> (#[trigger] self.pool@[j]).is_empty(),
                forall|j: int|
                    i <= j < POOLS_NUM ==> (#[trigger] self.pool@[j]).absorbed() == v0.pools[j]
                        && self.pool@[j].count() == v0.counts[j],
                self.generator.spec_key() == v0.key,
                self.generator.spec_ctr() == v0.ctr,
                self.reseed_cnt == k,
                k == next_reseed_cnt(v0.reseed_cnt),
                self.timer == t1,
            decreases POOLS_NUM - i,
        {
            let mut digest = [0u8; KEY_LENGTH];
            self.pool[i].output(&mut digest);
            seed.extend_from_slice(&digest);
            proof {
                lemma_pow2_unfold((i + 1) as nat);
                lemma2_to64();
                if i < 31 {
                    lemma_pow2_strictly_increases(i as nat, 31);
                }
            }
            i = i + 1;
            d = d * 2;
        }
        assert(i == harvest_count(k));
        self.generator.reseed_with(seed.as_slice());
        assert(self@.pools =~= reseeded::<H>(v0).pools);
        assert(self@.counts =~= reseeded::<H>(v0).counts);
    }

    /// Serves a request in chunks of at most `MAX_GENERATE_SIZE` bytes, each by
    /// one generator call with its own rekey.
    fn emit(&mut self, r: &mut [u8])
        requires
            old(self).wf(),
        ensures
            final(self).wf(),
            final(r)@ == chunked_stream::<P>(old(self)@.key, old(self)@.ctr, old(r)@.len()).0,
            final(self)@ == (FortunaView {
                key: chunked_stream::<P>(old(self)@.key, old(self)@.ctr, old(r)@.len()).1,
                ctr: chunked_stream::<P>(old(self)@.key, old(self)@.ctr, old(r)@.len()).2,
                ..old(self)@
            }),
            final(self).timer() == old(self).timer(),
    {
        let ghost v0 = self@;
        let len = r.len();
        let ghost whole = chunked_stream::<P>(v0.key, v0.ctr, len as nat);
        let mut off: usize = 0;
        while off < len
            invariant
                self.wf(),
                off <= len,
                r@.len() == len,
                self.pool@ == old(self).pool@,
                self.reseed_cnt == v0.reseed_cnt,
                self.timer == old(self).timer,
                r@.take(off as int) + chunked_stream::<P>(
                    self.generator.spec_key(),
                    self.generator.spec_ctr(),
                    (len - off) as nat,
                ).0 == whole.0,
                chunked_stream::<P>(self.generator.spec_key(), self.generator.spec_ctr(), (len - off) as nat).1
                    == whole.1,
                chunked_stream::<P>(self.generator.spec_key(), self.generator.spec_ctr(), (len - off) as nat).2
                    == whole.2,
            decreases len - off,
        {
            let n: usize = if len - off < MAX_GENERATE_SIZE { len - off } else { MAX_GENERATE_SIZE };
            let ghost key1 = self.generator.spec_key();
            let ghost ctr1 = self.generator.spec_ctr();
            let ghost r1 = r@;
            self.generator.generate_range(r, off, off + n);
            proof {
                let rest = (len - off) as nat;
                let c = chunked_stream::<P>(key1, ctr1, rest);
                let c2 = chunked_stream::<P>(self.generator.spec_key(), self.generator.spec_ctr(), (rest - n) as nat);
                assert(c.0 == keystream::<P>(key1, ctr1, n as nat) + c2.0);
                assert(r@.take((off + n) as int) =~= r1.take(off as int) + keystream::<P>(key1, ctr1, n as nat));
                assert(r@.take((off + n) as int) + c2.0 =~= r1.take(off as int) + c.0);
            }
            off = off + n;
        }
        assert(r@ =~= r@.take(len as int));
        assert(self@ =~= (FortunaView { key: whole.1, ctr: whole.2, ..v0 }));
    }

    /// Serves a request given the time since the last reseed: reseeds first when
    /// pool 0 holds `MIN_POOL_SIZE` bytes and either no reseed happened yet or
    /// more than `RESEED_MIN_INTERVAL_MS` passed, then fills `r` from the generator.
    /// The timer is reset exactly when a reseed happens, and otherwise left alone.
    pub fn random_data_at(&mut self, elapsed_ms: u64, r: &mut [u8]) -> (res: Result<(), NotSeeded>)
        requires
            old(self).wf(),
        ensures
            final(self).wf(),
            final(self)@ == random_data_result::<P, H>(old(self)@, elapsed_ms, old(r)@).0,
            final(r)@ == random_data_result::<P, H>(old(self)@, elapsed_ms, old(r)@).1,
            res is Ok <==> random_data_result::<P, H>(old(self)@, elapsed_ms, old(r)@).2,
            reseed_due(old(self)@, elapsed_ms) ==> final(self).timer().resets() == old(
                self,
            ).timer().resets() + 1,
            !reseed_due(old(self)@, elapsed_ms) ==> final(self).timer() == old(self).timer(),
    {
        if self.pool[0].length() >= MIN_POOL_SIZE && (self.reseed_cnt == 0 || elapsed_ms
            > RESEED_MIN_INTERVAL_MS) {
            self.reseed();
        }
        if self.reseed_cnt == 0 {
            return Err(NotSeeded);
        }
        self.emit(r);
        Ok(())
    }

    /// Serves a request, reading the timer when its reading matters: see
    /// `random_data_at`, of which this is one outcome for some reading.
    pub fn random_data(&mut self, r: &mut [u8]) -> (res: Result<(), NotSeeded>)
        requires
            old(self).wf(),
        ensures
            final(self).wf(),
            exists|elapsed_ms: u64|
                {
                    let o = #[trigger] random_data_result::<P, H>(old(self)@, elapsed_ms, old(r)@);
                    &&& final(self)@ == o.0
                    &&& final(r)@ == o.1
                    &&& (res is Ok <==> o.2)
                    &&& (reseed_due(old(self)@, elapsed_ms) ==> final(self).timer().resets() == old(
                        self,
                    ).timer().resets() + 1)
                    &&& (!reseed_due(old(self)@, elapsed_ms) ==> final(self).timer() == old(
                        self,
                    ).timer())
                },
    {
        let elapsed_ms = if self.reseed_cnt != 0 && self.pool[0].length() >= MIN_POOL_SIZE {
            self.timer.elapsed_ms()
        } else {
            0
        };
        let ghost v0 = self@;
        let ghost r0 = r@;
        let res = self.random_data_at(elapsed_ms, r);
        assert(random_data_result::<P, H>(v0, elapsed_ms, r0).0 == self@);
        res
    }

    /// The number of bytes that pool `i` absorbed since it was last harvested.
    pub fn pool_length(&self, i: usize) -> (r: usize)
        requires
            self.wf(),
            i < POOLS_NUM,
        ensures
            r == self@.counts[i as int],
    {
        self.pool[i].length()
    }

    /// Adds event `e` from source `s` to pool `i`: the pool absorbs the header
    /// `[s, e.len()]` and then `e`.
    pub fn add_random_event(&mut self, s: u8, i: usize, e: &[u8])
        requires
            old(self).wf(),
            1 <= e@.len() <= 32,
            i < POOLS_NUM,
            old(self)@.counts[i as int] + 2 + e@.len() <= usize::MAX,
        ensures
            final(self).wf(),
            final(self)@ == event_added(old(self)@, s, i as int, e@),
            final(self).timer() == old(self).timer(),
    {
        let header = [s, e.len() as u8];
        self.pool[i].input(&header);
        self.pool[i].input(e);
        assert(self@.pools =~= event_added(old(self)@, s, i as int, e@).pools);
        assert(self@.counts =~= event_added(old(self)@, s, i as int, e@).counts);
    }
}

} // verus!
