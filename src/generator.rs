use vstd::prelude::*;
use vstd::arithmetic::div_mod::{lemma_add_mod_noop, lemma_add_mod_noop_right, lemma_small_mod};
use vstd::arithmetic::power::pow;
use core::marker::PhantomData;
use byteorder::ByteOrder;
use crate::traits::{Prf, KEY_LENGTH, BLOCK_LENGTH};
use crate::MAX_GENERATE_SIZE;

verus! {

/// The number of distinct counter values.
pub open spec fn counter_modulus() -> nat {
    u128::MAX as nat + 1
}

/// `c` advanced by `k` steps of wrapping addition.
pub open spec fn ctr_add(c: u128, k: nat) -> u128 {
    ((c as nat + k) % counter_modulus()) as u128
}

/// The 16-byte little-endian encoding of `n`.
pub open spec fn le_bytes(n: u128) -> Seq<u8> {
    Seq::new(16, |i: int| ((n as nat / pow(256, i as nat) as nat) % 256) as u8)
}

/// The number of blocks needed to cover `len` bytes.
pub open spec fn blocks_for(len: nat) -> nat {
    (len + 15) / 16
}

/// Byte `j` of the counter-mode stream under `key` starting at counter `ctr`:
/// block `j / 16` is the permutation of the encoded counter `ctr + j / 16`.
pub open spec fn stream_byte<P: Prf>(key: Seq<u8>, ctr: u128, j: nat) -> u8 {
    P::block(key, le_bytes(ctr_add(ctr, j / 16)))[(j % 16) as int]
}

/// The first `len` bytes of the counter-mode stream under `key` starting at `ctr`.
pub open spec fn keystream<P: Prf>(key: Seq<u8>, ctr: u128, len: nat) -> Seq<u8> {
    Seq::new(len, |j: int| stream_byte::<P>(key, ctr, j as nat))
}

/// Relies on byteorder's `LittleEndian::write_u128`: the counter written as
/// 16 bytes, least significant first.
#[verifier::external_body]
fn counter_block(ctr: u128) -> (r: [u8; BLOCK_LENGTH])
    ensures
        r@ == le_bytes(ctr),
{
    let mut block = [0u8; BLOCK_LENGTH];
    byteorder::LittleEndian::write_u128(&mut block, ctr);
    block
}

proof fn lemma_ctr_step(c: u128, k: nat)
    ensures
        ctr_add(c, 0) == c,
        ctr_add(ctr_add(c, k), 1) == ctr_add(c, k + 1),
        ctr_add(ctr_add(c, k), 1) == (if ctr_add(c, k) == u128::MAX {
            0
        } else {
            ctr_add(c, k) + 1
        }),
{
    let m = counter_modulus();
    lemma_small_mod(c as nat, m);
    lemma_add_mod_noop(c as int + k, 1, m as int);
    lemma_small_mod(1, m);
    let a = ctr_add(c, k) as nat;
    if a < u128::MAX {
        lemma_small_mod(a + 1, m);
    }
}

proof fn lemma_ctr_compose(c: u128, a: nat, b: nat)
    ensures
        ctr_add(ctr_add(c, a), b) == ctr_add(c, a + b),
{
    let m = counter_modulus() as int;
    lemma_add_mod_noop_right(b as int, c as int + a, m);
}

proof fn lemma_block_offset(i: nat, j: nat)
    requires
        i % 16 == 0,
        j < 16,
    ensures
        (i + j) / 16 == i / 16,
        (i + j) % 16 == j,
{
    assert((i + j) / 16 == i / 16 && (i + j) % 16 == j) by (nonlinear_arith)
        requires
            i % 16 == 0,
            j < 16,
    ;
}

/// One generator call on `len` bytes moves the counter past every value it
/// used (one per output block, then two for the new key); short of wrapping,
/// the counter strictly increases.
pub proof fn lemma_generator_counter_increases(ctr: u128, len: nat)
    requires
        ctr + blocks_for(len) + 2 <= u128::MAX,
    ensures
        ctr_add(ctr, blocks_for(len) + 2) == ctr + blocks_for(len) + 2,
        ctr_add(ctr, blocks_for(len) + 2) > ctr,
{
    lemma_small_mod(ctr as nat + blocks_for(len) + 2, counter_modulus());
}

/// The generator: a 256-bit key and a 128-bit counter driving a keyed
/// permutation in counter mode. A zero counter marks a generator that has
/// never been seeded.
pub struct Generator<P: Prf, H: crate::traits::Hash> {
    key: [u8; KEY_LENGTH],
    ctr: u128,
    _phantom: PhantomData<(P, H)>,
}

impl<P: Prf, H: crate::traits::Hash> Default for Generator<P, H> {
    /// An unseeded generator: zero key and zero counter.
    fn default() -> (r: Self)
        ensures
            r.spec_key() == Seq::new(32, |i: int| 0u8),
            r.spec_ctr() == 0,
    {
        let g = Generator { key: [0u8; KEY_LENGTH], ctr: 0, _phantom: PhantomData };
        assert(g.key@ =~= Seq::new(32, |i: int| 0u8));
        g
    }
}

impl<P: Prf, H: crate::traits::Hash> Generator<P, H> {
    /// The current key.
    pub closed spec fn spec_key(&self) -> Seq<u8> {
        self.key@
    }

    /// The current counter.
    pub closed spec fn spec_ctr(&self) -> u128 {
        self.ctr
    }

    /// Whether the generator has been seeded (its counter is nonzero).
    pub fn is_seeded(&self) -> (r: bool)
        ensures
            r == (self.spec_ctr() != 0),
    {
        self.ctr != 0
    }

    /// Mixes `seed` into the key, `key' = Hash(key || seed)`, and advances the
    /// counter by one, which marks the generator as seeded.
    pub fn reseed_with(&mut self, seed: &[u8])
        ensures
            final(self).spec_key() == H::digest(old(self).spec_key() + seed@),
            final(self).spec_ctr() == ctr_add(old(self).spec_ctr(), 1),
    {
        let mut hasher = H::new();
        hasher.update(&self.key);
        hasher.update(seed);
        hasher.result(&mut self.key);
        proof {
            lemma_ctr_step(old(self).ctr, 0);
        }
        self.ctr = self.ctr.wrapping_add(1);
    }

    /// Fills `r[start..end]` with the counter-mode stream under `prf`'s key from
    /// counter `*ctr` on, advancing the counter once per block (a partial last
    /// block included); the rest of `r` is left as it was.
    fn generate_blocks(ctr: &mut u128, prf: &P, r: &mut [u8], start: usize, end: usize)
        requires
            start <= end <= old(r)@.len(),
        ensures
            final(r)@ == old(r)@.take(start as int) + keystream::<P>(
                prf.key(),
                *old(ctr),
                (end - start) as nat,
            ) + old(r)@.skip(end as int),
            *final(ctr) == ctr_add(*old(ctr), blocks_for((end - start) as nat)),
    {
        let ghost c0 = *old(ctr);
        let ghost key = prf.key();
        let ghost r0 = old(r)@;
        let len = end - start;
        let mut i: usize = 0;
        proof {
            lemma_ctr_step(c0, 0);
        }
        while i < len
            invariant
                len == end - start,
                start <= end <= r@.len(),
                r@.len() == r0.len(),
                i <= len,
                i % 16 == 0 || i == len,
                *ctr == ctr_add(c0, blocks_for(i as nat)),
                forall|k: int| start <= k < start + i ==> r@[k] == stream_byte::<P>(key, c0, (k - start) as nat),
                forall|k: int| 0 <= k < start ==> r@[k] == r0[k],
                forall|k: int| end <= k < r0.len() ==> r@[k] == r0[k],
                prf.key() == key,
            decreases len - i,
        {
            let mut part = counter_block(*ctr);
            prf.prf(&mut part);
            let n: usize = if len - i < BLOCK_LENGTH { len - i } else { BLOCK_LENGTH };
            let ghost b = blocks_for(i as nat);
            assert(b == i / 16) by {
                lemma_block_offset(i as nat, 0);
                lemma_block_offset(i as nat, 15);
            }
            let mut j: usize = 0;
            while j < n
                invariant
                    len == end - start,
                    start <= end <= r@.len(),
                    r@.len() == r0.len(),
                    i + n <= len,
                    n <= 16,
                    j <= n,
                    i % 16 == 0,
                    b == i / 16,
                    part@ == P::block(key, le_bytes(ctr_add(c0, b))),
                    forall|k: int| start <= k < start + i + j ==> r@[k] == stream_byte::<P>(key, c0, (k - start) as nat),
                    forall|k: int| 0 <= k < start ==> r@[k] == r0[k],
                    forall|k: int| end <= k < r0.len() ==> r@[k] == r0[k],
                decreases n - j,
            {
                proof {
                    lemma_block_offset(i as nat, j as nat);
                }
                r[start + i + j] = part[j];
                j = j + 1;
            }
            proof {
                lemma_ctr_step(c0, b);
                lemma_block_offset(i as nat, 0);
                if n == 16 {
                    assert(blocks_for((i + 16) as nat) == b + 1) by {
                        assert(((i + 16 + 15) as nat) / 16 == i / 16 + 1) by (nonlinear_arith)
                            requires i % 16 == 0;
                    }
                } else {
                    assert(blocks_for((i + n) as nat) == b + 1) by {
                        assert(((i + n + 15) as nat) / 16 == i / 16 + 1) by (nonlinear_arith)
                            requires i % 16 == 0, 0 < n < 16;
                    }
                }
            }
            *ctr = ctr.wrapping_add(1);
            i = i + n;
        }
        assert(r@ =~= r0.take(start as int) + keystream::<P>(key, c0, len as nat) + r0.skip(end as int));
    }

    /// Serves one request on `r[start..end]`: writes the stream there, then
    /// replaces the key with the next 32 bytes of the same stream.
    pub(crate) fn generate_range(&mut self, r: &mut [u8], start: usize, end: usize)
        requires
            start <= end <= old(r)@.len(),
        ensures
            final(r)@ == old(r)@.take(start as int) + keystream::<P>(
                old(self).spec_key(),
                old(self).spec_ctr(),
                (end - start) as nat,
            ) + old(r)@.skip(end as int),
            final(self).spec_key() == keystream::<P>(
                old(self).spec_key(),
                ctr_add(old(self).spec_ctr(), blocks_for((end - start) as nat)),
                32,
            ),
            final(self).spec_ctr() == ctr_add(old(self).spec_ctr(), blocks_for((end - start) as nat) + 2),
    {
        let prf = P::new(&self.key);
        Self::generate_blocks(&mut self.ctr, &prf, r, start, end);
        Self::generate_blocks(&mut self.ctr, &prf, &mut self.key, 0, KEY_LENGTH);
        proof {
            lemma_ctr_compose(old(self).ctr, blocks_for((end - start) as nat), 2);
            assert(blocks_for(32) == 2);
            let ks = keystream::<P>(old(self).key@, ctr_add(old(self).ctr, blocks_for((end - start) as nat)), 32);
            assert(self.key@ =~= ks);
        }
    }

    /// Serves one request: writes `r.len()` bytes of the stream into `r`, then
    /// replaces the key with the next 32 bytes of the same stream, so that the
    /// new state does not hold the key that produced `r`.
    pub fn pseudo_random_data(&mut self, r: &mut [u8])
        requires
            old(r)@.len() <= MAX_GENERATE_SIZE,
            old(self).spec_ctr() != 0,
        ensures
            final(r)@ == keystream::<P>(old(self).spec_key(), old(self).spec_ctr(), old(r)@.len()),
            final(self).spec_key() == keystream::<P>(
                old(self).spec_key(),
                ctr_add(old(self).spec_ctr(), blocks_for(old(r)@.len())),
                32,
            ),
            final(self).spec_ctr() == ctr_add(old(self).spec_ctr(), blocks_for(old(r)@.len()) + 2),
    {
        let len = r.len();
        self.generate_range(r, 0, len);
        proof {
            assert(r@ =~= keystream::<P>(old(self).spec_key(), old(self).spec_ctr(), old(r)@.len()));
        }
    }
}

} // verus!
