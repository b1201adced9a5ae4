use std::cell::Cell;
use std::rc::Rc;

use aes::cipher::generic_array::GenericArray;
use aes::cipher::{BlockEncrypt, KeyInit};
use aes::Aes256;
use sha2::Digest;
use sha2::Sha256;

use fungtaai::generator::Generator;
use fungtaai::pool::Pool;
use fungtaai::traits::{Prf, Timer, BLOCK_LENGTH, KEY_LENGTH, RESULT_LENGTH};
use fungtaai::{Fortuna, NotSeeded, MAX_GENERATE_SIZE};

/// A timer whose reading the test sets by hand.
#[derive(Clone)]
struct ManualTimer(Rc<Cell<u64>>);

impl Timer for ManualTimer {
    fn elapsed_ms(&self) -> u64 {
        self.0.get()
    }

    fn reset(&mut self) {
        self.0.set(0);
    }
}

struct Aes256Prf(Aes256);

impl Prf for Aes256Prf {
    fn new(key: &[u8; KEY_LENGTH]) -> Self {
        Aes256Prf(Aes256::new(GenericArray::from_slice(key)))
    }

    fn prf(&self, data: &mut [u8; BLOCK_LENGTH]) {
        self.0.encrypt_block(GenericArray::from_mut_slice(data));
    }
}

struct Sha256d(Sha256);

impl fungtaai::traits::Hash for Sha256d {
    fn new() -> Self {
        Sha256d(Sha256::default())
    }

    fn update(&mut self, input: &[u8]) {
        Digest::update(&mut self.0, input);
    }

    fn result(self, output: &mut [u8; RESULT_LENGTH]) {
        let first = self.0.finalize();
        let second = Sha256::digest(first.as_slice());
        output.copy_from_slice(second.as_slice());
    }
}

type TestFortuna = Fortuna<Aes256Prf, Sha256d, ManualTimer>;

fn new_fortuna() -> (TestFortuna, Rc<Cell<u64>>) {
    let clock = Rc::new(Cell::new(0));
    (Fortuna::new(ManualTimer(clock.clone())), clock)
}

fn sha256d(bytes: &[u8]) -> [u8; 32] {
    let mut out = [0u8; 32];
    out.copy_from_slice(Sha256::digest(Sha256::digest(bytes).as_slice()).as_slice());
    out
}

fn seed_events(f: &mut TestFortuna) {
    f.add_random_event(0, 0, &[0; 32]);
    f.add_random_event(0, 0, &[0; 32]);
    for i in 0..32 {
        f.add_random_event(1, i, &[1, 2]);
    }
}

#[test]
fn test_vector() {
    let (mut fungtaai, clock) = new_fortuna();

    let mut output = [0; 100];
    seed_events(&mut fungtaai);

    let expected = [ 21,  42, 103, 180, 211,  46, 177, 231, 172, 210,
                    109, 198,  34,  40, 245, 199,  76, 114, 105, 185,
                    186, 112, 183, 213,  19,  72, 186,  26, 182, 211,
                    254,  88,  67, 142, 246, 102,  80,  93, 144, 152,
                    123, 191, 168,  26,  21, 194,  69, 214, 249,  80,
                    182, 165, 203,  69, 134, 140,  11, 208,  50, 175,
                    180, 210, 110, 119,   3,  75,   1,   8,   5, 142,
                    226, 168, 179, 246,  82,  42, 223, 239, 201,  23,
                     28,  30, 195, 195,   9, 154,  31, 172, 209, 232,
                    238, 111,  75, 251, 196,  43, 217, 241,  93, 237];
    fungtaai.random_data(&mut output).unwrap();
    assert_eq!(&expected[..], &output[..]);

    // Immediately (less than 100ms)
    fungtaai.add_random_event(0, 0, &[0; 32]);
    fungtaai.add_random_event(0, 0, &[0; 32]);

    let expected = [101, 123, 175, 157, 142, 202, 211,  47, 149, 214,
                    135, 249, 148,  19,  50, 116, 169, 188, 240, 218,
                     91,  62,  35,  44, 142, 108,  95,  20,  37, 185,
                     19, 121, 128, 231, 213,  23,  94, 147,  14,  41,
                    199, 253, 246,  14, 230, 152,  11,  17, 118, 254,
                     96, 251, 171, 115,  66,  21, 196, 164,  82,   6,
                    139, 238, 135,  22, 179,   6,   6, 252, 115,  87,
                     19, 167,  56, 192, 140,  93, 132,  78,  22,  16,
                    114,  68, 123, 200,  37, 183, 163, 224, 201, 155,
                    233,  71, 111,  26,   8, 114, 232, 181,  13,  51];
    fungtaai.random_data(&mut output).unwrap();
    assert_eq!(&expected[..], &output[..]);

    // More than 100 ms pass
    clock.set(200);
    let expected = [ 62, 147, 205, 228,  22,   3, 225, 217, 211, 202,
                     49, 148, 236, 125, 132,  43,  25, 177, 172,  93,
                     98, 177, 112, 160,  76, 101,  60,  98, 225,   9,
                    223, 120, 161,  98, 173, 178,  71,  15,  90, 153,
                     64, 179, 143,  22,  43, 165,  87, 147, 177, 128,
                     21, 105, 214, 197, 224, 187,  22, 139,  16, 153,
                    251,  48, 244,  87,  10, 104, 119, 179,  27, 255,
                     67, 148, 192,  52, 147, 216,  79, 204, 106, 112,
                    238,   0, 239,  99, 159,  96, 184,  90,  54, 122,
                    184, 241, 221, 151, 169,  29, 197,  45,  80,   6];
    fungtaai.random_data(&mut output).unwrap();
    assert_eq!(&expected[..], &output[..]);
}

#[test]
fn fresh_accumulator_refuses_and_leaves_buffer() {
    let (mut f, _clock) = new_fortuna();
    let mut out = [7u8; 40];
    assert!(matches!(f.random_data(&mut out), Err(NotSeeded)));
    assert_eq!(out, [7u8; 40]);
    // The refusal changes nothing: it happens again.
    assert!(f.random_data(&mut out).is_err());
    assert_eq!(out, [7u8; 40]);
}

#[test]
fn empty_request_on_fresh_accumulator_is_refused() {
    let (mut f, _clock) = new_fortuna();
    let mut out: [u8; 0] = [];
    assert!(f.random_data(&mut out).is_err());
}

#[test]
fn pool_zero_below_minimum_stays_unseeded() {
    let (mut f, _clock) = new_fortuna();
    // 34 + 28 = 62 bytes in pool 0, headers included.
    f.add_random_event(0, 0, &[0; 32]);
    f.add_random_event(0, 0, &[0; 26]);
    // Events in other pools do not count.
    for i in 1..32 {
        f.add_random_event(3, i, &[9; 32]);
    }
    let mut out = [1u8; 16];
    assert!(f.random_data(&mut out).is_err());
    assert_eq!(out, [1u8; 16]);
    // One more event of one byte brings pool 0 to 65 bytes.
    f.add_random_event(0, 0, &[5]);
    assert!(f.random_data(&mut out).is_ok());
    assert_ne!(out, [1u8; 16]);
}

#[test]
fn pool_zero_at_exactly_minimum_seeds() {
    let (mut f, _clock) = new_fortuna();
    // 34 + 30 = 64 bytes.
    f.add_random_event(0, 0, &[0; 32]);
    f.add_random_event(0, 0, &[0; 28]);
    assert_eq!(f.pool_length(0), 64);
    let mut out = [0u8; 8];
    assert!(f.random_data(&mut out).is_ok());
    assert_eq!(f.pool_length(0), 0);
}

#[test]
fn time_gate_suppresses_second_reseed() {
    // Two accumulators with the same events; in the second, 100 ms (not more)
    // pass before the second request, which must therefore not reseed either.
    let (mut a, clock_a) = new_fortuna();
    let (mut b, clock_b) = new_fortuna();
    seed_events(&mut a);
    seed_events(&mut b);
    let mut out_a = [0u8; 100];
    let mut out_b = [0u8; 100];
    a.random_data(&mut out_a).unwrap();
    b.random_data(&mut out_b).unwrap();
    for f in [&mut a, &mut b] {
        f.add_random_event(0, 0, &[0; 32]);
        f.add_random_event(0, 0, &[0; 32]);
    }
    clock_a.set(0);
    clock_b.set(100);
    a.random_data(&mut out_a).unwrap();
    b.random_data(&mut out_b).unwrap();
    assert_eq!(out_a, out_b);
    assert_eq!(out_a[..10], [101, 123, 175, 157, 142, 202, 211, 47, 149, 214]);
    // At 101 ms the pending reseed happens.
    clock_b.set(101);
    b.random_data(&mut out_b).unwrap();
    assert_eq!(out_b[..10], [62, 147, 205, 228, 22, 3, 225, 217, 211, 202]);
}

#[test]
fn same_events_give_same_bytes() {
    let (mut a, _ca) = new_fortuna();
    let (mut b, _cb) = new_fortuna();
    for f in [&mut a, &mut b] {
        for i in 0..40usize {
            f.add_random_event((i % 3) as u8, i % 32, &[i as u8; 17]);
        }
        f.add_random_event(2, 0, &[0xAB; 32]);
    }
    let mut out_a = [0u8; 333];
    let mut out_b = [0xFFu8; 333];
    a.random_data(&mut out_a).unwrap();
    b.random_data(&mut out_b).unwrap();
    assert_eq!(out_a[..], out_b[..]);
}

#[test]
fn successive_requests_differ() {
    let (mut f, _clock) = new_fortuna();
    seed_events(&mut f);
    let mut first = [0u8; 64];
    let mut second = [0u8; 64];
    f.random_data(&mut first).unwrap();
    f.random_data(&mut second).unwrap();
    assert_ne!(first, second);
    // Within one request the blocks differ too.
    assert_ne!(first[..16], first[16..32]);
}

#[test]
fn large_request_is_served_in_rekeyed_chunks() {
    let (mut f, _clock) = new_fortuna();
    f.add_random_event(0, 0, &[0; 32]);
    f.add_random_event(0, 0, &[0; 32]);
    let mut out = vec![0u8; MAX_GENERATE_SIZE + 100];
    f.random_data(&mut out).unwrap();

    // The same reseed by hand: pool 0 alone, on reseed number one.
    let mut pool: Pool<Sha256d> = Pool::new();
    pool.input(&[0, 32]);
    pool.input(&[0; 32]);
    pool.input(&[0, 32]);
    pool.input(&[0; 32]);
    let mut digest = [0u8; 32];
    pool.output(&mut digest);
    let mut g: Generator<Aes256Prf, Sha256d> = Generator::default();
    g.reseed_with(&digest);
    let mut expected = vec![0u8; MAX_GENERATE_SIZE + 100];
    let (head, tail) = expected.split_at_mut(MAX_GENERATE_SIZE);
    g.pseudo_random_data(head);
    g.pseudo_random_data(tail);
    assert!(out == expected);

    // Without the rekey between chunks the tail would differ.
    let mut g2: Generator<Aes256Prf, Sha256d> = Generator::default();
    g2.reseed_with(&digest);
    let mut unchunked = vec![0u8; MAX_GENERATE_SIZE + 16];
    let (head2, _) = unchunked.split_at_mut(MAX_GENERATE_SIZE);
    g2.pseudo_random_data(head2);
    assert!(out[..MAX_GENERATE_SIZE] == unchunked[..MAX_GENERATE_SIZE]);
}

#[test]
fn pool_counts_and_harvest_resets() {
    let mut pool: Pool<Sha256d> = Pool::new();
    assert_eq!(pool.length(), 0);
    pool.input(&[1, 2, 3]);
    pool.input(&[4, 5]);
    assert_eq!(pool.length(), 5);
    let mut digest = [0u8; 32];
    pool.output(&mut digest);
    assert_eq!(digest, sha256d(&[1, 2, 3, 4, 5]));
    assert_eq!(pool.length(), 0);
    // A harvested pool holds nothing: harvesting again gives the empty digest.
    pool.output(&mut digest);
    assert_eq!(digest, sha256d(&[]));
}

#[test]
fn pool_reset_empties() {
    let mut pool: Pool<Sha256d> = Pool::new();
    pool.input(&[9; 10]);
    pool.reset();
    assert_eq!(pool.length(), 0);
    let mut digest = [0u8; 32];
    pool.output(&mut digest);
    assert_eq!(digest, sha256d(&[]));
}

#[test]
fn generator_reseed_hashes_old_key_and_seed() {
    let mut g: Generator<Aes256Prf, Sha256d> = Generator::default();
    assert!(!g.is_seeded());
    g.reseed_with(&[1, 2, 3]);
    assert!(g.is_seeded());
    // The new key is sha256d(zero key || seed); the first block is AES under
    // it of the counter 1 in little-endian order.
    let mut input = vec![0u8; 32];
    input.extend_from_slice(&[1, 2, 3]);
    let key = sha256d(&input);
    let mut block = [0u8; 16];
    block[0] = 1;
    Aes256::new(GenericArray::from_slice(&key)).encrypt_block(GenericArray::from_mut_slice(&mut block));
    let mut out = [0u8; 20];
    g.pseudo_random_data(&mut out);
    assert_eq!(out[..16], block[..]);
    // The partial second block is the prefix of AES of counter 2.
    let mut block2 = [0u8; 16];
    block2[0] = 2;
    Aes256::new(GenericArray::from_slice(&key)).encrypt_block(GenericArray::from_mut_slice(&mut block2));
    assert_eq!(out[16..], block2[..4]);
}

#[test]
fn generator_rekeys_after_each_request() {
    let mut g: Generator<Aes256Prf, Sha256d> = Generator::default();
    g.reseed_with(&[7; 32]);
    let mut first = [0u8; 16];
    g.pseudo_random_data(&mut first);
    // The second request runs under the new key from counter 4 on (one output
    // block, then two key blocks); the old key would give AES(old, 4).
    let mut input = vec![0u8; 32];
    input.extend_from_slice(&[7; 32]);
    let old_key = sha256d(&input);
    let mut stale = [0u8; 16];
    stale[0] = 4;
    Aes256::new(GenericArray::from_slice(&old_key)).encrypt_block(GenericArray::from_mut_slice(&mut stale));
    let mut second = [0u8; 16];
    g.pseudo_random_data(&mut second);
    assert_ne!(second, stale);
    assert_ne!(second, first);
}
