use vstd::prelude::*;
use vstd::pervasive::arbitrary;

verus! {

/// Length in bytes of a generator key.
pub const KEY_LENGTH: usize = 32;

/// Length in bytes of one block of the keyed permutation.
pub const BLOCK_LENGTH: usize = 16;

/// Length in bytes of a digest; equal to the key length, since a digest becomes a key.
pub const RESULT_LENGTH: usize = 32;

/// A keyed pseudo-random function on 16-byte blocks (in practice AES-256).
///
/// An implementation is deterministic: the output block depends on the key and
/// the input block alone, as named by `block`.
pub trait Prf: Sized {
    /// The key this instance was made with.
    ///
    /// The default is for implementations written outside Verus, whose
    /// contracts nothing checks: it stands for an unspecified value.
    closed spec fn key(&self) -> Seq<u8> {
        arbitrary()
    }

    /// The output of the permutation keyed by `key` on `input`.
    ///
    /// The default is for implementations written outside Verus, whose
    /// contracts nothing checks: it stands for an unspecified value.
    closed spec fn block(key: Seq<u8>, input: Seq<u8>) -> Seq<u8> {
        arbitrary()
    }

    fn new(key: &[u8; KEY_LENGTH]) -> (r: Self)
        ensures
            r.key() == key@,
    ;

    fn prf(&self, data: &mut [u8; BLOCK_LENGTH])
        ensures
            final(data)@ == Self::block(self.key(), old(data)@),
    ;
}

/// An incremental hash producing 32-byte digests (in practice SHA-256 applied twice).
///
/// The state of an instance is modelled by the bytes absorbed so far; the digest
/// depends on those bytes alone, as named by `digest`.
pub trait Hash: Sized {
    /// The bytes absorbed since this instance was made.
    ///
    /// The default is for implementations written outside Verus, whose
    /// contracts nothing checks: it stands for an unspecified value.
    closed spec fn absorbed(&self) -> Seq<u8> {
        arbitrary()
    }

    /// The digest of a byte string.
    ///
    /// The default is for implementations written outside Verus, whose
    /// contracts nothing checks: it stands for an unspecified value.
    closed spec fn digest(input: Seq<u8>) -> Seq<u8> {
        arbitrary()
    }

    fn new() -> (r: Self)
        ensures
            r.absorbed() == Seq::<u8>::empty(),
    ;

    fn update(&mut self, input: &[u8])
        ensures
            final(self).absorbed() == old(self).absorbed() + input@,
    ;

    fn result(self, output: &mut [u8; RESULT_LENGTH])
        ensures
            final(output)@ == Self::digest(self.absorbed()),
    ;
}

/// A monotonic millisecond clock measuring the time since its last reset.
///
/// Its readings depend on the passing of time, so nothing is promised of them;
/// its state is modelled by the number of resets it has seen.
pub trait Timer {
    /// The number of times this timer was reset.
    ///
    /// The default is for implementations written outside Verus, whose
    /// contracts nothing checks: it stands for an unspecified value.
    closed spec fn resets(&self) -> nat {
        arbitrary()
    }

    fn elapsed_ms(&self) -> u64;

    fn reset(&mut self)
        ensures
            final(self).resets() == old(self).resets() + 1,
    ;
}

} // verus!
