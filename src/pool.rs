use vstd::prelude::*;
use crate::traits::KEY_LENGTH;

verus! {

/// An entropy pool: a running hash of the bytes fed to it, and their count.
pub struct Pool<H: crate::traits::Hash> {
    hasher: H,
    length: usize,
}

impl<H: crate::traits::Hash> Pool<H> {
    /// The bytes absorbed since the pool was last emptied.
    pub closed spec fn absorbed(&self) -> Seq<u8> {
        self.hasher.absorbed()
    }

    /// The number of bytes absorbed since the pool was last emptied.
    pub closed spec fn count(&self) -> nat {
        self.length as nat
    }

    /// The pool holds nothing: no bytes absorbed and a zero count.
    pub open spec fn is_empty(&self) -> bool {
        &&& self.absorbed() == Seq::<u8>::empty()
        &&& self.count() == 0
    }

    /// A fresh, empty pool.
    pub fn new() -> (r: Self)
        ensures
            r.is_empty(),
    {
        Pool { hasher: H::new(), length: 0 }
    }

    /// Absorbs `input` and adds its length to the count.
    pub fn input(&mut self, input: &[u8])
        requires
            old(self).count() + input@.len() <= usize::MAX,
        ensures
            final(self).absorbed() == old(self).absorbed() + input@,
            final(self).count() == old(self).count() + input@.len(),
    {
        self.hasher.update(input);
        self.length = self.length + input.len();
    }

    /// The number of bytes absorbed since the pool was last emptied.
    pub fn length(&self) -> (r: usize)
        ensures
            r == self.count(),
    {
        self.length
    }

    /// Harvests the pool: writes the digest of everything absorbed into `output`
    /// and leaves the pool empty, so that the same contents cannot be harvested twice.
    pub fn output(&mut self, output: &mut [u8; KEY_LENGTH])
        ensures
            final(output)@ == H::digest(old(self).absorbed()),
            final(self).is_empty(),
    {
        let mut hasher = H::new();
        std::mem::swap(&mut hasher, &mut self.hasher);
        hasher.result(output);
        self.length = 0;
    }

    /// Empties the pool: both the hash state and the count start over.
    pub fn reset(&mut self)
        ensures
            final(self).is_empty(),
    {
        self.hasher = H::new();
        self.length = 0;
    }
}

} // verus!
