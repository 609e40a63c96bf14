//! The input accumulator: the unconsumed tail of all chunks seen so far.
//!
//! A caller appends whole chunks, lets recognizers read the current bytes,
//! and removes a consumed prefix once a decode confirms it. Interior bytes
//! are never reordered or dropped.

use vstd::prelude::*;

verus! {

/// Owned, ordered unconsumed bytes of the current message.
pub struct Accumulator {
    data: Vec<u8>,
}

impl View for Accumulator {
    type V = Seq<u8>;

    closed spec fn view(&self) -> Seq<u8> {
        self.data@
    }
}

impl Accumulator {
    /// An empty accumulator.
    pub fn new() -> (r: Accumulator)
        ensures
            r@ == Seq::<u8>::empty(),
    {
        Accumulator { data: Vec::new() }
    }

    /// How many bytes are currently held.
    pub fn len(&self) -> (r: usize)
        ensures
            r == self@.len(),
    {
        self.data.len()
    }

    /// Appends one chunk at the end.
    pub fn append(&mut self, chunk: &[u8])
        requires
            old(self)@.len() + chunk@.len() <= usize::MAX,
        ensures
            final(self)@ == old(self)@ + chunk@,
    {
        let ghost orig: Seq<u8> = self.data@;
        let n = chunk.len();
        let mut i: usize = 0;
        while i < n
            invariant
                0 <= i <= n,
                n == chunk@.len(),
                self.data@ == orig + chunk@.take(i as int),
                orig.len() + chunk@.len() <= usize::MAX,
            decreases n - i,
        {
            self.data.push(chunk[i]);
            assert(orig + chunk@.take(i + 1 as int) =~= (orig + chunk@.take(i as int)).push(
                chunk@[i as int],
            ));
            i = i + 1;
        }
        assert(orig + chunk@.take(n as int) =~= orig + chunk@);
    }

    /// Removes the first `n` bytes, which a decode has confirmed consumed.
    pub fn consume(&mut self, n: usize)
        requires
            n <= old(self)@.len(),
        ensures
            final(self)@ == old(self)@.skip(n as int),
    {
        let ghost orig: Seq<u8> = self.data@;
        let len = self.data.len();
        let mut out: Vec<u8> = Vec::new();
        let mut i: usize = n;
        while i < len
            invariant
                n <= i <= len,
                len == orig.len(),
                self.data@ == orig,
                out@ == orig.subrange(n as int, i as int),
            decreases len - i,
        {
            out.push(self.data[i]);
            assert(orig.subrange(n as int, i + 1 as int) =~= orig.subrange(n as int, i as int).push(
                orig[i as int],
            ));
            i = i + 1;
        }
        self.data = out;
        assert(orig.subrange(n as int, len as int) =~= orig.skip(n as int));
    }

    /// The unconsumed bytes, read-only. The reference must not be kept
    /// across a later `append` or `consume`.
    pub fn as_slice(&self) -> (r: &[u8])
        ensures
            r@ == self@,
    {
        self.data.as_slice()
    }
}

} // verus!
