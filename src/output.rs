//! The append-only buffer that receives the formatted document.

use vstd::prelude::*;

verus! {

/// Formatted output, written once from left to right.
pub struct RenderOutput {
    bytes: Vec<u8>,
}

impl View for RenderOutput {
    type V = Seq<u8>;

    closed spec fn view(&self) -> Seq<u8> {
        self.bytes@
    }
}

impl RenderOutput {
    /// An empty buffer.
    pub fn new() -> (o: RenderOutput)
        ensures
            o@ == Seq::<u8>::empty(),
    {
        RenderOutput { bytes: Vec::new() }
    }

    /// Appends one byte.
    pub fn push(&mut self, b: u8)
        ensures
            final(self)@ == old(self)@.push(b),
    {
        self.bytes.push(b);
    }

    /// Appends `count` space characters.
    pub fn push_spaces(&mut self, count: usize)
        ensures
            final(self)@ == old(self)@ + Seq::new(count as nat, |i: int| 32u8),
    {
        let mut i: usize = 0;
        while i < count
            invariant
                i <= count,
                self@ == old(self)@ + Seq::new(i as nat, |j: int| 32u8),
            decreases count - i,
        {
            self.push(32u8);
            i = i + 1;
            assert(self@ =~= old(self)@ + Seq::new(i as nat, |j: int| 32u8));
        }
    }

    /// Appends the bytes `src[start..end]`.
    pub fn push_range(&mut self, src: &[u8], start: usize, end: usize)
        requires
            start <= end <= src@.len(),
        ensures
            final(self)@ == old(self)@ + src@.subrange(start as int, end as int),
    {
        let mut i: usize = start;
        while i < end
            invariant
                start <= i <= end <= src@.len(),
                self@ == old(self)@ + src@.subrange(start as int, i as int),
            decreases end - i,
        {
            self.push(src[i]);
            i = i + 1;
            assert(self@ =~= old(self)@ + src@.subrange(start as int, i as int));
        }
    }

    /// The bytes written so far.
    pub fn as_bytes(&self) -> (b: &[u8])
        ensures
            b@ == self@,
    {
        self.bytes.as_slice()
    }

    /// Consumes the buffer and hands out its bytes.
    pub fn into_bytes(self) -> (b: Vec<u8>)
        ensures
            b@ == self@,
    {
        self.bytes
    }
}

} // verus!
