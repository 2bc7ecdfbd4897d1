//! The buffer between the terminal and a client's channel.
//!
//! What the terminal writes is collected here.  A flush hands the collected
//! bytes to the channel's writer; only when the writer has taken them are
//! they dropped from the buffer.

use vstd::prelude::*;

verus! {

/// The bytes written to a client's terminal and not yet sent.
#[derive(Debug)]
pub struct Sink {
    bytes: Vec<u8>,
}

impl View for Sink {
    type V = Seq<u8>;

    closed spec fn view(&self) -> Seq<u8> {
        self.bytes@
    }
}

impl Sink {
    /// An empty buffer.
    pub fn new() -> (sink: Sink)
        ensures
            sink@ == Seq::<u8>::empty(),
    {
        Sink { bytes: Vec::new() }
    }

    /// Collects `buf` behind what is already there, and returns the number
    /// of bytes taken, which is all of them.
    pub fn write(&mut self, buf: &[u8]) -> (taken: usize)
        ensures
            final(self)@ == old(self)@ + buf@,
            taken == buf@.len(),
    {
        let mut i: usize = 0;
        while i < buf.len()
            invariant
                i <= buf.len(),
                self@ == old(self)@ + buf@.take(i as int),
            decreases buf.len() - i,
        {
            self.bytes.push(buf[i]);
            assert(buf@.take(i + 1) == buf@.take(i as int).push(buf@[i as int]));
            i += 1;
        }
        assert(buf@.take(buf.len() as int) == buf@);
        buf.len()
    }

    /// A copy of the collected bytes, to be handed to the channel's writer.
    pub fn pending(&self) -> (bytes: Vec<u8>)
        ensures
            bytes@ == self@,
    {
        self.bytes.clone()
    }

    /// Ends a flush.  `delivered` says whether the writer took the bytes
    /// that [`Sink::pending`] gave.  If it did, the buffer is emptied;
    /// if it did not, the bytes stay and the flush has failed.  Returns
    /// whether the flush succeeded.
    pub fn flushed(&mut self, delivered: bool) -> (ok: bool)
        ensures
            ok == delivered,
            final(self)@ == (if delivered {
                Seq::<u8>::empty()
            } else {
                old(self)@
            }),
    {
        if delivered {
            self.bytes.clear();
        }
        delivered
    }
}

} // verus!
