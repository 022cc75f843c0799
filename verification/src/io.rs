//! The I/O adapter: buffered byte streams for one run.
//!
//! The engine is deterministic over in-memory streams: the caller supplies
//! the whole input up front and collects the whole output afterwards, so the
//! adapter never blocks and never fails. End of input is not an error: once
//! the input is exhausted, `read` returns 0 and the stream stays empty.

use vstd::prelude::*;

verus! {

/// One run's byte streams: the input still to be consumed and the output
/// emitted so far.
pub struct IoAdapter {
    pub input: Vec<u8>,
    pub cursor: usize,
    pub output: Vec<u8>,
}

impl IoAdapter {
    /// The cursor never runs past the end of the input.
    pub open spec fn wf(&self) -> bool {
        self.cursor <= self.input@.len()
    }

    /// The input bytes not yet consumed.
    pub open spec fn remaining(&self) -> Seq<u8> {
        self.input@.skip(self.cursor as int)
    }

    /// A fresh adapter over the given input, with nothing consumed and
    /// nothing emitted.
    pub fn new(input: Vec<u8>) -> (io: Self)
        ensures
            io.wf(),
            io.remaining() == input@,
            io.output@ == Seq::<u8>::empty(),
    {
        let io = IoAdapter { input, cursor: 0, output: Vec::new() };
        proof {
            assert(io.remaining() =~= io.input@);
            assert(io.output@ =~= Seq::<u8>::empty());
        }
        io
    }

    /// Consume and return the next input byte; at end of input, return 0
    /// and leave the stream as it is.
    pub fn read(&mut self) -> (v: u8)
        requires
            old(self).wf(),
        ensures
            final(self).wf(),
            final(self).output@ == old(self).output@,
            old(self).remaining().len() > 0 ==> {
                &&& v == old(self).remaining()[0]
                &&& final(self).remaining() == old(self).remaining().skip(1)
            },
            old(self).remaining().len() == 0 ==> {
                &&& v == 0u8
                &&& final(self).remaining() == old(self).remaining()
            },
    {
        if self.cursor < self.input.len() {
            let v = self.input[self.cursor];
            self.cursor = self.cursor + 1;
            proof {
                assert(self.remaining() =~= old(self).remaining().skip(1));
            }
            v
        } else {
            0
        }
    }

    /// Emit one output byte; any cell value passes through as a raw byte.
    pub fn write(&mut self, v: u8)
        requires
            old(self).wf(),
        ensures
            final(self).wf(),
            final(self).output@ == old(self).output@.push(v),
            final(self).remaining() == old(self).remaining(),
    {
        self.output.push(v);
    }
}

} // verus!
