//! Framing of a tracer's byte stream into newline-terminated records.
use vstd::prelude::*;

use crate::text::views;

verus! {

/// Reader state: whether the one header line has been consumed, and the bytes of the
/// record that is still open.
pub type FrameState = (bool, Seq<u8>);

/// One byte of input: before the header has ended bytes are skipped until its newline;
/// afterwards a newline closes the open record and any other byte extends it.
pub open spec fn frame_step(st: FrameState, b: u8) -> (FrameState, Seq<Seq<u8>>) {
    if !st.0 {
        if b == 10 {
            ((true, Seq::<u8>::empty()), Seq::<Seq<u8>>::empty())
        } else {
            (st, Seq::<Seq<u8>>::empty())
        }
    } else if b == 10 {
        ((true, Seq::<u8>::empty()), seq![st.1])
    } else {
        ((true, st.1.push(b)), Seq::<Seq<u8>>::empty())
    }
}

/// The state after `bytes` and the records they completed, in order.
pub open spec fn frame_run(st: FrameState, bytes: Seq<u8>) -> (FrameState, Seq<Seq<u8>>)
    decreases bytes.len(),
{
    if bytes.len() == 0 {
        (st, Seq::<Seq<u8>>::empty())
    } else {
        let (st1, recs) = frame_run(st, bytes.drop_last());
        let (st2, more) = frame_step(st1, bytes.last());
        (st2, recs + more)
    }
}

/// A stateful cursor over a tracer's output: one header line, then one record per line,
/// with a partial record kept across reads.
pub struct FrameReader {
    header_lines: u8,
    current_event: Vec<u8>,
}

/// Access to the framing state of a tracer program.
pub trait BpfReader {
    spec fn frame(&self) -> FrameState;

    /// Whether the header line has been consumed.
    fn header_read(&self) -> (r: bool)
        ensures
            r == self.frame().0,
    ;

    /// Consumes `buf` and returns the records it completed.
    fn handle_bytes(&mut self, buf: &[u8]) -> (r: Vec<Vec<u8>>)
        ensures
            frame_run(old(self).frame(), buf@) == (final(self).frame(), views(r@)),
    ;
}

impl FrameReader {
    /// A reader that has seen nothing yet.
    pub fn new() -> (r: Self)
        ensures
            r.frame() == (false, Seq::<u8>::empty()),
    {
        FrameReader { header_lines: 0, current_event: Vec::new() }
    }
}

impl BpfReader for FrameReader {
    closed spec fn frame(&self) -> FrameState {
        (self.header_lines == 1, self.current_event@)
    }

    fn header_read(&self) -> (r: bool) {
        self.header_lines == 1
    }

    fn handle_bytes(&mut self, buf: &[u8]) -> (r: Vec<Vec<u8>>) {
        let mut out: Vec<Vec<u8>> = Vec::new();
        let mut i: usize = 0;
        assert(buf@.subrange(0, 0) =~= Seq::<u8>::empty());
        if self.header_lines != 1 {
            self.header_lines = 0;
        }
        while i < buf.len()
            invariant
                0 <= i <= buf.len(),
                self.header_lines == 0 || self.header_lines == 1,
                frame_run(old(self).frame(), buf@.subrange(0, i as int)) == (
                    self.frame(),
                    views(out@),
                ),
            decreases buf.len() - i,
        {
            let b = buf[i];
            let ghost pre = buf@.subrange(0, i as int);
            assert(buf@.subrange(0, i + 1).drop_last() =~= pre);
            if self.header_lines != 1 {
                if b == 10 {
                    self.header_lines = 1;
                    self.current_event = Vec::new();
                }
                assert(views(out@) + Seq::<Seq<u8>>::empty() =~= views(out@));
            } else if b == 10 {
                let mut rec: Vec<u8> = Vec::new();
                std::mem::swap(&mut rec, &mut self.current_event);
                let ghost before = views(out@);
                out.push(rec);
                assert(views(out@) =~= before + seq![rec@]);
            } else {
                self.current_event.push(b);
                assert(views(out@) + Seq::<Seq<u8>>::empty() =~= views(out@));
            }
            i = i + 1;
        }
        assert(buf@.subrange(0, buf@.len() as int) =~= buf@);
        out
    }
}

} // verus!
