//! Length-prefixed frames: a big-endian four-byte length, then that many
//! bytes of an encoded unit.
use vstd::prelude::*;
use vstd::slice::slice_subrange;
use crate::bytes::{be_bytes, be_value, lemma_be_round_trip, lemma_pow256_values, push_be32, read_be32};
use crate::pdu::{
    push_range,
    deserialize_pdu, lemma_pdu_round_trip, parse_pdu, pdu_bytes, serialize_pdu, PduView,
    TransferError, PDU,
};

verus! {

/// Largest payload whose encoding a frame's length field can describe.
pub const MAX_FRAMED_PAYLOAD: usize = 4294967278;

/// The frame that carries `p`.
pub open spec fn frame_bytes(p: PduView) -> Seq<u8> {
    be_bytes(pdu_bytes(p).len(), 4) + pdu_bytes(p)
}

/// What reading one frame at a position of a stream yields.
pub ghost enum FrameOutcome {
    Frame(PduView, int),
    EndOfStream,
    Failed(TransferError),
}

/// Reading a frame at `pos` of the bytes `s` that a stream delivered before
/// it closed: the unit and the position after it, a clean end where no byte
/// is left, or the failure.
pub open spec fn frame_at(s: Seq<u8>, pos: int) -> FrameOutcome {
    if pos >= s.len() {
        FrameOutcome::EndOfStream
    } else if s.len() - pos < 4 {
        FrameOutcome::Failed(TransferError::TruncatedHeader)
    } else {
        let n = be_value(s.subrange(pos, pos + 4)) as int;
        if s.len() - pos - 4 < n {
            FrameOutcome::Failed(TransferError::TruncatedBody)
        } else {
            match parse_pdu(s.subrange(pos + 4, pos + 4 + n)) {
                Some(p) => FrameOutcome::Frame(p, pos + 4 + n),
                None => FrameOutcome::Failed(TransferError::MalformedPdu),
            }
        }
    }
}

/// What reading one frame yielded.
pub enum FrameRead {
    Frame(PDU, usize),
    EndOfStream,
    Failed(TransferError),
}

impl View for FrameRead {
    type V = FrameOutcome;

    open spec fn view(&self) -> FrameOutcome {
        match self {
            FrameRead::Frame(p, next) => FrameOutcome::Frame(p@, *next as int),
            FrameRead::EndOfStream => FrameOutcome::EndOfStream,
            FrameRead::Failed(e) => FrameOutcome::Failed(*e),
        }
    }
}

/// Appends the frame that carries `pdu`.
pub fn write_frame(out: &mut Vec<u8>, pdu: &PDU)
    requires
        pdu.payload@.len() <= MAX_FRAMED_PAYLOAD,
    ensures
        final(out)@ == old(out)@ + frame_bytes(pdu@),
{
    let bytes = serialize_pdu(pdu);
    proof {
        lemma_pdu_round_trip(pdu@);
    }
    push_be32(out, bytes.len() as u32);
    let ghost mid = out@;
    let mut i: usize = 0;
    while i < bytes.len()
        invariant
            i <= bytes@.len(),
            out@ == mid + bytes@.subrange(0, i as int),
        decreases bytes@.len() - i,
    {
        out.push(bytes[i]);
        i = i + 1;
        assert(out@ =~= mid + bytes@.subrange(0, i as int));
    }
    assert(bytes@.subrange(0, bytes@.len() as int) =~= bytes@);
    assert(out@ =~= old(out)@ + frame_bytes(pdu@));
}

/// Reads the frame at `pos` of the bytes that a stream delivered before it
/// closed.
pub fn read_frame(stream: &[u8], pos: usize) -> (r: FrameRead)
    requires
        pos <= stream@.len(),
    ensures
        r@ == frame_at(stream@, pos as int),
{
    let len = stream.len();
    if pos == len {
        return FrameRead::EndOfStream;
    }
    if len - pos < 4 {
        return FrameRead::Failed(TransferError::TruncatedHeader);
    }
    let n = read_be32(stream, pos) as usize;
    if len - pos - 4 < n {
        return FrameRead::Failed(TransferError::TruncatedBody);
    }
    let body = slice_subrange(stream, pos + 4, pos + 4 + n);
    match deserialize_pdu(body) {
        Ok(p) => FrameRead::Frame(p, pos + 4 + n),
        Err(e) => FrameRead::Failed(e),
    }
}

/// A stream that closes after one to three bytes of a frame's length field
/// gives `TruncatedHeader`: those bytes are never taken for a length.
pub proof fn lemma_partial_header_is_truncated(s: Seq<u8>, pos: int)
    requires
        0 <= pos < s.len() < pos + 4,
    ensures
        frame_at(s, pos) == FrameOutcome::Failed(TransferError::TruncatedHeader),
{
}

/// The bytes of the frames that carry `ps`, one after another.
pub open spec fn stream_of(ps: Seq<PduView>) -> Seq<u8>
    decreases ps.len(),
{
    if ps.len() == 0 {
        Seq::empty()
    } else {
        stream_of(ps.drop_last()) + frame_bytes(ps.last())
    }
}

/// A unit fits a frame when its encoding's length fits the length field.
pub open spec fn frameable(p: PduView) -> bool {
    p.payload.len() <= MAX_FRAMED_PAYLOAD
}

/// A frame read where it was written gives back its unit and the position
/// right after it, whatever bytes come before or after it.
pub proof fn lemma_frame_read_back(before: Seq<u8>, p: PduView, after: Seq<u8>)
    requires
        frameable(p),
    ensures
        frame_at(before + frame_bytes(p) + after, before.len() as int) == FrameOutcome::Frame(
            p,
            (before.len() + frame_bytes(p).len()) as int,
        ),
        frame_bytes(p).len() == p.payload.len() + 21,
{
    let s = before + frame_bytes(p) + after;
    let pos = before.len() as int;
    let l = pdu_bytes(p).len();
    lemma_pdu_round_trip(p);
    lemma_pow256_values();
    lemma_be_round_trip(l, 4);
    assert(s.subrange(pos, pos + 4) =~= be_bytes(l, 4));
    assert(s.subrange(pos + 4, pos + 4 + l) =~= pdu_bytes(p));
}

proof fn lemma_stream_prefix(ps: Seq<PduView>, k: int)
    requires
        0 <= k <= ps.len(),
    ensures
        stream_of(ps.take(k)).len() <= stream_of(ps).len(),
        stream_of(ps).subrange(0, stream_of(ps.take(k)).len() as int) == stream_of(ps.take(k)),
    decreases ps.len(),
{
    if k == ps.len() {
        assert(ps.take(k) =~= ps);
        assert(stream_of(ps).subrange(0, stream_of(ps).len() as int) =~= stream_of(ps));
    } else {
        let init = ps.drop_last();
        assert(init.take(k) =~= ps.take(k));
        lemma_stream_prefix(init, k);
        assert(stream_of(ps).subrange(0, stream_of(ps.take(k)).len() as int) =~= stream_of(
            init,
        ).subrange(0, stream_of(ps.take(k)).len() as int));
    }
}

/// Frames written one after another are read back in the same order: the
/// `i`-th read, at the end of the first `i` frames, yields the `i`-th unit and
/// the end of the first `i + 1` frames; a read after the last frame finds a
/// clean end of stream.
pub proof fn lemma_frames_read_back_in_order(ps: Seq<PduView>)
    requires
        forall|i: int| 0 <= i < ps.len() ==> frameable(#[trigger] ps[i]),
    ensures
        forall|i: int|
            0 <= i < ps.len() ==> frame_at(stream_of(ps), stream_of(ps.take(i)).len() as int)
                == FrameOutcome::Frame(ps[i], stream_of(ps.take(i + 1)).len() as int),
        frame_at(stream_of(ps), stream_of(ps).len() as int) == FrameOutcome::EndOfStream,
{
    assert forall|i: int| 0 <= i < ps.len() implies frame_at(
        stream_of(ps),
        stream_of(ps.take(i)).len() as int,
    ) == FrameOutcome::Frame(ps[i], stream_of(ps.take(i + 1)).len() as int) by {
        lemma_frame_at_index(ps, i);
    }
}

/// The `i`-th frame of a stream of frames, read where it starts, gives back
/// the `i`-th unit and the position where the next frame starts.
pub proof fn lemma_frame_at_index(ps: Seq<PduView>, i: int)
    requires
        0 <= i < ps.len(),
        frameable(ps[i]),
    ensures
        frame_at(stream_of(ps), stream_of(ps.take(i)).len() as int) == FrameOutcome::Frame(
            ps[i],
            stream_of(ps.take(i + 1)).len() as int,
        ),
{
    let s = stream_of(ps);
    let a = stream_of(ps.take(i));
    let b = stream_of(ps.take(i + 1));
    assert(ps.take(i + 1).drop_last() =~= ps.take(i));
    assert(b == a + frame_bytes(ps[i]));
    lemma_stream_prefix(ps, i + 1);
    let rest = s.subrange(b.len() as int, s.len() as int);
    assert(s =~= a + frame_bytes(ps[i]) + rest);
    lemma_frame_read_back(a, ps[i], rest);
}

/// Whether the bytes `s` hold a whole frame, header and body, at `pos`.
pub open spec fn frame_complete(s: Seq<u8>, pos: int) -> bool {
    s.len() - pos >= 4 && s.len() - pos - 4 >= be_value(s.subrange(pos, pos + 4))
}

/// Once a whole frame has arrived at `pos`, bytes that arrive later do not
/// change what is read there: how the stream was cut into pieces does not
/// matter.
pub proof fn lemma_frame_at_extend(s: Seq<u8>, more: Seq<u8>, pos: int)
    requires
        0 <= pos,
        frame_complete(s, pos),
    ensures
        frame_at(s + more, pos) == frame_at(s, pos),
{
    let t = s + more;
    assert(t.subrange(pos, pos + 4) =~= s.subrange(pos, pos + 4));
    let n = be_value(s.subrange(pos, pos + 4)) as int;
    assert(t.subrange(pos + 4, pos + 4 + n) =~= s.subrange(pos + 4, pos + 4 + n));
}

/// Collects the bytes of a stream as they arrive and hands out each frame
/// once it is whole.
pub struct FrameAssembler {
    buf: Vec<u8>,
    pos: usize,
}

impl FrameAssembler {
    /// The bytes received so far.
    pub closed spec fn received(&self) -> Seq<u8> {
        self.buf@
    }

    /// Where the next frame starts in the bytes received so far.
    pub closed spec fn position(&self) -> int {
        self.pos as int
    }

    pub closed spec fn wf(&self) -> bool {
        self.pos <= self.buf@.len()
    }

    /// An assembler that has received nothing.
    pub fn new() -> (r: FrameAssembler)
        ensures
            r.wf(),
            r.received() == Seq::<u8>::empty(),
            r.position() == 0,
    {
        FrameAssembler { buf: Vec::new(), pos: 0 }
    }

    /// Takes in the bytes of one read of the stream.
    pub fn feed(&mut self, bytes: &[u8])
        requires
            old(self).wf(),
        ensures
            final(self).wf(),
            final(self).received() == old(self).received() + bytes@,
            final(self).position() == old(self).position(),
    {
        push_range(&mut self.buf, bytes, 0, bytes.len());
        assert(bytes@.subrange(0, bytes@.len() as int) =~= bytes@);
    }

    /// The next read: `None` while the next frame is not whole and the stream
    /// is still open (`closed` is false); otherwise what reading the bytes
    /// received so far yields at the current position, which then moves past
    /// a frame that was read.
    pub fn poll(&mut self, closed: bool) -> (r: Option<FrameRead>)
        requires
            old(self).wf(),
        ensures
            final(self).wf(),
            final(self).received() == old(self).received(),
            (closed || frame_complete(old(self).received(), old(self).position())) ==> r is Some
                && r->0@ == frame_at(old(self).received(), old(self).position()),
            !(closed || frame_complete(old(self).received(), old(self).position())) ==> r is None,
            final(self).position() == (match r {
                Some(FrameRead::Frame(_, next)) => next as int,
                _ => old(self).position(),
            }),
    {
        let len = self.buf.len();
        let whole = len - self.pos >= 4 && len - self.pos - 4 >= read_be32(
            self.buf.as_slice(),
            self.pos,
        ) as usize;
        if !closed && !whole {
            return None;
        }
        let r = read_frame(self.buf.as_slice(), self.pos);
        if let FrameRead::Frame(_, next) = &r {
            self.pos = *next;
        }
        Some(r)
    }
}

} // verus!
