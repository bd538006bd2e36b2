//! The sender and receiver state machines of one file transfer.
use vstd::prelude::*;
use vstd::slice::slice_subrange;
use crate::checksum::{crc32, crc32_of};
use crate::frame::{
    frame_at, frameable, lemma_frame_at_index, read_frame, stream_of, write_frame,
    FrameOutcome, FrameRead,
};
use crate::pdu::{push_range, PduView, TransferError, CHUNK_SIZE, MSG_TYPE_DATA, MSG_TYPE_END, PDU};

verus! {

/// Where a sender is in its transfer.
#[derive(Clone, Copy, Debug, PartialEq, Eq, Structural)]
pub enum SenderState {
    Start,
    Connected,
    Sending,
    Finished,
    Error,
}

/// Where a receiver is in its transfer.
#[derive(Clone, Copy, Debug, PartialEq, Eq, Structural)]
pub enum ReceiverState {
    Start,
    Connected,
    Receiving,
    Finished,
    Error,
}

/// The data unit with sequence number `seq` that carries `c`.
pub open spec fn data_unit(seq: int, c: Seq<u8>) -> PduView {
    PduView { msg_type: MSG_TYPE_DATA, sequence_number: seq as u32, payload: c, checksum: crc32_of(c) }
}

/// The unit with sequence number `seq` that ends a transfer.
pub open spec fn end_unit(seq: int) -> PduView {
    PduView {
        msg_type: MSG_TYPE_END,
        sequence_number: seq as u32,
        payload: Seq::empty(),
        checksum: crc32_of(Seq::empty()),
    }
}

/// How many data units carry `f`.
pub open spec fn chunk_count(f: Seq<u8>) -> nat {
    ((f.len() + 1023) / 1024) as nat
}

/// The bytes of `f` that the `i`-th data unit carries.
pub open spec fn chunk(f: Seq<u8>, i: int) -> Seq<u8> {
    f.subrange(1024 * i, if 1024 * i + 1024 < f.len() { 1024 * i + 1024 } else { f.len() as int })
}

/// The units that a sender sends for the file `f`: its chunks in order, then
/// the end of the transfer.
pub open spec fn sender_units(f: Seq<u8>) -> Seq<PduView> {
    Seq::new(
        chunk_count(f) + 1,
        |i: int|
            if i < chunk_count(f) {
                data_unit(i, chunk(f, i))
            } else {
                end_unit(i)
            },
    )
}

/// Largest file whose units can all be numbered.
pub open spec fn max_file_len() -> nat {
    1024 * 4294967295
}

/// The data unit with sequence number `sequence_number` that carries `chunk`.
pub fn data_pdu(sequence_number: u32, chunk: &[u8]) -> (r: PDU)
    ensures
        r@ == data_unit(sequence_number as int, chunk@),
{
    let checksum = crc32(chunk);
    let mut payload: Vec<u8> = Vec::new();
    let mut i: usize = 0;
    while i < chunk.len()
        invariant
            i <= chunk@.len(),
            payload@ == chunk@.subrange(0, i as int),
        decreases chunk@.len() - i,
    {
        payload.push(chunk[i]);
        i = i + 1;
        assert(payload@ =~= chunk@.subrange(0, i as int));
    }
    assert(payload@ =~= chunk@);
    PDU { msg_type: MSG_TYPE_DATA, sequence_number, payload, checksum }
}

/// The unit with sequence number `sequence_number` that ends a transfer.
pub fn end_pdu(sequence_number: u32) -> (r: PDU)
    ensures
        r@ == end_unit(sequence_number as int),
{
    let payload: Vec<u8> = Vec::new();
    let checksum = crc32(payload.as_slice());
    PDU { msg_type: MSG_TYPE_END, sequence_number, payload, checksum }
}

/// The bytes that a sender writes to its stream for the file `file`.
pub fn send_file(file: &[u8]) -> (r: Vec<u8>)
    requires
        file@.len() <= max_file_len(),
    ensures
        r@ == stream_of(sender_units(file@)),
{
    let ghost f = file@;
    let ghost units = sender_units(f);
    let len = file.len();
    let mut out: Vec<u8> = Vec::new();
    let mut pos: usize = 0;
    let mut seq: u32 = 0;
    proof {
        assert(units.take(0) =~= Seq::<PduView>::empty());
    }
    while pos < len
        invariant
            len == f.len(),
            f == file@,
            units == sender_units(f),
            f.len() <= max_file_len(),
            seq <= chunk_count(f),
            pos == (if 1024 * seq < len { 1024 * seq } else { len as int }),
            (seq < chunk_count(f)) == (pos < len),
            out@ == stream_of(units.take(seq as int)),
        decreases len - pos,
    {
        let end: usize = if len - pos < CHUNK_SIZE { len } else { pos + CHUNK_SIZE };
        let piece = slice_subrange(file, pos, end);
        let pdu = data_pdu(seq, piece);
        proof {
            assert(piece@ == chunk(f, seq as int));
            assert(pdu@ == units[seq as int]);
            assert(units.take(seq + 1).drop_last() =~= units.take(seq as int));
        }
        write_frame(&mut out, &pdu);
        proof {
            assert(1024 * (seq + 1) < len ==> seq + 1 < chunk_count(f)) by (nonlinear_arith)
                requires
                    chunk_count(f) == (f.len() + 1023) / 1024,
                    len == f.len(),
            ;
            assert(1024 * (seq + 1) >= len ==> seq + 1 >= chunk_count(f)) by (nonlinear_arith)
                requires
                    chunk_count(f) == (f.len() + 1023) / 1024,
                    len == f.len(),
            ;
        }
        seq = seq + 1;
        pos = end;
    }
    let pdu = end_pdu(seq);
    proof {
        assert(pdu@ == units[seq as int]);
        assert(units.take(seq + 1).drop_last() =~= units.take(seq as int));
        assert(units.take(seq + 1) =~= units);
    }
    write_frame(&mut out, &pdu);
    out
}

/// What a receiver does with one read.
pub ghost enum StepView {
    Append(Seq<u8>),
    Finish,
    Fail(TransferError),
}

/// What a receiver does with one read.
pub enum Step {
    /// Append these bytes to the output and read on.
    Append(Vec<u8>),
    /// The transfer is complete.
    Finish,
    /// The transfer ends with this error.
    Fail(TransferError),
}

impl View for Step {
    type V = StepView;

    open spec fn view(&self) -> StepView {
        match self {
            Step::Append(b) => StepView::Append(b@),
            Step::Finish => StepView::Finish,
            Step::Fail(e) => StepView::Fail(*e),
        }
    }
}

/// The receiver's decision on a unit `p` whose payload has checksum
/// `computed`.
pub open spec fn verdict(p: PduView, computed: u32) -> StepView {
    if computed != p.checksum {
        StepView::Fail(TransferError::ChecksumMismatch)
    } else if p.msg_type == MSG_TYPE_DATA {
        StepView::Append(p.payload)
    } else if p.msg_type == MSG_TYPE_END {
        StepView::Finish
    } else {
        StepView::Fail(TransferError::UnknownMessageType)
    }
}

/// The receiver's decision on one read.
pub open spec fn step_of(ev: FrameOutcome) -> StepView {
    match ev {
        FrameOutcome::Frame(p, _) => verdict(p, crc32_of(p.payload)),
        FrameOutcome::EndOfStream => StepView::Fail(TransferError::PrematureClose),
        FrameOutcome::Failed(e) => StepView::Fail(e),
    }
}

/// Decides on the unit `p` given the checksum `computed` of its payload.
pub fn judge_pdu(p: PDU, computed: u32) -> (r: Step)
    ensures
        r@ == verdict(p@, computed),
{
    if computed != p.checksum {
        Step::Fail(TransferError::ChecksumMismatch)
    } else if p.msg_type == MSG_TYPE_DATA {
        Step::Append(p.payload)
    } else if p.msg_type == MSG_TYPE_END {
        Step::Finish
    } else {
        Step::Fail(TransferError::UnknownMessageType)
    }
}

/// The state of one receiving transfer.
pub struct ReceiverSession {
    pub state: ReceiverState,
    pub error: Option<TransferError>,
}

/// The state that a receiver is in after deciding `st`.
pub open spec fn state_after(st: StepView) -> ReceiverState {
    match st {
        StepView::Append(_) => ReceiverState::Receiving,
        StepView::Finish => ReceiverState::Finished,
        StepView::Fail(_) => ReceiverState::Error,
    }
}

/// The error that a receiver holds after deciding `st`.
pub open spec fn error_after(st: StepView) -> Option<TransferError> {
    match st {
        StepView::Fail(e) => Some(e),
        _ => None,
    }
}

impl ReceiverSession {
    /// A receiver that waits for a stream.
    pub fn new() -> (r: ReceiverSession)
        ensures
            r.state == ReceiverState::Start,
            r.error is None,
    {
        ReceiverSession { state: ReceiverState::Start, error: None }
    }

    /// A stream was accepted.
    pub fn accept(&mut self)
        ensures
            final(self).state == (if old(self).state == ReceiverState::Start {
                ReceiverState::Connected
            } else {
                ReceiverState::Error
            }),
            final(self).error == old(self).error,
    {
        self.state = if self.state == ReceiverState::Start {
            ReceiverState::Connected
        } else {
            ReceiverState::Error
        };
    }

    /// The output sink was opened, or failed to open (`opened` is false).
    pub fn open_sink(&mut self, opened: bool)
        ensures
            final(self).state == (if old(self).state == ReceiverState::Connected && opened {
                ReceiverState::Receiving
            } else {
                ReceiverState::Error
            }),
            final(self).error == (if old(self).state == ReceiverState::Connected && !opened {
                Some(TransferError::IoFailure)
            } else {
                old(self).error
            }),
    {
        if self.state == ReceiverState::Connected && opened {
            self.state = ReceiverState::Receiving;
        } else {
            if self.state == ReceiverState::Connected {
                self.error = Some(TransferError::IoFailure);
            }
            self.state = ReceiverState::Error;
        }
    }

    /// Decides on one read while receiving, and moves to the state that the
    /// decision leads to.
    pub fn on_frame(&mut self, read: FrameRead) -> (r: Step)
        requires
            old(self).state == ReceiverState::Receiving,
        ensures
            r@ == step_of(read@),
            final(self).state == state_after(r@),
            final(self).error == error_after(r@),
    {
        let r = match read {
            FrameRead::Frame(p, _) => {
                let computed = crc32(p.payload.as_slice());
                judge_pdu(p, computed)
            },
            FrameRead::EndOfStream => Step::Fail(TransferError::PrematureClose),
            FrameRead::Failed(e) => Step::Fail(e),
        };
        match &r {
            Step::Append(_) => {
                self.state = ReceiverState::Receiving;
                self.error = None;
            },
            Step::Finish => {
                self.state = ReceiverState::Finished;
                self.error = None;
            },
            Step::Fail(e) => {
                self.state = ReceiverState::Error;
                self.error = Some(*e);
            },
        }
        r
    }
}

/// What a receiver that starts reading `s` at `pos`, having written `out`,
/// ends with: its output, its final state and its error.
pub open spec fn receive_from(s: Seq<u8>, pos: int, out: Seq<u8>) -> (
    Seq<u8>,
    ReceiverState,
    Option<TransferError>,
)
    decreases s.len() - pos,
    via receive_from_decreases
{
    match frame_at(s, pos) {
        FrameOutcome::Frame(p, next) => match verdict(p, crc32_of(p.payload)) {
            StepView::Append(b) => receive_from(s, next, out + b),
            StepView::Finish => (out, ReceiverState::Finished, None),
            StepView::Fail(e) => (out, ReceiverState::Error, Some(e)),
        },
        FrameOutcome::EndOfStream => (
            out,
            ReceiverState::Error,
            Some(TransferError::PrematureClose),
        ),
        FrameOutcome::Failed(e) => (out, ReceiverState::Error, Some(e)),
    }
}

#[via_fn]
proof fn receive_from_decreases(s: Seq<u8>, pos: int, out: Seq<u8>) {
    match frame_at(s, pos) {
        FrameOutcome::Frame(_, next) => {
            assert(pos < next <= s.len());
        },
        _ => {},
    }
}

/// The outcome of receiving one whole stream.
pub struct ReceiveReport {
    pub output: Vec<u8>,
    pub state: ReceiverState,
    pub error: Option<TransferError>,
}

/// Receives a transfer from the bytes that a stream delivered before it
/// closed.
pub fn receive_stream(stream: &[u8]) -> (r: ReceiveReport)
    ensures
        (r.output@, r.state, r.error) == receive_from(stream@, 0, Seq::empty()),
{
    let mut session = ReceiverSession { state: ReceiverState::Receiving, error: None };
    let mut output: Vec<u8> = Vec::new();
    let mut pos: usize = 0;
    loop
        invariant
            pos <= stream@.len(),
            session.state == ReceiverState::Receiving,
            receive_from(stream@, 0, Seq::empty()) == receive_from(stream@, pos as int, output@),
        decreases stream@.len() - pos,
    {
        let read = read_frame(stream, pos);
        let next = match &read {
            FrameRead::Frame(_, n) => *n,
            _ => pos,
        };
        let step = session.on_frame(read);
        match step {
            Step::Append(bytes) => {
                push_range(&mut output, bytes.as_slice(), 0, bytes.len());
                assert(bytes@.subrange(0, bytes@.len() as int) =~= bytes@);
                pos = next;
            },
            _ => {
                return ReceiveReport { output, state: session.state, error: session.error };
            },
        }
    }
}

proof fn lemma_sender_units_frameable(f: Seq<u8>)
    ensures
        forall|i: int|
            0 <= i < sender_units(f).len() ==> frameable(#[trigger] sender_units(f)[i]),
{
    let units = sender_units(f);
    let cc = chunk_count(f) as int;
    assert forall|i: int| 0 <= i < units.len() implies frameable(#[trigger] units[i]) by {
        if i < cc {
            assert(1024 * i < f.len()) by (nonlinear_arith)
                requires
                    i < cc,
                    cc == (f.len() + 1023) / 1024,
            ;
        }
    }
}

proof fn lemma_receive_rest(f: Seq<u8>, k: int)
    requires
        f.len() <= max_file_len(),
        0 <= k <= chunk_count(f),
    ensures
        receive_from(
            stream_of(sender_units(f)),
            stream_of(sender_units(f).take(k)).len() as int,
            f.subrange(0, if 1024 * k < f.len() { 1024 * k } else { f.len() as int }),
        ) == (f, ReceiverState::Finished, None::<TransferError>),
    decreases chunk_count(f) - k,
{
    let units = sender_units(f);
    let cc = chunk_count(f) as int;
    lemma_sender_units_frameable(f);
    lemma_frame_at_index(units, k);
    let out = f.subrange(0, if 1024 * k < f.len() { 1024 * k } else { f.len() as int });
    if k == cc {
        assert(1024 * k >= f.len()) by (nonlinear_arith)
            requires
                k == cc,
                cc == (f.len() + 1023) / 1024,
        ;
        assert(units[k] == end_unit(k));
        assert(out =~= f);
    } else {
        assert(1024 * k < f.len()) by (nonlinear_arith)
            requires
                k < cc,
                cc == (f.len() + 1023) / 1024,
        ;
        assert(units[k] == data_unit(k, chunk(f, k)));
        let next_out = f.subrange(
            0,
            if 1024 * (k + 1) < f.len() { 1024 * (k + 1) } else { f.len() as int },
        );
        assert(out + chunk(f, k) =~= next_out);
        lemma_receive_rest(f, k + 1);
    }
}

/// Whatever file a sender sends, a receiver that reads the bytes it wrote
/// ends finished, with no error, and with exactly the file as its output.
pub proof fn lemma_transfer_delivers_file(f: Seq<u8>)
    requires
        f.len() <= max_file_len(),
    ensures
        receive_from(stream_of(sender_units(f)), 0, Seq::empty()) == (
            f,
            ReceiverState::Finished,
            None::<TransferError>,
        ),
{
    lemma_receive_rest(f, 0);
    assert(sender_units(f).take(0) =~= Seq::<PduView>::empty());
    assert(f.subrange(0, 0) =~= Seq::<u8>::empty());
}

/// A unit whose checksum does not match its payload ends the transfer with
/// `ChecksumMismatch`, and its payload is not added to the output.
pub proof fn lemma_corrupt_unit_rejected(s: Seq<u8>, pos: int, out: Seq<u8>)
    requires
        frame_at(s, pos) is Frame,
        crc32_of(frame_at(s, pos)->Frame_0.payload) != frame_at(s, pos)->Frame_0.checksum,
    ensures
        receive_from(s, pos, out) == (
            out,
            ReceiverState::Error,
            Some(TransferError::ChecksumMismatch),
        ),
{
}

/// A unit with a matching checksum and a type that is neither data nor end
/// ends the transfer with `UnknownMessageType`; what was written before stays.
pub proof fn lemma_unknown_type_rejected(s: Seq<u8>, pos: int, out: Seq<u8>)
    requires
        frame_at(s, pos) is Frame,
        crc32_of(frame_at(s, pos)->Frame_0.payload) == frame_at(s, pos)->Frame_0.checksum,
        frame_at(s, pos)->Frame_0.msg_type != MSG_TYPE_DATA,
        frame_at(s, pos)->Frame_0.msg_type != MSG_TYPE_END,
    ensures
        receive_from(s, pos, out) == (
            out,
            ReceiverState::Error,
            Some(TransferError::UnknownMessageType),
        ),
{
}

/// The state of one sending transfer.
pub struct SenderSession {
    pub state: SenderState,
    pub next_seq: u32,
}

impl SenderSession {
    /// A sender that waits for a stream.
    pub fn new() -> (r: SenderSession)
        ensures
            r.state == SenderState::Start,
            r.next_seq == 0,
    {
        SenderSession { state: SenderState::Start, next_seq: 0 }
    }

    /// The stream is open.
    pub fn connect(&mut self)
        ensures
            final(self).state == (if old(self).state == SenderState::Start {
                SenderState::Connected
            } else {
                SenderState::Error
            }),
            final(self).next_seq == old(self).next_seq,
    {
        self.state = if self.state == SenderState::Start {
            SenderState::Connected
        } else {
            SenderState::Error
        };
    }

    /// The source file was opened, or failed to open (`opened` is false).
    pub fn open_source(&mut self, opened: bool)
        ensures
            final(self).state == (if old(self).state == SenderState::Connected && opened {
                SenderState::Sending
            } else {
                SenderState::Error
            }),
            final(self).next_seq == old(self).next_seq,
    {
        self.state = if self.state == SenderState::Connected && opened {
            SenderState::Sending
        } else {
            SenderState::Error
        };
    }

    /// An I/O operation failed: the transfer is over.
    pub fn fail(&mut self)
        ensures
            final(self).state == SenderState::Error,
            final(self).next_seq == old(self).next_seq,
    {
        self.state = SenderState::Error;
    }

    /// The unit to send for the bytes `chunk` just read from the file: a data
    /// unit where `chunk` holds bytes, the end of the transfer where it is
    /// empty (the end of the file).
    pub fn next_pdu(&mut self, chunk: &[u8]) -> (r: PDU)
        requires
            old(self).state == SenderState::Sending,
            chunk@.len() <= CHUNK_SIZE,
            old(self).next_seq < u32::MAX,
        ensures
            chunk@.len() == 0 ==> r@ == end_unit(old(self).next_seq as int) && final(self).state
                == SenderState::Finished && final(self).next_seq == old(self).next_seq,
            chunk@.len() > 0 ==> r@ == data_unit(old(self).next_seq as int, chunk@)
                && final(self).state == SenderState::Sending && final(self).next_seq
                == old(self).next_seq + 1,
    {
        if chunk.len() == 0 {
            self.state = SenderState::Finished;
            end_pdu(self.next_seq)
        } else {
            let p = data_pdu(self.next_seq, chunk);
            self.next_seq = self.next_seq + 1;
            p
        }
    }
}

} // verus!
