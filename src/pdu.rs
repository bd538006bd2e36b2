//! Protocol data units and their binary encoding.
//!
//! Layout of an encoded unit: the message type (one byte), the sequence number
//! (four bytes, little-endian), the payload length (eight bytes, little-endian),
//! the payload, and the checksum (four bytes, little-endian).
use vstd::prelude::*;
use crate::bytes::{
    push_le32, push_le64, read_le32, read_le64,
    le_bytes, le_value, lemma_le_bytes_len, lemma_le_round_trip, lemma_pow256_values,
};

verus! {

/// Message type of a unit that carries file bytes.
pub const MSG_TYPE_DATA: u8 = 1;

/// Message type of the unit that ends a transfer.
pub const MSG_TYPE_END: u8 = 2;

/// Largest payload that the sender puts in one data unit.
pub const CHUNK_SIZE: usize = 1024;

/// Bytes of an encoded unit that are not payload.
pub const PDU_OVERHEAD: usize = 17;

/// Everything that ends a transfer early.
#[derive(Clone, Copy, Debug, PartialEq, Eq, Structural)]
pub enum TransferError {
    MalformedPdu,
    TruncatedHeader,
    TruncatedBody,
    PrematureClose,
    ChecksumMismatch,
    UnknownMessageType,
    IoFailure,
}

/// One protocol data unit.
#[derive(Clone, Debug)]
pub struct PDU {
    pub msg_type: u8,
    pub sequence_number: u32,
    pub payload: Vec<u8>,
    pub checksum: u32,
}

/// The mathematical value of a `PDU`.
pub ghost struct PduView {
    pub msg_type: u8,
    pub sequence_number: u32,
    pub payload: Seq<u8>,
    pub checksum: u32,
}

impl View for PDU {
    type V = PduView;

    open spec fn view(&self) -> PduView {
        PduView {
            msg_type: self.msg_type,
            sequence_number: self.sequence_number,
            payload: self.payload@,
            checksum: self.checksum,
        }
    }
}

/// The encoding of `p`.
pub open spec fn pdu_bytes(p: PduView) -> Seq<u8> {
    seq![p.msg_type] + le_bytes(p.sequence_number as nat, 4) + le_bytes(p.payload.len(), 8)
        + p.payload + le_bytes(p.checksum as nat, 4)
}

/// The unit that `s` encodes, if `s` is a well-formed encoding.
pub open spec fn parse_pdu(s: Seq<u8>) -> Option<PduView> {
    if s.len() < 17 {
        None
    } else if le_value(s.subrange(5, 13)) != s.len() - 17 {
        None
    } else {
        Some(
            PduView {
                msg_type: s[0],
                sequence_number: le_value(s.subrange(1, 5)) as u32,
                payload: s.subrange(13, s.len() - 4),
                checksum: le_value(s.subrange(s.len() - 4, s.len() as int)) as u32,
            },
        )
    }
}

/// Decoding the encoding of any unit gives that unit back.
pub proof fn lemma_pdu_round_trip(p: PduView)
    requires
        p.payload.len() <= u64::MAX,
    ensures
        parse_pdu(pdu_bytes(p)) == Some(p),
        pdu_bytes(p).len() == p.payload.len() + 17,
{
    let s = pdu_bytes(p);
    let n = p.payload.len();
    lemma_pow256_values();
    lemma_le_bytes_len(p.sequence_number as nat, 4);
    lemma_le_bytes_len(n, 8);
    lemma_le_bytes_len(p.checksum as nat, 4);
    lemma_le_round_trip(p.sequence_number as nat, 4);
    lemma_le_round_trip(p.checksum as nat, 4);
    lemma_le_round_trip(n, 8);
    assert(s.subrange(1, 5) =~= le_bytes(p.sequence_number as nat, 4));
    assert(s.subrange(5, 13) =~= le_bytes(n, 8));
    assert(s.subrange(13, s.len() - 4) =~= p.payload);
    assert(s.subrange(s.len() - 4, s.len() as int) =~= le_bytes(p.checksum as nat, 4));
}

/// Appends the bytes of `src` from `start` up to `end`.
pub fn push_range(out: &mut Vec<u8>, src: &[u8], start: usize, end: usize)
    requires
        start <= end <= src@.len(),
    ensures
        final(out)@ == old(out)@ + src@.subrange(start as int, end as int),
{
    let mut i: usize = start;
    while i < end
        invariant
            start <= i <= end <= src@.len(),
            out@ == old(out)@ + src@.subrange(start as int, i as int),
        decreases end - i,
    {
        out.push(src[i]);
        i = i + 1;
        assert(out@ =~= old(out)@ + src@.subrange(start as int, i as int));
    }
}

/// Encodes `pdu` as bytes.
pub fn serialize_pdu(pdu: &PDU) -> (r: Vec<u8>)
    ensures
        r@ == pdu_bytes(pdu@),
{
    let mut out: Vec<u8> = Vec::new();
    out.push(pdu.msg_type);
    push_le32(&mut out, pdu.sequence_number);
    push_le64(&mut out, pdu.payload.len() as u64);
    push_range(&mut out, pdu.payload.as_slice(), 0, pdu.payload.len());
    push_le32(&mut out, pdu.checksum);
    assert(pdu.payload@.subrange(0, pdu.payload@.len() as int) =~= pdu.payload@);
    assert(out@ =~= pdu_bytes(pdu@));
    out
}

/// Decodes a unit from exactly the bytes of `data`.
pub fn deserialize_pdu(data: &[u8]) -> (r: Result<PDU, TransferError>)
    ensures
        match r {
            Ok(p) => parse_pdu(data@) == Some(p@),
            Err(e) => parse_pdu(data@) is None && e == TransferError::MalformedPdu,
        },
{
    let len = data.len();
    if len < PDU_OVERHEAD {
        return Err(TransferError::MalformedPdu);
    }
    let declared = read_le64(data, 5);
    if declared != (len - PDU_OVERHEAD) as u64 {
        return Err(TransferError::MalformedPdu);
    }
    let sequence_number = read_le32(data, 1);
    let checksum = read_le32(data, len - 4);
    let mut payload: Vec<u8> = Vec::new();
    push_range(&mut payload, data, 13, len - 4);
    let p = PDU { msg_type: data[0], sequence_number, payload, checksum };
    assert(p@.payload =~= data@.subrange(13, data@.len() - 4));
    Ok(p)
}

} // verus!
