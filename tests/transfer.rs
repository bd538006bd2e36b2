use quic_file_transfer::frame::{read_frame, write_frame, FrameAssembler, FrameRead};
use quic_file_transfer::pdu::{
    deserialize_pdu, serialize_pdu, TransferError, CHUNK_SIZE, MSG_TYPE_DATA, MSG_TYPE_END, PDU,
};
use quic_file_transfer::transfer::{
    data_pdu, end_pdu, judge_pdu, receive_stream, send_file, ReceiverSession, ReceiverState,
    SenderSession, SenderState, Step,
};

fn unit(msg_type: u8, seq: u32, payload: Vec<u8>) -> PDU {
    let checksum = crc32fast::hash(&payload);
    PDU { msg_type, sequence_number: seq, payload, checksum }
}

fn same(a: &PDU, b: &PDU) -> bool {
    a.msg_type == b.msg_type
        && a.sequence_number == b.sequence_number
        && a.payload == b.payload
        && a.checksum == b.checksum
}

fn file_of(n: usize) -> Vec<u8> {
    (0..n).map(|i| (i * 7 % 251) as u8).collect()
}

fn read_all(stream: &[u8]) -> Vec<PDU> {
    let mut pos = 0;
    let mut out = Vec::new();
    loop {
        match read_frame(stream, pos) {
            FrameRead::Frame(p, next) => {
                out.push(p);
                pos = next;
            }
            FrameRead::EndOfStream => return out,
            FrameRead::Failed(e) => panic!("unexpected failure {:?}", e),
        }
    }
}

#[test]
fn round_trip_all_sizes_and_types() {
    for &n in &[0usize, 1, CHUNK_SIZE - 1, CHUNK_SIZE] {
        for &t in &[MSG_TYPE_DATA, MSG_TYPE_END] {
            let p = unit(t, 41, file_of(n));
            let back = deserialize_pdu(&serialize_pdu(&p)).unwrap();
            assert!(same(&p, &back));
        }
    }
}

#[test]
fn encoding_layout_is_bincode_compatible() {
    let p = PDU { msg_type: 1, sequence_number: 0x01020304, payload: vec![9, 8, 7], checksum: 0xAABBCCDD };
    let bytes = serialize_pdu(&p);
    assert_eq!(
        bytes,
        vec![1, 4, 3, 2, 1, 3, 0, 0, 0, 0, 0, 0, 0, 9, 8, 7, 0xDD, 0xCC, 0xBB, 0xAA]
    );
    let reference = bincode::serialize(&(1u8, 0x01020304u32, vec![9u8, 8, 7], 0xAABBCCDDu32)).unwrap();
    assert_eq!(bytes, reference);
}

#[test]
fn decode_rejects_short_input() {
    assert_eq!(deserialize_pdu(&[]).err(), Some(TransferError::MalformedPdu));
    assert_eq!(deserialize_pdu(&[1u8; 16]).err(), Some(TransferError::MalformedPdu));
}

#[test]
fn decode_rejects_length_mismatch() {
    let mut bytes = serialize_pdu(&unit(MSG_TYPE_DATA, 0, vec![1, 2, 3]));
    bytes.push(0);
    assert_eq!(deserialize_pdu(&bytes).err(), Some(TransferError::MalformedPdu));
    bytes.pop();
    bytes.pop();
    assert_eq!(deserialize_pdu(&bytes).err(), Some(TransferError::MalformedPdu));
}

#[test]
fn decode_keeps_unknown_type() {
    let p = unit(99, 5, vec![1]);
    let back = deserialize_pdu(&serialize_pdu(&p)).unwrap();
    assert_eq!(back.msg_type, 99);
}

#[test]
fn checksum_is_crc32_and_deterministic() {
    let a = data_pdu(0, b"123456789");
    assert_eq!(a.checksum, 0xCBF43926);
    let b = data_pdu(3, b"123456789");
    assert_eq!(a.checksum, b.checksum);
    assert_eq!(end_pdu(0).checksum, crc32fast::hash(&[]));
}

#[test]
fn checksum_changes_on_bit_flip() {
    let data = file_of(300);
    let base = data_pdu(0, &data).checksum;
    for i in 0..data.len() {
        for bit in 0..8 {
            let mut flipped = data.clone();
            flipped[i] ^= 1 << bit;
            assert_ne!(data_pdu(0, &flipped).checksum, base);
        }
    }
}

#[test]
fn frame_prefix_is_big_endian_length() {
    let mut out = Vec::new();
    write_frame(&mut out, &unit(MSG_TYPE_DATA, 0, vec![0; 300]));
    assert_eq!(out.len(), 4 + 17 + 300);
    assert_eq!(&out[..4], &[0, 0, 1, 61]);
}

#[test]
fn frames_read_back_in_order() {
    let units: Vec<PDU> = (0..5u32).map(|i| unit(MSG_TYPE_DATA, i, file_of(i as usize * 200))).collect();
    let mut stream = Vec::new();
    for p in &units {
        write_frame(&mut stream, p);
    }
    let back = read_all(&stream);
    assert_eq!(back.len(), units.len());
    for (a, b) in units.iter().zip(back.iter()) {
        assert!(same(a, b));
    }
}

#[test]
fn two_header_bytes_are_truncated_header() {
    match read_frame(&[0, 0], 0) {
        FrameRead::Failed(e) => assert_eq!(e, TransferError::TruncatedHeader),
        _ => panic!("expected a failure"),
    }
}

#[test]
fn short_body_is_truncated_body() {
    let mut stream = Vec::new();
    write_frame(&mut stream, &unit(MSG_TYPE_DATA, 0, vec![1, 2, 3]));
    stream.pop();
    match read_frame(&stream, 0) {
        FrameRead::Failed(e) => assert_eq!(e, TransferError::TruncatedBody),
        _ => panic!("expected a failure"),
    }
}

#[test]
fn garbage_body_is_malformed() {
    match read_frame(&[0, 0, 0, 2, 7, 7], 0) {
        FrameRead::Failed(e) => assert_eq!(e, TransferError::MalformedPdu),
        _ => panic!("expected a failure"),
    }
}

#[test]
fn corrupted_checksum_is_rejected_and_not_written() {
    let payload = vec![5u8, 6, 7];
    let bad = PDU {
        msg_type: MSG_TYPE_DATA,
        sequence_number: 0,
        checksum: crc32fast::hash(&payload) ^ 1,
        payload,
    };
    let mut stream = Vec::new();
    write_frame(&mut stream, &bad);
    write_frame(&mut stream, &unit(MSG_TYPE_END, 1, vec![]));
    let report = receive_stream(&stream);
    assert_eq!(report.state, ReceiverState::Error);
    assert_eq!(report.error, Some(TransferError::ChecksumMismatch));
    assert!(report.output.is_empty());
}

#[test]
fn file_of_2500_bytes_end_to_end() {
    let file = file_of(2500);
    let stream = send_file(&file);
    let units = read_all(&stream);
    let expected = [(MSG_TYPE_DATA, 0u32, 1024usize), (MSG_TYPE_DATA, 1, 1024), (MSG_TYPE_DATA, 2, 452), (MSG_TYPE_END, 3, 0)];
    assert_eq!(units.len(), expected.len());
    for (p, &(t, seq, len)) in units.iter().zip(expected.iter()) {
        assert_eq!(p.msg_type, t);
        assert_eq!(p.sequence_number, seq);
        assert_eq!(p.payload.len(), len);
        assert_eq!(p.checksum, crc32fast::hash(&p.payload));
    }
    let report = receive_stream(&stream);
    assert_eq!(report.output, file);
    assert_eq!(report.state, ReceiverState::Finished);
    assert_eq!(report.error, None);
}

#[test]
fn empty_file_end_to_end() {
    let stream = send_file(&[]);
    let units = read_all(&stream);
    assert_eq!(units.len(), 1);
    assert_eq!(units[0].msg_type, MSG_TYPE_END);
    assert_eq!(units[0].sequence_number, 0);
    assert!(units[0].payload.is_empty());
    let report = receive_stream(&stream);
    assert!(report.output.is_empty());
    assert_eq!(report.state, ReceiverState::Finished);
}

#[test]
fn exact_chunk_file_end_to_end() {
    let file = file_of(CHUNK_SIZE);
    let stream = send_file(&file);
    assert_eq!(read_all(&stream).len(), 2);
    let report = receive_stream(&stream);
    assert_eq!(report.output, file);
    assert_eq!(report.state, ReceiverState::Finished);
}

#[test]
fn unknown_type_keeps_earlier_output() {
    let mut stream = Vec::new();
    write_frame(&mut stream, &unit(MSG_TYPE_DATA, 0, vec![1, 2, 3]));
    write_frame(&mut stream, &unit(99, 1, vec![4, 5]));
    write_frame(&mut stream, &unit(MSG_TYPE_END, 2, vec![]));
    let report = receive_stream(&stream);
    assert_eq!(report.state, ReceiverState::Error);
    assert_eq!(report.error, Some(TransferError::UnknownMessageType));
    assert_eq!(report.output, vec![1, 2, 3]);
}

#[test]
fn close_before_end_is_premature() {
    let mut stream = Vec::new();
    write_frame(&mut stream, &unit(MSG_TYPE_DATA, 0, vec![1, 2, 3]));
    let report = receive_stream(&stream);
    assert_eq!(report.error, Some(TransferError::PrematureClose));
    assert_eq!(report.output, vec![1, 2, 3]);
}

#[test]
fn judge_uses_given_checksum() {
    let p = unit(MSG_TYPE_DATA, 0, vec![1]);
    let good = p.checksum;
    assert!(matches!(judge_pdu(p.clone(), good), Step::Append(ref b) if *b == vec![1]));
    assert!(matches!(judge_pdu(p.clone(), good ^ 1), Step::Fail(TransferError::ChecksumMismatch)));
    let e = unit(MSG_TYPE_END, 1, vec![]);
    let c = e.checksum;
    assert!(matches!(judge_pdu(e, c), Step::Finish));
    let u = unit(7, 1, vec![]);
    let c = u.checksum;
    assert!(matches!(judge_pdu(u, c), Step::Fail(TransferError::UnknownMessageType)));
}

#[test]
fn receiver_session_walks_its_states() {
    let mut r = ReceiverSession::new();
    assert_eq!(r.state, ReceiverState::Start);
    r.accept();
    assert_eq!(r.state, ReceiverState::Connected);
    r.open_sink(true);
    assert_eq!(r.state, ReceiverState::Receiving);
    let step = r.on_frame(FrameRead::EndOfStream);
    assert!(matches!(step, Step::Fail(TransferError::PrematureClose)));
    assert_eq!(r.state, ReceiverState::Error);
    let mut r2 = ReceiverSession::new();
    r2.accept();
    r2.open_sink(false);
    assert_eq!(r2.state, ReceiverState::Error);
    assert_eq!(r2.error, Some(TransferError::IoFailure));
}

#[test]
fn sender_session_numbers_units() {
    let mut s = SenderSession::new();
    s.connect();
    assert_eq!(s.state, SenderState::Connected);
    s.open_source(true);
    assert_eq!(s.state, SenderState::Sending);
    let a = s.next_pdu(&[1, 2]);
    assert_eq!((a.msg_type, a.sequence_number), (MSG_TYPE_DATA, 0));
    let b = s.next_pdu(&[3]);
    assert_eq!((b.msg_type, b.sequence_number), (MSG_TYPE_DATA, 1));
    let c = s.next_pdu(&[]);
    assert_eq!((c.msg_type, c.sequence_number), (MSG_TYPE_END, 2));
    assert_eq!(s.state, SenderState::Finished);
    s.fail();
    assert_eq!(s.state, SenderState::Error);
}

fn assemble(stream: &[u8], piece: usize) -> Vec<PDU> {
    let mut frames = FrameAssembler::new();
    let mut out = Vec::new();
    for part in stream.chunks(piece) {
        frames.feed(part);
        while let Some(read) = frames.poll(false) {
            match read {
                FrameRead::Frame(p, _) => out.push(p),
                _ => panic!("unexpected read"),
            }
        }
    }
    match frames.poll(true) {
        Some(FrameRead::EndOfStream) => out,
        _ => panic!("expected a clean end"),
    }
}

#[test]
fn assembler_ignores_how_bytes_are_batched() {
    let file = file_of(2500);
    let stream = send_file(&file);
    let whole = read_all(&stream);
    for &piece in &[1usize, 3, 4, 5, 1000, 1045, stream.len()] {
        let got = assemble(&stream, piece);
        assert_eq!(got.len(), whole.len());
        for (a, b) in whole.iter().zip(got.iter()) {
            assert!(same(a, b));
        }
    }
}

#[test]
fn assembler_waits_for_a_whole_frame() {
    let mut stream = Vec::new();
    write_frame(&mut stream, &unit(MSG_TYPE_DATA, 0, vec![1, 2, 3]));
    let mut frames = FrameAssembler::new();
    frames.feed(&stream[..2]);
    assert!(frames.poll(false).is_none());
    match frames.poll(true) {
        Some(FrameRead::Failed(e)) => assert_eq!(e, TransferError::TruncatedHeader),
        _ => panic!("expected a truncated header"),
    }
    frames.feed(&stream[2..10]);
    assert!(frames.poll(false).is_none());
    frames.feed(&stream[10..]);
    assert!(matches!(frames.poll(false), Some(FrameRead::Frame(_, _))));
    assert!(frames.poll(false).is_none());
    assert!(matches!(frames.poll(true), Some(FrameRead::EndOfStream)));
}
