use mzr::frame::{FCFlag, Frame, IsotpError, Message};
use mzr::transport::{Can, CanError, Isotp, IsotpCan, SendPacket};

const SRC: u32 = 0x7e0;
const DST: u32 = 0x7e8;

/// A scripted CAN bus: hands out the queued inbound messages in order and
/// records everything sent.
struct MockCan {
    inbound: Vec<Message>,
    next: usize,
    sent: Vec<Message>,
    send_fails: bool,
}

impl MockCan {
    fn new(inbound: Vec<Message>) -> MockCan {
        MockCan {
            inbound,
            next: 0,
            sent: Vec::new(),
            send_fails: false,
        }
    }
}

impl Can for MockCan {
    fn send_msg(&mut self, msg: &Message) -> Result<(), CanError> {
        if self.send_fails {
            return Err(CanError::Io);
        }
        self.sent.push(*msg);
        Ok(())
    }

    fn read(&mut self, _timeout_micros: u64) -> Result<Message, CanError> {
        if self.next < self.inbound.len() {
            let m = self.inbound[self.next];
            self.next += 1;
            Ok(m)
        } else {
            Err(CanError::Timeout)
        }
    }

    fn wait(&mut self, _micros: u64) {}
}

fn msg(id: u32, data: [u8; 8]) -> Message {
    Message { id, data, len: 8 }
}

fn flow_grant_from_peer(block_size: u8, st: u8) -> Message {
    msg(DST, [0x30, block_size, st, 0, 0, 0, 0, 0])
}

#[test]
fn write_short_payload_emits_exactly_one_single_frame() {
    let can = MockCan::new(vec![]);
    let mut isotp = IsotpCan::new(can, SRC, DST, 1_000_000);
    isotp.write_isotp(&[1, 2, 3]).unwrap();
    assert_eq!(isotp.can.sent.len(), 1);
    assert_eq!(isotp.can.sent[0].id, SRC);
    assert_eq!(isotp.can.sent[0].data, [0x03, 1, 2, 3, 0, 0, 0, 0]);
}

#[test]
fn short_payload_write_then_read_round_trip() {
    let payload = [10u8, 20, 30, 40, 50, 60, 70];
    let can = MockCan::new(vec![]);
    let mut sender = IsotpCan::new(can, SRC, DST, 1_000_000);
    sender.write_isotp(&payload).unwrap();
    // Feed what the sender emitted to a reader listening on its address.
    let mut frames = sender.can.sent.clone();
    for m in frames.iter_mut() {
        m.id = DST;
    }
    let reader_can = MockCan::new(frames);
    let mut reader = IsotpCan::new(reader_can, SRC, DST, 1_000_000);
    assert_eq!(reader.read_isotp().unwrap(), payload.to_vec());
}

#[test]
fn write_multi_frame_sequence_and_indices() {
    let payload: Vec<u8> = (0u8..20).collect();
    let can = MockCan::new(vec![flow_grant_from_peer(0, 0)]);
    let mut isotp = IsotpCan::new(can, SRC, DST, 1_000_000);
    isotp.write_isotp(&payload).unwrap();
    let sent = &isotp.can.sent;
    assert_eq!(sent.len(), 3);
    assert_eq!(sent[0].data, [0x10, 20, 0, 1, 2, 3, 4, 5]);
    assert_eq!(sent[1].data, [0x21, 6, 7, 8, 9, 10, 11, 12]);
    assert_eq!(sent[2].data, [0x22, 13, 14, 15, 16, 17, 18, 19]);
}

#[test]
fn write_honours_block_size_with_fresh_grants() {
    let payload: Vec<u8> = (0u8..27).collect();
    // Block size 1: a fresh grant is needed after every consecutive frame
    // except the last. 3 consecutive frames follow the first frame.
    let can = MockCan::new(vec![
        flow_grant_from_peer(1, 0),
        flow_grant_from_peer(1, 0),
        flow_grant_from_peer(1, 0),
    ]);
    let mut isotp = IsotpCan::new(can, SRC, DST, 1_000_000);
    isotp.write_isotp(&payload).unwrap();
    assert_eq!(isotp.can.sent.len(), 4);
    assert_eq!(isotp.can.next, 3);
}

#[test]
fn write_fails_when_flow_control_is_not_a_flow_frame() {
    let payload: Vec<u8> = (0u8..20).collect();
    let can = MockCan::new(vec![msg(DST, [0x02, 1, 2, 0, 0, 0, 0, 0])]);
    let mut isotp = IsotpCan::new(can, SRC, DST, 1_000_000);
    assert_eq!(isotp.write_isotp(&payload), Err(IsotpError::UnexpectedFrame));
}

#[test]
fn write_propagates_send_failures_as_io() {
    let mut can = MockCan::new(vec![]);
    can.send_fails = true;
    let mut isotp = IsotpCan::new(can, SRC, DST, 1_000_000);
    assert_eq!(isotp.write_isotp(&[1]), Err(IsotpError::Io));
}

#[test]
fn read_single_frame_returns_declared_length() {
    let can = MockCan::new(vec![msg(DST, [0x03, 7, 8, 9, 0xAA, 0xBB, 0xCC, 0xDD])]);
    let mut isotp = IsotpCan::new(can, SRC, DST, 1_000_000);
    assert_eq!(isotp.read_isotp().unwrap(), vec![7, 8, 9]);
    // A single-frame read exchanges no flow control.
    assert_eq!(isotp.can.sent.len(), 0);
}

#[test]
fn read_multi_frame_reassembles_and_keeps_final_padding() {
    // 16 declared bytes: 6 in the first frame, then two consecutive
    // frames. The receiver appends whole frames, so the buffer carries
    // the final frame's zero padding.
    let payload: Vec<u8> = (1u8..=16).collect();
    let can = MockCan::new(vec![
        msg(DST, [0x10, 16, 1, 2, 3, 4, 5, 6]),
        msg(DST, [0x21, 7, 8, 9, 10, 11, 12, 13]),
        msg(DST, [0x22, 14, 15, 16, 0, 0, 0, 0]),
    ]);
    let mut isotp = IsotpCan::new(can, SRC, DST, 1_000_000);
    let data = isotp.read_isotp().unwrap();
    assert_eq!(data.len(), 20);
    assert_eq!(&data[..16], payload.as_slice());
    assert_eq!(&data[16..], &[0, 0, 0, 0]);
    // Exactly one unconditional flow-control grant was sent back.
    assert_eq!(isotp.can.sent.len(), 1);
    assert_eq!(isotp.can.sent[0].id, SRC);
    assert_eq!(isotp.can.sent[0].data, [0x30, 0, 0, 0, 0, 0, 0, 0]);
}

#[test]
fn read_skips_frames_from_other_addresses() {
    let can = MockCan::new(vec![
        msg(0x123, [0x02, 0xEE, 0xEE, 0, 0, 0, 0, 0]),
        msg(DST, [0x02, 1, 2, 0, 0, 0, 0, 0]),
    ]);
    let mut isotp = IsotpCan::new(can, SRC, DST, 1_000_000);
    assert_eq!(isotp.read_isotp().unwrap(), vec![1, 2]);
}

#[test]
fn read_times_out_when_nothing_arrives() {
    let can = MockCan::new(vec![]);
    let mut isotp = IsotpCan::new(can, SRC, DST, 1_000);
    assert_eq!(isotp.read_isotp(), Err(IsotpError::TimedOut));
}

#[test]
fn read_rejects_wrong_consecutive_index() {
    let can = MockCan::new(vec![
        msg(DST, [0x10, 16, 1, 2, 3, 4, 5, 6]),
        msg(DST, [0x25, 7, 8, 9, 10, 11, 12, 13]),
    ]);
    let mut isotp = IsotpCan::new(can, SRC, DST, 1_000_000);
    assert_eq!(isotp.read_isotp(), Err(IsotpError::InvalidIndex));
}

#[test]
fn read_rejects_unexpected_opening_frame() {
    let can = MockCan::new(vec![msg(DST, [0x21, 1, 2, 3, 4, 5, 6, 7])]);
    let mut isotp = IsotpCan::new(can, SRC, DST, 1_000_000);
    assert_eq!(isotp.read_isotp(), Err(IsotpError::UnexpectedFrame));
}

#[test]
fn read_rejects_non_consecutive_frame_mid_transfer() {
    let can = MockCan::new(vec![
        msg(DST, [0x10, 16, 1, 2, 3, 4, 5, 6]),
        msg(DST, [0x02, 1, 2, 0, 0, 0, 0, 0]),
    ]);
    let mut isotp = IsotpCan::new(can, SRC, DST, 1_000_000);
    assert_eq!(isotp.read_isotp(), Err(IsotpError::UnexpectedFrame));
}

#[test]
fn request_exchanges_one_payload_each_way() {
    let can = MockCan::new(vec![msg(DST, [0x02, 0x50, 0x01, 0, 0, 0, 0, 0])]);
    let mut isotp = IsotpCan::new(can, SRC, DST, 1_000_000);
    let response = isotp.request_isotp(&[0x10, 0x01]).unwrap();
    assert_eq!(response, vec![0x50, 0x01]);
    assert_eq!(isotp.can.sent.len(), 1);
    assert_eq!(isotp.can.sent[0].data, [0x02, 0x10, 0x01, 0, 0, 0, 0, 0]);
}

#[test]
fn send_packet_cursor_walks_the_payload() {
    let payload: Vec<u8> = (0u8..30).collect();
    let mut packet = SendPacket::new(&payload);
    assert!(!packet.eof());
    let first = packet.first_frame();
    match first {
        Frame::First { size, data } => {
            assert_eq!(size, 30);
            assert_eq!(data, [0, 1, 2, 3, 4, 5]);
        }
        other => panic!("expected a first frame, got {:?}", other),
    }
    let mut indices = Vec::new();
    while !packet.eof() {
        match packet.next_consec_frame() {
            Frame::Consecutive { index, .. } => indices.push(index),
            other => panic!("expected a consecutive frame, got {:?}", other),
        }
    }
    assert_eq!(indices, vec![1, 2, 3, 4]);
}

#[test]
fn send_packet_indices_wrap_mod_sixteen() {
    let payload = vec![0xA5u8; 4095];
    let mut packet = SendPacket::new(&payload);
    let _ = packet.first_frame();
    let mut count: usize = 0;
    while !packet.eof() {
        match packet.next_consec_frame() {
            Frame::Consecutive { index, .. } => {
                count += 1;
                assert_eq!(index as usize, count % 16);
            }
            other => panic!("expected a consecutive frame, got {:?}", other),
        }
    }
    // ceil((4095 - 6) / 7) chunks cover the remainder.
    assert_eq!(count, (4095 - 6 + 6) / 7);
}

#[test]
fn flow_flag_continue_wait_overflow_parse() {
    for (bits, flag) in [
        (0u8, FCFlag::Continue),
        (1, FCFlag::Wait),
        (2, FCFlag::Overflow),
    ] {
        let can = MockCan::new(vec![msg(DST, [0x30 | bits, 5, 3, 0, 0, 0, 0, 0])]);
        let mut isotp = IsotpCan::new(can, SRC, DST, 1_000_000);
        assert_eq!(isotp.recv_flow_control_frame().unwrap(), (flag, 5, 3_000));
    }
}

#[test]
fn write_empty_payload_emits_one_empty_single_frame() {
    let can = MockCan::new(vec![]);
    let mut isotp = IsotpCan::new(can, SRC, DST, 1_000_000);
    isotp.write_isotp(&[]).unwrap();
    assert_eq!(isotp.can.sent.len(), 1);
    assert_eq!(isotp.can.sent[0].data, [0; 8]);
    // And reading that frame yields the empty payload back.
    let reader_can = MockCan::new(vec![msg(DST, [0; 8])]);
    let mut reader = IsotpCan::new(reader_can, SRC, DST, 1_000_000);
    assert_eq!(reader.read_isotp().unwrap(), Vec::<u8>::new());
}

#[test]
fn largest_payload_write_then_read_round_trip() {
    let payload: Vec<u8> = (0..4095u32).map(|i| (i % 251) as u8).collect();
    let can = MockCan::new(vec![flow_grant_from_peer(0, 0)]);
    let mut sender = IsotpCan::new(can, SRC, DST, 1_000_000);
    sender.write_isotp(&payload).unwrap();
    let mut frames = sender.can.sent.clone();
    for m in frames.iter_mut() {
        m.id = DST;
    }
    let reader_can = MockCan::new(frames);
    let mut reader = IsotpCan::new(reader_can, SRC, DST, 1_000_000);
    let data = reader.read_isotp().unwrap();
    // The receiver keeps the final frame's zero padding...
    let chunks = (4095 - 6 + 6) / 7;
    assert_eq!(data.len(), 6 + 7 * chunks);
    // ...but the declared size worth of bytes is the payload, exactly.
    assert_eq!(&data[..4095], payload.as_slice());
    assert!(data[4095..].iter().all(|b| *b == 0));
}
