use mzr::frame::{duration_to_st, st_to_duration, FCFlag, Frame, IsotpError, Message};

fn roundtrip(frame: Frame) {
    let msg = frame.as_can_message(0x7e0);
    assert_eq!(msg.id, 0x7e0);
    assert_eq!(msg.len, 8);
    let back = Frame::from_message(&msg).expect("representable frame must decode");
    assert_eq!(back, frame);
}

#[test]
fn single_round_trip_boundary_lengths() {
    roundtrip(Frame::single(&[]));
    roundtrip(Frame::single(&[0xAA; 6]));
    roundtrip(Frame::single(&[0x55; 7]));
    roundtrip(Frame::single(&[1, 2, 3]));
}

#[test]
fn first_round_trip_boundary_sizes() {
    roundtrip(Frame::first(&[1, 2, 3, 4, 5, 6], 0));
    roundtrip(Frame::first(&[1, 2, 3, 4, 5, 6], 4095));
    roundtrip(Frame::first(&[9, 8], 17));
}

#[test]
fn consecutive_round_trip_boundary_indices() {
    roundtrip(Frame::consecutive(&[1, 2, 3, 4, 5, 6, 7], 0));
    roundtrip(Frame::consecutive(&[1, 2, 3, 4, 5, 6, 7], 15));
    roundtrip(Frame::consecutive(&[], 3));
}

#[test]
fn flow_round_trip_all_flags() {
    for flag in [FCFlag::Continue, FCFlag::Wait, FCFlag::Overflow] {
        roundtrip(Frame::Flow {
            flag,
            block_size: 0,
            separation_time: 0,
        });
        roundtrip(Frame::Flow {
            flag,
            block_size: 255,
            separation_time: 500,
        });
        // A raw-microsecond byte outside both defined bands.
        roundtrip(Frame::Flow {
            flag,
            block_size: 4,
            separation_time: 200,
        });
    }
}

#[test]
fn first_frame_wire_layout_is_bit_exact() {
    // Size 0x123 splits as low nibble of byte 0 (high 4 bits) and byte 1.
    let msg = Frame::first(&[1, 2, 3, 4, 5, 6], 0x123).as_can_message(7);
    assert_eq!(msg.data, [0x11, 0x23, 1, 2, 3, 4, 5, 6]);
}

#[test]
fn single_frame_wire_layout_is_bit_exact() {
    let msg = Frame::single(&[0xDE, 0xAD]).as_can_message(7);
    assert_eq!(msg.data, [0x02, 0xDE, 0xAD, 0, 0, 0, 0, 0]);
}

#[test]
fn consecutive_frame_wire_layout_is_bit_exact() {
    let msg = Frame::consecutive(&[1, 2, 3, 4, 5, 6, 7], 0x0C).as_can_message(7);
    assert_eq!(msg.data, [0x2C, 1, 2, 3, 4, 5, 6, 7]);
}

#[test]
fn flow_frame_wire_layout_is_bit_exact() {
    let msg = Frame::Flow {
        flag: FCFlag::Wait,
        block_size: 9,
        separation_time: 300,
    }
    .as_can_message(7);
    assert_eq!(msg.data, [0x31, 9, 0xF3, 0, 0, 0, 0, 0]);
}

#[test]
fn decode_rejects_undefined_frame_kinds() {
    for nibble in 4u8..=15 {
        let msg = Message {
            id: 1,
            data: [nibble << 4, 0, 0, 0, 0, 0, 0, 0],
            len: 8,
        };
        assert_eq!(Frame::from_message(&msg), Err(IsotpError::InvalidFrameId));
    }
}

#[test]
fn decode_rejects_undefined_flow_flag() {
    let msg = Message {
        id: 1,
        data: [0x33, 0, 0, 0, 0, 0, 0, 0],
        len: 8,
    };
    assert_eq!(Frame::from_message(&msg), Err(IsotpError::InvalidFcFlag));
}

#[test]
fn single_decode_takes_length_from_low_three_bits() {
    let msg = Message {
        id: 1,
        data: [0x05, 9, 8, 7, 6, 5, 4, 3],
        len: 8,
    };
    match Frame::from_message(&msg) {
        Ok(Frame::Single { length, data }) => {
            assert_eq!(length, 5);
            assert_eq!(data, [9, 8, 7, 6, 5, 4, 3]);
        }
        other => panic!("expected a single frame, got {:?}", other),
    }
}

#[test]
fn separation_time_round_trip_micro_band() {
    for st in 0xF1u8..=0xF9 {
        assert_eq!(duration_to_st(st_to_duration(st)), st);
    }
}

#[test]
fn separation_time_decoding_ranges() {
    assert_eq!(st_to_duration(0), 0);
    assert_eq!(st_to_duration(5), 5_000);
    assert_eq!(st_to_duration(127), 127_000);
    assert_eq!(st_to_duration(0xF1), 100);
    assert_eq!(st_to_duration(0xF9), 900);
    // Bytes outside both defined bands are taken as raw microseconds.
    assert_eq!(st_to_duration(200), 200);
    assert_eq!(st_to_duration(0xFF), 255);
}

#[test]
fn separation_time_encoding() {
    assert_eq!(duration_to_st(0), 0);
    assert_eq!(duration_to_st(500), 0xF5);
    assert_eq!(duration_to_st(99), 99);
}
