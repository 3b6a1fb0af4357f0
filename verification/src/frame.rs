//! ISO-TP-style frame codec.
//!
//! A transport frame is one of four kinds - Single, First, Consecutive and
//! Flow - and is carried in the fixed 8-byte payload of one CAN message.
//! The codec is a pure transform: [`Frame::as_can_message`] packs a frame
//! into a message, [`Frame::from_message`] unpacks one, and
//! [`lemma_frame_round_trip`] shows that the two compose to the identity on
//! every representable frame.
//!
//! Separation times are measured in microseconds throughout; the wire
//! carries them as one byte with a non-linear encoding (see
//! [`st_to_duration`]).

use vstd::prelude::*;

verus! {

/// Errors raised by the ISO-TP transport layer.
#[derive(Clone, Copy, Debug, PartialEq, Eq, Structural)]
pub enum IsotpError {
    /// An I/O failure reported by the underlying CAN capability.
    Io,
    /// A flow control frame carried flag bits outside the three defined flags.
    InvalidFcFlag,
    /// A frame's type nibble named no defined frame kind.
    InvalidFrameId,
    /// No matching frame arrived before the configured deadline.
    TimedOut,
    /// A frame of a kind that the current transfer state does not expect.
    UnexpectedFrame,
    /// A consecutive frame carried a sequence index other than the expected one.
    InvalidIndex,
}

/// Flow control flags: the receiver's pacing verdict.
#[derive(Clone, Copy, Debug, PartialEq, Eq, Structural)]
pub enum FCFlag {
    Continue,
    Wait,
    Overflow,
}

/// The wire encoding of a flow control flag: the low 2 bits of byte 0.
pub open spec fn spec_flag_bits(flag: FCFlag) -> u8 {
    match flag {
        FCFlag::Continue => 0,
        FCFlag::Wait => 1,
        FCFlag::Overflow => 2,
    }
}

#[verifier::when_used_as_spec(spec_flag_bits)]
fn flag_bits(flag: FCFlag) -> (r: u8)
    ensures
        r == spec_flag_bits(flag),
{
    match flag {
        FCFlag::Continue => 0,
        FCFlag::Wait => 1,
        FCFlag::Overflow => 2,
    }
}

/// A single CAN message: an integer address, a fixed 8-byte payload and an
/// explicit length (always 8 for this protocol; unused trailing bytes are
/// zero-filled).
#[derive(Clone, Copy, Debug, PartialEq, Eq)]
pub struct Message {
    pub id: u32,
    pub data: [u8; 8],
    pub len: usize,
}

/// The mathematical view of a CAN message: its address and payload bytes.
pub struct MessageModel {
    pub id: u32,
    pub data: Seq<u8>,
}

impl View for Message {
    type V = MessageModel;

    open spec fn view(&self) -> MessageModel {
        MessageModel { id: self.id, data: self.data@ }
    }
}

/// A transport frame.
#[derive(Clone, Copy, Debug, PartialEq, Eq)]
pub enum Frame {
    /// A whole payload of at most 7 bytes.
    Single { length: u8, data: [u8; 7] },
    /// The first chunk of a multi-frame payload, with the total size
    /// (a 12-bit value, 0-4095).
    First { size: u16, data: [u8; 6] },
    /// A subsequent chunk, with a 4-bit sequence index that wraps mod 16.
    Consecutive { index: u8, data: [u8; 7] },
    /// Receiver-to-sender pacing: how many frames may follow before the
    /// next grant, and the minimum delay between frames in microseconds.
    Flow { flag: FCFlag, block_size: u8, separation_time: u64 },
}

/// The mathematical view of a frame: data bytes as sequences.
pub enum FrameModel {
    Single { length: u8, data: Seq<u8> },
    First { size: u16, data: Seq<u8> },
    Consecutive { index: u8, data: Seq<u8> },
    Flow { flag: FCFlag, block_size: u8, separation_time: u64 },
}

impl View for Frame {
    type V = FrameModel;

    open spec fn view(&self) -> FrameModel {
        match *self {
            Frame::Single { length, data } => FrameModel::Single { length, data: data@ },
            Frame::First { size, data } => FrameModel::First { size, data: data@ },
            Frame::Consecutive { index, data } => FrameModel::Consecutive { index, data: data@ },
            Frame::Flow { flag, block_size, separation_time } => FrameModel::Flow {
                flag,
                block_size,
                separation_time,
            },
        }
    }
}

/// `s` extended with zero bytes up to length `n`.
pub open spec fn pad_to(s: Seq<u8>, n: int) -> Seq<u8>
    recommends
        s.len() <= n,
{
    s + Seq::new((n - s.len()) as nat, |i: int| 0u8)
}

/// Decodes a separation-time byte into microseconds: 0-127 are whole
/// milliseconds, 0xF1-0xF9 encode 100-900 microseconds in steps of 100,
/// and every other byte is taken as a raw microsecond count.
pub open spec fn spec_st_to_micros(st: u8) -> u64 {
    if st <= 127 {
        ((st as u64) * 1000) as u64
    } else if 0xF1 <= st && st <= 0xF9 {
        (((st - 0xF0) as u64) * 100) as u64
    } else {
        st as u64
    }
}

/// Converts a separation-time byte to a duration in microseconds.
pub fn st_to_duration(st: u8) -> (micros: u64)
    ensures
        micros == spec_st_to_micros(st),
{
    if st <= 127 {
        (st as u64) * 1000
    } else if 0xF1 <= st && st <= 0xF9 {
        ((st - 0xF0) as u64) * 100
    } else {
        st as u64
    }
}

/// Encodes a duration (in microseconds) as a separation-time byte: a
/// sub-second count of 100-900 microseconds lands in the scaled 0xF1-0xF9
/// band; anything else is truncated to one raw byte of microseconds.
pub open spec fn spec_duration_to_st(micros: u64) -> u8 {
    let sub = micros % 1_000_000;
    if 100 <= sub && sub <= 900 {
        ((if sub / 100 >= 1 {
            sub / 100
        } else {
            1
        }) + 0xF0) as u8
    } else {
        sub as u8
    }
}

/// Converts a duration in microseconds to a separation-time byte.
pub fn duration_to_st(micros: u64) -> (st: u8)
    ensures
        st == spec_duration_to_st(micros),
{
    let sub = micros % 1_000_000;
    if 100 <= sub && sub <= 900 {
        let steps = if sub / 100 >= 1 {
            sub / 100
        } else {
            1
        };
        (steps + 0xF0) as u8
    } else {
        sub as u8
    }
}

/// Separation-time round trip: every byte in the reserved 100-900
/// microsecond band decodes to a duration that re-encodes to the same byte.
pub proof fn lemma_separation_time_round_trip(st: u8)
    requires
        0xF1 <= st <= 0xF9,
    ensures
        spec_duration_to_st(spec_st_to_micros(st)) == st,
{
}

/// The 8 payload bytes that encode a frame on the wire.
pub open spec fn spec_encode(f: FrameModel) -> Seq<u8> {
    match f {
        FrameModel::Single { length, data } => seq![length] + data,
        FrameModel::First { size, data } => seq![
            (0x10 | ((size >> 8) & 0x0F)) as u8,
            (size & 0xFF) as u8,
        ] + data,
        FrameModel::Consecutive { index, data } => seq![(0x20 | index) as u8] + data,
        FrameModel::Flow { flag, block_size, separation_time } => seq![
            0x30 | spec_flag_bits(flag),
            block_size,
            spec_duration_to_st(separation_time),
            0u8,
            0u8,
            0u8,
            0u8,
            0u8,
        ],
    }
}

/// Decodes 8 payload bytes: the high nibble of byte 0 selects the frame
/// kind (0 Single, 1 First, 2 Consecutive, 3 Flow; anything else is
/// `InvalidFrameId`), and for a Flow frame the low 2 bits select the flag
/// (3 is `InvalidFcFlag`).
pub open spec fn spec_decode(bytes: Seq<u8>) -> Result<FrameModel, IsotpError>
    recommends
        bytes.len() == 8,
{
    let code = bytes[0] >> 4;
    if code == 0 {
        Ok(FrameModel::Single { length: bytes[0] & 0x07, data: bytes.subrange(1, 8) })
    } else if code == 1 {
        Ok(FrameModel::First {
            size: (((bytes[0] & 0x0F) as u16) << 8) | (bytes[1] as u16),
            data: bytes.subrange(2, 8),
        })
    } else if code == 2 {
        Ok(FrameModel::Consecutive { index: bytes[0] & 0x0F, data: bytes.subrange(1, 8) })
    } else if code == 3 {
        let fb = bytes[0] & 0x03;
        if fb == 0 {
            Ok(FrameModel::Flow {
                flag: FCFlag::Continue,
                block_size: bytes[1],
                separation_time: spec_st_to_micros(bytes[2]),
            })
        } else if fb == 1 {
            Ok(FrameModel::Flow {
                flag: FCFlag::Wait,
                block_size: bytes[1],
                separation_time: spec_st_to_micros(bytes[2]),
            })
        } else if fb == 2 {
            Ok(FrameModel::Flow {
                flag: FCFlag::Overflow,
                block_size: bytes[1],
                separation_time: spec_st_to_micros(bytes[2]),
            })
        } else {
            Err(IsotpError::InvalidFcFlag)
        }
    } else {
        Err(IsotpError::InvalidFrameId)
    }
}

/// The frames whose fields the wire format represents exactly: a Single
/// frame's length fits in 3 bits, a First frame's size in 12, a
/// Consecutive frame's index in 4, and a Flow frame's separation time is
/// one the byte encoding can carry.
pub open spec fn frame_wf(f: FrameModel) -> bool {
    match f {
        FrameModel::Single { length, data } => length <= 7 && data.len() == 7,
        FrameModel::First { size, data } => size <= 4095 && data.len() == 6,
        FrameModel::Consecutive { index, data } => index <= 15 && data.len() == 7,
        FrameModel::Flow { flag, block_size, separation_time } => spec_st_to_micros(
            spec_duration_to_st(separation_time),
        ) == separation_time,
    }
}

/// The view of a decode result.
pub open spec fn decoded_model(r: Result<Frame, IsotpError>) -> Result<FrameModel, IsotpError> {
    match r {
        Ok(f) => Ok(f@),
        Err(e) => Err(e),
    }
}

impl Frame {
    /// Creates a single frame; `data` must be at most 7 bytes long.
    pub fn single(data: &[u8]) -> (r: Frame)
        requires
            data@.len() <= 7,
        ensures
            r@ == (FrameModel::Single { length: data@.len() as u8, data: pad_to(data@, 7) }),
            frame_wf(r@),
    {
        let mut frame_data: [u8; 7] = [0u8; 7];
        let mut i: usize = 0;
        while i < 7
            invariant
                data@.len() <= 7,
                i <= 7,
                forall|j: int| 0 <= j < i ==> frame_data@[j] == pad_to(data@, 7)[j],
            decreases 7 - i,
        {
            frame_data[i] = if i < data.len() {
                data[i]
            } else {
                0u8
            };
            i = i + 1;
        }
        proof {
            assert(frame_data@ =~= pad_to(data@, 7));
        }
        Frame::Single { length: data.len() as u8, data: frame_data }
    }

    /// Creates a first frame; `data` must be at most 6 bytes long.
    pub fn first(data: &[u8], size: u16) -> (r: Frame)
        requires
            data@.len() <= 6,
        ensures
            r@ == (FrameModel::First { size, data: pad_to(data@, 6) }),
    {
        let mut frame_data: [u8; 6] = [0u8; 6];
        let mut i: usize = 0;
        while i < 6
            invariant
                data@.len() <= 6,
                i <= 6,
                forall|j: int| 0 <= j < i ==> frame_data@[j] == pad_to(data@, 6)[j],
            decreases 6 - i,
        {
            frame_data[i] = if i < data.len() {
                data[i]
            } else {
                0u8
            };
            i = i + 1;
        }
        proof {
            assert(frame_data@ =~= pad_to(data@, 6));
        }
        Frame::First { size, data: frame_data }
    }

    /// Creates a consecutive frame; `data` must be at most 7 bytes long.
    pub fn consecutive(data: &[u8], index: u8) -> (r: Frame)
        requires
            data@.len() <= 7,
        ensures
            r@ == (FrameModel::Consecutive { index, data: pad_to(data@, 7) }),
    {
        let mut frame_data: [u8; 7] = [0u8; 7];
        let mut i: usize = 0;
        while i < 7
            invariant
                data@.len() <= 7,
                i <= 7,
                forall|j: int| 0 <= j < i ==> frame_data@[j] == pad_to(data@, 7)[j],
            decreases 7 - i,
        {
            frame_data[i] = if i < data.len() {
                data[i]
            } else {
                0u8
            };
            i = i + 1;
        }
        proof {
            assert(frame_data@ =~= pad_to(data@, 7));
        }
        Frame::Consecutive { index, data: frame_data }
    }

    /// Encodes the frame into the 8-byte payload of a CAN message stamped
    /// with the address `id`. Total: every frame encodes, though fields
    /// wider than their wire slot are truncated (see [`frame_wf`]).
    pub fn as_can_message(&self, id: u32) -> (msg: Message)
        ensures
            msg@.id == id,
            msg@.data == spec_encode(self@),
            msg.len == 8,
    {
        let d: [u8; 8] = match *self {
            Frame::Single { length, data } => [
                length,
                data[0],
                data[1],
                data[2],
                data[3],
                data[4],
                data[5],
                data[6],
            ],
            Frame::First { size, data } => [
                (0x10 | ((size >> 8) & 0x0F)) as u8,
                (size & 0xFF) as u8,
                data[0],
                data[1],
                data[2],
                data[3],
                data[4],
                data[5],
            ],
            Frame::Consecutive { index, data } => [
                0x20 | index,
                data[0],
                data[1],
                data[2],
                data[3],
                data[4],
                data[5],
                data[6],
            ],
            Frame::Flow { flag, block_size, separation_time } => [
                0x30 | flag_bits(flag),
                block_size,
                duration_to_st(separation_time),
                0u8,
                0u8,
                0u8,
                0u8,
                0u8,
            ],
        };
        let msg = Message { id, data: d, len: 8 };
        proof {
            assert(msg@.data =~= spec_encode(self@));
        }
        msg
    }

    /// Decodes a CAN message payload into a frame. Ignores the message
    /// length field; rejects undefined frame kinds and flow flags.
    pub fn from_message(msg: &Message) -> (r: Result<Frame, IsotpError>)
        ensures
            decoded_model(r) == spec_decode(msg@.data),
    {
        let code = msg.data[0] >> 4;
        if code == 0 {
            let data: [u8; 7] = [
                msg.data[1],
                msg.data[2],
                msg.data[3],
                msg.data[4],
                msg.data[5],
                msg.data[6],
                msg.data[7],
            ];
            let length = msg.data[0] & 0x07;
            proof {
                assert(data@ =~= msg@.data.subrange(1, 8));
            }
            Ok(Frame::Single { length, data })
        } else if code == 1 {
            let size: u16 = (((msg.data[0] & 0x0F) as u16) << 8) | (msg.data[1] as u16);
            let data: [u8; 6] = [
                msg.data[2],
                msg.data[3],
                msg.data[4],
                msg.data[5],
                msg.data[6],
                msg.data[7],
            ];
            proof {
                assert(data@ =~= msg@.data.subrange(2, 8));
            }
            Ok(Frame::First { size, data })
        } else if code == 2 {
            let index = msg.data[0] & 0x0F;
            let data: [u8; 7] = [
                msg.data[1],
                msg.data[2],
                msg.data[3],
                msg.data[4],
                msg.data[5],
                msg.data[6],
                msg.data[7],
            ];
            proof {
                assert(data@ =~= msg@.data.subrange(1, 8));
            }
            Ok(Frame::Consecutive { index, data })
        } else if code == 3 {
            let fb = msg.data[0] & 0x03;
            let flag = if fb == 0 {
                FCFlag::Continue
            } else if fb == 1 {
                FCFlag::Wait
            } else if fb == 2 {
                FCFlag::Overflow
            } else {
                return Err(IsotpError::InvalidFcFlag);
            };
            let block_size = msg.data[1];
            let separation_time = st_to_duration(msg.data[2]);
            Ok(Frame::Flow { flag, block_size, separation_time })
        } else {
            Err(IsotpError::InvalidFrameId)
        }
    }
}

/// Round trip: decoding an encoded frame yields the frame back, for every
/// representable frame.
pub proof fn lemma_frame_round_trip(f: FrameModel)
    requires
        frame_wf(f),
    ensures
        spec_decode(spec_encode(f)) == Ok::<FrameModel, IsotpError>(f),
{
    match f {
        FrameModel::Single { length, data } => {
            let bytes = spec_encode(f);
            assert(bytes[0] == length);
            assert(length >> 4 == 0 && length & 0x07 == length) by (bit_vector)
                requires
                    length <= 7,
            ;
            assert(bytes.subrange(1, 8) =~= data);
        },
        FrameModel::First { size, data } => {
            let bytes = spec_encode(f);
            let b0 = (0x10 | ((size >> 8) & 0x0F)) as u8;
            let b1 = (size & 0xFF) as u8;
            assert(b0 >> 4 == 1 && (((b0 & 0x0F) as u16) << 8) | (b1 as u16) == size)
                by (bit_vector)
                requires
                    size <= 4095,
                    b0 == (0x10 | ((size >> 8) & 0x0F)) as u8,
                    b1 == (size & 0xFF) as u8,
            ;
            assert(bytes.subrange(2, 8) =~= data);
        },
        FrameModel::Consecutive { index, data } => {
            let bytes = spec_encode(f);
            let b0 = (0x20 | index) as u8;
            assert(b0 >> 4 == 2 && b0 & 0x0F == index) by (bit_vector)
                requires
                    index <= 15,
                    b0 == (0x20 | index) as u8,
            ;
            assert(bytes.subrange(1, 8) =~= data);
        },
        FrameModel::Flow { flag, block_size, separation_time } => {
            let bits = spec_flag_bits(flag);
            let b0 = (0x30 | bits) as u8;
            assert(b0 >> 4 == 3 && b0 & 0x03 == bits) by (bit_vector)
                requires
                    bits <= 2,
                    b0 == (0x30 | bits) as u8,
            ;
        },
    }
}

/// Rejection is exact: a type nibble of 4-15 always decodes to
/// `InvalidFrameId`, and a flow frame whose flag bits are 3 always decodes
/// to `InvalidFcFlag`.
pub proof fn lemma_decode_rejects(bytes: Seq<u8>)
    requires
        bytes.len() == 8,
    ensures
        bytes[0] >> 4 >= 4 ==> spec_decode(bytes) == Err::<FrameModel, IsotpError>(
            IsotpError::InvalidFrameId,
        ),
        bytes[0] >> 4 == 3 && bytes[0] & 0x03 == 3 ==> spec_decode(bytes) == Err::<
            FrameModel,
            IsotpError,
        >(IsotpError::InvalidFcFlag),
{
}

} // verus!
