//! Byte-payload transport over CAN frames.
//!
//! A payload of at most 7 bytes travels as one Single frame. A longer
//! payload (at most 4095 bytes) travels as one First frame carrying the
//! total size and 6 bytes, followed by Consecutive frames of up to 7 bytes
//! each, whose 4-bit sequence indices start at 1 and wrap mod 16, paced by
//! the receiver's Flow frames.
//!
//! [`frames_for_payload`] is the exact frame sequence the sender emits;
//! [`valid_reassembly`] is the exact acceptance condition of the receiver.
//! [`lemma_single_frame_round_trip`] and [`lemma_multi_frame_round_trip`]
//! show that the two agree: reassembling the emitted frames reproduces the
//! payload (followed, for a multi-frame payload, by the final frame's zero
//! padding, which the receiver does not trim).

use vstd::prelude::*;
use vstd::slice::slice_subrange;
use crate::frame::{
    pad_to, spec_encode, spec_decode, frame_wf, st_to_duration, Frame, FrameModel, Message,
    MessageModel, IsotpError, FCFlag,
};

verus! {

/// The sequence index following `i`: indices wrap after 15.
pub open spec fn next_index16(i: u8) -> u8 {
    if i == 15 {
        0
    } else {
        (i + 1) as u8
    }
}

/// The first chunk of a payload: at most 7 bytes.
pub open spec fn chunk7(s: Seq<u8>) -> Seq<u8> {
    if s.len() <= 7 {
        s
    } else {
        s.take(7)
    }
}

/// What remains of a payload after its first chunk.
pub open spec fn rest7(s: Seq<u8>) -> Seq<u8> {
    if s.len() <= 7 {
        Seq::empty()
    } else {
        s.skip(7)
    }
}

/// `k` zero bytes.
pub open spec fn zero_bytes(k: int) -> Seq<u8> {
    Seq::new(k as nat, |i: int| 0u8)
}

/// The consecutive frames that carry `payload`, starting at sequence
/// index `index`.
pub open spec fn consec_frames(payload: Seq<u8>, index: u8) -> Seq<FrameModel>
    decreases payload.len(),
{
    if payload.len() == 0 {
        Seq::empty()
    } else {
        seq![FrameModel::Consecutive { index, data: pad_to(chunk7(payload), 7) }] + consec_frames(
            rest7(payload),
            next_index16(index),
        )
    }
}

/// The exact frame sequence a send of `payload` emits.
pub open spec fn frames_for_payload(payload: Seq<u8>) -> Seq<FrameModel> {
    if payload.len() <= 7 {
        seq![FrameModel::Single { length: payload.len() as u8, data: pad_to(payload, 7) }]
    } else {
        seq![FrameModel::First { size: payload.len() as u16, data: payload.take(6) }]
            + consec_frames(payload.skip(6), 1)
    }
}

/// The number of consecutive frames needed for `m` payload bytes past the
/// first frame: the least number of 7-byte chunks covering them.
pub open spec fn n_chunks(m: int) -> int {
    (m + 6) / 7
}

/// The receiver's run over consecutive frames: each frame must carry the
/// expected index and a full 7 data bytes; `remaining` counts down by at
/// most 7 per frame, and exactly enough frames arrive to cover it.
pub open spec fn consec_run_ok(frames: Seq<FrameModel>, remaining: int, index: u8) -> bool
    decreases frames.len(),
{
    if remaining <= 0 {
        frames.len() == 0
    } else if frames.len() == 0 {
        false
    } else {
        &&& frames[0] matches FrameModel::Consecutive { index: i, data }
            && i == index
            && data.len() == 7
        &&& consec_run_ok(
            frames.skip(1),
            remaining - if remaining <= 7 {
                remaining
            } else {
                7
            },
            next_index16(index),
        )
    }
}

/// The bytes the receiver appends for a run of consecutive frames: all 7
/// data bytes of every frame, padding included.
pub open spec fn consec_data(frames: Seq<FrameModel>) -> Seq<u8>
    decreases frames.len(),
{
    if frames.len() == 0 {
        Seq::empty()
    } else {
        (match frames[0] {
            FrameModel::Consecutive { data, .. } => data,
            _ => Seq::empty(),
        }) + consec_data(frames.skip(1))
    }
}

/// A successful reassembly: `frames` is the frame sequence one `read`
/// consumed, and `out` the bytes it returned. A Single frame is a whole
/// transfer by itself; a First frame announces `size` bytes, of which it
/// carries the first 6, and the consecutive frames carry the rest (the
/// final frame's zero padding included, since the receiver appends whole
/// frames and only counts the remaining quota).
pub open spec fn valid_reassembly(frames: Seq<FrameModel>, out: Seq<u8>) -> bool {
    &&& frames.len() >= 1
    &&& match frames[0] {
        FrameModel::Single { length, data } => {
            let n = if length <= 7 {
                length as int
            } else {
                7
            };
            frames.len() == 1 && data.len() == 7 && out == data.take(n)
        },
        FrameModel::First { size, data } => {
            let h = if size <= 6 {
                size as int
            } else {
                6
            };
            let head = data.take(h);
            &&& data.len() == 6
            &&& consec_run_ok(frames.skip(1), size - h, 1)
            &&& out == head + consec_data(frames.skip(1))
        },
        _ => false,
    }
}

/// `out` is what a successful receive can return: the reassembly of some
/// valid frame sequence.
pub open spec fn reassembles(out: Seq<u8>) -> bool {
    exists|frames: Seq<FrameModel>| valid_reassembly(frames, out)
}

/// Between `pre` and `post`, exactly a prefix of `msgs` was sent.
pub open spec fn sent_prefix_of(
    pre: Seq<MessageModel>,
    post: Seq<MessageModel>,
    msgs: Seq<MessageModel>,
) -> bool {
    exists|k: int| 0 <= k <= msgs.len() && post == pre + msgs.take(k)
}

/// A payload of at most 7 bytes is sent as exactly one Single frame, and
/// reading that frame yields the payload back unchanged.
pub proof fn lemma_single_frame_round_trip(payload: Seq<u8>)
    requires
        payload.len() <= 7,
    ensures
        frames_for_payload(payload).len() == 1,
        frames_for_payload(payload)[0] matches FrameModel::Single { length, data }
            && length == payload.len(),
        valid_reassembly(frames_for_payload(payload), payload),
{
    assert(pad_to(payload, 7).take(payload.len() as int) =~= payload);
}

/// Segmenting then reassembling a run of consecutive frames covers the
/// chunked payload exactly, with the final frame's zero padding appended,
/// using the least number of 7-byte chunks.
proof fn lemma_consec_round_trip(q: Seq<u8>, index: u8)
    requires
        q.len() >= 1,
        index <= 15,
    ensures
        consec_frames(q, index).len() == n_chunks(q.len() as int),
        consec_run_ok(consec_frames(q, index), q.len() as int, index),
        consec_data(consec_frames(q, index)) == q + zero_bytes(
            7 * n_chunks(q.len() as int) - q.len(),
        ),
    decreases q.len(),
{
    let frames = consec_frames(q, index);
    if q.len() <= 7 {
        assert(rest7(q).len() == 0);
        assert(consec_frames(rest7(q), next_index16(index)) =~= Seq::<FrameModel>::empty());
        assert(frames.skip(1) =~= Seq::<FrameModel>::empty());
        assert(consec_data(frames.skip(1)) == Seq::<u8>::empty());
        assert(frames[0] == (FrameModel::Consecutive { index, data: pad_to(chunk7(q), 7) }));
        assert(pad_to(chunk7(q), 7).len() == 7);
        assert(consec_run_ok(frames.skip(1), 0, next_index16(index)));
        assert(consec_run_ok(frames, q.len() as int, index));
        assert(consec_data(frames) == pad_to(q, 7) + Seq::<u8>::empty());
        assert(pad_to(q, 7) + Seq::<u8>::empty() =~= q + zero_bytes(7 - q.len()));
        assert(n_chunks(q.len() as int) == 1);
    } else {
        lemma_consec_round_trip(q.skip(7), next_index16(index));
        assert(frames.skip(1) =~= consec_frames(q.skip(7), next_index16(index)));
        assert(pad_to(chunk7(q), 7) =~= q.take(7));
        assert(n_chunks(q.len() as int) == 1 + n_chunks(q.len() - 7)) by {
            assert((q.len() + 6) as int / 7 == ((q.len() - 7) + 6) as int / 7 + 1);
        }
        assert(consec_data(frames) == q.take(7) + (q.skip(7) + zero_bytes(
            7 * n_chunks(q.len() - 7) - (q.len() - 7),
        )));
        assert(q.take(7) + (q.skip(7) + zero_bytes(7 * n_chunks(q.len() - 7) - (q.len() - 7)))
            =~= q + zero_bytes(7 * n_chunks(q.len() as int) - q.len()));
    }
}

/// The sequence indices of a run of consecutive frames count up from the
/// starting index, wrapping mod 16.
proof fn lemma_consec_indices(q: Seq<u8>, index: u8, k: int)
    requires
        index <= 15,
        0 <= k < consec_frames(q, index).len(),
    ensures
        consec_frames(q, index)[k] matches FrameModel::Consecutive { index: i, .. }
            && i == (index + k) % 16,
    decreases q.len(),
{
    let frames = consec_frames(q, index);
    if k == 0 {
        assert(index % 16 == index);
    } else {
        lemma_consec_indices(rest7(q), next_index16(index), k - 1);
        assert(frames[k] == consec_frames(rest7(q), next_index16(index))[k - 1]);
        assert((next_index16(index) + (k - 1)) % 16 == (index + k) % 16) by {
            if index == 15 {
                assert((0 + (k - 1)) % 16 == (15 + k) % 16) by {
                    vstd::arithmetic::div_mod::lemma_mod_sub_multiples_vanish(k - 1, 16);
                };
            }
        }
    }
}

/// Multi-frame round trip: for every payload of 8 to 4095 bytes,
/// segmenting and then reassembling reproduces the payload exactly (the
/// receiver's buffer is the payload followed by the final frame's zero
/// padding); one First frame and the least number of 7-byte Consecutive
/// frames are used, and their indices run 1, 2, ..., 15, 0, 1, ...
pub proof fn lemma_multi_frame_round_trip(payload: Seq<u8>)
    requires
        8 <= payload.len() <= 4095,
    ensures
        frames_for_payload(payload).len() == 1 + n_chunks(payload.len() - 6),
        valid_reassembly(
            frames_for_payload(payload),
            payload + zero_bytes(6 + 7 * n_chunks(payload.len() - 6) - payload.len()),
        ),
        (payload + zero_bytes(6 + 7 * n_chunks(payload.len() - 6) - payload.len())).take(
            payload.len() as int,
        ) == payload,
        forall|k: int|
            1 <= k < frames_for_payload(payload).len() ==> (#[trigger] frames_for_payload(
                payload,
            )[k] matches FrameModel::Consecutive { index: i, .. } && i == k % 16),
{
    let frames = frames_for_payload(payload);
    let tail = payload.skip(6);
    let out = payload + zero_bytes(6 + 7 * n_chunks(payload.len() - 6) - payload.len());
    lemma_consec_round_trip(tail, 1);
    assert(frames.skip(1) =~= consec_frames(tail, 1));
    let size = payload.len() as u16;
    assert(size > 6);
    assert(payload.take(6).take(6) =~= payload.take(6));
    assert(out =~= payload.take(6) + (tail + zero_bytes(7 * n_chunks(tail.len() as int)
        - tail.len())));
    assert(out.take(payload.len() as int) =~= payload);
    assert forall|k: int| 1 <= k < frames.len() implies (#[trigger] frames[k]) matches FrameModel::Consecutive {
        index: i,
        ..
    } && i == k % 16 by {
        lemma_consec_indices(tail, 1, k - 1);
        assert(frames[k] == consec_frames(tail, 1)[k - 1]);
        assert((1 + (k - 1)) % 16 == k % 16);
    }
}

/// A cursor over a payload during a multi-frame send: the bytes not yet
/// emitted and the sequence index the next consecutive frame will carry.
/// Not used for single-frame sends.
pub struct SendPacket<'a> {
    buffer: &'a [u8],
    index: u8,
}

impl<'a> SendPacket<'a> {
    /// The bytes not yet emitted.
    pub closed spec fn remaining(&self) -> Seq<u8> {
        self.buffer@
    }

    /// The sequence index the next consecutive frame will carry.
    pub closed spec fn next_index(&self) -> u8 {
        self.index
    }

    /// The payload fits the 12-bit size field.
    pub closed spec fn wf(&self) -> bool {
        self.buffer@.len() <= 4095
    }

    pub fn new(buffer: &'a [u8]) -> (r: SendPacket<'a>)
        requires
            buffer@.len() <= 4095,
        ensures
            r.remaining() == buffer@,
            r.next_index() == 0,
            r.wf(),
    {
        SendPacket { buffer, index: 0 }
    }

    /// Emits the First frame: the total size and the payload's first 6
    /// bytes. Resets the sequence index to 1.
    pub fn first_frame(&mut self) -> (frame: Frame)
        requires
            old(self).wf(),
            old(self).remaining().len() >= 6,
        ensures
            final(self).wf(),
            frame@ == (FrameModel::First {
                size: old(self).remaining().len() as u16,
                data: old(self).remaining().take(6),
            }),
            frame_wf(frame@),
            final(self).remaining() == old(self).remaining().skip(6),
            final(self).next_index() == 1,
    {
        let len: usize = if self.buffer.len() < 6 {
            self.buffer.len()
        } else {
            6
        };
        let head = slice_subrange(self.buffer, 0, len);
        let frame = Frame::first(head, self.buffer.len() as u16);
        proof {
            assert(pad_to(head@, 6) =~= old(self).remaining().take(6));
        }
        self.buffer = slice_subrange(self.buffer, len, self.buffer.len());
        self.index = 1;
        frame
    }

    /// Emits the next consecutive frame: up to 7 bytes, zero-padded, under
    /// the current sequence index; advances the index mod 16.
    pub fn next_consec_frame(&mut self) -> (frame: Frame)
        requires
            old(self).wf(),
            old(self).next_index() <= 15,
        ensures
            final(self).wf(),
            frame@ == (FrameModel::Consecutive {
                index: old(self).next_index(),
                data: pad_to(chunk7(old(self).remaining()), 7),
            }),
            frame_wf(frame@),
            final(self).remaining() == rest7(old(self).remaining()),
            final(self).next_index() == next_index16(old(self).next_index()),
    {
        let len: usize = if self.buffer.len() < 7 {
            self.buffer.len()
        } else {
            7
        };
        let chunk = slice_subrange(self.buffer, 0, len);
        let frame = Frame::consecutive(chunk, self.index);
        proof {
            assert(pad_to(chunk@, 7) =~= pad_to(chunk7(old(self).remaining()), 7));
            assert(self.buffer@.subrange(len as int, self.buffer@.len() as int) =~= rest7(
                old(self).remaining(),
            ));
        }
        self.buffer = slice_subrange(self.buffer, len, self.buffer.len());
        self.index = self.index + 1;
        if self.index == 16 {
            self.index = 0;
        }
        frame
    }

    /// True when every byte has been emitted.
    pub fn eof(&self) -> (r: bool)
        ensures
            r == (self.remaining().len() == 0),
    {
        self.buffer.is_empty()
    }
}

/// Failures of the raw CAN capability.
#[derive(Clone, Copy, Debug, PartialEq, Eq, Structural)]
pub enum CanError {
    /// The adapter failed to send or receive.
    Io,
    /// No message arrived before the capability's deadline.
    Timeout,
}

/// A raw CAN capability: sends and receives single CAN messages, and
/// suspends the caller when pacing between frames demands it.
/// Implementations (a SocketCAN or PassThru adapter) live outside the
/// verified library; the contracts here are the capability's interface
/// promises, which every implementation is expected to honour: `outbox`
/// records exactly the messages given to successful `send_msg` calls.
pub trait Can {
    /// The messages sent through this capability so far, oldest first.
    /// Implementations outside the verified library leave it at the
    /// default; verification never relies on the default's value.
    open spec fn outbox(&self) -> Seq<MessageModel> {
        arbitrary()
    }

    /// Sends one CAN message on the bus.
    fn send_msg(&mut self, msg: &Message) -> (r: Result<(), CanError>)
        ensures
            r is Ok ==> final(self).outbox() == old(self).outbox().push(msg@),
            r is Err ==> final(self).outbox() == old(self).outbox(),
    ;

    /// Receives one CAN message, whatever its address, blocking for at
    /// most `timeout_micros` microseconds.
    fn read(&mut self, timeout_micros: u64) -> (r: Result<Message, CanError>)
        ensures
            final(self).outbox() == old(self).outbox(),
    ;

    /// Suspends the caller for `micros` microseconds.
    fn wait(&mut self, micros: u64)
        ensures
            final(self).outbox() == old(self).outbox(),
    ;
}

/// Relies on std::time::SystemTime::now for a reading of the clock in
/// microseconds, used only to bound how long the receive loop skips
/// frames from other addresses. Nothing is assumed of the value.
#[verifier::external_body]
fn clock_micros() -> u64 {
    match std::time::SystemTime::now().duration_since(std::time::UNIX_EPOCH) {
        Ok(d) => d.as_micros() as u64,
        Err(_) => 0,
    }
}

/// The CAN messages that encode a frame sequence, stamped with address `id`.
pub open spec fn frame_messages(frames: Seq<FrameModel>, id: u32) -> Seq<MessageModel> {
    frames.map(|k: int, f: FrameModel| MessageModel { id, data: spec_encode(f) })
}

/// The flow-control grant the receiver sends after a First frame:
/// continue unconditionally, block size 0, separation time 0.
pub open spec fn flow_grant(id: u32) -> MessageModel {
    MessageModel {
        id,
        data: spec_encode(
            FrameModel::Flow { flag: FCFlag::Continue, block_size: 0, separation_time: 0 },
        ),
    }
}

/// Byte-payload send/receive over the ISO-TP framing.
pub trait Isotp {
    /// The CAN messages this transport has sent, oldest first.
    spec fn sent_messages(&self) -> Seq<MessageModel>;

    /// The address stamped on every message this transport sends.
    spec fn send_id(&self) -> u32;

    /// Receives one payload: a Single frame alone, or a First frame
    /// answered with a flow-control grant and followed by its consecutive
    /// frames. Whatever arrived, a returned payload is the reassembly of
    /// some valid frame sequence.
    fn read_isotp(&mut self) -> (r: Result<Vec<u8>, IsotpError>)
        ensures
            final(self).send_id() == old(self).send_id(),
            r matches Ok(data) ==> reassembles(data@),
            final(self).sent_messages() == old(self).sent_messages()
                || final(self).sent_messages() == old(self).sent_messages().push(
                flow_grant(old(self).send_id()),
            ),
    ;

    /// Sends one payload as the exact frame sequence
    /// [`frames_for_payload`] prescribes, honouring the peer's
    /// flow-control pacing; on failure, a prefix of that sequence has
    /// been sent.
    fn write_isotp(&mut self, data: &[u8]) -> (r: Result<(), IsotpError>)
        requires
            data@.len() <= 4095,
        ensures
            final(self).send_id() == old(self).send_id(),
            r is Ok ==> final(self).sent_messages() == old(self).sent_messages()
                + frame_messages(frames_for_payload(data@), old(self).send_id()),
            r is Err ==> sent_prefix_of(
                old(self).sent_messages(),
                final(self).sent_messages(),
                frame_messages(frames_for_payload(data@), old(self).send_id()),
            ),
    ;

    /// One request/response exchange: sends `request` as its full frame
    /// sequence, then reads one payload (answering a multi-frame response
    /// with the flow-control grant).
    fn request_isotp(&mut self, request: &[u8]) -> (r: Result<Vec<u8>, IsotpError>)
        requires
            request@.len() <= 4095,
        ensures
            final(self).send_id() == old(self).send_id(),
            r matches Ok(data) ==> reassembles(data@),
            r is Ok ==> final(self).sent_messages() == old(self).sent_messages()
                + frame_messages(frames_for_payload(request@), old(self).send_id()) || final(self).sent_messages() == (old(self).sent_messages() + frame_messages(
                frames_for_payload(request@),
                old(self).send_id(),
            )).push(flow_grant(old(self).send_id())),
    {
        let w = self.write_isotp(request);
        match w {
            Ok(_) => self.read_isotp(),
            Err(e) => Err(e),
        }
    }
}

/// ISO-TP transport implemented in user space over a CAN capability.
/// Timing is a user-level approximation, not a certified real-time stack.
pub struct IsotpCan<C: Can> {
    pub can: C,
    pub source_id: u32,
    pub dest_id: u32,
    /// Receive deadline, in microseconds.
    pub timeout: u64,
}

impl<C: Can> IsotpCan<C> {
    /// The messages sent on the bus through this transport.
    pub closed spec fn outbox(&self) -> Seq<MessageModel> {
        self.can.outbox()
    }

    pub fn new(can: C, source_id: u32, dest_id: u32, timeout: u64) -> (r: IsotpCan<C>)
        ensures
            r.outbox() == can.outbox(),
            r.source_id == source_id,
            r.dest_id == dest_id,
            r.timeout == timeout,
    {
        IsotpCan { can, source_id, dest_id, timeout }
    }

    /// Encodes and sends one frame, stamped with the source address.
    pub fn send_frame(&mut self, frame: &Frame) -> (r: Result<(), IsotpError>)
        ensures
            final(self).source_id == old(self).source_id,
            final(self).dest_id == old(self).dest_id,
            final(self).timeout == old(self).timeout,
            r is Ok ==> final(self).outbox() == old(self).outbox().push(
                MessageModel { id: old(self).source_id, data: spec_encode(frame@) },
            ),
            r is Err ==> final(self).outbox() == old(self).outbox() && r == Err::<
                (),
                IsotpError,
            >(IsotpError::Io),
    {
        let msg = frame.as_can_message(self.source_id);
        match self.can.send_msg(&msg) {
            Ok(_) => Ok(()),
            Err(_) => Err(IsotpError::Io),
        }
    }

    /// Receives the next frame addressed by the peer, silently skipping
    /// messages from other addresses, until the configured deadline
    /// passes. The deadline clock is not reset by skipped messages.
    pub fn recv_frame(&mut self) -> (r: Result<Frame, IsotpError>)
        ensures
            final(self).source_id == old(self).source_id,
            final(self).dest_id == old(self).dest_id,
            final(self).timeout == old(self).timeout,
            final(self).outbox() == old(self).outbox(),
            r matches Ok(f) ==> exists|bytes: Seq<u8>|
                bytes.len() == 8 && #[trigger] spec_decode(bytes) == Ok::<FrameModel, IsotpError>(
                    f@,
                ),
            r matches Err(e) ==> (e == IsotpError::Io || e == IsotpError::TimedOut || e
                == IsotpError::InvalidFrameId || e == IsotpError::InvalidFcFlag),
    {
        let start = clock_micros();
        // The deadline alone bounds this loop in practice; the iteration
        // budget only makes termination a theorem.
        let mut tries: u64 = 0;
        while tries < u64::MAX
            invariant
                self.source_id == old(self).source_id,
                self.dest_id == old(self).dest_id,
                self.timeout == old(self).timeout,
                self.outbox() == old(self).outbox(),
            decreases u64::MAX - tries,
        {
            let msg = match self.can.read(self.timeout) {
                Ok(m) => m,
                Err(CanError::Io) => return Err(IsotpError::Io),
                Err(CanError::Timeout) => return Err(IsotpError::TimedOut),
            };
            if msg.id == self.dest_id {
                let r = Frame::from_message(&msg);
                proof {
                    if r is Ok {
                        assert(msg@.data.len() == 8);
                        assert(spec_decode(msg@.data) == Ok::<FrameModel, IsotpError>(
                            r->Ok_0@,
                        ));
                    }
                }
                return r;
            }
            let now = clock_micros();
            let elapsed = if now >= start {
                now - start
            } else {
                0
            };
            if elapsed >= self.timeout {
                return Err(IsotpError::TimedOut);
            }
            tries = tries + 1;
        }
        Err(IsotpError::TimedOut)
    }

    /// Waits for a flow control frame and returns its flag, block size and
    /// separation time (microseconds); any other frame is an error. A
    /// returned triple is one some 8-byte payload decodes to as a Flow
    /// frame.
    pub fn recv_flow_control_frame(&mut self) -> (r: Result<(FCFlag, u8, u64), IsotpError>)
        ensures
            final(self).source_id == old(self).source_id,
            final(self).dest_id == old(self).dest_id,
            final(self).timeout == old(self).timeout,
            final(self).outbox() == old(self).outbox(),
            r matches Ok(t) ==> exists|bytes: Seq<u8>|
                bytes.len() == 8 && #[trigger] spec_decode(bytes) == Ok::<FrameModel, IsotpError>(
                    FrameModel::Flow { flag: t.0, block_size: t.1, separation_time: t.2 },
                ),
    {
        let frame = match self.recv_frame() {
            Ok(f) => f,
            Err(e) => return Err(e),
        };
        match frame {
            Frame::Flow { flag, block_size, separation_time } => {
                proof {
                    let bytes = choose|b: Seq<u8>|
                        b.len() == 8 && #[trigger] spec_decode(b) == Ok::<
                            FrameModel,
                            IsotpError,
                        >(frame@);
                    assert(spec_decode(bytes) == Ok::<FrameModel, IsotpError>(
                        FrameModel::Flow { flag, block_size, separation_time },
                    ));
                }
                Ok((flag, block_size, separation_time))
            },
            _ => Err(IsotpError::UnexpectedFrame),
        }
    }
}

/// Appending one consecutive frame appends exactly its data bytes to the
/// receiver's run.
proof fn lemma_consec_data_snoc(frames: Seq<FrameModel>, index: u8, data: Seq<u8>)
    ensures
        consec_data(frames.push(FrameModel::Consecutive { index, data })) == consec_data(frames)
            + data,
    decreases frames.len(),
{
    let f = FrameModel::Consecutive { index, data };
    if frames.len() == 0 {
        assert(frames.push(f).skip(1) =~= Seq::<FrameModel>::empty());
        assert(frames.push(f)[0] == f);
        assert(consec_data(frames.push(f).skip(1)) == Seq::<u8>::empty());
        assert(consec_data(frames.push(f)) == data + Seq::<u8>::empty());
        assert(consec_data(frames) == Seq::<u8>::empty());
        assert(data + Seq::<u8>::empty() =~= Seq::<u8>::empty() + data);
    } else {
        lemma_consec_data_snoc(frames.skip(1), index, data);
        assert(frames.push(f).skip(1) =~= frames.skip(1).push(f));
        assert(consec_data(frames.push(f)) =~= consec_data(frames) + data);
    }
}

impl<C: Can> Isotp for IsotpCan<C> {
    open spec fn sent_messages(&self) -> Seq<MessageModel> {
        self.outbox()
    }

    open spec fn send_id(&self) -> u32 {
        self.source_id
    }

    #[verifier::spinoff_prover]
    #[verifier::rlimit(60)]
    fn read_isotp(&mut self) -> (r: Result<Vec<u8>, IsotpError>) {
        let frame = match self.recv_frame() {
            Ok(f) => f,
            Err(e) => {
                proof {
                    assert(self.outbox() == old(self).outbox());
                    assert(self.sent_messages() == old(self).sent_messages());
                    assert(self.send_id() == old(self).send_id());
                }
                return Err(e);
            },
        };
        match frame {
            Frame::Single { length, data } => {
                let n: usize = if (length as usize) < 7 {
                    length as usize
                } else {
                    7
                };
                let mut out: Vec<u8> = Vec::new();
                let mut i: usize = 0;
                while i < n
                    invariant
                        i <= n,
                        n <= 7,
                        data@.len() == 7,
                        out@ == data@.take(i as int),
                    decreases n - i,
                {
                    out.push(data[i]);
                    proof {
                        assert(data@.take(i + 1 as int) =~= data@.take(i as int).push(
                            data@[i as int],
                        ));
                    }
                    i = i + 1;
                }
                proof {
                    let gframes = seq![frame@];
                    assert(valid_reassembly(gframes, out@));
                    assert(reassembles(out@));
                }
                Ok(out)
            },
            Frame::First { size, data } => {
                let h: usize = if (size as usize) < 6 {
                    size as usize
                } else {
                    6
                };
                let mut buffer: Vec<u8> = Vec::new();
                let mut i: usize = 0;
                while i < h
                    invariant
                        i <= h,
                        h <= 6,
                        data@.len() == 6,
                        buffer@ == data@.take(i as int),
                    decreases h - i,
                {
                    buffer.push(data[i]);
                    proof {
                        assert(data@.take(i + 1 as int) =~= data@.take(i as int).push(
                            data@[i as int],
                        ));
                    }
                    i = i + 1;
                }
                let mut remaining: usize = (size as usize) - h;
                // Grant the sender unconditional continuation: this
                // implementation never throttles inbound traffic.
                let fc = Frame::Flow {
                    flag: FCFlag::Continue,
                    block_size: 0,
                    separation_time: st_to_duration(0),
                };
                match self.send_frame(&fc) {
                    Ok(_) => (),
                    Err(e) => return Err(e),
                }
                proof {
                    assert(spec_encode(fc@) == flow_grant(old(self).source_id).data);
                }
                let ghost first_model = frame@;
                let ghost head = data@.take(h as int);
                let ghost r0: int = size - h;
                let ghost mut gframes: Seq<FrameModel> = Seq::empty();
                let mut index: u8 = 1;
                while remaining > 0
                    invariant
                        self.source_id == old(self).source_id,
                        self.dest_id == old(self).dest_id,
                        self.timeout == old(self).timeout,
                        self.outbox() == old(self).outbox().push(
                            flow_grant(old(self).source_id),
                        ),
                        index <= 15,
                        buffer@ == head + consec_data(gframes),
                        forall|rest: Seq<FrameModel>|
                            consec_run_ok(rest, remaining as int, index) ==> consec_run_ok(
                                gframes + rest,
                                r0,
                                1,
                            ),
                    decreases remaining,
                {
                    let f2 = match self.recv_frame() {
                        Ok(f) => f,
                        Err(e) => return Err(e),
                    };
                    let (msg_index, cdata) = match f2 {
                        Frame::Consecutive { index: idx, data: d } => (idx, d),
                        _ => return Err(IsotpError::UnexpectedFrame),
                    };
                    if msg_index != index {
                        return Err(IsotpError::InvalidIndex);
                    }
                    let len: usize = if remaining < 7 {
                        remaining
                    } else {
                        7
                    };
                    let mut j: usize = 0;
                    let ghost buf0 = buffer@;
                    while j < 7
                        invariant
                            j <= 7,
                            cdata@.len() == 7,
                            buffer@ == buf0 + cdata@.take(j as int),
                        decreases 7 - j,
                    {
                        buffer.push(cdata[j]);
                        proof {
                            assert(cdata@.take(j + 1 as int) =~= cdata@.take(j as int).push(
                                cdata@[j as int],
                            ));
                            assert(buf0 + cdata@.take(j + 1 as int) =~= (buf0 + cdata@.take(
                                j as int,
                            )).push(cdata@[j as int]));
                        }
                        j = j + 1;
                    }
                    let ghost rem1: int = remaining as int;
                    let ghost idx1 = index;
                    let ghost gframes1 = gframes;
                    remaining = remaining - len;
                    index = index + 1;
                    if index == 16 {
                        index = 0;
                    }
                    proof {
                        let cf = FrameModel::Consecutive { index: idx1, data: cdata@ };
                        gframes = gframes1.push(cf);
                        assert(cdata@.take(7) =~= cdata@);
                        lemma_consec_data_snoc(gframes1, idx1, cdata@);
                        assert(buffer@ == head + consec_data(gframes));
                        assert(index == next_index16(idx1));
                        assert forall|rest2: Seq<FrameModel>|
                            consec_run_ok(rest2, remaining as int, index) implies consec_run_ok(
                            gframes + rest2,
                            r0,
                            1,
                        ) by {
                            assert((seq![cf] + rest2).skip(1) =~= rest2);
                            assert(consec_run_ok(seq![cf] + rest2, rem1, idx1));
                            assert(gframes1 + (seq![cf] + rest2) =~= gframes + rest2);
                        }
                    }
                }
                proof {
                    assert(consec_run_ok(Seq::<FrameModel>::empty(), 0, index));
                    assert(gframes + Seq::<FrameModel>::empty() =~= gframes);
                    assert(consec_run_ok(gframes, r0, 1));
                    let all = seq![first_model] + gframes;
                    assert(all.skip(1) =~= gframes);
                    assert(valid_reassembly(all, buffer@));
                    assert(reassembles(buffer@));
                }
                Ok(buffer)
            },
            _ => Err(IsotpError::UnexpectedFrame),
        }
    }

    #[verifier::spinoff_prover]
    #[verifier::rlimit(60)]
    fn write_isotp(&mut self, data: &[u8]) -> (r: Result<(), IsotpError>) {
        let ghost fs = frames_for_payload(data@);
        let ghost msgs = frame_messages(fs, self.source_id);
        proof {
            assert(msgs == frame_messages(frames_for_payload(data@), old(self).send_id()));
        }
        if data.len() <= 7 {
            // The whole payload fits one Single frame; no flow control is
            // exchanged.
            let f = Frame::single(data);
            proof {
                assert(fs =~= seq![f@]);
            }
            match self.send_frame(&f) {
                Ok(_) => {
                    proof {
                        assert(final(self).outbox() =~= old(self).outbox() + msgs);
                    }
                    Ok(())
                },
                Err(e) => {
                    proof {
                        assert(self.outbox() =~= old(self).outbox() + msgs.take(0));
                        assert(sent_prefix_of(old(self).sent_messages(), self.sent_messages(), msgs));
                    }
                    Err(e)
                },
            }
        } else {
            let mut packet = SendPacket::new(data);
            let first = packet.first_frame();
            proof {
                assert(fs[0] == first@);
            }
            match self.send_frame(&first) {
                Ok(_) => (),
                Err(e) => {
                    proof {
                        assert(self.outbox() =~= old(self).outbox() + msgs.take(0));
                        assert(sent_prefix_of(old(self).sent_messages(), self.sent_messages(), msgs));
                    }
                    return Err(e);
                },
            }
            let ghost mut sent: int = 1;
            proof {
                assert(self.outbox() =~= old(self).outbox() + msgs.take(1));
                assert(fs.skip(1) =~= consec_frames(packet.remaining(), packet.next_index()));
            }
            // Wait for the peer's first flow-control grant.
            let (flag, block_size, separation_time) = match self.recv_flow_control_frame() {
                Ok(t) => t,
                Err(e) => {
                    proof {
                        assert(self.outbox() == old(self).outbox() + msgs.take(sent));
                        assert(sent_prefix_of(old(self).sent_messages(), self.sent_messages(), msgs));
                    }
                    return Err(e);
                },
            };
            // The Overflow flag is read but deliberately not acted upon:
            // no abort or backoff path exists for it.
            let mut flag = flag;
            let mut block_size = block_size;
            let mut separation_time = separation_time;
            while !packet.eof()
                invariant
                    self.source_id == old(self).source_id,
                    self.dest_id == old(self).dest_id,
                    self.timeout == old(self).timeout,
                    packet.wf(),
                    packet.next_index() <= 15,
                    1 <= sent <= fs.len(),
                    fs.skip(sent) == consec_frames(packet.remaining(), packet.next_index()),
                    packet.remaining().len() == 0 ==> sent == fs.len(),
                    self.outbox() == old(self).outbox() + msgs.take(sent),
                    fs == frames_for_payload(data@),
                    msgs == frame_messages(fs, old(self).source_id),
                    data@.len() > 7,
                decreases packet.remaining().len(),
            {
                if separation_time != 0 {
                    self.can.wait(separation_time);
                }
                let ghost rem1 = packet.remaining();
                let ghost idx1 = packet.next_index();
                let frame = packet.next_consec_frame();
                proof {
                    assert(consec_frames(rem1, idx1) == seq![frame@] + consec_frames(
                        rest7(rem1),
                        next_index16(idx1),
                    ));
                    assert(consec_frames(rem1, idx1).len() >= 1);
                    assert(fs.skip(sent).len() == fs.len() - sent);
                    assert(sent < fs.len());
                    assert(fs[sent] == fs.skip(sent)[0]);
                    assert(fs[sent] == frame@);
                }
                match self.send_frame(&frame) {
                    Ok(_) => (),
                    Err(e) => {
                        proof {
                            assert(self.outbox() == old(self).outbox() + msgs.take(sent));
                            assert(sent_prefix_of(old(self).sent_messages(), self.sent_messages(), msgs));
                        }
                        return Err(e);
                    },
                }
                proof {
                    assert(msgs[sent] == (MessageModel {
                        id: old(self).source_id,
                        data: spec_encode(fs[sent]),
                    }));
                    assert((old(self).outbox() + msgs.take(sent)).push(msgs[sent])
                        =~= old(self).outbox() + msgs.take(sent + 1));
                    sent = sent + 1;
                    assert(fs.skip(sent) =~= consec_frames(rem1, idx1).skip(1));
                    assert(consec_frames(rem1, idx1).skip(1) =~= consec_frames(
                        rest7(rem1),
                        next_index16(idx1),
                    ));
                    if packet.remaining().len() == 0 {
                        assert(consec_frames(packet.remaining(), packet.next_index()).len() == 0);
                        assert(sent == fs.len());
                    }
                }
                if !packet.eof() && block_size > 0 {
                    block_size = block_size - 1;
                    if block_size == 0 {
                        // The grant is exhausted: wait for a fresh one and
                        // adopt its pacing.
                        let (f_flag, f_block_size, f_separation_time) = match self
                            .recv_flow_control_frame() {
                            Ok(t) => t,
                            Err(e) => {
                                proof {
                                    assert(self.outbox() == old(self).outbox() + msgs.take(sent));
                                    assert(sent_prefix_of(old(self).sent_messages(), self.sent_messages(), msgs));
                                }
                                return Err(e);
                            },
                        };
                        flag = f_flag;
                        block_size = f_block_size;
                        separation_time = f_separation_time;
                    }
                }
            }
            proof {
                assert(sent == fs.len());
                assert(msgs.take(sent) =~= msgs);
            }
            Ok(())
        }
    }
}

} // verus!

