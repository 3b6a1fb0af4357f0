//! Vehicle-specific session layer: security-access authentication and the
//! two paced, resumable bulk-transfer state machines (memory download and
//! flash programming).
//!
//! The layer consumes a single request/response diagnostic capability
//! ([`Uds`]) whose implementations live outside the verified library. The
//! capability keeps a ghost history of the exchanges made through it, and
//! every contract here is stated over that history: authentication, for
//! instance, promises that the key submitted is exactly the one
//! [`crate::security::spec_generate_key`] derives from the seed the ECU
//! handed out.

use vstd::prelude::*;
use vstd::seq_lib::*;
use vstd::string::StringSliceAdditionalSpecFns;
use crate::security::{generate_key, spec_generate_key};

verus! {

/// The fixed shared secret of the key algorithm.
pub const MZR_KEY: &'static str = "MazdA";

/// The fixed 24-bit mixing parameter of the key algorithm.
pub const MZR_PARAMETER: u32 = 0xC541A9;

/// The diagnostic address of the engine control unit.
pub const ECU_ADDR: u32 = 0x7e0;

const UDS_REQ_REQUESTDOWNLOAD: u8 = 0x34;

const UDS_REQ_TRANSFERDATA: u8 = 0x36;

/// The secret's bytes: "MazdA" in ASCII.
pub open spec fn mzr_secret() -> Seq<u8> {
    seq![0x4du8, 0x61u8, 0x7au8, 0x64u8, 0x41u8]
}

proof fn lemma_mzr_key_bytes()
    ensures
        MZR_KEY.spec_bytes() == mzr_secret(),
{
    reveal_strlit("MazdA");
    assert(vstd::string::is_ascii("MazdA"));
    vstd::string::is_ascii_spec_bytes("MazdA");
    assert("MazdA".spec_bytes() =~= mzr_secret());
}

/// A transmission failure of the underlying request/response layer.
#[derive(Clone, Copy, Debug, PartialEq, Eq, Structural)]
pub struct UdsError;

/// Session-layer errors.
#[derive(Clone, Copy, Debug, PartialEq, Eq, Structural)]
pub enum MzrError {
    /// The ECU answered a memory read with an empty packet.
    EmptyPacket,
    /// Flash memory must be erased before programming.
    NotErased,
    /// A transmission error of the underlying diagnostic layer.
    Obd(UdsError),
}

/// One exchange made through a diagnostic capability, as the ghost
/// history records it.
pub enum UdsEvent {
    SetSession { addr: u32, session_id: u8 },
    SecuritySeed { addr: u32, seed: Seq<u8> },
    SecurityKey { addr: u32, key: Seq<u8> },
    Query { addr: u32, service: u8, request: Seq<u8>, response: Seq<u8> },
    ReadMemory { addr: u32, offset: u32, length: u16, response: Seq<u8> },
}

/// A single request/response diagnostic capability. Implementations (a
/// PassThru or ISO-TP driver) live outside the verified library; the
/// contracts here are the capability's interface promises, which every
/// implementation is expected to honour: `history` records exactly the
/// exchanges that succeeded, and a memory read returns at most the
/// requested number of bytes.
pub trait Uds {
    /// The exchanges made through this capability so far, oldest first.
    /// Implementations outside the verified library leave it at the
    /// default; verification never relies on the default's value.
    open spec fn history(&self) -> Seq<UdsEvent> {
        arbitrary()
    }

    /// Switches the diagnostic session.
    fn set_diagnostic_session(&mut self, addr: u32, session_id: u8) -> (r: Result<(), UdsError>)
        ensures
            r is Ok ==> final(self).history() == old(self).history().push(
                UdsEvent::SetSession { addr, session_id },
            ),
            r is Err ==> final(self).history() == old(self).history(),
    ;

    /// Requests a security-access seed.
    fn request_security_seed(&mut self, addr: u32) -> (r: Result<Vec<u8>, UdsError>)
        ensures
            r matches Ok(seed) ==> final(self).history() == old(self).history().push(
                UdsEvent::SecuritySeed { addr, seed: seed@ },
            ),
            r is Err ==> final(self).history() == old(self).history(),
    ;

    /// Submits a security-access key.
    fn request_security_key(&mut self, addr: u32, key: &[u8]) -> (r: Result<(), UdsError>)
        ensures
            r is Ok ==> final(self).history() == old(self).history().push(
                UdsEvent::SecurityKey { addr, key: key@ },
            ),
            r is Err ==> final(self).history() == old(self).history(),
    ;

    /// One raw request/response exchange under a service id.
    fn query_uds(&mut self, addr: u32, service: u8, request: &[u8]) -> (r: Result<
        Vec<u8>,
        UdsError,
    >)
        ensures
            r matches Ok(response) ==> final(self).history() == old(self).history().push(
                UdsEvent::Query { addr, service, request: request@, response: response@ },
            ),
            r is Err ==> final(self).history() == old(self).history(),
    ;

    /// Reads up to `length` bytes of memory at `offset`.
    fn read_memory_address(&mut self, addr: u32, offset: u32, length: u16) -> (r: Result<
        Vec<u8>,
        UdsError,
    >)
        ensures
            r matches Ok(response) ==> response@.len() <= length && final(self).history() == old(self).history().push(
                UdsEvent::ReadMemory { addr, offset, length, response: response@ },
            ),
            r is Err ==> final(self).history() == old(self).history(),
    ;
}

/// The big-endian bytes of a 32-bit value.
pub open spec fn be32(x: u32) -> Seq<u8> {
    seq![
        (((x & 0xFF00_0000) >> 24) as u8),
        (((x & 0xFF_0000) >> 16) as u8),
        (((x & 0xFF00) >> 8) as u8),
        ((x & 0xFF) as u8),
    ]
}

/// The exchanges of one successful authentication under `session_id`:
/// the session switch, the seed the ECU handed out, and the submission of
/// exactly the key derived from that seed.
pub open spec fn auth_events(session_id: u8, seed: Seq<u8>) -> Seq<UdsEvent> {
    seq![
        UdsEvent::SetSession { addr: 0x7e0, session_id },
        UdsEvent::SecuritySeed { addr: 0x7e0, seed },
        UdsEvent::SecurityKey {
            addr: 0x7e0,
            key: spec_generate_key(mzr_secret(), 0xC541A9, seed),
        },
    ]
}

/// Between `pre` and `post`, one authentication under `session_id`
/// succeeded: for some seed, the three authentication exchanges were
/// appended.
pub open spec fn authenticated(pre: Seq<UdsEvent>, post: Seq<UdsEvent>, session_id: u8) -> bool {
    exists|seed: Seq<u8>| post == pre + auth_events(session_id, seed)
}

/// Between `pre` and `post`, one download request for `length` bytes at
/// `offset` was exchanged (the response is not interpreted).
pub open spec fn download_requested(
    pre: Seq<UdsEvent>,
    post: Seq<UdsEvent>,
    offset: u32,
    length: u32,
) -> bool {
    exists|response: Seq<u8>|
        post == pre.push(
            UdsEvent::Query {
                addr: 0x7e0,
                service: 0x34,
                request: be32(offset) + be32(length),
                response,
            },
        )
}

/// Between `pre` and `post`, one chunk of `payload` was transferred
/// verbatim (the response is not interpreted).
pub open spec fn transferred(pre: Seq<UdsEvent>, post: Seq<UdsEvent>, payload: Seq<u8>) -> bool {
    exists|response: Seq<u8>|
        post == pre.push(
            UdsEvent::Query { addr: 0x7e0, service: 0x36, request: payload, response },
        )
}

/// MZR-DISI specific operations, layered over any diagnostic capability.
pub trait MzrBus {
    /// The exchanges made through the underlying capability.
    spec fn events(&self) -> Seq<UdsEvent>;

    /// Switches to `session_id`, requests a seed, and answers it with the
    /// derived key. Fails with the underlying transmission error if any
    /// step fails; does not retry.
    fn authenticate(&mut self, session_id: u8) -> (r: Result<(), MzrError>)
        ensures
            r is Ok ==> authenticated(old(self).events(), final(self).events(), session_id),
            r is Err ==> (r matches Err(MzrError::Obd(_))) && old(self).events().is_prefix_of(
                final(self).events(),
            ),
    ;

    /// Requests a download of `length` bytes of the target address space
    /// at `offset`, packed big-endian into one 8-byte request.
    fn request_download(&mut self, offset: u32, length: u32) -> (r: Result<(), MzrError>)
        ensures
            r is Ok ==> download_requested(
                old(self).events(),
                final(self).events(),
                offset,
                length,
            ),
            r is Err ==> (r matches Err(MzrError::Obd(_))) && final(self).events() == old(self).events(),
    ;

    /// Forwards one chunk of data verbatim inside a diagnostic request.
    fn transfer_data(&mut self, data: &[u8]) -> (r: Result<(), MzrError>)
        ensures
            r is Ok ==> transferred(old(self).events(), final(self).events(), data@),
            r is Err ==> (r matches Err(MzrError::Obd(_))) && final(self).events() == old(self).events(),
    ;
}

impl<T: Uds> MzrBus for T {
    open spec fn events(&self) -> Seq<UdsEvent> {
        self.history()
    }

    fn authenticate(&mut self, session_id: u8) -> (r: Result<(), MzrError>) {
        match self.set_diagnostic_session(ECU_ADDR, session_id) {
            Ok(_) => (),
            Err(e) => {
                proof {
                    assert(old(self).history() =~= self.history().subrange(
                        0,
                        old(self).history().len() as int,
                    ));
                }
                return Err(MzrError::Obd(e));
            },
        }
        let seed = match self.request_security_seed(ECU_ADDR) {
            Ok(s) => s,
            Err(e) => {
                proof {
                    assert(old(self).history() =~= self.history().subrange(
                        0,
                        old(self).history().len() as int,
                    ));
                }
                return Err(MzrError::Obd(e));
            },
        };
        let key = generate_key(MZR_KEY, MZR_PARAMETER, &seed);
        proof {
            lemma_mzr_key_bytes();
        }
        match self.request_security_key(ECU_ADDR, &key) {
            Ok(_) => (),
            Err(e) => {
                proof {
                    assert(old(self).history() =~= self.history().subrange(
                        0,
                        old(self).history().len() as int,
                    ));
                }
                return Err(MzrError::Obd(e));
            },
        }
        proof {
            assert(self.history() =~= old(self).history() + auth_events(session_id, seed@));
            assert(authenticated(old(self).history(), self.history(), session_id));
        }
        Ok(())
    }

    fn request_download(&mut self, offset: u32, length: u32) -> (r: Result<(), MzrError>) {
        let req: [u8; 8] = [
            ((offset & 0xFF00_0000) >> 24) as u8,
            ((offset & 0xFF_0000) >> 16) as u8,
            ((offset & 0xFF00) >> 8) as u8,
            (offset & 0xFF) as u8,
            ((length & 0xFF00_0000) >> 24) as u8,
            ((length & 0xFF_0000) >> 16) as u8,
            ((length & 0xFF00) >> 8) as u8,
            (length & 0xFF) as u8,
        ];
        proof {
            assert(req@ =~= be32(offset) + be32(length));
        }
        match self.query_uds(ECU_ADDR, UDS_REQ_REQUESTDOWNLOAD, vstd::array::array_as_slice(&req)) {
            Ok(_) => {
                proof {
                    assert(download_requested(
                        old(self).history(),
                        self.history(),
                        offset,
                        length,
                    ));
                }
                Ok(())
            },
            Err(e) => Err(MzrError::Obd(e)),
        }
    }

    fn transfer_data(&mut self, data: &[u8]) -> (r: Result<(), MzrError>) {
        match self.query_uds(ECU_ADDR, UDS_REQ_TRANSFERDATA, data) {
            Ok(_) => {
                proof {
                    assert(transferred(old(self).history(), self.history(), data@));
                }
                Ok(())
            },
            Err(e) => Err(MzrError::Obd(e)),
        }
    }
}

/// The number of bytes one bulk-transfer step asks for: at most 0xFFE.
pub open spec fn step_request(remaining: int) -> int {
    if remaining <= 0xFFE {
        remaining
    } else {
        0xFFE
    }
}

/// Progress of a memory download.
#[derive(Clone, Copy, Debug, PartialEq, Eq, Structural)]
pub enum DownloadState {
    /// Length downloaded so far.
    InProgress(usize),
    Completed,
}

/// Drives repeated memory reads into an in-memory buffer until the fixed
/// total size is reached. Created per operation; the total size is 1 MiB
/// regardless of actual content, so callers must slice meaningfully on
/// completion.
pub struct Downloader<M: Uds> {
    offset: u32,
    remaining: usize,
    data: Vec<u8>,
    bus: M,
}

impl<M: Uds> Downloader<M> {
    /// The bytes downloaded so far.
    pub closed spec fn downloaded(&self) -> Seq<u8> {
        self.data@
    }

    /// The bytes still owed.
    pub closed spec fn remaining(&self) -> int {
        self.remaining as int
    }

    /// The next offset into the target address space.
    pub closed spec fn offset(&self) -> u32 {
        self.offset
    }

    /// The exchanges made through the underlying capability.
    pub closed spec fn events(&self) -> Seq<UdsEvent> {
        self.bus.history()
    }

    /// The downloaded bytes and the remainder always cover the fixed
    /// total, and the offset tracks the bytes downloaded.
    pub closed spec fn wf(&self) -> bool {
        self.data@.len() + self.remaining == 0x10_0000 && self.offset == self.data@.len()
    }

    pub fn new(bus: M) -> (r: Downloader<M>)
        ensures
            r.wf(),
            r.downloaded() == Seq::<u8>::empty(),
            r.remaining() == 0x10_0000,
            r.offset() == 0,
            r.events() == bus.history(),
    {
        Downloader { offset: 0, remaining: 1024 * 1024, data: Vec::with_capacity(1024 * 1024), bus }
    }

    /// Returns the total download size.
    pub fn total_size(&self) -> (r: usize)
        ensures
            r == 0x10_0000,
    {
        1024 * 1024
    }

    /// Authenticates under the read-privileged session id.
    pub fn start(&mut self) -> (r: Result<(), MzrError>)
        ensures
            final(self).wf() == old(self).wf(),
            final(self).downloaded() == old(self).downloaded(),
            final(self).remaining() == old(self).remaining(),
            final(self).offset() == old(self).offset(),
            r is Ok ==> authenticated(old(self).events(), final(self).events(), 0x87),
            r is Err ==> (r matches Err(MzrError::Obd(_))) && old(self).events().is_prefix_of(
                final(self).events(),
            ),
    {
        self.bus.authenticate(0x87)
    }

    /// One successful step: a chunk of 1 to `step_request(remaining)`
    /// bytes was read at the old offset, appended to the buffer, and the
    /// counters advanced by its length.
    pub open spec fn stepped(pre: Self, post: Self) -> bool {
        exists|chunk: Seq<u8>|
            {
                &&& 0 < chunk.len() <= step_request(pre.remaining())
                &&& post.downloaded() == pre.downloaded() + chunk
                &&& post.remaining() == pre.remaining() - chunk.len()
                &&& post.offset() == pre.offset() + chunk.len()
                &&& post.events() == pre.events().push(
                    UdsEvent::ReadMemory {
                        addr: 0x7e0,
                        offset: pre.offset(),
                        length: step_request(pre.remaining()) as u16,
                        response: chunk,
                    },
                )
            }
    }

    /// The next download step: reads a bounded chunk at the current
    /// offset and appends it. A zero-byte answer is a fatal anomaly
    /// (`EmptyPacket`), not end-of-data. Once the total is reached,
    /// `Completed` is returned idempotently.
    pub fn step(&mut self) -> (r: Result<DownloadState, MzrError>)
        requires
            old(self).wf(),
        ensures
            final(self).wf(),
            r != Err::<DownloadState, MzrError>(MzrError::NotErased),
            old(self).remaining() == 0 ==> r == Ok::<DownloadState, MzrError>(
                DownloadState::Completed,
            ) && *final(self) == *old(self),
            r matches Ok(DownloadState::InProgress(n)) ==> old(self).remaining() > 0
                && Self::stepped(*old(self), *final(self)) && n == final(self).downloaded().len()
                && final(self).remaining() > 0,
            r == Ok::<DownloadState, MzrError>(DownloadState::Completed) && old(self).remaining() > 0 ==> Self::stepped(*old(self), *final(self)) && final(self).remaining() == 0,
            r == Err::<DownloadState, MzrError>(MzrError::EmptyPacket) ==> final(self).downloaded() == old(self).downloaded() && final(self).remaining() == old(self).remaining() && final(self).offset() == old(self).offset() && final(self).events() == old(self).events().push(
                UdsEvent::ReadMemory {
                    addr: 0x7e0,
                    offset: old(self).offset(),
                    length: step_request(old(self).remaining()) as u16,
                    response: Seq::<u8>::empty(),
                },
            ),
            r matches Err(MzrError::Obd(_)) ==> final(self).downloaded() == old(self).downloaded() && final(self).remaining() == old(self).remaining() && final(self).offset() == old(self).offset() && final(self).events() == old(self).events(),
    {
        if self.remaining == 0 {
            return Ok(DownloadState::Completed);
        }
        let want: u16 = if self.remaining < 0xFFE {
            self.remaining as u16
        } else {
            0xFFE
        };
        let section = match self.bus.read_memory_address(ECU_ADDR, self.offset, want) {
            Ok(s) => s,
            Err(e) => return Err(MzrError::Obd(e)),
        };
        if section.is_empty() {
            proof {
                assert(section@ =~= Seq::<u8>::empty());
            }
            return Err(MzrError::EmptyPacket);
        }

        // Add the response to the buffer.
        self.data.extend_from_slice(section.as_slice());
        self.offset = self.offset + (section.len() as u32);
        self.remaining = self.remaining - section.len();

        proof {
            let chunk = section@;
            assert(0 < chunk.len() <= step_request(old(self).remaining()));
            assert(self.downloaded() == old(self).downloaded() + chunk);
            assert(self.remaining() == old(self).remaining() - chunk.len());
            assert(self.offset() == old(self).offset() + chunk.len());
            assert(self.events() == old(self).events().push(
                UdsEvent::ReadMemory {
                    addr: 0x7e0,
                    offset: old(self).offset(),
                    length: step_request(old(self).remaining()) as u16,
                    response: chunk,
                },
            ));
            assert(Self::stepped(*old(self), *self));
        }
        if self.remaining > 0 {
            Ok(DownloadState::InProgress(self.data.len()))
        } else {
            Ok(DownloadState::Completed)
        }
    }

    /// Hands the accumulated buffer out, consuming the session.
    pub fn take_data(self) -> (r: Vec<u8>)
        ensures
            r@ == self.downloaded(),
    {
        self.data
    }
}

/// Progress of a flash programming run.
#[derive(Clone, Copy, Debug, PartialEq, Eq, Structural)]
pub enum ProgrammerState {
    /// Length uploaded so far.
    InProgress(usize),
    Completed,
}

/// Drives an erase, a download request, and repeated chunked writes until
/// the supplied buffer is fully transferred. Created per operation.
pub struct Programmer<M: Uds> {
    offset: u32,
    position: usize,
    data: Vec<u8>,
    bus: M,
    erased: bool,
}

impl<M: Uds> Programmer<M> {
    /// The bytes to be programmed.
    pub closed spec fn source(&self) -> Seq<u8> {
        self.data@
    }

    /// How many bytes have been transferred.
    pub closed spec fn position(&self) -> int {
        self.position as int
    }

    /// The base offset into the target address space.
    pub closed spec fn offset(&self) -> u32 {
        self.offset
    }

    /// Whether the erase/download-request phase completed, which gates
    /// every per-chunk transfer.
    pub closed spec fn erased(&self) -> bool {
        self.erased
    }

    /// The exchanges made through the underlying capability.
    pub closed spec fn events(&self) -> Seq<UdsEvent> {
        self.bus.history()
    }

    /// The cursor stays within the buffer, whose length fits the 32-bit
    /// length field of the download request.
    pub closed spec fn wf(&self) -> bool {
        self.position <= self.data@.len() && self.data@.len() <= 0xFFFF_FFFF
    }

    pub fn new(bus: M, offset: u32, data: Vec<u8>) -> (r: Programmer<M>)
        requires
            data@.len() <= 0xFFFF_FFFF,
        ensures
            r.wf(),
            r.source() == data@,
            r.position() == 0,
            r.offset() == offset,
            !r.erased(),
            r.events() == bus.history(),
    {
        Programmer { offset, position: 0, data, bus, erased: false }
    }

    /// Returns the total data length.
    pub fn total_size(&self) -> (r: usize)
        ensures
            r == self.source().len(),
    {
        self.data.len()
    }

    /// The exchanges of one successful `start`: an authentication under
    /// the write-privileged session id, the fixed erase command, and a
    /// download request for everything still to send.
    pub open spec fn started(pre: Self, post: Self) -> bool {
        exists|mid: Seq<UdsEvent>, erase_response: Seq<u8>|
            {
                &&& authenticated(pre.events(), mid, 0x85)
                &&& download_requested(
                    mid.push(
                        UdsEvent::Query {
                            addr: 0x7e0,
                            service: 0xB1,
                            request: seq![0x00u8, 0xB2u8, 0x00u8],
                            response: erase_response,
                        },
                    ),
                    post.events(),
                    pre.offset(),
                    (pre.source().len() - pre.position()) as u32,
                )
            }
    }

    /// Authenticates under the write-privileged session id, erases the
    /// flash memory, requests the download, and only then marks the
    /// session ready for transfers. Must be called before `step`.
    pub fn start(&mut self) -> (r: Result<(), MzrError>)
        requires
            old(self).wf(),
        ensures
            final(self).wf(),
            final(self).source() == old(self).source(),
            final(self).position() == old(self).position(),
            final(self).offset() == old(self).offset(),
            r is Ok ==> final(self).erased() && Self::started(*old(self), *final(self)),
            r is Err ==> (r matches Err(MzrError::Obd(_))) && final(self).erased() == old(self).erased() && old(self).events().is_prefix_of(final(self).events()),
    {
        match self.bus.authenticate(0x85) {
            Ok(_) => (),
            Err(e) => return Err(e),
        }
        let ghost mid0 = self.bus.history();
        // Erase the flash memory.
        let erase_cmd: [u8; 3] = [0x00, 0xB2, 0x00];
        match self.bus.query_uds(ECU_ADDR, 0xB1, vstd::array::array_as_slice(&erase_cmd)) {
            Ok(_) => (),
            Err(e) => {
                proof {
                    lemma_authenticated_prefix(old(self).events(), self.events(), 0x85);
                }
                return Err(MzrError::Obd(e));
            },
        }
        let length: u32 = (self.data.len() - self.position) as u32;
        match self.bus.request_download(self.offset, length) {
            Ok(_) => (),
            Err(e) => {
                proof {
                    lemma_authenticated_prefix(old(self).events(), mid0, 0x85);
                    assert(old(self).events().is_prefix_of(self.events()));
                }
                return Err(e);
            },
        }
        self.erased = true;
        proof {
            assert(erase_cmd@ =~= seq![0x00u8, 0xB2u8, 0x00u8]);
            assert(Self::started(*old(self), *self));
        }
        Ok(())
    }

    /// One successful transfer step: the next chunk of up to 0xFFE source
    /// bytes went out verbatim and the cursor advanced past it.
    pub open spec fn stepped(pre: Self, post: Self) -> bool {
        &&& post.position() == pre.position() + step_request(pre.source().len() - pre.position())
        &&& transferred(
            pre.events(),
            post.events(),
            pre.source().subrange(pre.position(), post.position()),
        )
    }

    /// The next programming step: fails with `NotErased` before a
    /// successful `start`; transfers up to 0xFFE bytes per call; returns
    /// `Completed` once the cursor reaches the end of the buffer.
    pub fn step(&mut self) -> (r: Result<ProgrammerState, MzrError>)
        requires
            old(self).wf(),
        ensures
            final(self).wf(),
            final(self).source() == old(self).source(),
            final(self).offset() == old(self).offset(),
            final(self).erased() == old(self).erased(),
            r != Err::<ProgrammerState, MzrError>(MzrError::EmptyPacket),
            !old(self).erased() ==> r == Err::<ProgrammerState, MzrError>(MzrError::NotErased)
                && *final(self) == *old(self),
            old(self).erased() && old(self).position() == old(self).source().len() ==> r == Ok::<
                ProgrammerState,
                MzrError,
            >(ProgrammerState::Completed) && *final(self) == *old(self),
            r matches Ok(ProgrammerState::InProgress(n)) ==> old(self).erased() && old(self).position() < old(self).source().len() && Self::stepped(*old(self), *final(self))
                && n == final(self).position() && final(self).position() < final(self).source().len(),
            r == Ok::<ProgrammerState, MzrError>(ProgrammerState::Completed) && old(self).erased() && old(self).position() < old(self).source().len() ==> Self::stepped(
                *old(self),
                *final(self),
            ) && final(self).position() == final(self).source().len(),
            r matches Err(MzrError::Obd(_)) ==> final(self).position() == old(self).position()
                && final(self).erased() == old(self).erased() && final(self).events() == old(self).events(),
    {
        if !self.erased {
            return Err(MzrError::NotErased);
        }
        if self.position == self.data.len() {
            return Ok(ProgrammerState::Completed);
        }

        let to_send: usize = if self.data.len() - self.position < 0xFFE {
            self.data.len() - self.position
        } else {
            0xFFE
        };
        let chunk = vstd::slice::slice_subrange(
            self.data.as_slice(),
            self.position,
            self.position + to_send,
        );
        match self.bus.transfer_data(chunk) {
            Ok(_) => (),
            Err(e) => return Err(e),
        }
        self.position = self.position + to_send;

        proof {
            assert(Self::stepped(*old(self), *self));
        }
        if self.position != self.data.len() {
            Ok(ProgrammerState::InProgress(self.position))
        } else {
            Ok(ProgrammerState::Completed)
        }
    }
}

/// The bytes still owed after some number of download steps in which the
/// ECU answered every request with the full chunk asked for, starting
/// from the fixed 1 MiB total. One application per successful step: a
/// full-chunk step is [`Downloader::stepped`] with a chunk of exactly
/// `step_request(remaining)` bytes, which takes `remaining` to
/// `remaining - step_request(remaining)`.
pub open spec fn download_remaining_after(k: nat) -> int
    decreases k,
{
    if k == 0 {
        0x10_0000
    } else {
        let r = download_remaining_after((k - 1) as nat);
        r - step_request(r)
    }
}

/// Full-chunk download schedule: each of the first 256 steps takes a
/// whole 0xFFE-byte chunk, leaving `0x10_0000 - 0xFFE * k` bytes owed
/// after the k-th.
pub proof fn lemma_download_full_chunk_schedule(k: nat)
    requires
        k <= 256,
    ensures
        download_remaining_after(k) == 0x10_0000 - 0xFFE * (k as int),
    decreases k,
{
    if k > 0 {
        lemma_download_full_chunk_schedule((k - 1) as nat);
    }
}

/// A full-chunk download run completes in exactly
/// `ceil(0x10_0000 / 0xFFE) == 257` steps: bytes are still owed after
/// every earlier step, 512 bytes remain for the last one, and it reaches
/// zero.
pub proof fn lemma_download_completes_at_least_step_count()
    ensures
        download_remaining_after(256) == 512,
        download_remaining_after(257) == 0,
        forall|k: nat| k < 257 ==> #[trigger] download_remaining_after(k) > 0,
{
    lemma_download_full_chunk_schedule(256);
    assert(download_remaining_after(257) == 512 - step_request(512));
    assert forall|k: nat| k < 257 implies #[trigger] download_remaining_after(k) > 0 by {
        lemma_download_full_chunk_schedule(k);
    }
}

/// The transfer cursor after some number of programming steps over a
/// buffer of `total` bytes. One application per successful step:
/// [`Programmer::stepped`] always advances the cursor by exactly
/// `step_request(total - position)`.
pub open spec fn transfer_position_after(total: int, k: nat) -> int
    decreases k,
{
    if k == 0 {
        0
    } else {
        let p = transfer_position_after(total, (k - 1) as nat);
        p + step_request(total - p)
    }
}

/// Chunked-drain schedule: over a buffer of any length, the cursor after
/// the k-th step stands at `min(total, 0xFFE * k)`. So each step short of
/// the end advances strictly (the reported progress values increase), and
/// the least k with `0xFFE * k >= total` ends the drain at the buffer
/// length exactly.
pub proof fn lemma_transfer_schedule(total: int, k: nat)
    requires
        0 <= total,
    ensures
        transfer_position_after(total, k) == if 0xFFE * (k as int) <= total {
            0xFFE * (k as int)
        } else {
            total
        },
        transfer_position_after(total, k) < total ==> transfer_position_after(total, k)
            < transfer_position_after(total, (k + 1) as nat),
    decreases k,
{
    if k > 0 {
        lemma_transfer_schedule(total, (k - 1) as nat);
    }
}

/// A history extended by one authentication keeps the old history as a
/// prefix.
proof fn lemma_authenticated_prefix(pre: Seq<UdsEvent>, post: Seq<UdsEvent>, session_id: u8)
    requires
        authenticated(pre, post, session_id),
    ensures
        pre.is_prefix_of(post),
{
    let seed = choose|seed: Seq<u8>| post == pre + auth_events(session_id, seed);
    assert(pre =~= post.subrange(0, pre.len() as int));
}

} // verus!
