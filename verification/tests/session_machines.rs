use std::cell::RefCell;
use std::rc::Rc;

use mzr::security::generate_key;
use mzr::session::{
    DownloadState, Downloader, MzrBus, MzrError, Programmer, ProgrammerState, Uds, UdsError,
    MZR_KEY, MZR_PARAMETER,
};

/// A record of one exchange a mock bus served.
#[derive(Debug, Clone, PartialEq, Eq)]
enum Served {
    SetSession(u32, u8),
    SeedRequest(u32),
    KeySubmit(u32, Vec<u8>),
    Query(u32, u8, Vec<u8>),
    ReadMemory(u32, u32, u16),
}

/// A scripted diagnostic bus: answers every request successfully and
/// records it. Memory reads answer with `chunk_cap`-byte patterns (or the
/// requested length, whichever is less); a zero `chunk_cap` simulates an
/// ECU answering with empty packets.
struct MockUds {
    served: Rc<RefCell<Vec<Served>>>,
    seed: Vec<u8>,
    chunk_cap: usize,
    fail_all: bool,
}

impl MockUds {
    fn new() -> MockUds {
        MockUds {
            served: Rc::new(RefCell::new(Vec::new())),
            seed: vec![0x12, 0x34, 0x56],
            chunk_cap: usize::MAX,
            fail_all: false,
        }
    }

    fn log(&self) -> Rc<RefCell<Vec<Served>>> {
        Rc::clone(&self.served)
    }
}

impl Uds for MockUds {
    fn set_diagnostic_session(&mut self, addr: u32, session_id: u8) -> Result<(), UdsError> {
        if self.fail_all {
            return Err(UdsError);
        }
        self.served.borrow_mut().push(Served::SetSession(addr, session_id));
        Ok(())
    }

    fn request_security_seed(&mut self, addr: u32) -> Result<Vec<u8>, UdsError> {
        if self.fail_all {
            return Err(UdsError);
        }
        self.served.borrow_mut().push(Served::SeedRequest(addr));
        Ok(self.seed.clone())
    }

    fn request_security_key(&mut self, addr: u32, key: &[u8]) -> Result<(), UdsError> {
        if self.fail_all {
            return Err(UdsError);
        }
        self.served.borrow_mut().push(Served::KeySubmit(addr, key.to_vec()));
        Ok(())
    }

    fn query_uds(&mut self, addr: u32, service: u8, request: &[u8]) -> Result<Vec<u8>, UdsError> {
        if self.fail_all {
            return Err(UdsError);
        }
        self.served.borrow_mut().push(Served::Query(addr, service, request.to_vec()));
        Ok(vec![])
    }

    fn read_memory_address(
        &mut self,
        addr: u32,
        offset: u32,
        length: u16,
    ) -> Result<Vec<u8>, UdsError> {
        if self.fail_all {
            return Err(UdsError);
        }
        self.served.borrow_mut().push(Served::ReadMemory(addr, offset, length));
        let n = (length as usize).min(self.chunk_cap);
        Ok(vec![0xA5; n])
    }
}

#[test]
fn authenticate_submits_the_derived_key() {
    let mut bus = MockUds::new();
    bus.authenticate(0x87).unwrap();
    let expected_key = generate_key(MZR_KEY, MZR_PARAMETER, &[0x12, 0x34, 0x56]);
    assert_eq!(
        bus.served.borrow().clone(),
        vec![
            Served::SetSession(0x7e0, 0x87),
            Served::SeedRequest(0x7e0),
            Served::KeySubmit(0x7e0, expected_key.to_vec()),
        ]
    );
}

#[test]
fn request_download_packs_offset_and_length_big_endian() {
    let mut bus = MockUds::new();
    bus.request_download(0x01020304, 0xA0B0C0D0).unwrap();
    assert_eq!(
        bus.served.borrow().clone(),
        vec![Served::Query(
            0x7e0,
            0x34,
            vec![0x01, 0x02, 0x03, 0x04, 0xA0, 0xB0, 0xC0, 0xD0]
        )]
    );
}

#[test]
fn transfer_data_forwards_the_chunk_verbatim() {
    let mut bus = MockUds::new();
    bus.transfer_data(&[9, 9, 8]).unwrap();
    assert_eq!(
        bus.served.borrow().clone(),
        vec![Served::Query(0x7e0, 0x36, vec![9, 9, 8])]
    );
}

#[test]
fn download_completes_one_mebibyte_in_expected_steps() {
    let mut bus = MockUds::new();
    bus.chunk_cap = 0xFFE;
    let mut downloader = Downloader::new(bus);
    assert_eq!(downloader.total_size(), 1024 * 1024);
    downloader.start().unwrap();
    let mut steps: usize = 0;
    loop {
        steps += 1;
        match downloader.step().unwrap() {
            DownloadState::InProgress(n) => {
                assert_eq!(n, steps * 0xFFE);
            }
            DownloadState::Completed => break,
        }
    }
    // ceil(1048576 / 4094) steps drain the fixed total.
    assert_eq!(steps, (1024 * 1024 + 0xFFE - 1) / 0xFFE);
    let data = downloader.take_data();
    assert_eq!(data.len(), 1024 * 1024);
}

#[test]
fn download_step_after_completion_is_idempotent() {
    let mut bus = MockUds::new();
    bus.chunk_cap = 0xFFE;
    let mut downloader = Downloader::new(bus);
    downloader.start().unwrap();
    loop {
        if let DownloadState::Completed = downloader.step().unwrap() {
            break;
        }
    }
    assert!(matches!(
        downloader.step().unwrap(),
        DownloadState::Completed
    ));
}

#[test]
fn download_treats_empty_packet_as_fatal() {
    let mut bus = MockUds::new();
    bus.chunk_cap = 0;
    let mut downloader = Downloader::new(bus);
    downloader.start().unwrap();
    assert_eq!(downloader.step(), Err(MzrError::EmptyPacket));
}

#[test]
fn download_propagates_transmission_errors() {
    let mut bus = MockUds::new();
    bus.fail_all = true;
    let mut downloader = Downloader::new(bus);
    assert_eq!(downloader.start(), Err(MzrError::Obd(UdsError)));
    assert_eq!(downloader.step(), Err(MzrError::Obd(UdsError)));
}

#[test]
fn programmer_step_before_start_fails_not_erased() {
    let bus = MockUds::new();
    let mut programmer = Programmer::new(bus, 0x8000, vec![1, 2, 3]);
    assert_eq!(programmer.step(), Err(MzrError::NotErased));
    // Still not erased: the guard holds however often step is tried.
    assert_eq!(programmer.step(), Err(MzrError::NotErased));
}

#[test]
fn programmer_start_authenticates_erases_and_requests_download() {
    let bus = MockUds::new();
    let log = bus.log();
    let data = vec![0x11u8; 10];
    let mut programmer = Programmer::new(bus, 0x8000, data);
    assert_eq!(programmer.total_size(), 10);
    programmer.start().unwrap();
    let expected_key = generate_key(MZR_KEY, MZR_PARAMETER, &[0x12, 0x34, 0x56]);
    match programmer.step().unwrap() {
        ProgrammerState::Completed => (),
        other => panic!("10 bytes go out in one chunk, got {:?}", other),
    }
    // Everything the run exchanged, in order.
    assert_eq!(
        log.borrow().clone(),
        vec![
            Served::SetSession(0x7e0, 0x85),
            Served::SeedRequest(0x7e0),
            Served::KeySubmit(0x7e0, expected_key.to_vec()),
            Served::Query(0x7e0, 0xB1, vec![0x00, 0xB2, 0x00]),
            Served::Query(0x7e0, 0x34, vec![0, 0, 0x80, 0, 0, 0, 0, 10]),
            Served::Query(0x7e0, 0x36, vec![0x11; 10]),
        ]
    );
}

#[test]
fn programmer_drains_arbitrary_buffer_with_increasing_progress() {
    let bus = MockUds::new();
    let total: usize = 3 * 0xFFE + 123;
    let mut programmer = Programmer::new(bus, 0x8000, vec![0xEE; total]);
    programmer.start().unwrap();
    let mut last: usize = 0;
    let mut steps: usize = 0;
    loop {
        steps += 1;
        match programmer.step().unwrap() {
            ProgrammerState::InProgress(n) => {
                assert!(n > last, "progress must strictly increase");
                last = n;
            }
            ProgrammerState::Completed => break,
        }
    }
    assert_eq!(steps, (total + 0xFFE - 1) / 0xFFE);
    assert_eq!(last, 3 * 0xFFE);
}

#[test]
fn programmer_propagates_transmission_errors() {
    let mut bus = MockUds::new();
    bus.fail_all = true;
    let mut programmer = Programmer::new(bus, 0, vec![1]);
    assert_eq!(programmer.start(), Err(MzrError::Obd(UdsError)));
    assert_eq!(programmer.step(), Err(MzrError::NotErased));
}
