//! The record store on a mock flash.
use kolibri::crc::crc32;
use kolibri::flash::{Flash, History};
use kolibri::ram::{Ram as MemoryRegion, Refused};
use kolibri::record::{next_save, pad, seal, supersedes, Header, HEADER_LEN};
use kolibri::storage::{Error, Store};

const SECTOR: usize = 256;
const CAPACITY: usize = SECTOR * 2;
const PAYLOAD: usize = 32;

/// Enough of a NOR flash to be wrong in the same ways a real one is: reads
/// and writes are word-granular, erase sets ones, and a write can only
/// clear bits. Writing over live data therefore corrupts it here too,
/// which is what makes the slot alternation worth testing.
struct Ram {
    bytes: [u8; CAPACITY],
}

#[derive(Debug, PartialEq, Eq)]
struct RamError;

impl Ram {
    fn new() -> Self {
        Self {
            bytes: [0xFF; CAPACITY],
        }
    }
}

impl Flash for Ram {
    type Error = RamError;

    const READ_SIZE: usize = 4;
    const WRITE_SIZE: usize = 4;
    const ERASE_SIZE: usize = SECTOR;

    fn log(&self) -> History<RamError> {
        unreachable!("only proofs speak of it")
    }

    fn extent(&self) -> usize {
        CAPACITY
    }

    fn capacity(&self) -> usize {
        CAPACITY
    }

    fn read<const L: usize>(&mut self, offset: u32, bytes: &mut [u8; L]) -> Result<(), RamError> {
        let at = offset as usize;
        if at % 4 != 0 || L % 4 != 0 || at + L > CAPACITY {
            return Err(RamError);
        }
        bytes.copy_from_slice(&self.bytes[at..at + L]);
        Ok(())
    }

    fn erase(&mut self, from: u32, to: u32) -> Result<(), RamError> {
        let (from, to) = (from as usize, to as usize);
        if from % SECTOR != 0 || to % SECTOR != 0 || to > CAPACITY {
            return Err(RamError);
        }
        self.bytes[from..to].fill(0xFF);
        Ok(())
    }

    fn write(&mut self, offset: u32, bytes: &[u8]) -> Result<(), RamError> {
        let at = offset as usize;
        if at % 4 != 0 || bytes.len() % 4 != 0 || at + bytes.len() > CAPACITY {
            return Err(RamError);
        }
        for (cell, byte) in self.bytes[at..].iter_mut().zip(bytes) {
            *cell &= byte;
        }
        Ok(())
    }
}

fn store() -> Store<Ram, PAYLOAD> {
    match Store::new(Ram::new()) {
        Ok(store) => store,
        Err(_) => panic!("the mock flash fits a record"),
    }
}

#[test]
fn blank_flash_holds_no_record() {
    let mut store = store();
    let mut buf = [0u8; PAYLOAD];
    assert_eq!(store.load(&mut buf), Ok(None));
}

#[test]
fn a_saved_record_reads_back() {
    let mut store = store();
    store.save(b"hello").unwrap();

    let mut buf = [0u8; PAYLOAD];
    assert_eq!(store.load(&mut buf), Ok(Some(5)));
    assert_eq!(&buf[..5], b"hello");
    // Everything past the payload is padding, not leftovers.
    assert!(buf[5..].iter().all(|&b| b == 0));
}

#[test]
fn saves_alternate_slots_and_the_newest_wins() {
    let mut store = store();
    for round in 0..5u8 {
        store.save(&[round; 4]).unwrap();
        let mut buf = [0u8; PAYLOAD];
        assert_eq!(store.load(&mut buf), Ok(Some(4)));
        assert_eq!(&buf[..4], &[round; 4]);
    }
    // Five saves into two slots only work if each one lands in the slot the
    // other is not using.
    assert_ne!(
        store.flash.bytes[..HEADER_LEN],
        store.flash.bytes[SECTOR..SECTOR + HEADER_LEN]
    );
}

#[test]
fn a_corrupt_newest_slot_falls_back_to_the_previous_one() {
    let mut store = store();
    store.save(b"old").unwrap();
    store.save(b"new").unwrap();

    // Flip a payload byte in the newer slot, leaving its header -- and so
    // its sequence number -- intact. Only the CRC can catch this.
    store.flash.bytes[SECTOR + HEADER_LEN] ^= 0xFF;

    let mut buf = [0u8; PAYLOAD];
    assert_eq!(store.load(&mut buf), Ok(Some(3)));
    assert_eq!(&buf[..3], b"old");
}

#[test]
fn a_torn_save_leaves_the_previous_record() {
    let mut store = store();
    store.save(b"old").unwrap();
    store.save(b"keep me").unwrap();

    // A third save would erase slot 0 and write it. Stop after the erase,
    // which is what losing power mid-save looks like on the flash.
    store.flash.erase(0, SECTOR as u32).unwrap();

    let mut buf = [0u8; PAYLOAD];
    assert_eq!(store.load(&mut buf), Ok(Some(7)));
    assert_eq!(&buf[..7], b"keep me");
}

#[test]
fn a_foreign_partition_is_not_mistaken_for_a_record() {
    let mut store = store();
    store.flash.bytes.fill(0x5A);
    let mut buf = [0u8; PAYLOAD];
    assert_eq!(store.load(&mut buf), Ok(None));
}

#[test]
fn an_oversized_payload_is_refused() {
    let mut store = store();
    assert_eq!(store.save(&[0u8; PAYLOAD + 1]), Err(Error::TooLarge));
}

struct Tiny(Ram);

impl Flash for Tiny {
    type Error = RamError;

    const READ_SIZE: usize = Ram::READ_SIZE;
    const WRITE_SIZE: usize = Ram::WRITE_SIZE;
    const ERASE_SIZE: usize = Ram::ERASE_SIZE;

    fn log(&self) -> History<RamError> {
        unreachable!("only proofs speak of it")
    }

    fn extent(&self) -> usize {
        SECTOR
    }

    fn capacity(&self) -> usize {
        SECTOR
    }

    fn read<const L: usize>(&mut self, offset: u32, bytes: &mut [u8; L]) -> Result<(), RamError> {
        self.0.read(offset, bytes)
    }

    fn erase(&mut self, from: u32, to: u32) -> Result<(), RamError> {
        self.0.erase(from, to)
    }

    fn write(&mut self, offset: u32, bytes: &[u8]) -> Result<(), RamError> {
        self.0.write(offset, bytes)
    }
}

#[test]
fn a_region_too_small_for_two_slots_is_refused() {
    assert!(matches!(
        Store::<Tiny, PAYLOAD>::new(Tiny(Ram::new())),
        Err(Error::TooSmall)
    ));
}

#[test]
fn a_payload_that_cannot_be_written_whole_is_refused() {
    // Not a multiple of the four-byte write granularity.
    assert!(matches!(
        Store::<Ram, 30>::new(Ram::new()),
        Err(Error::Layout)
    ));
    // Larger than an erase block, header included.
    assert!(matches!(
        Store::<Ram, SECTOR>::new(Ram::new()),
        Err(Error::Layout)
    ));
}

#[test]
fn crc32_matches_the_reference_check_value() {
    // The standard CRC-32 check value for b"123456789".
    assert_eq!(crc32(b"12345", b"6789"), 0xCBF4_3926);
}

#[test]
fn crc32_of_known_messages() {
    assert_eq!(crc32(b"", b""), 0);
    assert_eq!(crc32(b"a", b""), 0xE8B7_BE43);
    assert_eq!(crc32(b"", b"a"), 0xE8B7_BE43);
    assert_eq!(
        crc32(b"The quick brown fox ", b"jumps over the lazy dog"),
        0x414F_A339
    );
}

#[test]
fn crc32_notices_any_damaged_word() {
    let good = [0x5Au8; 12];
    for at in 0..9 {
        let mut bad = good;
        for byte in &mut bad[at..at + 4] {
            *byte ^= 0xA5;
        }
        assert_ne!(crc32(&good, b""), crc32(&bad, b""));
    }
}

/// The header of a record provisioned from outside: four payload bytes, under
/// sequence number 7.
const PROVISIONED: [u8; HEADER_LEN] = [
    0x4B, 0x4C, 0x42, 0x53, 0x01, 0x00, 0x04, 0x00, 0x07, 0x00, 0x00, 0x00, 0x8D, 0x57, 0xC7, 0xAD,
];

fn provisioned() -> Ram {
    let mut flash = Ram::new();
    flash.bytes[..HEADER_LEN].copy_from_slice(&PROVISIONED);
    flash.bytes[HEADER_LEN..HEADER_LEN + PAYLOAD].fill(0);
    flash.bytes[HEADER_LEN..HEADER_LEN + 4].copy_from_slice(&[0xDE, 0xAD, 0xBE, 0xEF]);
    flash
}

#[test]
fn a_provisioned_record_is_accepted() {
    let mut store = match Store::<Ram, PAYLOAD>::new(provisioned()) {
        Ok(store) => store,
        Err(_) => panic!("the image fits the mock flash"),
    };
    let mut buf = [0u8; PAYLOAD];
    assert_eq!(store.load(&mut buf), Ok(Some(4)));
    assert_eq!(&buf[..4], &[0xDE, 0xAD, 0xBE, 0xEF]);

    // The next save goes to the other slot, under the next number.
    store.save(b"mine").unwrap();
    assert_eq!(store.flash.bytes[..HEADER_LEN], PROVISIONED);
    assert_eq!(store.flash.bytes[SECTOR + 8..SECTOR + 12], [8, 0, 0, 0]);
    assert_eq!(store.load(&mut buf), Ok(Some(4)));
    assert_eq!(&buf[..4], b"mine");
}

#[test]
fn a_header_is_sealed_byte_for_byte() {
    let block: [u8; PAYLOAD] = pad(&[0xDE, 0xAD, 0xBE, 0xEF]);
    assert_eq!(block[..5], [0xDE, 0xAD, 0xBE, 0xEF, 0]);
    assert_eq!(seal(4, 7, &block), PROVISIONED);

    let header = match Header::parse(&PROVISIONED, PAYLOAD) {
        Some(header) => header,
        None => panic!("the header is one of ours"),
    };
    assert_eq!(header.seq, 7);
    assert_eq!(header.len, 4);
    assert_eq!(header.crc, 0xADC7_578D);
    assert!(header.vouches_for(&block));
    assert!(!header.vouches_for(&[0u8; PAYLOAD]));
}

#[test]
fn a_header_that_is_not_ours_is_not_recognised() {
    let mut raw = PROVISIONED;
    raw[3] ^= 1;
    assert!(Header::parse(&raw, PAYLOAD).is_none());

    let mut raw = PROVISIONED;
    raw[4] = 2;
    assert!(Header::parse(&raw, PAYLOAD).is_none());

    // Announces more than the block can hold.
    assert!(Header::parse(&PROVISIONED, 3).is_none());
    assert!(Header::parse(&PROVISIONED, 4).is_some());
}

fn numbered(seq: u32) -> Option<Header> {
    Header::parse(&seal(4, seq, &[0u8; PAYLOAD]), PAYLOAD)
}

#[test]
fn the_newer_slot_wins_also_where_numbers_go_round() {
    assert!(supersedes(numbered(6), numbered(5)));
    assert!(!supersedes(numbered(5), numbered(6)));
    assert!(!supersedes(numbered(5), numbered(5)));
    assert!(supersedes(numbered(0), numbered(u32::MAX)));
    assert!(!supersedes(numbered(u32::MAX), numbered(0)));
    assert!(supersedes(numbered(0), None));
    assert!(!supersedes(None, numbered(0)));
    assert!(!supersedes(None, None));
}

fn current(slot: usize, seq: u32) -> Option<(usize, Header)> {
    numbered(seq).map(|header| (slot, header))
}

#[test]
fn the_next_save_avoids_the_current_slot() {
    assert_eq!(next_save(None), (0, 0));
    assert_eq!(next_save(current(0, 5)), (1, 6));
    assert_eq!(next_save(current(1, 5)), (0, 6));
    assert_eq!(next_save(current(0, u32::MAX)), (1, 0));
}

#[test]
fn a_record_of_another_format_reads_as_none() {
    let mut store = store();
    store.save(b"old").unwrap();
    store.flash.bytes[4] = 2;
    let mut buf = [0u8; PAYLOAD];
    assert_eq!(store.load(&mut buf), Ok(None));
}

#[test]
fn any_damaged_word_of_the_newest_record_falls_back() {
    for at in (0..HEADER_LEN + PAYLOAD).step_by(4) {
        let mut store = store();
        store.save(b"old").unwrap();
        store.save(b"newer").unwrap();
        for byte in &mut store.flash.bytes[SECTOR + at..SECTOR + at + 4] {
            *byte ^= 0x81;
        }
        let mut buf = [0u8; PAYLOAD];
        assert_eq!(store.load(&mut buf), Ok(Some(3)));
        assert_eq!(&buf[..3], b"old");
    }
}

#[test]
fn a_refused_payload_leaves_the_record() {
    let mut store = store();
    store.save(b"keep me").unwrap();
    let before = store.flash.bytes;
    assert_eq!(store.save(&[1u8; PAYLOAD + 1]), Err(Error::TooLarge));
    assert_eq!(store.flash.bytes, before);
}

#[test]
fn a_payload_of_the_whole_capacity_and_an_empty_one_read_back() {
    let mut store = store();
    let mut buf = [0u8; PAYLOAD];
    store.save(&[7u8; PAYLOAD]).unwrap();
    assert_eq!(store.load(&mut buf), Ok(Some(PAYLOAD)));
    assert_eq!(buf, [7u8; PAYLOAD]);
    store.save(&[]).unwrap();
    assert_eq!(store.load(&mut buf), Ok(Some(0)));
    assert_eq!(buf, [0u8; PAYLOAD]);
}

#[test]
fn sizes_that_can_be_counted_are_comparable() {
    assert!(Store::<Ram, PAYLOAD>::is_comparable());
    assert!(Store::<Ram, 30>::is_comparable());
    assert!(Store::<Ram, SECTOR>::is_comparable());
}

/// A flash that refuses every call from some point on, as one does that has
/// lost power.
struct Failing {
    ram: Ram,
    calls_left: usize,
}

impl Failing {
    fn call(&mut self) -> Result<(), RamError> {
        if self.calls_left == 0 {
            return Err(RamError);
        }
        self.calls_left -= 1;
        Ok(())
    }
}

impl Flash for Failing {
    type Error = RamError;

    const READ_SIZE: usize = Ram::READ_SIZE;
    const WRITE_SIZE: usize = Ram::WRITE_SIZE;
    const ERASE_SIZE: usize = Ram::ERASE_SIZE;

    fn log(&self) -> History<RamError> {
        unreachable!("only proofs speak of it")
    }

    fn extent(&self) -> usize {
        CAPACITY
    }

    fn capacity(&self) -> usize {
        CAPACITY
    }

    fn read<const L: usize>(&mut self, offset: u32, bytes: &mut [u8; L]) -> Result<(), RamError> {
        self.call()?;
        self.ram.read(offset, bytes)
    }

    fn erase(&mut self, from: u32, to: u32) -> Result<(), RamError> {
        self.call()?;
        self.ram.erase(from, to)
    }

    fn write(&mut self, offset: u32, bytes: &[u8]) -> Result<(), RamError> {
        self.call()?;
        self.ram.write(offset, bytes)
    }
}

#[test]
fn a_save_interrupted_between_any_two_steps_keeps_the_record() {
    for calls_left in 0..6 {
        let flash = Failing {
            ram: provisioned(),
            calls_left,
        };
        let mut store = match Store::<Failing, PAYLOAD>::new(flash) {
            Ok(store) => store,
            Err(_) => panic!("the mock flash fits a record"),
        };
        assert_eq!(store.save(b"new"), Err(Error::Flash(RamError)));

        store.flash.calls_left = usize::MAX;
        let mut buf = [0u8; PAYLOAD];
        assert_eq!(store.load(&mut buf), Ok(Some(4)));
        assert_eq!(&buf[..4], &[0xDE, 0xAD, 0xBE, 0xEF]);
    }
}

#[test]
fn a_save_reads_what_it_must_and_writes_once() {
    // Two headers, an erase and two writes; and the payload of each slot that
    // has a header, until one is good.
    for (ram, calls_left) in [(Ram::new(), 5), (provisioned(), 6)] {
        let mut store = match Store::<Failing, PAYLOAD>::new(Failing { ram, calls_left }) {
            Ok(store) => store,
            Err(_) => panic!("the mock flash fits a record"),
        };
        assert_eq!(store.save(b"new"), Ok(()));
        assert_eq!(store.flash.calls_left, 0);
    }
}

#[test]
fn a_load_that_is_refused_says_so() {
    for calls_left in 0..3 {
        let flash = Failing {
            ram: provisioned(),
            calls_left,
        };
        let mut store = match Store::<Failing, PAYLOAD>::new(flash) {
            Ok(store) => store,
            Err(_) => panic!("the mock flash fits a record"),
        };
        let mut buf = [0u8; PAYLOAD];
        assert_eq!(store.load(&mut buf), Err(Error::Flash(RamError)));
    }
}

#[test]
fn a_header_torn_after_its_magic_does_not_count() {
    for cut in 0..HEADER_LEN {
        let mut store = store();
        store.save(b"old").unwrap();
        let sealed = store.flash.bytes;
        store.save(b"new").unwrap();
        for byte in &mut store.flash.bytes[SECTOR + cut..SECTOR + HEADER_LEN] {
            *byte = 0xFF;
        }
        let mut buf = [0u8; PAYLOAD];
        assert_eq!(store.load(&mut buf), Ok(Some(3)));
        assert_eq!(&buf[..3], b"old");
        assert_eq!(store.flash.bytes[..SECTOR], sealed[..SECTOR]);
    }
}

#[test]
fn the_last_finished_save_is_found_after_any_number_of_power_losses() {
    let flash = Failing {
        ram: Ram::new(),
        calls_left: 0,
    };
    let mut store = match Store::<Failing, PAYLOAD>::new(flash) {
        Ok(store) => store,
        Err(_) => panic!("the mock flash fits a record"),
    };
    let mut last: Option<u8> = None;
    for round in 0..90u8 {
        store.flash.calls_left = (round as usize * 7) % 9;
        if store.save(&[round; 8]).is_ok() {
            last = Some(round);
        }

        store.flash.calls_left = usize::MAX;
        let mut buf = [0u8; PAYLOAD];
        match last {
            Some(round) => {
                assert_eq!(store.load(&mut buf), Ok(Some(8)));
                assert_eq!(&buf[..8], &[round; 8]);
            }
            None => assert_eq!(store.load(&mut buf), Ok(None)),
        }
    }
    assert!(last.is_some());
}

#[test]
fn a_save_after_damage_to_the_newest_record_keeps_the_readable_one() {
    let mut store = store();
    store.save(b"old").unwrap();
    store.save(b"new").unwrap();
    store.flash.bytes[SECTOR + HEADER_LEN] ^= 0xFF;
    let before = store.flash.bytes;

    assert_eq!(store.save(b"x"), Ok(()));
    assert_eq!(store.flash.bytes[..SECTOR], before[..SECTOR]);
    assert_eq!(store.flash.bytes[272..276], [b'x', 0, 0, 0]);

    let mut buf = [0u8; PAYLOAD];
    assert_eq!(store.load(&mut buf), Ok(Some(1)));
    assert_eq!(buf[0], b'x');
}

#[test]
fn a_header_torn_anywhere_does_not_cost_the_record_on_the_next_save() {
    for cut in 0..HEADER_LEN {
        // The second save loses power inside its header, the third one after
        // its erase.
        let flash = Failing {
            ram: Ram::new(),
            calls_left: usize::MAX,
        };
        let mut store = match Store::<Failing, PAYLOAD>::new(flash) {
            Ok(store) => store,
            Err(_) => panic!("the mock flash fits a record"),
        };
        store.save(b"first").unwrap();
        store.save(b"second").unwrap();
        store.flash.ram.bytes[SECTOR + cut..SECTOR + HEADER_LEN].fill(0xFF);
        for calls_left in 0..8 {
            store.flash.calls_left = calls_left;
            if store.save(b"third").is_ok() {
                break;
            }
            store.flash.calls_left = usize::MAX;
            let mut buf = [0u8; PAYLOAD];
            assert_eq!(store.load(&mut buf), Ok(Some(5)));
            assert_eq!(&buf[..5], b"first");
        }
        store.flash.calls_left = usize::MAX;
        let mut buf = [0u8; PAYLOAD];
        assert_eq!(store.load(&mut buf), Ok(Some(5)));
        assert_eq!(&buf[..5], b"third");
    }
}

#[test]
fn with_no_readable_record_the_newer_header_decides() {
    let mut store = store();
    store.save(b"old").unwrap();
    store.save(b"new").unwrap();
    store.flash.bytes[HEADER_LEN] ^= 0xFF;
    store.flash.bytes[SECTOR + HEADER_LEN] ^= 0xFF;
    let mut buf = [0u8; PAYLOAD];
    assert_eq!(store.load(&mut buf), Ok(None));

    // Slot 1 has the newer header, number 1.
    store.save(b"again").unwrap();
    assert_eq!(&store.flash.bytes[HEADER_LEN..HEADER_LEN + 5], b"again");
    assert_eq!(store.flash.bytes[8..12], [2, 0, 0, 0]);
    assert_eq!(store.load(&mut buf), Ok(Some(5)));
    assert_eq!(&buf[..5], b"again");
}

/// A flash that cannot read the payload of one slot.
struct Blind {
    ram: Ram,
    blind_at: u32,
}

impl Flash for Blind {
    type Error = RamError;

    const READ_SIZE: usize = Ram::READ_SIZE;
    const WRITE_SIZE: usize = Ram::WRITE_SIZE;
    const ERASE_SIZE: usize = Ram::ERASE_SIZE;

    fn log(&self) -> History<RamError> {
        unreachable!("only proofs speak of it")
    }

    fn extent(&self) -> usize {
        CAPACITY
    }

    fn capacity(&self) -> usize {
        CAPACITY
    }

    fn read<const L: usize>(&mut self, offset: u32, bytes: &mut [u8; L]) -> Result<(), RamError> {
        if offset == self.blind_at {
            return Err(RamError);
        }
        self.ram.read(offset, bytes)
    }

    fn erase(&mut self, from: u32, to: u32) -> Result<(), RamError> {
        self.ram.erase(from, to)
    }

    fn write(&mut self, offset: u32, bytes: &[u8]) -> Result<(), RamError> {
        self.ram.write(offset, bytes)
    }
}

fn blind(blind_at: usize) -> Store<Blind, PAYLOAD> {
    let mut seen = store();
    seen.save(b"old").unwrap();
    seen.save(b"new").unwrap();
    let flash = Blind {
        ram: seen.flash,
        blind_at: blind_at as u32,
    };
    match Store::new(flash) {
        Ok(store) => store,
        Err(_) => panic!("the mock flash fits a record"),
    }
}

#[test]
fn a_payload_that_cannot_be_read_does_not_stop_a_save() {
    // The newest payload is out of reach: its slot is left alone.
    let mut store = blind(SECTOR + HEADER_LEN);
    let mut buf = [0u8; PAYLOAD];
    assert_eq!(store.load(&mut buf), Err(Error::Flash(RamError)));
    let before = store.flash.ram.bytes;
    assert_eq!(store.save(b"x"), Ok(()));
    assert_eq!(store.flash.ram.bytes[SECTOR..], before[SECTOR..]);
    assert_eq!(store.load(&mut buf), Ok(Some(1)));
    assert_eq!(buf[0], b'x');
}

#[test]
fn an_older_payload_that_cannot_be_read_is_left_alone_if_the_newest_is_corrupt() {
    let mut store = blind(HEADER_LEN);
    store.flash.ram.bytes[SECTOR + HEADER_LEN] ^= 0xFF;
    let before = store.flash.ram.bytes;
    assert_eq!(store.save(b"x"), Ok(()));
    assert_eq!(store.flash.ram.bytes[..SECTOR], before[..SECTOR]);
    let mut buf = [0u8; PAYLOAD];
    assert_eq!(store.load(&mut buf), Ok(Some(1)));
    assert_eq!(buf[0], b'x');
}

const BIG_SECTOR: usize = 0x2_0000;
const BIG_PAYLOAD: usize = 0x1_0004;

/// A flash with room for more than a header can announce.
struct Big {
    bytes: Vec<u8>,
}

impl Flash for Big {
    type Error = RamError;

    const READ_SIZE: usize = 4;
    const WRITE_SIZE: usize = 4;
    const ERASE_SIZE: usize = BIG_SECTOR;

    fn log(&self) -> History<RamError> {
        unreachable!("only proofs speak of it")
    }

    fn extent(&self) -> usize {
        self.bytes.len()
    }

    fn capacity(&self) -> usize {
        self.bytes.len()
    }

    fn read<const L: usize>(&mut self, offset: u32, bytes: &mut [u8; L]) -> Result<(), RamError> {
        let at = offset as usize;
        bytes.copy_from_slice(&self.bytes[at..at + L]);
        Ok(())
    }

    fn erase(&mut self, from: u32, to: u32) -> Result<(), RamError> {
        self.bytes[from as usize..to as usize].fill(0xFF);
        Ok(())
    }

    fn write(&mut self, offset: u32, bytes: &[u8]) -> Result<(), RamError> {
        for (cell, byte) in self.bytes[offset as usize..].iter_mut().zip(bytes) {
            *cell &= byte;
        }
        Ok(())
    }
}

#[test]
fn a_payload_too_long_to_announce_is_refused() {
    let flash = Big {
        bytes: vec![0xFF; 2 * BIG_SECTOR],
    };
    let mut store = match Store::<Big, BIG_PAYLOAD>::new(flash) {
        Ok(store) => store,
        Err(_) => panic!("the flash fits a record"),
    };
    let payload = vec![7u8; 0x1_0000];
    assert_eq!(store.save(&payload), Err(Error::TooLarge));
    assert!(store.flash.bytes.iter().all(|&b| b == 0xFF));

    let mut buf = [0u8; BIG_PAYLOAD];
    assert_eq!(store.save(&payload[..0xFFFF]), Ok(()));
    assert_eq!(store.load(&mut buf), Ok(Some(0xFFFF)));
    assert_eq!(buf[..0xFFFF], payload[..0xFFFF]);
    assert_eq!(buf[0xFFFF], 0);
}

#[test]
fn a_store_works_on_a_region_in_memory() {
    let mut store = match Store::<MemoryRegion, PAYLOAD>::new(MemoryRegion::new()) {
        Ok(store) => store,
        Err(_) => panic!("the region fits a record"),
    };
    assert!(store.flash.bytes().iter().all(|&b| b == 0xFF));
    let mut buf = [0u8; PAYLOAD];
    assert_eq!(store.load(&mut buf), Ok(None));
    for round in 0..4u8 {
        store.save(&[round; 4]).unwrap();
        assert_eq!(store.load(&mut buf), Ok(Some(4)));
        assert_eq!(&buf[..4], &[round; 4]);
    }
}

#[test]
fn a_region_in_memory_refuses_what_a_chip_would() {
    let mut region = MemoryRegion::default();
    let mut word = [0u8; 4];
    assert_eq!(region.capacity(), 512);
    assert_eq!(region.write(8, &[0x0F, 0xF0, 0x55, 0xAA]), Ok(()));
    assert_eq!(region.write(8, &[0x3C, 0x3C, 0xFF, 0xFF]), Ok(()));
    assert_eq!(region.read(8, &mut word), Ok(()));
    assert_eq!(word, [0x0C, 0x30, 0x55, 0xAA]);
    assert_eq!(region.read(9, &mut word), Err(Refused));
    assert_eq!(region.read(512, &mut word), Err(Refused));
    assert_eq!(word, [0x0C, 0x30, 0x55, 0xAA]);
    assert_eq!(region.write(8, &[0; 3]), Err(Refused));
    assert_eq!(region.erase(0, 255), Err(Refused));
    assert_eq!(region.erase(256, 0), Err(Refused));
    assert_eq!(region.erase(0, 768), Err(Refused));
    assert_eq!(region.erase(0, 256), Ok(()));
    assert_eq!(region.read(8, &mut word), Ok(()));
    assert_eq!(word, [0xFF; 4]);
}
