//! The format of one slot: a header, then a payload block of fixed size.
//!
//! Each slot starts with a [`HEADER_LEN`]-byte header, all little-endian:
//!
//! ```text
//! 0..4    magic, b"KLBS"
//! 4       format version
//! 5       reserved, zero
//! 6..8    payload length in bytes
//! 8..12   sequence number
//! 12..16  CRC-32 of bytes 0..12 followed by the whole padded payload block
//! ```
use vstd::prelude::*;

use vstd::slice::slice_subrange;

use crate::crc::{checksum, crc32};

verus! {

/// Bytes of bookkeeping in front of each stored payload.
///
/// A record therefore occupies `HEADER_LEN + N` bytes of its slot, and that
/// has to fit in one erase block.
pub const HEADER_LEN: usize = 16;

/// Identifies a slot as ours rather than as whatever the partition held before.
pub const MAGIC: [u8; 4] = [0x4B, 0x4C, 0x42, 0x53];

/// Bumped only if the layout above changes incompatibly. An older format reads
/// back as "no record", which is the safe answer: the firmware falls back to
/// its defaults and the next save rewrites the slot.
pub const FORMAT: u8 = 1;

/// The little-endian number in the two bytes of `bytes` from `at` on.
pub open spec fn number16(bytes: Seq<u8>, at: int) -> nat {
    (bytes[at] + 0x100 * bytes[at + 1]) as nat
}

/// The little-endian number in the four bytes of `bytes` from `at` on.
pub open spec fn number32(bytes: Seq<u8>, at: int) -> nat {
    (number16(bytes, at) + 0x1_0000 * number16(bytes, at + 2)) as nat
}

/// `number` in two bytes, little-endian.
pub open spec fn bytes16(number: int) -> Seq<u8> {
    seq![(number % 0x100) as u8, (number / 0x100 % 0x100) as u8]
}

/// `number` in four bytes, little-endian.
pub open spec fn bytes32(number: int) -> Seq<u8> {
    bytes16(number % 0x1_0000) + bytes16(number / 0x1_0000)
}

fn read16(bytes: &[u8; HEADER_LEN], at: usize) -> (r: u16)
    requires
        at + 2 <= HEADER_LEN,
    ensures
        r == number16(bytes@, at as int),
{
    bytes[at] as u16 + 0x100 * (bytes[at + 1] as u16)
}

fn read32(bytes: &[u8; HEADER_LEN], at: usize) -> (r: u32)
    requires
        at + 4 <= HEADER_LEN,
    ensures
        r == number32(bytes@, at as int),
{
    read16(bytes, at) as u32 + 0x1_0000 * (read16(bytes, at + 2) as u32)
}

/// What a slot's header says, once it has been recognised as one of ours.
pub struct Heading {
    /// The header as it is on flash.
    pub raw: Seq<u8>,
    /// Sequence number.
    pub seq: u32,
    /// Payload length in bytes.
    pub len: nat,
    /// Checksum of the first twelve header bytes and the payload block.
    pub crc: u32,
}

impl Heading {
    /// Whether the checksum vouches for `block`.
    pub open spec fn vouches_for(self, block: Seq<u8>) -> bool {
        checksum(self.raw.take(12) + block) == self.crc
    }
}

/// Reads the header bytes `raw` of a slot whose payload block holds `capacity`
/// bytes. `None` if they are foreign, of another format, or announce a payload
/// that the block cannot hold.
#[verifier::opaque]
pub open spec fn heading(raw: Seq<u8>, capacity: nat) -> Option<Heading> {
    if raw.take(4) == MAGIC@ && raw[4] == FORMAT && number16(raw, 6) <= capacity {
        Some(
            Heading {
                raw,
                seq: number32(raw, 8) as u32,
                len: number16(raw, 6),
                crc: number32(raw, 12) as u32,
            },
        )
    } else {
        None
    }
}

/// The parsed header of one slot. Present only means "plausibly ours"; the CRC
/// is checked later, once the payload has been read.
#[derive(Clone, Copy)]
pub struct Header {
    /// The header as it is on flash.
    pub raw: [u8; HEADER_LEN],
    /// Sequence number.
    pub seq: u32,
    /// Payload length in bytes.
    pub len: usize,
    /// Checksum of the first twelve header bytes and the payload block.
    pub crc: u32,
}

impl View for Header {
    type V = Heading;

    open spec fn view(&self) -> Heading {
        Heading { raw: self.raw@, seq: self.seq, len: self.len as nat, crc: self.crc }
    }
}

/// The heading of an optional header.
pub open spec fn heading_of(header: Option<Header>) -> Option<Heading> {
    match header {
        Some(header) => Some(header@),
        None => None,
    }
}

impl Header {
    /// Recognises the header of a slot whose payload block holds `capacity`
    /// bytes.
    #[verifier::rlimit(30)]
    pub fn parse(raw: &[u8; HEADER_LEN], capacity: usize) -> (header: Option<Header>)
        ensures
            heading_of(header) == heading(raw@, capacity as nat),
            header matches Some(h) ==> h.raw@ == raw@,
    {
        reveal(heading);
        let ours = raw[0] == MAGIC[0] && raw[1] == MAGIC[1] && raw[2] == MAGIC[2] && raw[3]
            == MAGIC[3];
        assert(ours <==> raw@.take(4) =~= MAGIC@) by {
            assert(forall|i: int| 0 <= i < 4 ==> #[trigger] raw@.take(4)[i] == raw@[i]);
            if raw@.take(4) =~= MAGIC@ {
                assert(raw@.take(4)[0] == MAGIC@[0]);
                assert(raw@.take(4)[1] == MAGIC@[1]);
                assert(raw@.take(4)[2] == MAGIC@[2]);
                assert(raw@.take(4)[3] == MAGIC@[3]);
            }
        }
        if !ours || raw[4] != FORMAT {
            return None;
        }
        let len: usize = read16(raw, 6) as usize;
        if len > capacity {
            return None;
        }
        Some(Header { raw: *raw, seq: read32(raw, 8), len, crc: read32(raw, 12) })
    }

    /// Whether the checksum vouches for `block`.
    pub fn vouches_for(&self, block: &[u8]) -> (r: bool)
        ensures
            r == self@.vouches_for(block@),
    {
        crc32(slice_subrange(self.raw.as_slice(), 0, 12), block) == self.crc
    }
}

/// Whether the sequence number `a` comes after `b`. Sequence numbers wrap, so
/// it is the distance that counts: `a` is newer while it is less than half the
/// range ahead.
pub open spec fn newer(a: u32, b: u32) -> bool {
    0 < (a - b) % 0x1_0000_0000 < 0x8000_0000
}

/// The sequence number that follows another is newer than it, also where the
/// range goes round, and no number is newer than one that is newer than it.
pub proof fn law_sequence_numbers_are_ordered(a: u32, b: u32)
    ensures
        newer(((a + 1) % 0x1_0000_0000) as u32, a),
        !newer(a, a),
        newer(a, b) ==> !newer(b, a),
        a != b && (a - b) % 0x1_0000_0000 != 0x8000_0000 ==> newer(a, b) || newer(b, a),
{
}

/// Whether the slot headed by `a` comes before the one headed by `b`. A slot
/// that is not there at all loses to one that is.
pub open spec fn outranks(a: Option<Heading>, b: Option<Heading>) -> bool {
    match (a, b) {
        (Some(a), Some(b)) => newer(a.seq, b.seq),
        (Some(_), None) => true,
        (None, _) => false,
    }
}

/// Whether `a` is the newer of two slots. A slot that is not there at all loses
/// to one that is.
pub fn supersedes(a: Option<Header>, b: Option<Header>) -> (r: bool)
    ensures
        r == outranks(heading_of(a), heading_of(b)),
{
    match (a, b) {
        (Some(a), Some(b)) => {
            let ahead: u32 = a.seq.wrapping_sub(b.seq);
            ahead != 0 && ahead < 0x8000_0000
        },
        (Some(_), None) => true,
        (None, _) => false,
    }
}

/// The slot the next save goes to: the front one while there is no record to
/// preserve, otherwise the one the current record is not in.
pub open spec fn next_slot(current: Option<int>) -> int {
    match current {
        Some(slot) => 1 - slot,
        None => 0,
    }
}

/// The sequence number of the next save: one past the current record's, going
/// round at the end of the range.
pub open spec fn next_seq(current: Option<Heading>) -> u32 {
    match current {
        Some(heading) => ((heading.seq + 1) % 0x1_0000_0000) as u32,
        None => 0,
    }
}

/// Decides where the next save goes, and under which sequence number, given the
/// slot of the current record and its header.
pub fn next_save(current: Option<(usize, Header)>) -> (next: (usize, u32))
    requires
        current matches Some(found) ==> found.0 < 2,
    ensures
        next.0 == next_slot(
            match current {
                Some(found) => Some(found.0 as int),
                None => None,
            },
        ),
        next.1 == next_seq(
            match current {
                Some(found) => Some(found.1@),
                None => None,
            },
        ),
{
    match current {
        None => (0, 0),
        Some((slot, header)) => (1 - slot, header.seq.wrapping_add(1)),
    }
}

/// `payload`, filled up with zeros to `capacity` bytes.
pub open spec fn padded(payload: Seq<u8>, capacity: nat) -> Seq<u8> {
    Seq::new(
        capacity,
        |i: int|
            if i < payload.len() {
                payload[i]
            } else {
                0
            },
    )
}

/// Lays `payload` out as a payload block.
pub fn pad<const N: usize>(payload: &[u8]) -> (block: [u8; N])
    requires
        payload@.len() <= N,
    ensures
        block@ == padded(payload@, N as nat),
{
    let mut block: [u8; N] = [0u8; N];
    let mut i: usize = 0;
    while i < payload.len()
        invariant
            i <= payload@.len() <= N,
            block@ == padded(payload@.take(i as int), N as nat),
        decreases payload@.len() - i,
    {
        block[i] = payload[i];
        i = i + 1;
        assert(block@ =~= padded(payload@.take(i as int), N as nat));
    }
    assert(payload@.take(i as int) =~= payload@);
    block
}

/// The longest payload that the length field can announce.
pub const MAX_PAYLOAD: usize = 0xFFFF;

/// The header bytes the checksum covers.
pub open spec fn sealed_bytes(len: nat, seq: u32) -> Seq<u8> {
    MAGIC@ + seq![FORMAT, 0u8] + bytes16(len as int) + bytes32(seq as int)
}

/// The whole header of a slot that holds `block`.
pub open spec fn header_bytes(len: nat, seq: u32, block: Seq<u8>) -> Seq<u8> {
    sealed_bytes(len, seq) + bytes32(checksum(sealed_bytes(len, seq) + block) as int)
}

/// The sealed bytes of a header, field by field.
#[verifier::rlimit(30)]
proof fn lemma_sealed_bytes(len: nat, seq: u32)
    ensures
        sealed_bytes(len, seq).len() == 12,
        sealed_bytes(len, seq).take(4) == MAGIC@,
        sealed_bytes(len, seq)[4] == FORMAT,
        sealed_bytes(len, seq)[5] == 0,
        sealed_bytes(len, seq)[6] == (len % 0x100) as u8,
        sealed_bytes(len, seq)[7] == (len / 0x100 % 0x100) as u8,
        sealed_bytes(len, seq).skip(8) == bytes32(seq as int),
{
    let sealed = sealed_bytes(len, seq);
    let announced = bytes16(len as int);
    assert(sealed.take(4) =~= MAGIC@);
    assert(sealed[6] == announced[0]);
    assert(sealed[7] == announced[1]);
    assert(sealed.skip(8) =~= bytes32(seq as int));
}

/// Writes the header of a slot that holds a payload of `len` bytes laid out in
/// `block`.
#[verifier::rlimit(30)]
pub fn seal(len: usize, seq: u32, block: &[u8]) -> (header: [u8; HEADER_LEN])
    requires
        len <= MAX_PAYLOAD,
    ensures
        header@ == header_bytes(len as nat, seq, block@),
{
    let mut header: [u8; HEADER_LEN] = [0u8; HEADER_LEN];
    header[0] = MAGIC[0];
    header[1] = MAGIC[1];
    header[2] = MAGIC[2];
    header[3] = MAGIC[3];
    header[4] = FORMAT;
    header[6] = (len % 0x100) as u8;
    header[7] = (len / 0x100 % 0x100) as u8;
    write32(&mut header, 8, seq);
    let ghost sealed = sealed_bytes(len as nat, seq);
    assert(header@.take(12) == sealed) by {
        lemma_sealed_bytes(len as nat, seq);
        assert(header@.take(4) =~= sealed.take(4));
        assert(header@.subrange(8, 12) =~= sealed.skip(8));
        assert forall|i: int| 0 <= i < 12 implies header@[i] == #[trigger] sealed[i] by {
            if i < 4 {
                assert(header@.take(4)[i] == sealed.take(4)[i]);
            } else if i >= 8 {
                assert(header@.subrange(8, 12)[i - 8] == sealed.skip(8)[i - 8]);
            }
        }
        assert(header@.take(12) =~= sealed);
    }
    let crc: u32 = crc32(slice_subrange(header.as_slice(), 0, 12), block);
    write32(&mut header, 12, crc);
    assert(header@ =~= sealed + bytes32(crc as int));
    header
}

/// The four bytes of a number, lowest first.
#[verifier::rlimit(30)]
proof fn lemma_bytes32(number: int)
    requires
        0 <= number <= u32::MAX,
    ensures
        bytes32(number) == seq![
            (number % 0x100) as u8,
            (number / 0x100 % 0x100) as u8,
            (number / 0x1_0000 % 0x100) as u8,
            (number / 0x100_0000 % 0x100) as u8,
        ],
{
    let (high, low) = (number / 0x1_0000, number % 0x1_0000);
    assert(number == 0x1_0000 * high + low && 0 <= low < 0x1_0000);
    assert(low % 0x100 == number % 0x100) by {
        assert(number == 0x100 * (0x100 * high + low / 0x100) + low % 0x100);
    }
    assert(number / 0x100 == 0x100 * high + low / 0x100);
    assert(low / 0x100 % 0x100 == number / 0x100 % 0x100);
    vstd::arithmetic::div_mod::lemma_div_denominator(number, 0x1_0000, 0x100);
    assert(high / 0x100 == number / 0x100_0000);
    assert(bytes16(low) == seq![(number % 0x100) as u8, (number / 0x100 % 0x100) as u8]);
    assert(bytes16(high) == seq![(high % 0x100) as u8, (number / 0x100_0000 % 0x100) as u8]);
    assert(bytes32(number) =~= seq![
        (number % 0x100) as u8,
        (number / 0x100 % 0x100) as u8,
        (number / 0x1_0000 % 0x100) as u8,
        (number / 0x100_0000 % 0x100) as u8,
    ]);
}

#[verifier::rlimit(30)]
fn write32(bytes: &mut [u8; HEADER_LEN], at: usize, number: u32)
    requires
        at + 4 <= HEADER_LEN,
    ensures
        final(bytes)@ == old(bytes)@.take(at as int) + bytes32(number as int) + old(bytes)@.skip(
            at + 4,
        ),
{
    let b0: u8 = (number % 0x100) as u8;
    let b1: u8 = (number / 0x100 % 0x100) as u8;
    let b2: u8 = (number / 0x1_0000 % 0x100) as u8;
    let b3: u8 = (number / 0x100_0000 % 0x100) as u8;
    assert(bytes32(number as int) == seq![b0, b1, b2, b3]) by {
        lemma_bytes32(number as int);
    }
    bytes[at] = b0;
    bytes[at + 1] = b1;
    bytes[at + 2] = b2;
    bytes[at + 3] = b3;
    assert(bytes@ =~= old(bytes)@.take(at as int) + seq![b0, b1, b2, b3] + old(bytes)@.skip(
        at + 4,
    ));
}

/// Numbers are little-endian: a byte counts 256 times as much as the one before.
pub proof fn law_numbers_are_little_endian(bytes: Seq<u8>, at: int, number: int)
    requires
        0 <= number <= u32::MAX,
    ensures
        number16(bytes, at) == bytes[at] + 256 * bytes[at + 1],
        number32(bytes, at) == bytes[at] + 256 * bytes[at + 1] + 65536 * bytes[at + 2] + 16777216
            * bytes[at + 3],
        number <= 0xFFFF ==> {
            let b = bytes16(number);
            b.len() == 2 && number == b[0] + 256 * b[1]
        },
        ({
            let b = bytes32(number);
            b.len() == 4 && number == b[0] + 256 * b[1] + 65536 * b[2] + 16777216 * b[3]
        }),
{
    lemma_bytes32(number);
}

/// A header is recognised by the letters `KLBS`, format 1, and a length that its
/// block can hold, and by nothing else. What it says is in its bytes.
pub proof fn law_header_is_recognised_by_its_bytes(raw: Seq<u8>, capacity: nat)
    requires
        raw.len() == 16,
    ensures
        ({
            let len = raw[6] + 256 * raw[7];
            match heading(raw, capacity) {
                None => !(raw[0] == 0x4B && raw[1] == 0x4C && raw[2] == 0x42 && raw[3] == 0x53
                    && raw[4] == 1 && len <= capacity),
                Some(h) => {
                    &&& raw[0] == 0x4B && raw[1] == 0x4C && raw[2] == 0x42 && raw[3] == 0x53
                    &&& raw[4] == 1
                    &&& len <= capacity
                    &&& h.raw == raw
                    &&& h.len == len
                    &&& h.seq == raw[8] + 256 * raw[9] + 65536 * raw[10] + 16777216 * raw[11]
                    &&& h.crc == raw[12] + 256 * raw[13] + 65536 * raw[14] + 16777216 * raw[15]
                },
            }
        }),
{
    reveal(heading);
    let magic = seq![0x4Bu8, 0x4Cu8, 0x42u8, 0x53u8];
    assert(MAGIC@ =~= magic);
    if raw[0] == 0x4B && raw[1] == 0x4C && raw[2] == 0x42 && raw[3] == 0x53 {
        assert(raw.take(4) =~= magic);
    }
    if raw.take(4) == MAGIC@ {
        assert(raw[0] == raw.take(4)[0] && raw[1] == raw.take(4)[1]);
        assert(raw[2] == raw.take(4)[2] && raw[3] == raw.take(4)[3]);
    }
    law_numbers_are_little_endian(raw, 6, 0);
    law_numbers_are_little_endian(raw, 8, 0);
    law_numbers_are_little_endian(raw, 12, 0);
}

/// A header vouches for a block if its checksum is that of its own first twelve
/// bytes with the block behind them.
pub proof fn law_header_vouches_by_checksum(heading: Heading, block: Seq<u8>)
    ensures
        heading.vouches_for(block) <==> heading.crc == checksum(
            heading.raw.subrange(0, 12) + block,
        ),
{
}

/// A header is sixteen bytes: the letters `KLBS`, format 1, a zero, and then, all
/// little-endian, the length, the sequence number and the checksum of what comes
/// before it with the block behind.
pub proof fn law_header_holds_its_fields(len: nat, seq: u32, block: Seq<u8>)
    requires
        len <= 0xFFFF,
    ensures
        ({
            let raw = header_bytes(len, seq, block);
            &&& raw.len() == 16
            &&& raw[0] == 0x4B && raw[1] == 0x4C && raw[2] == 0x42 && raw[3] == 0x53
            &&& raw[4] == 1
            &&& raw[5] == 0
            &&& raw[6] + 256 * raw[7] == len
            &&& raw[8] + 256 * raw[9] + 65536 * raw[10] + 16777216 * raw[11] == seq
            &&& raw[12] + 256 * raw[13] + 65536 * raw[14] + 16777216 * raw[15] == checksum(
                raw.subrange(0, 12) + block,
            )
        }),
{
    let raw = header_bytes(len, seq, block);
    let sealed = sealed_bytes(len, seq);
    let crc = checksum(sealed + block);
    lemma_sealed_bytes(len, seq);
    law_numbers_are_little_endian(raw, 0, seq as int);
    law_numbers_are_little_endian(raw, 0, crc as int);
    assert(raw.subrange(0, 12) =~= sealed);
    assert(MAGIC@ =~= seq![0x4Bu8, 0x4Cu8, 0x42u8, 0x53u8]);
    assert forall|i: int| 0 <= i < 4 implies raw[i] == #[trigger] MAGIC@[i] by {
        assert(sealed.take(4)[i] == raw[i]);
    }
    assert(raw[0] == MAGIC@[0] && raw[1] == MAGIC@[1] && raw[2] == MAGIC@[2] && raw[3]
        == MAGIC@[3]);
    assert forall|i: int| 0 <= i < 4 implies raw[8 + i] == #[trigger] bytes32(seq as int)[i] by {
        assert(sealed.skip(8)[i] == raw[8 + i]);
    }
    assert forall|i: int| 0 <= i < 4 implies raw[12 + i] == #[trigger] bytes32(crc as int)[i] by {}
    let (s, c) = (bytes32(seq as int), bytes32(crc as int));
    assert(raw[8] == s[0] && raw[9] == s[1] && raw[10] == s[2] && raw[11] == s[3]);
    assert(raw[12] == c[0] && raw[13] == c[1] && raw[14] == c[2] && raw[15] == c[3]);
}

/// A number is newer than all of the half range behind it, and than none of the
/// half range before it, wherever the range goes round.
pub proof fn law_newer_is_less_than_half_the_range_ahead(number: u32, ahead: u32)
    ensures
        newer(((number + ahead) % 0x1_0000_0000) as u32, number) <==> 1 <= ahead <= 0x7FFF_FFFF,
{
}

/// A slot with a header comes before one without. Between two headers the
/// sequence numbers decide.
pub proof fn law_slots_are_ranked_by_number(a: Heading, b: Heading)
    ensures
        outranks(Some(a), Some(b)) <==> newer(a.seq, b.seq),
        outranks(Some(a), None),
        !outranks(None, Some(b)),
        !outranks(None, None),
{
}

/// A save goes to the slot that the kept one is not, under the next number; with
/// nothing to keep, to the front under number zero.
pub proof fn law_saves_move_on_by_one(slot: int, heading: Heading)
    ensures
        slot == 0 ==> next_slot(Some(slot)) == 1,
        slot == 1 ==> next_slot(Some(slot)) == 0,
        next_slot(None) == 0,
        heading.seq < u32::MAX ==> next_seq(Some(heading)) == heading.seq + 1,
        heading.seq == u32::MAX ==> next_seq(Some(heading)) == 0,
        next_seq(None) == 0,
{
}

/// A block starts with the payload and is zero from there on.
pub proof fn law_padding_is_zero(payload: Seq<u8>, capacity: nat, i: int)
    requires
        payload.len() <= capacity,
    ensures
        padded(payload, capacity).len() == capacity,
        0 <= i < payload.len() ==> padded(payload, capacity)[i] == payload[i],
        payload.len() <= i < capacity ==> padded(payload, capacity)[i] == 0,
{
}

/// A parsed header stands for its bytes and for the numbers it holds.
pub proof fn law_header_stands_for_its_fields(header: Header)
    ensures
        heading_of(Some(header)) matches Some(h) && h.raw == header.raw@ && h.seq == header.seq
            && h.len == header.len && h.crc == header.crc,
        heading_of(None) is None,
{
}

} // verus!
