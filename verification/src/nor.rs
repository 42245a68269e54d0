//! What the store achieves on a flash chip that works.
//!
//! The contracts of [`crate::storage`] hold whatever the flash answers. Here
//! the region is taken to hold an image, a sequence of bytes, that erasing sets
//! to ones and writing clears bits of, and the answers are taken to be those
//! such a region gives. What a load finds is then a function of the image
//! ([`recovered`]), and the laws below say how saves, power losses and damage
//! move it.
use vstd::prelude::*;

use crate::crc::{checksum, law_four_byte_damage_is_noticed};
use crate::flash::Call;
use crate::record::{
    bytes16, bytes32, header_bytes, heading, law_sequence_numbers_are_ordered, newer, next_seq,
    next_slot, number16, number32, outranks, padded, sealed_bytes, Heading, FORMAT, HEADER_LEN,
    MAGIC,
};
use crate::storage::{
    current, heading_in, kept, load_run, ranked, save_run, searches, settled, slot_base,
    slot_payload, tries, vouched, Error,
};

verus! {

/// `image` with the bytes from `from` to `to` erased.
pub open spec fn erased(image: Seq<u8>, from: int, to: int) -> Seq<u8> {
    Seq::new(
        image.len(),
        |i: int|
            if from <= i < to {
                0xFF
            } else {
                image[i]
            },
    )
}

/// `image` with `bytes` written at `offset`: a write can only clear bits.
pub open spec fn programmed(image: Seq<u8>, offset: int, bytes: Seq<u8>) -> Seq<u8> {
    Seq::new(
        image.len(),
        |i: int|
            if offset <= i < offset + bytes.len() {
                image[i] & bytes[i - offset]
            } else {
                image[i]
            },
    )
}

/// Whether a working region that holds `image` answers `call` in this way.
pub open spec fn serves<E>(image: Seq<u8>, call: Call<E>) -> bool {
    &&& call.fault() is None
    &&& match call {
        Call::Read { offset, left, .. } => {
            &&& offset + left.len() <= image.len()
            &&& left == image.subrange(offset as int, offset + left.len())
        },
        Call::Erase { from, to, .. } => from <= to <= image.len(),
        Call::Write { offset, bytes, .. } => offset + bytes.len() <= image.len(),
    }
}

/// The image once `call` has been served.
pub open spec fn image_after_call<E>(image: Seq<u8>, call: Call<E>) -> Seq<u8> {
    match call {
        Call::Read { .. } => image,
        Call::Erase { from, to, .. } => erased(image, from as int, to as int),
        Call::Write { offset, bytes, .. } => programmed(image, offset as int, bytes),
    }
}

/// The image once the first `count` of `calls` have been served.
pub open spec fn image_after<E>(image: Seq<u8>, calls: Seq<Call<E>>, count: nat) -> Seq<u8>
    decreases count,
{
    if count == 0 {
        image
    } else {
        image_after_call(image_after(image, calls, (count - 1) as nat), calls[count - 1])
    }
}

/// Whether a working region that held `image` to begin with answers all of
/// `calls` in this way.
pub open spec fn served<E>(image: Seq<u8>, calls: Seq<Call<E>>) -> bool {
    forall|i: int|
        0 <= i < calls.len() ==> serves(image_after(image, calls, i as nat), #[trigger] calls[i])
}

/// Whether `image` has room for two slots of `size` bytes with payload blocks
/// of `capacity` bytes.
pub open spec fn roomy(image: Seq<u8>, size: nat, capacity: nat) -> bool {
    &&& HEADER_LEN + capacity <= size
    &&& 2 * size <= image.len()
    &&& 2 * size <= u32::MAX
}

/// The header bytes of a slot.
pub open spec fn slot_header(image: Seq<u8>, size: nat, slot: int) -> Seq<u8> {
    image.subrange(slot_base(size, slot), slot_base(size, slot) + HEADER_LEN)
}

/// The payload block of a slot.
pub open spec fn slot_block(image: Seq<u8>, size: nat, capacity: nat, slot: int) -> Seq<u8> {
    image.subrange(slot_payload(size, slot), slot_payload(size, slot) + capacity)
}

/// What the header of a slot says.
pub open spec fn slot_heading(image: Seq<u8>, size: nat, capacity: nat, slot: int) -> Option<
    Heading,
> {
    heading(slot_header(image, size, slot), capacity)
}

/// Whether a slot holds a record whose checksum agrees.
pub open spec fn intact(image: Seq<u8>, size: nat, capacity: nat, slot: int) -> bool {
    slot_heading(image, size, capacity, slot) matches Some(h) && h.vouches_for(
        slot_block(image, size, capacity, slot),
    )
}

/// A stored record: the payload block, and how much of it is payload.
pub struct Record {
    /// Payload length in bytes.
    pub len: nat,
    /// The payload block.
    pub block: Seq<u8>,
}

/// The record in a slot.
pub open spec fn slot_record(image: Seq<u8>, size: nat, capacity: nat, slot: int) -> Record {
    Record {
        len: slot_heading(image, size, capacity, slot)->0.len,
        block: slot_block(image, size, capacity, slot),
    }
}

/// The slot of the current record: the newer of the intact ones.
pub open spec fn current_slot(image: Seq<u8>, size: nat, capacity: nat) -> Option<int> {
    let ok0 = intact(image, size, capacity, 0);
    let ok1 = intact(image, size, capacity, 1);
    let h0 = slot_heading(image, size, capacity, 0);
    let h1 = slot_heading(image, size, capacity, 1);
    if ok1 && (!ok0 || outranks(h1, h0)) {
        Some(1)
    } else if ok0 {
        Some(0)
    } else {
        None
    }
}

/// The slot that a save leaves alone: that of the current record or, if there is
/// none, the one with the newer header.
pub open spec fn kept_slot(image: Seq<u8>, size: nat, capacity: nat) -> Option<int> {
    let h0 = slot_heading(image, size, capacity, 0);
    let h1 = slot_heading(image, size, capacity, 1);
    if current_slot(image, size, capacity) is Some {
        current_slot(image, size, capacity)
    } else if outranks(h1, h0) {
        Some(1)
    } else if h0 is Some {
        Some(0)
    } else {
        None
    }
}

/// What the header of a slot says, if there is such a slot.
pub open spec fn slot_heading_of(
    image: Seq<u8>,
    size: nat,
    capacity: nat,
    slot: Option<int>,
) -> Option<Heading> {
    match slot {
        Some(slot) => slot_heading(image, size, capacity, slot),
        None => None,
    }
}

/// The record a load finds.
pub open spec fn recovered(image: Seq<u8>, size: nat, capacity: nat) -> Option<Record> {
    match current_slot(image, size, capacity) {
        Some(slot) => Some(slot_record(image, size, capacity, slot)),
        None => None,
    }
}

/// Calls that only read find the image as it was, and leave it so.
proof fn lemma_reads_leave_the_image<E>(image: Seq<u8>, calls: Seq<Call<E>>, count: nat)
    requires
        served(image, calls),
        count <= calls.len(),
        forall|i: int| 0 <= i < count ==> #[trigger] calls[i] is Read,
    ensures
        forall|i: nat| i <= count ==> #[trigger] image_after(image, calls, i) == image,
        forall|i: int| 0 <= i < count ==> serves(image, #[trigger] calls[i]),
    decreases count,
{
    if count > 0 {
        lemma_reads_leave_the_image(image, calls, (count - 1) as nat);
        assert(serves(image_after(image, calls, (count - 1) as nat), calls[count - 1]));
    }
}

/// A search finds the current record.
#[verifier::rlimit(30)]
proof fn lemma_search_finds_the_current_slot<E>(
    image: Seq<u8>,
    size: nat,
    capacity: nat,
    calls: Seq<Call<E>>,
)
    requires
        roomy(image, size, capacity),
        served(image, calls),
        searches(size, capacity, calls),
        calls.len() >= 2,
        calls.len() >= 2 + tries(capacity, calls),
    ensures
        ({
            let searched = 2 + tries(capacity, calls);
            let slots = ranked(capacity, calls);
            &&& forall|i: nat| i <= searched ==> #[trigger] image_after(image, calls, i) == image
            &&& current(capacity, calls) == current_slot(image, size, capacity)
            &&& heading_in(capacity, calls, current(capacity, calls)) == slot_heading_of(
                image,
                size,
                capacity,
                current_slot(image, size, capacity),
            )
            &&& kept(capacity, calls) == kept_slot(image, size, capacity)
            &&& heading_in(capacity, calls, kept(capacity, calls)) == slot_heading_of(
                image,
                size,
                capacity,
                kept_slot(image, size, capacity),
            )
            &&& searched > 2 ==> calls[searched - 1].left() == slot_block(
                image,
                size,
                capacity,
                slots[searched - 3],
            )
        }),
{
    let searched = 2 + tries(capacity, calls);
    let slots = ranked(capacity, calls);
    assert forall|i: int| 0 <= i < searched implies #[trigger] calls[i] is Read by {
        if i >= 2 {
            assert(calls[i].reads(slot_payload(size, slots[i - 2]), capacity));
        }
    }
    lemma_reads_leave_the_image(image, calls, searched);
    assert(serves(image, calls[0]) && serves(image, calls[1]));
    assert(calls[0].left() == slot_header(image, size, 0));
    assert(calls[1].left() == slot_header(image, size, 1));
    if searched > 2 {
        assert(calls[2].reads(slot_payload(size, slots[0]), capacity));
        assert(serves(image, calls[2]));
        assert(calls[2].left() == slot_block(image, size, capacity, slots[0]));
        assert(vouched(capacity, calls, 0) == intact(image, size, capacity, slots[0]));
        assert(settled(capacity, calls, 0) == vouched(capacity, calls, 0));
    }
    if searched > 3 {
        assert(calls[3].reads(slot_payload(size, slots[1]), capacity));
        assert(serves(image, calls[3]));
        assert(calls[3].left() == slot_block(image, size, capacity, slots[1]));
        assert(vouched(capacity, calls, 1) == intact(image, size, capacity, slots[1]));
        assert(settled(capacity, calls, 1) == vouched(capacity, calls, 1));
    }
}

/// A load returns the record that the image holds: the newer of the intact
/// ones, or none at all.
#[verifier::rlimit(30)]
pub proof fn law_load_finds_the_newest_intact_record<E>(
    image: Seq<u8>,
    size: nat,
    capacity: nat,
    calls: Seq<Call<E>>,
    before: Seq<u8>,
    result: Result<Option<usize>, Error<E>>,
    after: Seq<u8>,
)
    requires
        roomy(image, size, capacity),
        served(image, calls),
        load_run(size, capacity, calls, before, result, after),
    ensures
        match recovered(image, size, capacity) {
            Some(record) => {
                &&& result matches Ok(Some(len)) && len == record.len
                &&& after == record.block
            },
            None => result == Ok::<Option<usize>, Error<E>>(None),
        },
        image_after(image, calls, calls.len()) == image,
{
    assert(calls[calls.len() - 1].fault() is None);
    lemma_search_finds_the_current_slot(image, size, capacity, calls);
}

/// What a header was written with can be read off it.
#[verifier::rlimit(30)]
pub proof fn law_header_reads_back(len: nat, seq: u32, block: Seq<u8>, capacity: nat)
    requires
        len <= capacity,
        len <= 0xFFFF,
    ensures
        heading(header_bytes(len, seq, block), capacity) == Some(
            Heading {
                raw: header_bytes(len, seq, block),
                seq,
                len,
                crc: checksum(sealed_bytes(len, seq) + block),
            },
        ),
        header_bytes(len, seq, block).take(12) == sealed_bytes(len, seq),
        header_bytes(len, seq, block).len() == HEADER_LEN,
        sealed_bytes(len, seq).len() == 12,
{
    reveal(heading);
    let raw = header_bytes(len, seq, block);
    let crc = checksum(sealed_bytes(len, seq) + block);
    assert(raw.take(4) =~= MAGIC@);
    assert(raw.take(12) =~= sealed_bytes(len, seq));
    assert(raw[6] == bytes16(len as int)[0]);
    assert(raw[7] == bytes16(len as int)[1]);
    assert(number16(raw, 6) == len);
    lemma_number_reads_back(seq as int);
    lemma_number_reads_back(crc as int);
    assert forall|i: int| 0 <= i < 4 implies raw[8 + i] == #[trigger] bytes32(seq as int)[i] by {}
    assert forall|i: int| 0 <= i < 4 implies raw[12 + i] == #[trigger] bytes32(crc as int)[i] by {}
    assert(number32(raw, 8) == number32(bytes32(seq as int), 0));
    assert(number32(raw, 12) == number32(bytes32(crc as int), 0));
}

/// Four little-endian bytes give back the number they were made of.
#[verifier::rlimit(30)]
proof fn lemma_number_reads_back(number: int)
    requires
        0 <= number <= u32::MAX,
    ensures
        number32(bytes32(number), 0) == number,
{
    let b = bytes32(number);
    assert(b[0] == bytes16(number % 0x1_0000)[0]);
    assert(b[1] == bytes16(number % 0x1_0000)[1]);
    assert(b[2] == bytes16(number / 0x1_0000)[0]);
    assert(b[3] == bytes16(number / 0x1_0000)[1]);
}

/// Whether `one` and `two` agree everywhere but in slot `slot`.
pub open spec fn agree_outside(one: Seq<u8>, two: Seq<u8>, size: nat, slot: int) -> bool {
    &&& one.len() == two.len()
    &&& forall|i: int|
        0 <= i < one.len() && !(slot_base(size, slot) <= i < slot_base(size, slot) + size)
            ==> #[trigger] one[i] == two[i]
}

/// Images that agree outside one slot hold the same bytes in the other.
#[verifier::rlimit(30)]
proof fn lemma_other_slot_agrees(
    one: Seq<u8>,
    two: Seq<u8>,
    size: nat,
    capacity: nat,
    slot: int,
)
    requires
        roomy(one, size, capacity),
        slot == 0 || slot == 1,
        agree_outside(one, two, size, slot),
    ensures
        slot_header(one, size, 1 - slot) == slot_header(two, size, 1 - slot),
        slot_block(one, size, capacity, 1 - slot) == slot_block(two, size, capacity, 1 - slot),
        slot_heading(one, size, capacity, 1 - slot) == slot_heading(two, size, capacity, 1 - slot),
        intact(one, size, capacity, 1 - slot) == intact(two, size, capacity, 1 - slot),
        slot_record(one, size, capacity, 1 - slot) == slot_record(two, size, capacity, 1 - slot),
{
    assert(slot_header(one, size, 1 - slot) =~= slot_header(two, size, 1 - slot));
    assert(slot_block(one, size, capacity, 1 - slot) =~= slot_block(two, size, capacity, 1 - slot));
}

/// The slot that a save on a region that holds `image` goes to.
pub open spec fn save_slot(image: Seq<u8>, size: nat, capacity: nat) -> int {
    next_slot(kept_slot(image, size, capacity))
}

/// The sequence number that it is saved under.
pub open spec fn save_seq(image: Seq<u8>, size: nat, capacity: nat) -> u32 {
    next_seq(slot_heading_of(image, size, capacity, kept_slot(image, size, capacity)))
}

/// How many of the calls of a save come before the erase.
pub open spec fn searched<E>(capacity: nat, calls: Seq<Call<E>>) -> nat {
    2 + tries(capacity, calls)
}

/// The image at each stage of a save that runs to its end.
#[verifier::rlimit(30)]
proof fn lemma_save_stages<E>(
    image: Seq<u8>,
    size: nat,
    capacity: nat,
    payload: Seq<u8>,
    calls: Seq<Call<E>>,
    result: Result<(), Error<E>>,
)
    requires
        roomy(image, size, capacity),
        served(image, calls),
        save_run(size, capacity, payload, calls, result),
        payload.len() <= capacity,
        payload.len() <= 0xFFFF,
    ensures
        result is Ok,
        ({
            let n = searched(capacity, calls);
            let slot = save_slot(image, size, capacity);
            let block = padded(payload, capacity);
            let header = header_bytes(payload.len(), save_seq(image, size, capacity), block);
            let blank = erased(image, slot_base(size, slot), slot_base(size, slot) + size);
            let filled = programmed(blank, slot_payload(size, slot), block);
            &&& calls.len() == n + 3
            &&& slot == 0 || slot == 1
            &&& calls.last()->bytes == header
            &&& forall|i: nat| i <= n ==> #[trigger] image_after(image, calls, i) == image
            &&& image_after(image, calls, n + 1) == blank
            &&& image_after(image, calls, n + 2) == filled
            &&& image_after(image, calls, n + 3) == programmed(
                filled,
                slot_base(size, slot),
                header,
            )
        }),
{
    assert(calls[calls.len() - 1].fault() is None);
    lemma_search_finds_the_current_slot(image, size, capacity, calls);
    let n = searched(capacity, calls);
    assert(image_after(image, calls, n) == image);
    assert(calls[n as int] is Erase);
    assert(image_after(image, calls, n + 1) == image_after_call(image, calls[n as int]));
    assert(calls[n as int + 1] is Write);
    assert(calls[n as int + 2] is Write);
}

/// A slot that does not start with the magic is no record, whatever follows.
proof fn lemma_foreign_slot(image: Seq<u8>, size: nat, capacity: nat, slot: int, i: int)
    requires
        roomy(image, size, capacity),
        slot == 0 || slot == 1,
        0 <= i < 4,
        image[slot_base(size, slot) + i] != MAGIC@[i],
    ensures
        slot_heading(image, size, capacity, slot) is None,
{
    reveal(heading);
    let raw = slot_header(image, size, slot);
    assert(raw.take(4)[i] == image[slot_base(size, slot) + i]);
}

/// What a finished save leaves in the slot it went to.
#[verifier::rlimit(30)]
proof fn lemma_save_writes_its_slot<E>(
    image: Seq<u8>,
    size: nat,
    capacity: nat,
    payload: Seq<u8>,
    calls: Seq<Call<E>>,
    result: Result<(), Error<E>>,
)
    requires
        roomy(image, size, capacity),
        served(image, calls),
        save_run(size, capacity, payload, calls, result),
        payload.len() <= capacity,
        payload.len() <= 0xFFFF,
    ensures
        ({
            let end = image_after(image, calls, calls.len());
            let slot = save_slot(image, size, capacity);
            let seq = save_seq(image, size, capacity);
            let block = padded(payload, capacity);
            let header = header_bytes(payload.len(), seq, block);
            &&& agree_outside(image, end, size, slot)
            &&& slot_header(end, size, slot) == header
            &&& slot_block(end, size, capacity, slot) == block
            &&& slot_heading(end, size, capacity, slot) == Some(
                Heading {
                    raw: header,
                    seq,
                    len: payload.len(),
                    crc: checksum(sealed_bytes(payload.len(), seq) + block),
                },
            )
            &&& intact(end, size, capacity, slot)
        }),
{
    lemma_save_stages(image, size, capacity, payload, calls, result);
    let end = image_after(image, calls, calls.len());
    let slot = save_slot(image, size, capacity);
    let seq = save_seq(image, size, capacity);
    let block = padded(payload, capacity);
    law_header_reads_back(payload.len(), seq, block, capacity);
    assert forall|x: u8| #[trigger] (0xFFu8 & x) == x by {
        assert(0xFFu8 & x == x) by (bit_vector);
    }
    assert(slot_header(end, size, slot) =~= header_bytes(payload.len(), seq, block));
    assert(slot_block(end, size, capacity, slot) =~= block);
}

/// A saved record reads back: whatever the region held before, a load after a
/// save finds the payload, padded with zeros, and its length.
#[verifier::rlimit(30)]
pub proof fn law_saved_record_reads_back<E>(
    image: Seq<u8>,
    size: nat,
    capacity: nat,
    payload: Seq<u8>,
    calls: Seq<Call<E>>,
    result: Result<(), Error<E>>,
)
    requires
        roomy(image, size, capacity),
        served(image, calls),
        save_run(size, capacity, payload, calls, result),
        payload.len() <= capacity,
        payload.len() <= 0xFFFF,
    ensures
        result is Ok,
        recovered(image_after(image, calls, calls.len()), size, capacity) == Some(
            Record { len: payload.len(), block: padded(payload, capacity) },
        ),
        padded(payload, capacity).take(payload.len() as int) == payload,
{
    lemma_save_stages(image, size, capacity, payload, calls, result);
    law_saves_alternate(image, size, capacity, payload, calls, result);
    lemma_save_writes_its_slot(image, size, capacity, payload, calls, result);
    assert(padded(payload, capacity).take(payload.len() as int) =~= payload);
}

/// Saves alternate between the slots: the slot a save goes to becomes the
/// current one, the next save goes to the other, and the sequence number moves
/// on by one, going round at the end of its range.
#[verifier::rlimit(30)]
pub proof fn law_saves_alternate<E>(
    image: Seq<u8>,
    size: nat,
    capacity: nat,
    payload: Seq<u8>,
    calls: Seq<Call<E>>,
    result: Result<(), Error<E>>,
)
    requires
        roomy(image, size, capacity),
        served(image, calls),
        save_run(size, capacity, payload, calls, result),
        payload.len() <= capacity,
        payload.len() <= 0xFFFF,
    ensures
        ({
            let end = image_after(image, calls, calls.len());
            let slot = save_slot(image, size, capacity);
            &&& agree_outside(image, end, size, slot)
            &&& current_slot(end, size, capacity) == Some(slot)
            &&& save_slot(end, size, capacity) == 1 - slot
            &&& save_seq(end, size, capacity) == (save_seq(image, size, capacity) + 1)
                % 0x1_0000_0000
        }),
{
    lemma_save_stages(image, size, capacity, payload, calls, result);
    lemma_save_writes_its_slot(image, size, capacity, payload, calls, result);
    let end = image_after(image, calls, calls.len());
    let slot = save_slot(image, size, capacity);
    lemma_other_slot_agrees(image, end, size, capacity, slot);
    if let Some(other) = kept_slot(image, size, capacity) {
        assert(other == 1 - slot);
        let before = slot_heading(image, size, capacity, other)->0.seq;
        let seq = save_seq(image, size, capacity);
        law_sequence_numbers_are_ordered(before, before);
        law_sequence_numbers_are_ordered(seq, before);
        assert(newer(seq, before) && !newer(before, seq));
    }
    assert(current_slot(end, size, capacity) == Some(slot));
}

/// The slot that a save works on does not count until it is sealed: however its
/// bytes stand, a load finds the record it would have found before, unless
/// they happen to make up an intact record that outranks it.
#[verifier::rlimit(30)]
pub proof fn law_unsealed_slot_does_not_count(
    image: Seq<u8>,
    torn: Seq<u8>,
    size: nat,
    capacity: nat,
)
    requires
        roomy(image, size, capacity),
        agree_outside(image, torn, size, save_slot(image, size, capacity)),
        current_slot(torn, size, capacity) != Some(save_slot(image, size, capacity)),
    ensures
        current_slot(torn, size, capacity) == current_slot(image, size, capacity),
        recovered(torn, size, capacity) == recovered(image, size, capacity),
{
    lemma_other_slot_agrees(image, torn, size, capacity, save_slot(image, size, capacity));
}

/// An erase that has not reached the record in its slot yet leaves that record
/// outranked, as it was.
#[verifier::rlimit(30)]
pub proof fn law_untouched_slot_stays_outranked(
    image: Seq<u8>,
    torn: Seq<u8>,
    size: nat,
    capacity: nat,
)
    requires
        roomy(image, size, capacity),
        ({
            let slot = save_slot(image, size, capacity);
            &&& agree_outside(image, torn, size, slot)
            &&& slot_header(torn, size, slot) == slot_header(image, size, slot)
            &&& slot_block(torn, size, capacity, slot) == slot_block(image, size, capacity, slot)
        }),
    ensures
        current_slot(torn, size, capacity) != Some(save_slot(image, size, capacity)),
{
    lemma_other_slot_agrees(image, torn, size, capacity, save_slot(image, size, capacity));
}

/// A save that is interrupted between any two of its steps leaves the previous
/// record exactly as it was: only the last write, that of the header, makes the
/// new one count. This holds whatever the region held before, with the newest
/// slot damaged or half written too.
#[verifier::rlimit(30)]
pub proof fn law_interrupted_save_keeps_the_record<E>(
    image: Seq<u8>,
    size: nat,
    capacity: nat,
    payload: Seq<u8>,
    calls: Seq<Call<E>>,
    result: Result<(), Error<E>>,
    done: nat,
)
    requires
        roomy(image, size, capacity),
        served(image, calls),
        save_run(size, capacity, payload, calls, result),
        payload.len() <= capacity,
        payload.len() <= 0xFFFF,
        done < calls.len(),
    ensures
        recovered(image_after(image, calls, done), size, capacity) == recovered(
            image,
            size,
            capacity,
        ),
{
    lemma_save_stages(image, size, capacity, payload, calls, result);
    let torn = image_after(image, calls, done);
    let n = searched(capacity, calls);
    if done > n {
        assert(done == n + 1 || done == n + 2);
        lemma_foreign_slot(torn, size, capacity, save_slot(image, size, capacity), 0);
        law_unsealed_slot_does_not_count(image, torn, size, capacity);
    }
}

/// A region that holds a record holds one at all times: before, between and
/// after the steps of a save.
pub proof fn law_one_intact_copy_at_all_times<E>(
    image: Seq<u8>,
    size: nat,
    capacity: nat,
    payload: Seq<u8>,
    calls: Seq<Call<E>>,
    result: Result<(), Error<E>>,
    done: nat,
)
    requires
        roomy(image, size, capacity),
        served(image, calls),
        save_run(size, capacity, payload, calls, result),
        recovered(image, size, capacity) is Some,
        done <= calls.len(),
    ensures
        ({
            let torn = image_after(image, calls, done);
            intact(torn, size, capacity, 0) || intact(torn, size, capacity, 1)
        }),
{
    if payload.len() > capacity || payload.len() > 0xFFFF {
        law_oversized_payload_changes_nothing(image, size, capacity, payload, calls, result);
    } else if done < calls.len() {
        law_interrupted_save_keeps_the_record(image, size, capacity, payload, calls, result, done);
    } else {
        law_saved_record_reads_back(image, size, capacity, payload, calls, result);
    }
}

/// Whether `torn` is `blank`, or differs from it only in the payload block of
/// slot `slot`.
pub open spec fn torn_in_payload(
    blank: Seq<u8>,
    torn: Seq<u8>,
    size: nat,
    capacity: nat,
    slot: int,
) -> bool {
    let start = slot_payload(size, slot);
    &&& torn.len() == blank.len()
    &&& forall|i: int|
        0 <= i < blank.len() && !(start <= i < start + capacity) ==> #[trigger] torn[i] == blank[i]
}

/// A save that is interrupted while the payload is being written leaves the
/// previous record exactly as it was, however far the write got and whatever
/// it left in the payload block.
#[verifier::rlimit(30)]
pub proof fn law_torn_payload_keeps_the_record<E>(
    image: Seq<u8>,
    torn: Seq<u8>,
    size: nat,
    capacity: nat,
    payload: Seq<u8>,
    calls: Seq<Call<E>>,
    result: Result<(), Error<E>>,
)
    requires
        roomy(image, size, capacity),
        served(image, calls),
        save_run(size, capacity, payload, calls, result),
        payload.len() <= capacity,
        payload.len() <= 0xFFFF,
        torn_in_payload(
            image_after(image, calls, searched(capacity, calls) + 1),
            torn,
            size,
            capacity,
            save_slot(image, size, capacity),
        ),
    ensures
        recovered(torn, size, capacity) == recovered(image, size, capacity),
{
    lemma_save_stages(image, size, capacity, payload, calls, result);
    lemma_foreign_slot(torn, size, capacity, save_slot(image, size, capacity), 0);
    law_unsealed_slot_does_not_count(image, torn, size, capacity);
}

/// A load that follows a save returns what was saved: the length, and the
/// payload at the front of a buffer that is zero from there on.
pub proof fn law_load_returns_what_save_stored<E>(
    image: Seq<u8>,
    size: nat,
    capacity: nat,
    payload: Seq<u8>,
    save_calls: Seq<Call<E>>,
    saved: Result<(), Error<E>>,
    load_calls: Seq<Call<E>>,
    before: Seq<u8>,
    loaded: Result<Option<usize>, Error<E>>,
    after: Seq<u8>,
)
    requires
        roomy(image, size, capacity),
        payload.len() <= capacity,
        payload.len() <= 0xFFFF,
        served(image, save_calls),
        save_run(size, capacity, payload, save_calls, saved),
        served(image_after(image, save_calls, save_calls.len()), load_calls),
        load_run(size, capacity, load_calls, before, loaded, after),
    ensures
        saved is Ok,
        loaded matches Ok(Some(len)) && len == payload.len(),
        after.len() == capacity,
        after.take(payload.len() as int) == payload,
        forall|i: int| payload.len() <= i < capacity ==> #[trigger] after[i] == 0,
{
    law_saved_record_reads_back(image, size, capacity, payload, save_calls, saved);
    lemma_save_stages(image, size, capacity, payload, save_calls, saved);
    lemma_save_writes_its_slot(image, size, capacity, payload, save_calls, saved);
    law_load_finds_the_newest_intact_record(
        image_after(image, save_calls, save_calls.len()),
        size,
        capacity,
        load_calls,
        before,
        loaded,
        after,
    );
}

/// A region in which one slot was written with a header and its payload block,
/// by this store or from outside, and in which the other slot is foreign, holds
/// that record, whatever its sequence number.
pub proof fn law_provisioned_record_is_found(
    image: Seq<u8>,
    size: nat,
    capacity: nat,
    slot: int,
    payload: Seq<u8>,
    seq: u32,
)
    requires
        roomy(image, size, capacity),
        slot == 0 || slot == 1,
        payload.len() <= capacity,
        payload.len() <= 0xFFFF,
        slot_header(image, size, slot) == header_bytes(
            payload.len(),
            seq,
            padded(payload, capacity),
        ),
        slot_block(image, size, capacity, slot) == padded(payload, capacity),
        slot_heading(image, size, capacity, 1 - slot) is None,
    ensures
        recovered(image, size, capacity) == Some(
            Record { len: payload.len(), block: padded(payload, capacity) },
        ),
{
    law_header_reads_back(payload.len(), seq, padded(payload, capacity), capacity);
}

/// A region that holds foreign bytes where the headers would be, a blank one
/// among them, holds no record.
pub proof fn law_foreign_region_holds_no_record(image: Seq<u8>, size: nat, capacity: nat)
    requires
        roomy(image, size, capacity),
        slot_header(image, size, 0).take(4) != MAGIC@,
        slot_header(image, size, 1).take(4) != MAGIC@,
    ensures
        recovered(image, size, capacity) is None,
{
    reveal(heading);
}

/// A record of another format reads as no record.
pub proof fn law_other_format_holds_no_record(image: Seq<u8>, size: nat, capacity: nat)
    requires
        roomy(image, size, capacity),
        image[slot_base(size, 0) + 4] != FORMAT,
        image[slot_base(size, 1) + 4] != FORMAT,
    ensures
        recovered(image, size, capacity) is None,
{
    reveal(heading);
}

/// Whether `good` and `bad` differ in the record held by slot `slot`, and only
/// in the bytes `at..at + 4` of that slot.
pub open spec fn damaged_word(
    good: Seq<u8>,
    bad: Seq<u8>,
    size: nat,
    capacity: nat,
    slot: int,
    at: int,
) -> bool {
    let base = slot_base(size, slot);
    &&& good.len() == bad.len()
    &&& forall|i: int|
        0 <= i < good.len() && !(base + at <= i < base + at + 4) ==> #[trigger] good[i] == bad[i]
    &&& good.subrange(base, base + HEADER_LEN + capacity) != bad.subrange(
        base,
        base + HEADER_LEN + capacity,
    )
}

/// Damage to any one aligned 32-bit word of a record, header and payload alike,
/// is noticed: the slot no longer counts.
#[verifier::rlimit(30)]
pub proof fn law_damaged_word_is_noticed(
    good: Seq<u8>,
    bad: Seq<u8>,
    size: nat,
    capacity: nat,
    slot: int,
    at: int,
)
    requires
        roomy(good, size, capacity),
        slot == 0 || slot == 1,
        at % 4 == 0,
        0 <= at,
        intact(good, size, capacity, slot),
        damaged_word(good, bad, size, capacity, slot, at),
    ensures
        !intact(bad, size, capacity, slot),
{
    reveal(heading);
    let base = slot_base(size, slot);
    let raw = slot_header(good, size, slot);
    let bad_raw = slot_header(bad, size, slot);
    let block = slot_block(good, size, capacity, slot);
    let bad_block = slot_block(bad, size, capacity, slot);
    let sealed = raw.take(12);
    let bad_sealed = bad_raw.take(12);
    let whole_good = good.subrange(base, base + HEADER_LEN + capacity);
    let whole_bad = bad.subrange(base, base + HEADER_LEN + capacity);
    assert(whole_good =~= raw + block);
    assert(whole_bad =~= bad_raw + bad_block);
    if intact(bad, size, capacity, slot) {
        if at == 12 {
            assert(sealed =~= bad_sealed);
            assert(block =~= bad_block);
            lemma_number_is_unique(raw, bad_raw, 12);
            assert(raw =~= bad_raw);
        } else {
            assert forall|i: int| 12 <= i < 16 implies raw[i] == bad_raw[i] by {
                assert(good[base + i] == bad[base + i]);
            }
            assert(number32(raw, 12) == number32(bad_raw, 12));
            assert(raw =~= sealed + raw.skip(12));
            assert(bad_raw =~= bad_sealed + bad_raw.skip(12));
            assert(raw.skip(12) =~= bad_raw.skip(12));
            let window = if at < 12 {
                at
            } else {
                at - 4
            };
            let message = sealed + block;
            let bad_message = bad_sealed + bad_block;
            if message == bad_message {
                assert(sealed =~= message.take(12));
                assert(bad_sealed =~= bad_message.take(12));
                assert(block =~= message.skip(12));
                assert(bad_block =~= bad_message.skip(12));
            }
            assert forall|i: int|
                0 <= i < message.len() && !(window <= i < window + 4) implies #[trigger] message[i]
                == bad_message[i] by {
                let j = if i < 12 {
                    base + i
                } else {
                    base + i + 4
                };
                assert(good[j] == bad[j]);
            }
            law_four_byte_damage_is_noticed(message, bad_message, window);
        }
    }
}

/// Different bytes make different numbers.
#[verifier::rlimit(30)]
proof fn lemma_number_is_unique(one: Seq<u8>, two: Seq<u8>, at: int)
    requires
        0 <= at,
        at + 4 <= one.len(),
        at + 4 <= two.len(),
        number32(one, at) as u32 == number32(two, at) as u32,
    ensures
        forall|i: int| at <= i < at + 4 ==> #[trigger] one[i] == two[i],
{
    let (a0, a1) = (number16(one, at), number16(one, at + 2));
    let (b0, b1) = (number16(two, at), number16(two, at + 2));
    assert(a0 < 0x1_0000 && a1 < 0x1_0000 && b0 < 0x1_0000 && b1 < 0x1_0000);
    assert(a0 + 0x1_0000 * a1 == b0 + 0x1_0000 * b1);
    assert(a1 == b1 && a0 == b0);
    assert(one[at] == two[at] && one[at + 1] == two[at + 1]);
    assert(one[at + 2] == two[at + 2] && one[at + 3] == two[at + 3]);
}

/// When the newest record is damaged, a load falls back to the previous one;
/// when the previous record is damaged, a load still finds the newest.
pub proof fn law_damaged_slot_falls_back_to_the_other(
    good: Seq<u8>,
    bad: Seq<u8>,
    size: nat,
    capacity: nat,
    slot: int,
    at: int,
)
    requires
        roomy(good, size, capacity),
        slot == 0 || slot == 1,
        at % 4 == 0,
        0 <= at,
        at + 4 <= size,
        intact(good, size, capacity, slot),
        intact(good, size, capacity, 1 - slot),
        damaged_word(good, bad, size, capacity, slot, at),
    ensures
        recovered(bad, size, capacity) == Some(slot_record(good, size, capacity, 1 - slot)),
{
    law_damaged_word_is_noticed(good, bad, size, capacity, slot, at);
    lemma_other_slot_agrees(good, bad, size, capacity, slot);
}

/// A finished save keeps the record it replaces: it stays intact in the other
/// slot, so that a load can fall back to it.
#[verifier::rlimit(30)]
pub proof fn law_save_keeps_the_previous_record<E>(
    image: Seq<u8>,
    size: nat,
    capacity: nat,
    payload: Seq<u8>,
    calls: Seq<Call<E>>,
    result: Result<(), Error<E>>,
)
    requires
        roomy(image, size, capacity),
        served(image, calls),
        save_run(size, capacity, payload, calls, result),
        payload.len() <= capacity,
        payload.len() <= 0xFFFF,
    ensures
        recovered(image, size, capacity) matches Some(previous) ==> {
            let end = image_after(image, calls, calls.len());
            let slot = save_slot(image, size, capacity);
            &&& intact(end, size, capacity, slot)
            &&& intact(end, size, capacity, 1 - slot)
            &&& slot_record(end, size, capacity, 1 - slot) == previous
        },
{
    lemma_save_stages(image, size, capacity, payload, calls, result);
    lemma_save_writes_its_slot(image, size, capacity, payload, calls, result);
    let end = image_after(image, calls, calls.len());
    lemma_other_slot_agrees(image, end, size, capacity, save_slot(image, size, capacity));
}

/// Whether `torn` is `filled` with the first `cut` bytes of `header` written to
/// slot `slot`, and nothing is mistaken for a checksum.
///
/// The checksum comes last in the header. While none of it is written it reads
/// as all ones, so nothing but a checksum of all ones could be mistaken for it.
pub open spec fn torn_in_header(
    filled: Seq<u8>,
    torn: Seq<u8>,
    size: nat,
    capacity: nat,
    slot: int,
    header: Seq<u8>,
    cut: nat,
) -> bool {
    &&& cut <= HEADER_LEN
    &&& torn == programmed(filled, slot_base(size, slot), header.take(cut as int))
    &&& 4 < cut < 12 ==> checksum(
        slot_header(torn, size, slot).take(12) + slot_block(filled, size, capacity, slot),
    ) != u32::MAX
}

/// A save that is interrupted in the middle of the header leaves the previous
/// record, unless what is on flash is the whole header already.
#[verifier::rlimit(50)]
pub proof fn law_torn_header_keeps_the_record<E>(
    image: Seq<u8>,
    torn: Seq<u8>,
    size: nat,
    capacity: nat,
    payload: Seq<u8>,
    calls: Seq<Call<E>>,
    result: Result<(), Error<E>>,
    cut: nat,
)
    requires
        roomy(image, size, capacity),
        served(image, calls),
        save_run(size, capacity, payload, calls, result),
        payload.len() <= capacity,
        payload.len() <= 0xFFFF,
        torn_in_header(
            image_after(image, calls, searched(capacity, calls) + 2),
            torn,
            size,
            capacity,
            save_slot(image, size, capacity),
            calls.last()->bytes,
            cut,
        ),
        torn != image_after(image, calls, calls.len()),
    ensures
        recovered(torn, size, capacity) == recovered(image, size, capacity),
{
    reveal(heading);
    lemma_save_stages(image, size, capacity, payload, calls, result);
    lemma_save_writes_its_slot(image, size, capacity, payload, calls, result);
    let slot = save_slot(image, size, capacity);
    let base = slot_base(size, slot);
    let block = padded(payload, capacity);
    let seq = save_seq(image, size, capacity);
    let header = header_bytes(payload.len(), seq, block);
    let raw = slot_header(torn, size, slot);
    let filled = image_after(image, calls, searched(capacity, calls) + 2);
    let end = image_after(image, calls, calls.len());
    law_header_reads_back(payload.len(), seq, block, capacity);
    assert forall|x: u8| #[trigger] (0xFFu8 & x) == x by {
        assert(0xFFu8 & x == x) by (bit_vector);
    }
    assert(slot_block(filled, size, capacity, slot) =~= block);
    assert(slot_block(torn, size, capacity, slot) =~= block);
    assert forall|i: int| 0 <= i < HEADER_LEN implies #[trigger] raw[i] == if i < cut {
        header[i]
    } else {
        0xFF
    } by {}
    if intact(torn, size, capacity, slot) {
        assert(raw[4] == FORMAT);
        assert(cut > 4);
        if cut < 12 {
            assert(number32(raw, 12) == u32::MAX);
            assert(false);
        } else {
            assert(raw.take(12) =~= sealed_bytes(payload.len(), seq));
            lemma_number_is_unique(raw, header, 12);
            assert(raw =~= header);
            assert forall|i: int| 0 <= i < torn.len() implies torn[i] == end[i] by {
                if base <= i < base + HEADER_LEN {
                    assert(torn[i] == raw[i - base]);
                    assert(end[i] == slot_header(end, size, slot)[i - base]);
                }
            }
            assert(torn =~= end);
        }
    }
    law_unsealed_slot_does_not_count(image, torn, size, capacity);
}

/// A payload that is too large is refused without touching the region, so that
/// the record stays as it was.
pub proof fn law_oversized_payload_changes_nothing<E>(
    image: Seq<u8>,
    size: nat,
    capacity: nat,
    payload: Seq<u8>,
    calls: Seq<Call<E>>,
    result: Result<(), Error<E>>,
)
    requires
        save_run(size, capacity, payload, calls, result),
        payload.len() > capacity || payload.len() > 0xFFFF,
    ensures
        result == Err::<(), Error<E>>(Error::TooLarge),
        image_after(image, calls, calls.len()) == image,
{
}

/// Where a save lost power.
pub enum Cut {
    /// Nowhere: it ran to its end.
    Nowhere,
    /// After this many of its calls.
    Between { done: nat },
    /// While its slot was being erased, which leaves anything in the slot.
    InErase,
    /// While the payload was being written, which leaves anything in the payload
    /// block.
    InPayload,
    /// While the header was being written, after this many of its bytes.
    InHeader { cut: nat },
}

/// An attempt to save `payload`.
pub struct Attempt<E> {
    /// What was to be saved.
    pub payload: Seq<u8>,
    /// The calls of the whole save.
    pub calls: Seq<Call<E>>,
    /// What the whole save returns.
    pub result: Result<(), Error<E>>,
    /// Where it lost power.
    pub cut: Cut,
    /// The image it left behind.
    pub left: Seq<u8>,
}

impl<E> Attempt<E> {
    /// Whether everything was written, starting from `image`.
    pub open spec fn finished(self, image: Seq<u8>) -> bool {
        self.left == image_after(image, self.calls, self.calls.len())
    }

    /// Whether this is an attempt on a region that holds `image`. What an
    /// interrupted erase leaves in the slot is taken not to make up a record
    /// that outranks the current one: the older record, if the erase has not
    /// touched it yet, does not.
    pub open spec fn is_on(self, image: Seq<u8>, size: nat, capacity: nat) -> bool {
        let slot = save_slot(image, size, capacity);
        let n = searched(capacity, self.calls);
        &&& served(image, self.calls)
        &&& save_run(size, capacity, self.payload, self.calls, self.result)
        &&& self.payload.len() <= capacity
        &&& self.payload.len() <= 0xFFFF
        &&& match self.cut {
            Cut::Nowhere => self.finished(image),
            Cut::Between { done } => {
                &&& done < self.calls.len()
                &&& self.left == image_after(image, self.calls, done)
            },
            Cut::InErase => {
                &&& agree_outside(image, self.left, size, slot)
                &&& current_slot(self.left, size, capacity) != Some(slot)
            },
            Cut::InPayload => torn_in_payload(
                image_after(image, self.calls, n + 1),
                self.left,
                size,
                capacity,
                slot,
            ),
            Cut::InHeader { cut } => torn_in_header(
                image_after(image, self.calls, n + 2),
                self.left,
                size,
                capacity,
                slot,
                self.calls.last()->bytes,
                cut,
            ),
        }
    }
}

/// The image after a number of attempts, one after the other.
pub open spec fn image_after_attempts<E>(image: Seq<u8>, attempts: Seq<Attempt<E>>) -> Seq<u8> {
    if attempts.len() == 0 {
        image
    } else {
        attempts.last().left
    }
}

/// Whether each of `attempts` is one on the region as the ones before left it.
pub open spec fn in_turn<E>(
    image: Seq<u8>,
    size: nat,
    capacity: nat,
    attempts: Seq<Attempt<E>>,
) -> bool
    decreases attempts.len(),
{
    attempts.len() > 0 ==> {
        let before = attempts.drop_last();
        &&& in_turn(image, size, capacity, before)
        &&& attempts.last().is_on(image_after_attempts(image, before), size, capacity)
    }
}

/// The record that ought to be there after `attempts` on a region that held
/// `image`: that of the last attempt which was finished.
pub open spec fn last_saved<E>(
    image: Seq<u8>,
    size: nat,
    capacity: nat,
    attempts: Seq<Attempt<E>>,
) -> Option<Record>
    decreases attempts.len(),
{
    if attempts.len() == 0 {
        recovered(image, size, capacity)
    } else {
        let before = attempts.drop_last();
        let last = attempts.last();
        if last.finished(image_after_attempts(image, before)) {
            Some(Record { len: last.payload.len(), block: padded(last.payload, capacity) })
        } else {
            last_saved(image, size, capacity, before)
        }
    }
}

/// However many saves are attempted, and wherever power is lost in them, a load
/// finds the record of the last save that was finished, or what was there to
/// begin with. Nothing is asked of what the region held before.
pub proof fn law_last_finished_save_is_found<E>(
    image: Seq<u8>,
    size: nat,
    capacity: nat,
    attempts: Seq<Attempt<E>>,
)
    requires
        roomy(image, size, capacity),
        in_turn(image, size, capacity, attempts),
    ensures
        ({
            let end = image_after_attempts(image, attempts);
            &&& recovered(end, size, capacity) == last_saved(image, size, capacity, attempts)
            &&& roomy(end, size, capacity)
        }),
    decreases attempts.len(),
{
    if attempts.len() > 0 {
        let before = attempts.drop_last();
        let start = image_after_attempts(image, before);
        let last = attempts.last();
        law_last_finished_save_is_found(image, size, capacity, before);
        lemma_attempt_keeps_or_replaces(start, size, capacity, last);
    }
}

/// One attempt: the new record if it was finished, the previous one if not.
#[verifier::rlimit(30)]
proof fn lemma_attempt_keeps_or_replaces<E>(
    image: Seq<u8>,
    size: nat,
    capacity: nat,
    attempt: Attempt<E>,
)
    requires
        roomy(image, size, capacity),
        attempt.is_on(image, size, capacity),
    ensures
        roomy(attempt.left, size, capacity),
        recovered(attempt.left, size, capacity) == if attempt.finished(image) {
            Some(Record { len: attempt.payload.len(), block: padded(attempt.payload, capacity) })
        } else {
            recovered(image, size, capacity)
        },
{
    let payload = attempt.payload;
    let calls = attempt.calls;
    let result = attempt.result;
    let torn = attempt.left;
    lemma_save_stages(image, size, capacity, payload, calls, result);
    if attempt.finished(image) {
        law_saved_record_reads_back(image, size, capacity, payload, calls, result);
    } else {
        match attempt.cut {
            Cut::Nowhere => {},
            Cut::Between { done } => {
                law_interrupted_save_keeps_the_record(
                    image,
                    size,
                    capacity,
                    payload,
                    calls,
                    result,
                    done,
                );
                let n = searched(capacity, calls);
                assert(done <= n || done == n + 1 || done == n + 2);
            },
            Cut::InErase => {
                law_unsealed_slot_does_not_count(image, torn, size, capacity);
            },
            Cut::InPayload => {
                law_torn_payload_keeps_the_record(
                    image,
                    torn,
                    size,
                    capacity,
                    payload,
                    calls,
                    result,
                );
            },
            Cut::InHeader { cut } => {
                law_torn_header_keeps_the_record(
                    image,
                    torn,
                    size,
                    capacity,
                    payload,
                    calls,
                    result,
                    cut,
                );
            },
        }
    }
}

/// A working region refuses nothing that lies within it, and a read hands back
/// the bytes that are there.
pub proof fn law_working_region_serves<E>(image: Seq<u8>, call: Call<E>)
    ensures
        serves(image, call) <==> match call {
            Call::Read { offset, left, fault } => {
                &&& fault is None
                &&& offset + left.len() <= image.len()
                &&& forall|i: int| 0 <= i < left.len() ==> #[trigger] left[i] == image[offset + i]
            },
            Call::Erase { from, to, fault } => fault is None && from <= to && to <= image.len(),
            Call::Write { offset, bytes, fault } => fault is None && offset + bytes.len()
                <= image.len(),
        },
{
    if let Call::Read { offset, left, fault } = call {
        if offset + left.len() <= image.len() {
            let there = image.subrange(offset as int, offset + left.len());
            if forall|i: int| 0 <= i < left.len() ==> #[trigger] left[i] == image[offset + i] {
                assert(left =~= there);
            }
            if left == there {
                assert forall|i: int| 0 <= i < left.len() implies #[trigger] left[i] == image[offset
                    + i] by {}
            }
        }
    }
}

/// What a region holds changes by what it serves and by nothing else: a read
/// leaves every byte, an erase sets those it covers to ones, and a write clears
/// the bits that are clear in what it carries.
pub proof fn law_image_changes_by_what_is_served<E>(
    image: Seq<u8>,
    calls: Seq<Call<E>>,
    count: nat,
    i: int,
)
    requires
        count < calls.len(),
        0 <= i < image.len(),
    ensures
        image_after(image, calls, 0) == image,
        image_after(image, calls, count).len() == image.len(),
        image_after(image, calls, count + 1).len() == image.len(),
        ({
            let before = image_after(image, calls, count)[i];
            let after = image_after(image, calls, count + 1)[i];
            match calls[count as int] {
                Call::Read { .. } => after == before,
                Call::Erase { from, to, .. } => after == if from <= i && i < to {
                    0xFF
                } else {
                    before
                },
                Call::Write { offset, bytes, .. } => after == if offset <= i && i < offset
                    + bytes.len() {
                    before & bytes[i - offset]
                } else {
                    before
                },
            }
        }),
    decreases count,
{
    if count > 0 {
        law_image_changes_by_what_is_served(image, calls, (count - 1) as nat, i);
    }
}

/// A region has served calls if it served each of them as the ones before left
/// it. It has room if two slots fit, each with a header of sixteen bytes and a
/// block, and can be addressed.
pub proof fn law_served_is_call_by_call<E>(
    image: Seq<u8>,
    calls: Seq<Call<E>>,
    last: Call<E>,
    size: nat,
    capacity: nat,
)
    ensures
        served(image, Seq::<Call<E>>::empty()),
        served(image, calls.push(last)) <==> served(image, calls) && serves(
            image_after(image, calls, calls.len()),
            last,
        ),
        roomy(image, size, capacity) <==> 16 + capacity <= size && 2 * size <= image.len() && 2
            * size <= 0xFFFF_FFFF,
{
    let all = calls.push(last);
    assert forall|i: nat| i <= calls.len() implies #[trigger] image_after(image, all, i)
        == image_after(image, calls, i) by {
        lemma_later_calls_do_not_matter(image, calls, last, i);
    }
    if served(image, all) {
        assert forall|i: int| 0 <= i < calls.len() implies serves(
            image_after(image, calls, i as nat),
            #[trigger] calls[i],
        ) by {
            assert(serves(image_after(image, all, i as nat), all[i]));
        }
        assert(serves(image_after(image, all, calls.len()), all[calls.len() as int]));
    }
    if served(image, calls) && serves(image_after(image, calls, calls.len()), last) {
        assert forall|i: int| 0 <= i < all.len() implies serves(
            image_after(image, all, i as nat),
            #[trigger] all[i],
        ) by {
            assert(image_after(image, all, i as nat) == image_after(image, calls, i as nat));
            if i < calls.len() {
                assert(serves(image_after(image, calls, i as nat), calls[i]));
            }
        }
    }
}

proof fn lemma_later_calls_do_not_matter<E>(
    image: Seq<u8>,
    calls: Seq<Call<E>>,
    last: Call<E>,
    count: nat,
)
    requires
        count <= calls.len(),
    ensures
        image_after(image, calls.push(last), count) == image_after(image, calls, count),
    decreases count,
{
    if count > 0 {
        lemma_later_calls_do_not_matter(image, calls, last, (count - 1) as nat);
    }
}

/// What a load finds is in the bytes of the region. A slot counts if its sixteen
/// header bytes are recognised and vouch for the block behind them. Of two that
/// count the newer is found, of one that one, and of none nothing.
#[verifier::rlimit(30)]
pub proof fn law_found_record_is_in_the_bytes(image: Seq<u8>, size: nat, capacity: nat)
    requires
        16 + capacity <= size,
        2 * size <= image.len(),
    ensures
        ({
            let h0 = heading(image.subrange(0, 16), capacity);
            let h1 = heading(image.subrange(size as int, size + 16int), capacity);
            let b0 = image.subrange(16, 16int + capacity);
            let b1 = image.subrange(size + 16int, size + 16int + capacity);
            let good0 = h0 is Some && h0->0.vouches_for(b0);
            let good1 = h1 is Some && h1->0.vouches_for(b1);
            match recovered(image, size, capacity) {
                None => !good0 && !good1,
                Some(record) => if good1 && (!good0 || newer(h1->0.seq, h0->0.seq)) {
                    record.len == h1->0.len && record.block == b1
                } else {
                    good0 && record.len == h0->0.len && record.block == b0
                },
            }
        }),
{
    assert(slot_header(image, size, 0) == image.subrange(0, 16));
    assert(slot_header(image, size, 1) == image.subrange(size as int, size + 16int));
    assert(slot_block(image, size, capacity, 0) == image.subrange(16, 16int + capacity));
    assert(slot_block(image, size, capacity, 1) == image.subrange(
        size + 16int,
        size + 16int + capacity,
    ));
}

/// On a region that serves every call a save of any payload that is no longer
/// than the block, and no longer than 65535 bytes, succeeds; and a load after it
/// succeeds, with the length of that payload, its bytes at the front of the
/// buffer, and zeros behind.
pub proof fn law_every_payload_that_fits_is_stored<E>(
    image: Seq<u8>,
    size: nat,
    capacity: nat,
    payload: Seq<u8>,
    save_calls: Seq<Call<E>>,
    saved: Result<(), Error<E>>,
    load_calls: Seq<Call<E>>,
    before: Seq<u8>,
    loaded: Result<Option<usize>, Error<E>>,
    after: Seq<u8>,
)
    requires
        16 + capacity <= size,
        2 * size <= image.len(),
        2 * size <= 0xFFFF_FFFF,
        served(image, save_calls),
        save_run(size, capacity, payload, save_calls, saved),
        served(image_after(image, save_calls, save_calls.len()), load_calls),
        load_run(size, capacity, load_calls, before, loaded, after),
    ensures
        payload.len() <= capacity && payload.len() <= 0xFFFF <==> saved is Ok,
        payload.len() <= capacity && payload.len() <= 0xFFFF ==> {
            &&& loaded matches Ok(Some(len)) && len == payload.len()
            &&& after.len() == capacity
            &&& forall|i: int| 0 <= i < payload.len() ==> #[trigger] after[i] == payload[i]
            &&& forall|i: int| payload.len() <= i < capacity ==> #[trigger] after[i] == 0
        },
{
    if payload.len() <= capacity && payload.len() <= 0xFFFF {
        law_load_returns_what_save_stored(
            image,
            size,
            capacity,
            payload,
            save_calls,
            saved,
            load_calls,
            before,
            loaded,
            after,
        );
        assert forall|i: int| 0 <= i < payload.len() implies #[trigger] after[i] == payload[i] by {
            assert(after.take(payload.len() as int)[i] == payload[i]);
        }
    } else {
        law_oversized_payload_changes_nothing(image, size, capacity, payload, save_calls, saved);
    }
}

} // verus!
