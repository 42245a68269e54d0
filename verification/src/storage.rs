//! A small record that survives a power cycle, kept in NOR flash.
//!
//! Firmware needs somewhere to remember a handful of bytes -- Wi-Fi
//! credentials, a calibration offset, which screen was last shown -- across
//! resets and reflashes. This module is that somewhere, written against
//! [`Flash`] so it works on any chip that can hand over an erasable region.
//!
//! # What it is not
//!
//! It is not a filesystem and not a key-value store. There is exactly one
//! record, it is a byte string, and every save rewrites all of it.
//!
//! # How a half-finished write is survived
//!
//! NOR flash cannot be updated in place: a sector is erased to all-ones and
//! then bits are cleared. Erasing the only copy of the record and losing power
//! mid-write would therefore lose the data. So the store keeps *two* slots, one
//! erase block each, and alternates between them:
//!
//! ```text
//! slot 0 [ header | payload ]  <- seq 6, current
//! slot 1 [ header | payload ]  <- seq 5, previous; next save lands here
//! ```
//!
//! A save erases the older slot, writes the payload, and writes the header
//! last. The header is the commit point: until its magic, sequence number and
//! CRC are on flash the slot does not count, so an interrupted save leaves the
//! previous record exactly as it was. [`Store::load`] takes the valid slot with
//! the higher sequence number, and [`Store::save`] never touches that one. See [`crate::record`] for the layout of a slot
//! and [`crate::nor`] for the proofs.
//!
//! # What the contracts speak of
//!
//! A region keeps a history of what it was asked for and of what came of it
//! ([`Flash::log`]). [`load_run`] and [`save_run`] say, for every answer the
//! flash may give, what it is asked for next and what is returned.
use vstd::prelude::*;

use crate::flash::{Call, Flash};
use crate::record::{
    header_bytes, heading, heading_of, newer, next_save, next_seq, next_slot, pad, padded, seal,
    supersedes, Header, Heading, HEADER_LEN, MAX_PAYLOAD,
};

verus! {

/// Two is the minimum that keeps one intact copy at all times, and the maximum
/// that is worth the flash: this record is rewritten rarely, so wear is not the
/// constraint that would justify more.
pub const SLOTS: usize = 2;

/// Why a load or save could not be completed.
#[derive(Clone, Copy, PartialEq, Eq, Debug)]
pub enum Error<E> {
    /// The underlying flash refused a read, write or erase.
    Flash(E),
    /// The region is smaller than the two erase blocks the store needs.
    TooSmall,
    /// `N` does not suit this flash: a record does not fit in an erase block,
    /// or the payload capacity is not a multiple of the read/write granularity.
    Layout,
    /// The payload handed to [`Store::save`] is longer than `N`, or than the
    /// length field of a header can announce.
    TooLarge,
}

/// Whether `len` is a whole number of `unit`s. Nothing but zero is a whole
/// number of zeros.
pub open spec fn whole(len: nat, unit: nat) -> bool {
    if unit == 0 {
        len == 0
    } else {
        len % unit == 0
    }
}

/// Whether `len` bytes can be read and written in one go.
pub open spec fn granular(read_size: nat, write_size: nat, len: nat) -> bool {
    whole(len, read_size) && whole(len, write_size)
}

/// Whether a header and a payload block of `capacity` bytes can be read and
/// written whole.
pub open spec fn writable(read_size: nat, write_size: nat, capacity: nat) -> bool {
    &&& granular(read_size, write_size, HEADER_LEN as nat)
    &&& granular(read_size, write_size, capacity)
}

/// Whether records of `capacity` bytes suit a flash of this geometry.
pub open spec fn suits(read_size: nat, write_size: nat, erase_size: nat, capacity: nat) -> bool {
    &&& writable(read_size, write_size, capacity)
    &&& HEADER_LEN + capacity <= erase_size
}

fn is_granular(read_size: usize, write_size: usize, len: usize) -> (r: bool)
    ensures
        r == granular(read_size as nat, write_size as nat, len as nat),
{
    len.is_multiple_of(read_size) && len.is_multiple_of(write_size)
}

/// Where slot `slot` starts, in a region with slots of `size` bytes: slot 0 at
/// the front, slot 1 behind it.
pub open spec fn slot_base(size: nat, slot: int) -> int {
    if slot == 0 {
        0
    } else {
        size as int
    }
}

/// Where the payload block of slot `slot` starts.
pub open spec fn slot_payload(size: nat, slot: int) -> int {
    slot_base(size, slot) + HEADER_LEN
}

/// The heading that the read of a slot's header brought back.
pub open spec fn heard<E>(call: Call<E>, capacity: nat) -> Option<Heading> {
    heading(call.left(), capacity)
}

/// Whether only the last of `calls` may have been answered with a fault.
pub open spec fn sound_up_to_last<E>(calls: Seq<Call<E>>) -> bool {
    forall|i: int| 0 <= i < calls.len() - 1 ==> (#[trigger] calls[i]).fault() is None
}

/// Whether `calls` starts with reads of the two headers, in order.
pub open spec fn reads_headers<E>(size: nat, calls: Seq<Call<E>>) -> bool {
    &&& calls.len() > 0 ==> calls[0].reads(slot_base(size, 0), HEADER_LEN as nat)
    &&& calls.len() > 1 ==> calls[1].reads(slot_base(size, 1), HEADER_LEN as nat)
}

/// The slots worth reading a payload from, newest first.
pub open spec fn candidates(
    h0: Option<Heading>,
    h1: Option<Heading>,
) -> Seq<int> {
    match (h0, h1) {
        (None, None) => seq![],
        (Some(_), None) => seq![0],
        (None, Some(_)) => seq![1],
        (Some(a), Some(b)) => if newer(b.seq, a.seq) {
            seq![1, 0]
        } else {
            seq![0, 1]
        },
    }
}

/// The slots worth reading a payload from, judging by the headers that the first
/// two of `calls` brought back.
pub open spec fn ranked<E>(capacity: nat, calls: Seq<Call<E>>) -> Seq<int> {
    candidates(heard(calls[0], capacity), heard(calls[1], capacity))
}

/// Whether the payload that try number `j` brought back is what its header
/// vouches for.
pub open spec fn vouched<E>(capacity: nat, calls: Seq<Call<E>>, j: int) -> bool {
    heard(calls[ranked(capacity, calls)[j]], capacity)->0.vouches_for(calls[2 + j].left())
}

/// Whether try number `j` ends the search: its payload is what the header
/// vouches for, or cannot be read.
pub open spec fn settled<E>(capacity: nat, calls: Seq<Call<E>>, j: int) -> bool {
    calls[2 + j].fault() is Some || vouched(capacity, calls, j)
}

/// How many payloads are read in search of the current record: newest first,
/// until a checksum agrees or a read fails.
pub open spec fn tries<E>(capacity: nat, calls: Seq<Call<E>>) -> nat {
    let slots = ranked(capacity, calls);
    if slots.len() == 2 && settled(capacity, calls, 0) {
        1
    } else {
        slots.len()
    }
}

/// The slot of the current record, as a search without faults finds it.
pub open spec fn current<E>(capacity: nat, calls: Seq<Call<E>>) -> Option<int> {
    let last = tries(capacity, calls) - 1;
    if last >= 0 && vouched(capacity, calls, last) {
        Some(ranked(capacity, calls)[last])
    } else {
        None
    }
}

/// The slot that a save leaves alone: that of the current record. A slot whose
/// payload cannot be read may hold it; and if no checksum agrees, the newer
/// header decides.
pub open spec fn kept<E>(capacity: nat, calls: Seq<Call<E>>) -> Option<int> {
    let slots = ranked(capacity, calls);
    let last = tries(capacity, calls) - 1;
    if last < 0 {
        None
    } else if settled(capacity, calls, last) {
        Some(slots[last])
    } else {
        Some(slots[0])
    }
}

/// The heading that the search brought back from a slot.
pub open spec fn heading_in<E>(
    capacity: nat,
    calls: Seq<Call<E>>,
    slot: Option<int>,
) -> Option<Heading> {
    match slot {
        Some(slot) => heard(calls[slot], capacity),
        None => None,
    }
}

/// Whether `calls` starts with a search for the current record, as far as it
/// goes: both headers, then the payloads of the slots that have one.
pub open spec fn searches<E>(size: nat, capacity: nat, calls: Seq<Call<E>>) -> bool {
    let slots = ranked(capacity, calls);
    &&& reads_headers(size, calls)
    &&& forall|j: int|
        #![trigger slots[j]]
        0 <= j < tries(capacity, calls) && 2 + j < calls.len() ==> calls[2 + j].reads(
            slot_payload(size, slots[j]),
            capacity,
        )
}

/// Whether `calls` ends with a header that could not be read.
pub open spec fn header_refused<E>(calls: Seq<Call<E>>) -> bool {
    0 < calls.len() <= 2 && calls.last().fault() is Some
}

/// Whether `calls` is a search for the current record, cut short at most by a
/// fault, that was handed the buffer `before` and left `after` in it.
pub open spec fn search_run<E>(
    size: nat,
    capacity: nat,
    calls: Seq<Call<E>>,
    before: Seq<u8>,
    after: Seq<u8>,
) -> bool {
    &&& calls.len() == 2 + tries(capacity, calls) || header_refused(calls)
    &&& sound_up_to_last(calls)
    &&& searches(size, capacity, calls)
    &&& after == if calls.len() > 2 {
        calls.last().left()
    } else {
        before
    }
}

/// What [`Store::load`] does on flash and what it returns: `calls` are its
/// calls with their answers, `before` and `after` the buffer it was handed.
///
/// It searches for the current record. A fault ends it.
pub open spec fn load_run<E>(
    size: nat,
    capacity: nat,
    calls: Seq<Call<E>>,
    before: Seq<u8>,
    result: Result<Option<usize>, Error<E>>,
    after: Seq<u8>,
) -> bool {
    &&& search_run(size, capacity, calls, before, after)
    &&& match calls.last().fault() {
        Some(e) => result == Err::<Option<usize>, Error<E>>(Error::Flash(e)),
        None => match heading_in(capacity, calls, current(capacity, calls)) {
            Some(heading) => result matches Ok(Some(len)) && len == heading.len,
            None => result == Ok::<Option<usize>, Error<E>>(None),
        },
    }
}

/// Whether a payload of `len` bytes can be saved in a block of `capacity` bytes.
pub open spec fn storable(len: nat, capacity: nat) -> bool {
    len <= capacity && len <= MAX_PAYLOAD
}

/// What [`Store::save`] does on flash and what it returns.
///
/// A payload that is too large costs no call at all. Otherwise it searches for
/// the current record, as a load does, erases the slot that record is not in,
/// writes the padded payload there and the header last. A fault ends it, but for
/// one in the read of a payload, which ends the search alone.
pub open spec fn save_run<E>(
    size: nat,
    capacity: nat,
    payload: Seq<u8>,
    calls: Seq<Call<E>>,
    result: Result<(), Error<E>>,
) -> bool {
    let searched = 2 + tries(capacity, calls) as int;
    let slot = next_slot(kept(capacity, calls));
    let seq = next_seq(heading_in(capacity, calls, kept(capacity, calls)));
    let base = slot_base(size, slot);
    let block = padded(payload, capacity);
    let header = header_bytes(payload.len(), seq, block);
    if !storable(payload.len(), capacity) {
        calls.len() == 0 && result == Err::<(), Error<E>>(Error::TooLarge)
    } else {
        &&& searches(size, capacity, calls)
        &&& calls.len() > 1 ==> calls[0].fault() is None
        &&& header_refused(calls) || {
            &&& searched < calls.len() <= searched + 3
            &&& calls[1].fault() is None
            &&& forall|i: int|
                searched <= i < calls.len() - 1 ==> (#[trigger] calls[i]).fault() is None
            &&& calls[searched].erases(base, base + size)
            &&& calls.len() > searched + 1 ==> calls[searched + 1].writes(
                slot_payload(size, slot),
                block,
            )
            &&& calls.len() > searched + 2 ==> calls[searched + 2].writes(base, header)
        }
        &&& match calls.last().fault() {
            Some(e) => result == Err::<(), Error<E>>(Error::Flash(e)),
            None => calls.len() == searched + 3 && result is Ok,
        }
    }
}

/// Whether `call` touches nothing beyond the first two slots.
pub open spec fn stays_in_slots<E>(size: nat, call: Call<E>) -> bool {
    match call {
        Call::Read { offset, left, .. } => offset + left.len() <= 2 * size,
        Call::Erase { from, to, .. } => from <= to <= 2 * size,
        Call::Write { offset, bytes, .. } => offset + bytes.len() <= 2 * size,
    }
}

/// Whether `call` respects the granularity of the flash.
pub open spec fn aligned<E>(
    read_size: nat,
    write_size: nat,
    erase_size: nat,
    call: Call<E>,
) -> bool {
    match call {
        Call::Read { offset, left, .. } => whole(offset as nat, read_size) && whole(
            left.len(),
            read_size,
        ),
        Call::Erase { from, to, .. } => whole(from as nat, erase_size) && whole(
            to as nat,
            erase_size,
        ),
        Call::Write { offset, bytes, .. } => whole(offset as nat, write_size) && whole(
            bytes.len(),
            write_size,
        ),
    }
}

/// A load never leaves the two slots, and every read is aligned, whatever the
/// flash answers.
#[verifier::rlimit(30)]
pub proof fn law_load_stays_in_its_slots<E>(
    read_size: nat,
    write_size: nat,
    size: nat,
    capacity: nat,
    calls: Seq<Call<E>>,
    before: Seq<u8>,
    result: Result<Option<usize>, Error<E>>,
    after: Seq<u8>,
    i: int,
)
    requires
        suits(read_size, write_size, size, capacity),
        whole(size, read_size),
        load_run(size, capacity, calls, before, result, after),
        0 <= i < calls.len(),
    ensures
        calls[i] is Read,
        stays_in_slots(size, calls[i]),
        aligned(read_size, write_size, size, calls[i]),
{
    if i >= 2 {
        assert(calls[i].reads(slot_payload(size, ranked(capacity, calls)[i - 2]), capacity));
    }
    lemma_whole_sum(size, HEADER_LEN as nat, read_size);
}

/// A save never leaves the two slots, whatever it is asked to write, and every
/// read, erase and write is aligned, whatever the flash answers.
#[verifier::rlimit(30)]
pub proof fn law_save_stays_in_its_slots<E>(
    read_size: nat,
    write_size: nat,
    size: nat,
    capacity: nat,
    payload: Seq<u8>,
    calls: Seq<Call<E>>,
    result: Result<(), Error<E>>,
    i: int,
)
    requires
        suits(read_size, write_size, size, capacity),
        whole(size, read_size),
        whole(size, write_size),
        save_run(size, capacity, payload, calls, result),
        0 <= i < calls.len(),
    ensures
        stays_in_slots(size, calls[i]),
        aligned(read_size, write_size, size, calls[i]),
{
    let block = padded(payload, capacity);
    let seq = next_seq(heading_in(capacity, calls, kept(capacity, calls)));
    assert(header_bytes(payload.len(), seq, block).len() == HEADER_LEN);
    if 2 <= i < 2 + tries(capacity, calls) {
        assert(calls[i].reads(slot_payload(size, ranked(capacity, calls)[i - 2]), capacity));
    }
    lemma_whole_sum(size, HEADER_LEN as nat, read_size);
    lemma_whole_sum(size, HEADER_LEN as nat, write_size);
    lemma_whole_sum(size, size, size);
}

/// Whole numbers of a unit add up to a whole number of it.
proof fn lemma_whole_sum(a: nat, b: nat, unit: nat)
    requires
        whole(a, unit),
        whole(b, unit),
    ensures
        whole(0, unit),
        whole(a, a),
        whole(a + b, unit),
{
    if unit != 0 {
        vstd::arithmetic::div_mod::lemma_add_mod_noop(a as int, b as int, unit as int);
        vstd::arithmetic::div_mod::lemma_small_mod(0, unit);
    }
    if a != 0 {
        vstd::arithmetic::div_mod::lemma_mod_self_0(a as int);
    }
}

/// A search that has come to its end finds the same, whatever is called next.
proof fn lemma_search_is_settled<E>(
    size: nat,
    capacity: nat,
    search: Seq<Call<E>>,
    calls: Seq<Call<E>>,
)
    requires
        search.len() == 2 + tries(capacity, search),
        search.is_prefix_of(calls),
        searches(size, capacity, search),
    ensures
        tries(capacity, calls) == tries(capacity, search),
        kept(capacity, calls) == kept(capacity, search),
        heading_in(capacity, calls, kept(capacity, calls)) == heading_in(
            capacity,
            search,
            kept(capacity, search),
        ),
        searches(size, capacity, calls),
{
    assert forall|i: int| 0 <= i < search.len() implies #[trigger] calls[i] == search[i] by {}
    assert(ranked(capacity, calls) == ranked(capacity, search));
    if tries(capacity, search) > 0 {
        assert(calls[2] == search[2]);
        assert(settled(capacity, calls, 0) == settled(capacity, search, 0));
    }
    if tries(capacity, search) > 1 {
        assert(calls[3] == search[3]);
        assert(settled(capacity, calls, 1) == settled(capacity, search, 1));
    }
}

/// What a search for the current record came to.
enum Found<E> {
    /// The record in this slot, under this header.
    Record(usize, Header),
    /// The payload in this slot could not be read.
    Unreadable(usize, Header, E),
    /// No checksum agrees. This slot has the newer header.
    Corrupt(usize, Header),
    /// Neither slot has a header.
    Nothing,
}

impl<E> Found<E> {
    /// The slot that a save leaves alone, and its header.
    spec fn spec_kept(self) -> Option<(usize, Header)> {
        match self {
            Found::Record(slot, header) => Some((slot, header)),
            Found::Unreadable(slot, header, _) => Some((slot, header)),
            Found::Corrupt(slot, header) => Some((slot, header)),
            Found::Nothing => None,
        }
    }

    fn kept(self) -> (r: Option<(usize, Header)>)
        ensures
            r == self.spec_kept(),
    {
        match self {
            Found::Record(slot, header) => Some((slot, header)),
            Found::Unreadable(slot, header, _) => Some((slot, header)),
            Found::Corrupt(slot, header) => Some((slot, header)),
            Found::Nothing => None,
        }
    }
}

/// A single `N`-byte record kept in the first two erase blocks of `flash`.
///
/// `N` is the payload *capacity* and must be a multiple of the flash's write
/// granularity; [`Store::new`] rejects anything else rather than failing
/// obscurely on the first save.
pub struct Store<F: Flash, const N: usize> {
    /// The region the record is kept in.
    pub flash: F,
}

impl<F: Flash, const N: usize> Store<F, N> {
    /// Everything the flash was asked for, and what came of it.
    pub open spec fn calls(&self) -> Seq<Call<F::Error>> {
        self.flash.log()
    }

    /// What the flash was asked for since `before` was this store.
    pub open spec fn calls_since(&self, before: &Self) -> Seq<Call<F::Error>> {
        self.calls().skip(before.calls().len() as int)
    }

    /// Whether everything up to `before` is still on record.
    pub open spec fn follows(&self, before: &Self) -> bool {
        before.calls().is_prefix_of(self.calls())
    }

    /// Bytes from the start of one slot to the start of the next: one erase
    /// block.
    pub open spec fn slot_bytes() -> nat {
        F::ERASE_SIZE as nat
    }

    /// Whether records of `N` bytes suit the flash.
    pub open spec fn layout_suits() -> bool {
        suits(F::READ_SIZE as nat, F::WRITE_SIZE as nat, F::ERASE_SIZE as nat, N as nat)
    }

    /// Whether the sizes that [`Store::new`] compares can be computed.
    pub open spec fn comparable() -> bool {
        &&& writable(F::READ_SIZE as nat, F::WRITE_SIZE as nat, N as nat) ==> HEADER_LEN + N
            <= usize::MAX
        &&& Self::layout_suits() ==> SLOTS * F::ERASE_SIZE <= usize::MAX
    }

    fn fits() -> (r: bool)
        requires
            Self::comparable(),
        ensures
            r == Self::layout_suits(),
    {
        // The store only ever reads or writes a whole header or a whole
        // payload block, so those two lengths are all that has to divide.
        is_granular(F::READ_SIZE, F::WRITE_SIZE, HEADER_LEN) && is_granular(
            F::READ_SIZE,
            F::WRITE_SIZE,
            N,
        ) && HEADER_LEN + N <= F::ERASE_SIZE
    }

    /// Whether [`Store::new`] can compare the sizes of flash and record without
    /// running out of numbers.
    #[must_use]
    pub fn is_comparable() -> (r: bool)
        ensures
            r == Self::comparable(),
    {
        let granular = is_granular(F::READ_SIZE, F::WRITE_SIZE, HEADER_LEN) && is_granular(
            F::READ_SIZE,
            F::WRITE_SIZE,
            N,
        );
        if !granular {
            return true;
        }
        match HEADER_LEN.checked_add(N) {
            Some(record) => record > F::ERASE_SIZE || F::ERASE_SIZE <= usize::MAX / SLOTS,
            None => false,
        }
    }

    /// Takes ownership of a flash region and checks it can hold the record.
    ///
    /// The region is normally a partition rather than the whole chip: on an
    /// ESP32 that is an entry from the partition table, so the store can never
    /// reach the application image no matter what it is asked to write.
    ///
    /// # Errors
    ///
    /// [`Error::Layout`] if `N` does not suit this flash, [`Error::TooSmall`]
    /// if the region cannot hold two slots.
    pub fn new(flash: F) -> (r: Result<Self, Error<F::Error>>)
        requires
            Self::comparable(),
        ensures
            match r {
                Err(Error::Layout) => !Self::layout_suits(),
                Err(Error::TooSmall) => Self::layout_suits() && flash.extent() < SLOTS
                    * F::ERASE_SIZE,
                Err(_) => false,
                Ok(store) => {
                    &&& Self::layout_suits()
                    &&& flash.extent() >= SLOTS * F::ERASE_SIZE
                    &&& store.flash == flash
                },
            },
    {
        if !Self::fits() {
            return Err(Error::Layout);
        }
        if flash.capacity() < SLOTS * F::ERASE_SIZE {
            return Err(Error::TooSmall);
        }
        Ok(Store { flash })
    }

    /// Searches for the current record, and reads its payload into `into`.
    ///
    /// Both headers first, then the payloads newest-first: reading a payload
    /// overwrites `into`, so a slot that turns out to be corrupt must not be
    /// read after the good one.
    #[verifier::rlimit(30)]
    fn find(&mut self, into: &mut [u8; N]) -> (r: Result<Found<F::Error>, Error<F::Error>>)
        requires
            slot_payload(Self::slot_bytes(), 1) <= u32::MAX,
        ensures
            final(self).follows(old(self)),
            ({
                let calls = final(self).calls_since(old(self));
                let fault = calls.last().fault();
                &&& search_run(Self::slot_bytes(), N as nat, calls, old(into)@, final(into)@)
                &&& match r {
                    Err(e) => header_refused(calls) && e == Error::Flash(fault->0),
                    Ok(found) => {
                        &&& !header_refused(calls)
                        &&& match found.spec_kept() {
                            Some((slot, header)) => {
                                &&& slot < SLOTS
                                &&& kept(N as nat, calls) == Some(slot as int)
                                &&& heard(calls[slot as int], N as nat) == Some(header@)
                            },
                            None => kept(N as nat, calls) is None,
                        }
                        &&& match found {
                            Found::Record(slot, _) => fault is None && current(N as nat, calls)
                                == Some(slot as int),
                            Found::Unreadable(_, _, e) => fault == Some(e),
                            _ => fault is None && current(N as nat, calls) is None,
                        }
                    },
                }
            }),
    {
        let h0 = match self.header(0) {
            Ok(header) => header,
            Err(e) => {
                return Err(e);
            },
        };
        let h1 = match self.header(1) {
            Ok(header) => header,
            Err(e) => {
                return Err(e);
            },
        };
        let swapped = supersedes(h1, h0);
        let (first, second) = if swapped {
            (h1, h0)
        } else {
            (h0, h1)
        };
        let (newer, older): (usize, usize) = if swapped {
            (1, 0)
        } else {
            (0, 1)
        };
        let newest = match first {
            Some(header) => header,
            None => {
                return Ok(Found::Nothing);
            },
        };
        match self.flash.read(Self::payload_offset(newer), into) {
            Ok(_) => {},
            Err(e) => {
                return Ok(Found::Unreadable(newer, newest, e));
            },
        }
        if newest.vouches_for(into.as_slice()) {
            return Ok(Found::Record(newer, newest));
        }
        if let Some(header) = second {
            match self.flash.read(Self::payload_offset(older), into) {
                Ok(_) => {},
                Err(e) => {
                    return Ok(Found::Unreadable(older, header, e));
                },
            }
            if header.vouches_for(into.as_slice()) {
                return Ok(Found::Record(older, header));
            }
        }
        Ok(Found::Corrupt(newer, newest))
    }

    /// Reads the current record into `into`.
    ///
    /// Returns the payload length, which is however many leading bytes of
    /// `into` were actually stored; the rest is the zero padding. `Ok(None)`
    /// means there is nothing to read -- a blank partition, a record from an
    /// older format, or one whose CRC does not check out.
    ///
    /// # Errors
    ///
    /// [`Error::Flash`] if the region could not be read.
    pub fn load(&mut self, into: &mut [u8; N]) -> (r: Result<Option<usize>, Error<F::Error>>)
        requires
            slot_payload(Self::slot_bytes(), 1) <= u32::MAX,
        ensures
            final(self).follows(old(self)),
            load_run(
                Self::slot_bytes(),
                N as nat,
                final(self).calls_since(old(self)),
                old(into)@,
                r,
                final(into)@,
            ),
    {
        match self.find(into) {
            Ok(Found::Record(_, header)) => Ok(Some(header.len)),
            Ok(Found::Unreadable(_, _, e)) => Err(Error::Flash(e)),
            Ok(Found::Corrupt(_, _)) => Ok(None),
            Ok(Found::Nothing) => Ok(None),
            Err(e) => Err(e),
        }
    }

    /// Replaces the current record with `payload`.
    ///
    /// Writes to whichever slot is not current, so the record being replaced
    /// stays readable until this returns. The current record is the one that
    /// [`Store::load`] would return: a slot whose checksum does not agree holds
    /// nothing worth preserving, however new its header claims to be. A payload
    /// that cannot be read does not stop a save; its slot may hold the record,
    /// and is left alone. If no checksum agrees, the newer header decides.
    ///
    /// # Errors
    ///
    /// [`Error::TooLarge`] if `payload` exceeds `N`, or what a header can
    /// announce, [`Error::Flash`] if a header could not be read, or the region
    /// could not be erased or written.
    #[verifier::rlimit(30)]
    pub fn save(&mut self, payload: &[u8]) -> (r: Result<(), Error<F::Error>>)
        requires
            SLOTS * F::ERASE_SIZE <= u32::MAX,
        ensures
            final(self).follows(old(self)),
            save_run(
                Self::slot_bytes(),
                N as nat,
                payload@,
                final(self).calls_since(old(self)),
                r,
            ),
    {
        if payload.len() > N || payload.len() > MAX_PAYLOAD {
            return Err(Error::TooLarge);
        }
        let ghost size = Self::slot_bytes();
        let mut scratch: [u8; N] = [0u8; N];
        let found = match self.find(&mut scratch) {
            Ok(found) => found,
            Err(e) => {
                return Err(e);
            },
        };
        let ghost search = self.calls_since(old(self));
        // With nothing stored yet there is no slot to preserve, so start at the
        // front; otherwise take the one the current record is not in.
        let (slot, seq) = next_save(found.kept());
        let block: [u8; N] = pad(payload);
        let header = seal(payload.len(), seq, block.as_slice());

        let base: u32 = Self::base(slot);
        let erased = self.flash.erase(base, base + Self::slot_size());
        proof {
            lemma_search_is_settled(size, N as nat, search, self.calls_since(old(self)));
        }
        match erased {
            Ok(_) => {},
            Err(e) => {
                return Err(Error::Flash(e));
            },
        }
        let written = self.flash.write(Self::payload_offset(slot), block.as_slice());
        proof {
            lemma_search_is_settled(size, N as nat, search, self.calls_since(old(self)));
        }
        match written {
            Ok(_) => {},
            Err(e) => {
                return Err(Error::Flash(e));
            },
        }
        // Last, and only now does the slot count as written.
        let sealed = self.flash.write(base, header.as_slice());
        proof {
            lemma_search_is_settled(size, N as nat, search, self.calls_since(old(self)));
        }
        match sealed {
            Ok(_) => Ok(()),
            Err(e) => Err(Error::Flash(e)),
        }
    }

    fn slot_size() -> (size: u32)
        requires
            F::ERASE_SIZE <= u32::MAX,
        ensures
            size == Self::slot_bytes(),
    {
        F::ERASE_SIZE as u32
    }

    fn base(slot: usize) -> (offset: u32)
        requires
            slot < SLOTS,
            F::ERASE_SIZE <= u32::MAX,
        ensures
            offset == slot_base(Self::slot_bytes(), slot as int),
    {
        proof {
            let size = Self::slot_bytes();
            assert(slot * size == if slot == 0 {
                0
            } else {
                size as int
            }) by (nonlinear_arith)
                requires
                    slot == 0 || slot == 1,
            ;
        }
        slot as u32 * Self::slot_size()
    }

    fn payload_offset(slot: usize) -> (offset: u32)
        requires
            slot < SLOTS,
            slot_payload(Self::slot_bytes(), 1) <= u32::MAX,
        ensures
            offset == slot_payload(Self::slot_bytes(), slot as int),
    {
        Self::base(slot) + HEADER_LEN as u32
    }

    /// Reads and recognises the header of one slot.
    fn header(&mut self, slot: usize) -> (r: Result<Option<Header>, Error<F::Error>>)
        requires
            slot < SLOTS,
            F::ERASE_SIZE <= u32::MAX,
        ensures
            final(self).calls().len() == old(self).calls().len() + 1,
            final(self).follows(old(self)),
            final(self).calls().last().reads(
                slot_base(Self::slot_bytes(), slot as int),
                HEADER_LEN as nat,
            ),
            match final(self).calls().last().fault() {
                Some(e) => r == Err::<Option<Header>, Error<F::Error>>(Error::Flash(e)),
                None => r matches Ok(header) && heading_of(header) == heard(
                    final(self).calls().last(),
                    N as nat,
                ),
            },
            r matches Ok(Some(header)) ==> header.raw@ == final(self).calls().last().left(),
    {
        let mut raw: [u8; HEADER_LEN] = [0u8; HEADER_LEN];
        match self.flash.read(Self::base(slot), &mut raw) {
            Ok(_) => Ok(Header::parse(&raw, N)),
            Err(e) => Err(Error::Flash(e)),
        }
    }
}

/// A record suits a flash whose reads and writes divide a header of sixteen bytes
/// and the payload block, if both fit in an erase block together. No other flash
/// does.
pub proof fn law_layout_divides_and_fits(
    read_size: nat,
    write_size: nat,
    erase_size: nat,
    capacity: nat,
)
    ensures
        read_size == 0 || write_size == 0 ==> !suits(read_size, write_size, erase_size, capacity),
        read_size > 0 && write_size > 0 ==> (suits(read_size, write_size, erase_size, capacity)
            <==> {
            &&& 16nat % read_size == 0
            &&& 16nat % write_size == 0
            &&& capacity % read_size == 0
            &&& capacity % write_size == 0
            &&& 16 + capacity <= erase_size
        }),
{
}

/// What a store asks of its flash is asked of the flash it has: the sizes are its
/// sizes, and a slot is one erase block. Sizes can be compared unless a header
/// and a record, or two slots of a layout that suits, are more than can be
/// counted.
pub proof fn law_store_goes_by_its_flash<F: Flash, const N: usize>()
    ensures
        Store::<F, N>::slot_bytes() == F::ERASE_SIZE,
        Store::<F, N>::layout_suits() <==> suits(
            F::READ_SIZE as nat,
            F::WRITE_SIZE as nat,
            F::ERASE_SIZE as nat,
            N as nat,
        ),
        16 + N <= usize::MAX && 2 * F::ERASE_SIZE <= usize::MAX ==> Store::<F, N>::comparable(),
{
}

/// The calls of a store are the history of its flash, and those since some time
/// are what has come on top of it.
pub proof fn law_calls_are_the_history_of_the_flash<F: Flash, const N: usize>(
    before: Store<F, N>,
    after: Store<F, N>,
)
    requires
        after.follows(&before),
    ensures
        before.flash.log() + after.calls_since(&before) == after.flash.log(),
        after.calls() == after.flash.log(),
{
    assert(before.flash.log() + after.calls_since(&before) =~= after.flash.log());
}

/// A payload is refused as too large if it is longer than the block or than
/// 65535 bytes, and only then. The flash is not asked for anything then, and is
/// asked for something otherwise.
pub proof fn law_only_oversized_payloads_are_refused<E>(
    size: nat,
    capacity: nat,
    payload: Seq<u8>,
    calls: Seq<Call<E>>,
    result: Result<(), Error<E>>,
)
    requires
        save_run(size, capacity, payload, calls, result),
    ensures
        payload.len() > capacity || payload.len() > 0xFFFF <==> (result matches Err(e)
            && e is TooLarge),
        payload.len() > capacity || payload.len() > 0xFFFF <==> calls.len() == 0,
{
}

/// What a load asks of the flash and makes of each answer.
///
/// Both headers are read. A slot whose header is recognised has its payload read,
/// the newer one first, and the older one only if the checksum of the newer does
/// not agree. The first fault ends it, and is what is returned; otherwise the
/// length in the header whose checksum agrees, or nothing if none does. What was
/// read last is in the buffer.
#[verifier::rlimit(60)]
pub proof fn law_load_takes_the_newest_that_agrees<E>(
    size: nat,
    capacity: nat,
    calls: Seq<Call<E>>,
    before: Seq<u8>,
    result: Result<Option<usize>, Error<E>>,
    after: Seq<u8>,
)
    requires
        load_run(size, capacity, calls, before, result, after),
    ensures
        ({
            let n = calls.len();
            let h0 = heading(calls[0].left(), capacity);
            let h1 = heading(calls[1].left(), capacity);
            let failed = |e: E| result == Err::<Option<usize>, Error<E>>(Error::Flash(e));
            let nothing = result == Ok::<Option<usize>, Error<E>>(None);
            let found = |h: Heading| result matches Ok(Some(len)) && len == h.len;
            &&& n > 0
            &&& calls[0].reads(0, 16)
            &&& match calls[0].fault() {
                Some(e) => n == 1 && failed(e) && after == before,
                None => {
                    &&& n > 1
                    &&& calls[1].reads(size as int, 16)
                    &&& match calls[1].fault() {
                        Some(e) => n == 2 && failed(e) && after == before,
                        None => match (h0, h1) {
                            (None, None) => n == 2 && nothing && after == before,
                            (Some(h), None) => {
                                &&& n == 3
                                &&& calls[2].reads(16, capacity)
                                &&& after == calls[2].left()
                                &&& match calls[2].fault() {
                                    Some(e) => failed(e),
                                    None => if h.vouches_for(calls[2].left()) {
                                        found(h)
                                    } else {
                                        nothing
                                    },
                                }
                            },
                            (None, Some(h)) => {
                                &&& n == 3
                                &&& calls[2].reads(size + 16int, capacity)
                                &&& after == calls[2].left()
                                &&& match calls[2].fault() {
                                    Some(e) => failed(e),
                                    None => if h.vouches_for(calls[2].left()) {
                                        found(h)
                                    } else {
                                        nothing
                                    },
                                }
                            },
                            (Some(a), Some(b)) => {
                                let back = newer(b.seq, a.seq);
                                let (first, second) = if back {
                                    (b, a)
                                } else {
                                    (a, b)
                                };
                                let (here, there) = if back {
                                    (size + 16int, 16int)
                                } else {
                                    (16int, size + 16int)
                                };
                                &&& n >= 3
                                &&& calls[2].reads(here, capacity)
                                &&& match calls[2].fault() {
                                    Some(e) => n == 3 && failed(e) && after == calls[2].left(),
                                    None => if first.vouches_for(calls[2].left()) {
                                        n == 3 && found(first) && after == calls[2].left()
                                    } else {
                                        &&& n == 4
                                        &&& calls[3].reads(there, capacity)
                                        &&& after == calls[3].left()
                                        &&& match calls[3].fault() {
                                            Some(e) => failed(e),
                                            None => if second.vouches_for(calls[3].left()) {
                                                found(second)
                                            } else {
                                                nothing
                                            },
                                        }
                                    },
                                }
                            },
                        },
                    }
                },
            }
        }),
{
    let slots = ranked(capacity, calls);
    if calls.len() > 2 {
        assert(calls[2].reads(slot_payload(size, slots[0]), capacity));
    }
    if calls.len() > 3 {
        assert(calls[3].reads(slot_payload(size, slots[1]), capacity));
    }
    assert(calls[calls.len() - 1] == calls.last());
}

/// What a save asks of the flash and makes of each answer.
///
/// Both headers are read, and a fault there ends it. A slot whose header is
/// recognised has its payload read, the newer one first, and the older one only
/// if the checksum of the newer does not agree. The slot whose checksum agrees,
/// or whose payload cannot be read, is kept; if none is, the newer one. Then the
/// other slot is erased, the padded payload written behind where its header goes,
/// and last the header, with the number after that of the kept slot. With no
/// header recognised that is the front slot under number zero. A fault in one of
/// these three ends it and is returned, and without one it succeeds.
#[verifier::rlimit(60)]
pub proof fn law_save_writes_beside_the_kept_slot<E>(
    size: nat,
    capacity: nat,
    payload: Seq<u8>,
    calls: Seq<Call<E>>,
    result: Result<(), Error<E>>,
)
    requires
        save_run(size, capacity, payload, calls, result),
        payload.len() <= capacity,
        payload.len() <= 0xFFFF,
    ensures
        ({
            let h0 = heading(calls[0].left(), capacity);
            let h1 = heading(calls[1].left(), capacity);
            let block = padded(payload, capacity);
            let failed = |e: E| result == Err::<(), Error<E>>(Error::Flash(e));
            // The last three calls, from call `n` on, to the slot at `base`.
            let puts = |n: int, base: int, seq: int|
                {
                    &&& n < calls.len() <= n + 3
                    &&& calls[n].erases(base, base + size)
                    &&& match calls[n].fault() {
                        Some(e) => calls.len() == n + 1 && failed(e),
                        None => {
                            &&& calls.len() > n + 1
                            &&& calls[n + 1].writes(base + 16, block)
                            &&& match calls[n + 1].fault() {
                                Some(e) => calls.len() == n + 2 && failed(e),
                                None => {
                                    &&& calls.len() == n + 3
                                    &&& calls[n + 2].writes(
                                        base,
                                        header_bytes(
                                            payload.len(),
                                            (seq % 0x1_0000_0000) as u32,
                                            block,
                                        ),
                                    )
                                    &&& match calls[n + 2].fault() {
                                        Some(e) => failed(e),
                                        None => result is Ok,
                                    }
                                },
                            }
                        },
                    }
                };
            &&& calls.len() > 0
            &&& calls[0].reads(0, 16)
            &&& match calls[0].fault() {
                Some(e) => calls.len() == 1 && failed(e),
                None => {
                    &&& calls.len() > 1
                    &&& calls[1].reads(size as int, 16)
                    &&& match calls[1].fault() {
                        Some(e) => calls.len() == 2 && failed(e),
                        None => match (h0, h1) {
                            (None, None) => puts(2, 0, 0),
                            (Some(h), None) => calls[2].reads(16, capacity) && puts(
                                3,
                                size as int,
                                h.seq + 1,
                            ),
                            (None, Some(h)) => calls[2].reads(size + 16int, capacity) && puts(
                                3,
                                0,
                                h.seq + 1,
                            ),
                            (Some(a), Some(b)) => {
                                let back = newer(b.seq, a.seq);
                                let (first, second) = if back {
                                    (b, a)
                                } else {
                                    (a, b)
                                };
                                let (here, there) = if back {
                                    (size as int, 0int)
                                } else {
                                    (0int, size as int)
                                };
                                &&& calls[2].reads(here + 16, capacity)
                                &&& if calls[2].fault() is Some || first.vouches_for(
                                    calls[2].left(),
                                ) {
                                    puts(3, there, first.seq + 1)
                                } else {
                                    &&& calls[3].reads(there + 16, capacity)
                                    &&& if calls[3].fault() is Some || second.vouches_for(
                                        calls[3].left(),
                                    ) {
                                        puts(4, here, second.seq + 1)
                                    } else {
                                        puts(4, there, first.seq + 1)
                                    }
                                }
                            },
                        },
                    }
                },
            }
        }),
{
    let slots = ranked(capacity, calls);
    let searched = 2 + tries(capacity, calls) as int;
    if calls.len() > 2 && searched > 2 {
        assert(calls[2].reads(slot_payload(size, slots[0]), capacity));
    }
    if calls.len() > 3 && searched > 3 {
        assert(calls[3].reads(slot_payload(size, slots[1]), capacity));
    }
    assert(calls[calls.len() - 1] == calls.last());
    assert(0int % 0x1_0000_0000 == 0);
}

} // verus!
