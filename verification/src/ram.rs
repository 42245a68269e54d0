//! A NOR flash region in memory.
//!
//! It is wrong in the same ways a real one is: reads and writes are
//! word-granular, erase sets ones, and a write can only clear bits. What it
//! holds follows from what it was asked for, and nothing else ([`replayed`]).
use vstd::prelude::*;

use crate::flash::{fault_of, Call, Flash};
use crate::nor::{image_after, image_after_call, served, serves};

verus! {

/// Granularity of reads and writes, in bytes.
pub const WORD: usize = 4;

/// Granularity of erases, in bytes.
pub const SECTOR: usize = 256;

/// Size of the region in bytes: two sectors.
pub const CAPACITY: usize = 512;

/// An operation was out of bounds, or not aligned.
#[derive(Clone, Copy, PartialEq, Eq, Debug, Structural)]
pub struct Refused;

/// Whether the bytes from `offset` on, `len` of them, are whole words of the
/// region.
pub open spec fn in_words(offset: int, len: int) -> bool {
    offset % WORD as int == 0 && len % WORD as int == 0 && offset + len <= CAPACITY
}

/// Whether the bytes from `from` to `to` are whole sectors of the region.
pub open spec fn in_sectors(from: int, to: int) -> bool {
    from % SECTOR as int == 0 && to % SECTOR as int == 0 && from <= to <= CAPACITY
}

/// Whether an operation is one that the region carries out.
pub open spec fn acceptable(call: Call<Refused>) -> bool {
    match call {
        Call::Read { offset, left, .. } => in_words(offset as int, left.len() as int),
        Call::Erase { from, to, .. } => in_sectors(from as int, to as int),
        Call::Write { offset, bytes, .. } => in_words(offset as int, bytes.len() as int),
    }
}

/// What a region that was blank to begin with holds after `calls`.
pub open spec fn replayed(calls: Seq<Call<Refused>>) -> Seq<u8>
    decreases calls.len(),
{
    if calls.len() == 0 {
        Seq::new(CAPACITY as nat, |i: int| 0xFF)
    } else {
        let before = replayed(calls.drop_last());
        if calls.last().fault() is None {
            image_after_call(before, calls.last())
        } else {
            before
        }
    }
}

/// Whether each of `calls` was answered as a working region answers it: carried
/// out if it is acceptable, and refused otherwise.
pub open spec fn honest(calls: Seq<Call<Refused>>) -> bool
    decreases calls.len(),
{
    calls.len() > 0 ==> {
        let before = calls.drop_last();
        let last = calls.last();
        &&& honest(before)
        &&& last.fault() is None <==> acceptable(last)
        &&& last.fault() is None ==> serves(replayed(before), last)
    }
}

/// A NOR flash region of two sectors, in memory.
pub struct Ram {
    bytes: [u8; CAPACITY],
    history: Ghost<Seq<Call<Refused>>>,
}

impl Ram {
    #[verifier::type_invariant]
    spec fn holds_what_was_written(self) -> bool {
        &&& self.bytes@ == replayed(self.history@)
        &&& honest(self.history@)
    }

    /// A blank region.
    #[must_use]
    pub fn new() -> (ram: Self)
        ensures
            ram.log() == Seq::<Call<Refused>>::empty(),
    {
        let bytes: [u8; CAPACITY] = [0xFFu8; CAPACITY];
        let ghost none = Seq::<Call<Refused>>::empty();
        assert(bytes@ =~= replayed(none));
        Ram { bytes, history: Ghost(none) }
    }

    /// What the region holds.
    #[must_use]
    pub fn bytes(&self) -> (bytes: &[u8; CAPACITY])
        ensures
            bytes@ == replayed(self.log()),
            honest(self.log()),
    {
        proof {
            use_type_invariant(&*self);
        }
        &self.bytes
    }
}

impl Default for Ram {
    fn default() -> (ram: Self)
        ensures
            ram.log() == Seq::<Call<Refused>>::empty(),
    {
        Self::new()
    }
}

fn are_words(offset: u32, len: usize) -> (r: bool)
    ensures
        r == in_words(offset as int, len as int),
{
    offset as usize % WORD == 0 && len % WORD == 0 && len <= CAPACITY && offset as usize <= CAPACITY
        - len
}

impl Flash for Ram {
    type Error = Refused;

    const READ_SIZE: usize = WORD;

    const WRITE_SIZE: usize = WORD;

    const ERASE_SIZE: usize = SECTOR;

    closed spec fn log(&self) -> Seq<Call<Refused>> {
        self.history@
    }

    open spec fn extent(&self) -> usize {
        CAPACITY
    }

    fn capacity(&self) -> usize {
        CAPACITY
    }

    fn read<const L: usize>(&mut self, offset: u32, bytes: &mut [u8; L]) -> (r: Result<(), Refused>)
        ensures
            r is Ok <==> in_words(offset as int, L as int),
            r is Err ==> final(bytes)@ == old(bytes)@,
            r is Ok ==> final(bytes)@ == replayed(old(self).log()).subrange(
                offset as int,
                offset + L,
            ),
    {
        proof {
            use_type_invariant(&*self);
        }
        let ok = are_words(offset, L);
        if ok {
            let at: usize = offset as usize;
            let mut i: usize = 0;
            while i < L
                invariant
                    i <= L,
                    at == offset,
                    at + L <= CAPACITY,
                    forall|k: int| 0 <= k < i ==> #[trigger] bytes@[k] == self.bytes@[at + k],
                decreases L - i,
            {
                bytes[i] = self.bytes[at + i];
                i = i + 1;
            }
            assert(bytes@ =~= self.bytes@.subrange(at as int, at + L));
        }
        let r = if ok {
            Ok(())
        } else {
            Err(Refused)
        };
        let ghost call = Call::Read { offset, left: bytes@, fault: fault_of(r) };
        assert(self.history@.push(call).drop_last() =~= self.history@);
        *self = Ram { bytes: self.bytes, history: Ghost(self.history@.push(call)) };
        r
    }

    fn erase(&mut self, from: u32, to: u32) -> (r: Result<(), Refused>)
        ensures
            r is Ok <==> in_sectors(from as int, to as int),
    {
        proof {
            use_type_invariant(&*self);
        }
        let ok = from as usize % SECTOR == 0 && to as usize % SECTOR == 0 && from <= to
            && to as usize <= CAPACITY;
        let mut bytes: [u8; CAPACITY] = self.bytes;
        if ok {
            let mut i: usize = from as usize;
            while i < to as usize
                invariant
                    from <= i <= to <= CAPACITY,
                    forall|k: int|
                        0 <= k < CAPACITY ==> #[trigger] bytes@[k] == if from <= k < i {
                            0xFF
                        } else {
                            self.bytes@[k]
                        },
                decreases to - i,
            {
                bytes[i] = 0xFF;
                i = i + 1;
            }
        }
        let r = if ok {
            Ok(())
        } else {
            Err(Refused)
        };
        let ghost call = Call::Erase { from, to, fault: fault_of(r) };
        let ghost calls = self.history@.push(call);
        assert(calls.drop_last() =~= self.history@);
        assert(bytes@ =~= replayed(calls));
        *self = Ram { bytes, history: Ghost(calls) };
        r
    }

    fn write(&mut self, offset: u32, bytes: &[u8]) -> (r: Result<(), Refused>)
        ensures
            r is Ok <==> in_words(offset as int, bytes@.len() as int),
    {
        proof {
            use_type_invariant(&*self);
        }
        let ok = are_words(offset, bytes.len());
        let mut cells: [u8; CAPACITY] = self.bytes;
        if ok {
            let at: usize = offset as usize;
            let mut i: usize = 0;
            while i < bytes.len()
                invariant
                    i <= bytes.len(),
                    at == offset,
                    at + bytes.len() <= CAPACITY,
                    forall|k: int|
                        0 <= k < CAPACITY ==> #[trigger] cells@[k] == if at <= k < at + i {
                            self.bytes@[k] & bytes@[k - at]
                        } else {
                            self.bytes@[k]
                        },
                decreases bytes.len() - i,
            {
                cells[at + i] = cells[at + i] & bytes[i];
                i = i + 1;
            }
        }
        let r = if ok {
            Ok(())
        } else {
            Err(Refused)
        };
        let ghost call = Call::Write { offset, bytes: bytes@, fault: fault_of(r) };
        let ghost calls = self.history@.push(call);
        assert(calls.drop_last() =~= self.history@);
        assert(cells@ =~= replayed(calls));
        *self = Ram { bytes: cells, history: Ghost(calls) };
        r
    }
}

/// This region works: whatever it has been through, it serves every acceptable
/// operation, and what it holds then is what those operations leave.
pub proof fn law_ram_is_a_working_region(before: Seq<Call<Refused>>, calls: Seq<Call<Refused>>)
    requires
        honest(before + calls),
        forall|i: int| 0 <= i < calls.len() ==> acceptable(#[trigger] calls[i]),
    ensures
        served(replayed(before), calls),
        replayed(before + calls) == image_after(replayed(before), calls, calls.len()),
    decreases calls.len(),
{
    if calls.len() == 0 {
        assert(before + calls =~= before);
    } else {
        let all = before + calls;
        let rest = calls.drop_last();
        assert(all.drop_last() =~= before + rest);
        law_ram_is_a_working_region(before, rest);
        assert(all.last() == calls[calls.len() - 1]);
        lemma_image_after_prefix(replayed(before), rest, calls, rest.len());
        assert forall|i: int| 0 <= i < calls.len() implies serves(
            image_after(replayed(before), calls, i as nat),
            #[trigger] calls[i],
        ) by {
            if i < rest.len() {
                assert(serves(image_after(replayed(before), rest, i as nat), rest[i]));
                lemma_image_after_prefix(replayed(before), rest, calls, i as nat);
            }
        }
    }
}

/// Calls yet to come do not matter.
proof fn lemma_image_after_prefix(
    image: Seq<u8>,
    calls: Seq<Call<Refused>>,
    more: Seq<Call<Refused>>,
    count: nat,
)
    requires
        calls.is_prefix_of(more),
        count <= calls.len(),
    ensures
        image_after(image, calls, count) == image_after(image, more, count),
    decreases count,
{
    if count > 0 {
        assert(calls[count - 1] == more[count - 1]);
        lemma_image_after_prefix(image, calls, more, (count - 1) as nat);
    }
}

/// The region carries out what is in whole words of four bytes, or for an erase
/// whole sectors of 256, and within its 512 bytes.
pub proof fn law_ram_carries_out_what_is_aligned(call: Call<Refused>)
    ensures
        acceptable(call) <==> match call {
            Call::Read { offset, left, .. } => offset % 4 == 0 && left.len() % 4 == 0 && offset
                + left.len() <= 512,
            Call::Erase { from, to, .. } => from % 256 == 0 && to % 256 == 0 && from <= to && to
                <= 512,
            Call::Write { offset, bytes, .. } => offset % 4 == 0 && bytes.len() % 4 == 0 && offset
                + bytes.len() <= 512,
        },
{
}

/// A region starts out blank, and holds what its history leaves: one more
/// operation changes it only if it was carried out, which it was if and only if
/// it is acceptable.
pub proof fn law_ram_holds_what_its_history_leaves(calls: Seq<Call<Refused>>, last: Call<Refused>)
    ensures
        replayed(Seq::empty()).len() == 512,
        forall|i: int| 0 <= i < 512 ==> #[trigger] replayed(Seq::empty())[i] == 0xFF,
        last.fault() is Some ==> replayed(calls.push(last)) == replayed(calls),
        last.fault() is None ==> replayed(calls.push(last)) == image_after_call(
            replayed(calls),
            last,
        ),
        honest(Seq::empty()),
        honest(calls.push(last)) ==> honest(calls) && (last.fault() is None <==> acceptable(last)),
{
    assert(calls.push(last).drop_last() =~= calls);
}

} // verus!
