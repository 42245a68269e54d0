//! The flash region a store lives in, seen from the store.
use vstd::prelude::*;

verus! {

/// A NOR flash region: erased in blocks to all ones, then written by clearing
/// bits.
///
/// A region has a history, [`Flash::log`]: every operation it was asked for,
/// with what came of it, in order. Nothing is promised of what comes of an
/// operation. A read may fail, and may hand back anything; [`crate::storage`]
/// says what it does with each answer, and [`crate::nor`] says what follows when
/// the answers are those of a working chip, such as [`crate::ram::Ram`].
pub trait Flash {
    /// How the region reports a refused operation.
    type Error;

    /// Granularity of reads, in bytes.
    const READ_SIZE: usize;

    /// Granularity of writes, in bytes.
    const WRITE_SIZE: usize;

    /// Granularity of erases, in bytes.
    const ERASE_SIZE: usize;

    /// Every operation the region was asked for, and what came of it.
    ///
    /// Only proofs speak of it. That each operation adds itself to the history
    /// is proved of [`crate::ram::Ram`], and taken on trust of an implementation
    /// from outside the library, which is never asked for its history.
    spec fn log(&self) -> History<Self::Error>;

    /// Size of the region in bytes, as proofs speak of it.
    spec fn extent(&self) -> usize;

    /// Size of the region in bytes.
    fn capacity(&self) -> (size: usize)
        ensures
            size == self.extent(),
    ;

    /// Fills `bytes` from the region, starting at `offset`.
    fn read<const L: usize>(&mut self, offset: u32, bytes: &mut [u8; L]) -> (r: Result<
        (),
        Self::Error,
    >)
        ensures
            final(self).log() == old(self).log().push(
                (Call::Read { offset, left: final(bytes)@, fault: fault_of(r) }),
            ),
    ;

    /// Erases the region from `from` up to, but not including, `to`.
    fn erase(&mut self, from: u32, to: u32) -> (r: Result<(), Self::Error>)
        ensures
            final(self).log() == old(self).log().push(
                (Call::Erase { from, to, fault: fault_of(r) }),
            ),
    ;

    /// Writes `bytes` to the region, starting at `offset`.
    fn write(&mut self, offset: u32, bytes: &[u8]) -> (r: Result<(), Self::Error>)
        ensures
            final(self).log() == old(self).log().push(
                (Call::Write { offset, bytes: bytes@, fault: fault_of(r) }),
            ),
    ;
}

/// A number of operations, in order.
pub type History<E> = Seq<Call<E>>;

/// The fault in the answer to an operation.
pub open spec fn fault_of<E>(answer: Result<(), E>) -> Option<E> {
    match answer {
        Ok(_) => None,
        Err(e) => Some(e),
    }
}

/// One operation a region was asked for, together with what came of it.
pub enum Call<E> {
    /// A read, the buffer it left behind, and its fault, if any.
    Read { offset: u32, left: Seq<u8>, fault: Option<E> },
    /// An erase and its fault, if any.
    Erase { from: u32, to: u32, fault: Option<E> },
    /// A write and its fault, if any.
    Write { offset: u32, bytes: Seq<u8>, fault: Option<E> },
}

impl<E> Call<E> {
    /// The fault the call was answered with.
    pub open spec fn fault(self) -> Option<E> {
        match self {
            Call::Read { fault, .. } => fault,
            Call::Erase { fault, .. } => fault,
            Call::Write { fault, .. } => fault,
        }
    }

    /// The buffer a read left behind.
    pub open spec fn left(self) -> Seq<u8> {
        self->left
    }

    /// Whether this is a read of `len` bytes at `offset`.
    pub open spec fn reads(self, offset: int, len: nat) -> bool {
        self matches Call::Read { offset: o, left, .. } && o == offset && left.len() == len
    }

    /// Whether this is an erase of the bytes from `from` to `to`.
    pub open spec fn erases(self, from: int, to: int) -> bool {
        self matches Call::Erase { from: f, to: t, .. } && f == from && t == to
    }

    /// Whether this is a write of `bytes` at `offset`.
    pub open spec fn writes(self, offset: int, bytes: Seq<u8>) -> bool {
        self matches Call::Write { offset: o, bytes: b, .. } && o == offset && b == bytes
    }
}

/// What is said of an operation is what is on record of it: where it was, what it
/// carried, and the fault it was answered with.
pub proof fn law_operations_are_told_as_they_are<E>(call: Call<E>, a: int, b: int, bytes: Seq<u8>)
    ensures
        match call {
            Call::Read { offset, left, fault } => {
                &&& call.fault() == fault
                &&& call.left() == left
                &&& call.reads(a, bytes.len()) <==> offset == a && left.len() == bytes.len()
                &&& !call.erases(a, b)
                &&& !call.writes(a, bytes)
            },
            Call::Erase { from, to, fault } => {
                &&& call.fault() == fault
                &&& call.erases(a, b) <==> from == a && to == b
                &&& !call.reads(a, bytes.len())
                &&& !call.writes(a, bytes)
            },
            Call::Write { offset, bytes: carried, fault } => {
                &&& call.fault() == fault
                &&& call.writes(a, bytes) <==> offset == a && carried == bytes
                &&& !call.reads(a, bytes.len())
                &&& !call.erases(a, b)
            },
        },
{
}

/// An operation has a fault if it was refused, and it is the one it was refused
/// with.
pub proof fn law_refusals_are_faults<E>(answer: Result<(), E>)
    ensures
        match answer {
            Ok(_) => fault_of(answer) is None,
            Err(e) => fault_of(answer) is Some && fault_of(answer)->0 == e,
        },
{
}

} // verus!
