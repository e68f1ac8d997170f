//! Reading records out of the shared maps: the seqlock protocol for
//! single-record maps, the record keys, single-record lookups and batched
//! walks over hash maps.

use crate::bytes::{le_u32, le_u64, read_u64, u32_le_bytes, u64_le_bytes};
use crate::types::SharedLayout;
use vstd::prelude::*;

verus! {

/// The sequence counter kept in the first eight bytes of a record.
pub fn read_seq(bytes: &[u8]) -> (r: u64)
    requires
        bytes@.len() >= 8,
    ensures
        r == le_u64(bytes@, 0),
{
    read_u64(bytes, 0)
}

/// A writer is in the middle of an update while the counter is odd.
pub fn writer_active(seq: u64) -> (r: bool)
    ensures
        r == (seq % 2 == 1),
{
    seq % 2 == 1
}

/// The outcome of one attempt to copy a record under the seqlock.
pub enum SeqlockStep<T> {
    /// The copy may be torn: read again.
    Retry,
    /// A consistent copy.
    Done(T),
}

/// Decides one read attempt: the counter read before the copy, the copied
/// bytes, and the counter read after it. The copy is kept exactly when no
/// writer was active before and the counter did not move.
pub fn seqlock_read<T: SharedLayout>(seq_before: u64, copy: &[u8], seq_after: u64) -> (r:
    SeqlockStep<T>)
    requires
        copy@.len() == T::spec_size(),
    ensures
        r is Done <==> (seq_before % 2 == 0 && seq_before == seq_after),
        r matches SeqlockStep::Done(v) ==> v.stored_in(copy@),
{
    if writer_active(seq_before) || seq_before != seq_after {
        SeqlockStep::Retry
    } else {
        SeqlockStep::Done(T::decode(copy))
    }
}

/// The record that a lookup returned, if the value has exactly one record's size.
pub fn decode_value<T: SharedLayout>(value: &Option<Vec<u8>>) -> (r: Option<T>)
    ensures
        r is Some <==> (value matches Some(v) && v@.len() == T::spec_size()),
        r matches Some(x) ==> x.stored_in(value->0@),
{
    match value {
        Some(v) => if v.len() == T::size() {
            Some(T::decode(v.as_slice()))
        } else {
            None
        },
        None => None,
    }
}

/// The key of a process in the process map: its PID.
pub fn pid_key(pid: u32) -> (r: [u8; 4])
    ensures
        le_u32(r@, 0) == pid,
{
    u32_le_bytes(pid)
}

/// The key of a file descriptor in the descriptor map: PID in the high
/// half, descriptor number in the low half.
pub fn fd_key(pid: u32, fd: u32) -> (r: u64)
    ensures
        r == pid * 0x1_0000_0000 + fd,
{
    let r = ((pid as u64) << 32) | (fd as u64);
    assert(((pid as u64) << 32) | (fd as u64) == pid * 0x1_0000_0000 + fd) by (bit_vector);
    r
}

/// The key bytes of a file descriptor in the descriptor map.
pub fn fd_key_bytes(pid: u32, fd: u32) -> (r: [u8; 8])
    ensures
        le_u64(r@, 0) == pid * 0x1_0000_0000 + fd,
{
    u64_le_bytes(fd_key(pid, fd))
}

/// Different descriptors have different keys: the key gives back its PID
/// and descriptor number.
pub proof fn law_fd_key_distinct(p1: u32, f1: u32, p2: u32, f2: u32)
    requires
        p1 * 0x1_0000_0000 + f1 == p2 * 0x1_0000_0000 + f2,
    ensures
        p1 == p2,
        f1 == f2,
{
}

/// The key of a socket in the socket map: its inode number.
pub fn inode_key(inode: u64) -> (r: [u8; 8])
    ensures
        le_u64(r@, 0) == inode,
{
    u64_le_bytes(inode)
}

/// `items` are the records held, one after another, by `bytes`.
pub open spec fn records_in<T: SharedLayout>(items: Seq<T>, bytes: Seq<u8>) -> bool {
    &&& items.len() * T::spec_size() <= bytes.len()
    &&& forall|i: int|
        0 <= i < items.len() ==> (#[trigger] items[i]).stored_in(
            bytes.subrange(i * T::spec_size(), (i + 1) * T::spec_size()),
        )
}

/// Decodes the first `count` records of a batch's value buffer.
pub fn decode_records<T: SharedLayout>(values: &[u8], count: usize) -> (r: Vec<T>)
    requires
        count * T::spec_size() <= values@.len(),
    ensures
        r@.len() == count,
        records_in(r@, values@),
{
    let size = T::size();
    let n = values.len();
    let mut out: Vec<T> = Vec::new();
    let mut i: usize = 0;
    while i < count
        invariant
            size == T::spec_size(),
            n == values@.len(),
            count * size <= n,
            i <= count,
            out@.len() == i,
            forall|j: int|
                0 <= j < i ==> (#[trigger] out@[j]).stored_in(
                    values@.subrange(j * size, (j + 1) * size),
                ),
        decreases count - i,
    {
        proof {
            vstd::arithmetic::mul::lemma_mul_inequality(i + 1, count as int, size as int);
            vstd::arithmetic::mul::lemma_mul_is_distributive_add_other_way(size as int, i as int, 1);
            assert((i + 1) * size <= count * size);
            assert((i + 1) * size == i * size + size);
        }
        let start = i * size;
        let end = start + size;
        let x = T::decode(&values[start..end]);
        out.push(x);
        i = i + 1;
    }
    out
}

/// The status of a batched lookup that reached the end of the map
/// (`-ENOENT`); its records are still map entries.
pub const END_OF_MAP: i32 = -2;

/// A walk over a hash map in batches: each batch returns up to a fixed
/// number of records and a cursor to resume from; the walk ends with the
/// first batch whose status is not 0.
pub struct BatchWalk<T> {
    started: bool,
    items: Vec<T>,
}

impl<T: SharedLayout> BatchWalk<T> {
    /// The records gathered so far, in the order the batches returned them.
    pub closed spec fn items(&self) -> Seq<T> {
        self.items@
    }

    /// A batch has been requested before.
    pub closed spec fn started(&self) -> bool {
        self.started
    }

    /// A walk that has gathered nothing.
    pub fn new() -> (r: Self)
        ensures
            r.items() == Seq::<T>::empty(),
            !r.started(),
    {
        BatchWalk { started: false, items: Vec::new() }
    }

    /// The next batch resumes from the cursor of the previous one; the first
    /// batch starts at the beginning of the map.
    pub fn resumes(&self) -> (r: bool)
        ensures
            r == self.started(),
    {
        self.started
    }

    /// Takes in one batch: its status and the first `count` records of its
    /// value buffer. The records are kept when the batch succeeded or reached
    /// the end of the map; a batch that failed otherwise reported none.
    /// Returns whether to request another batch.
    pub fn take_batch(&mut self, status: i32, values: &[u8], count: usize) -> (more: bool)
        requires
            count * T::spec_size() <= values@.len(),
        ensures
            final(self).started(),
            more == (status == 0),
            (status == 0 || status == END_OF_MAP) ==> exists|batch: Seq<T>|
                batch.len() == count && records_in(batch, values@) && final(self).items()
                    == old(self).items() + batch,
            !(status == 0 || status == END_OF_MAP) ==> final(self).items() == old(self).items(),
    {
        self.started = true;
        if status != 0 && status != END_OF_MAP {
            return false;
        }
        let batch = decode_records::<T>(values, count);
        let ghost b = batch@;
        let mut batch = batch;
        self.items.append(&mut batch);
        assert(self.items@ == old(self).items@ + b);
        status == 0
    }

    /// The gathered records.
    pub fn finish(self) -> (r: Vec<T>)
        ensures
            r@ == self.items(),
    {
        self.items
    }
}

} // verus!
