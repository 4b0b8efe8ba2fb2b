//! From a trace of the kernel to the edge bitmap of the fuzzer.
//!
//! The kernel writes the program counters that a task passes into a buffer
//! of `COVER_SIZE` words: the first word counts the entries, the entries
//! follow it. Two entries in a row are an edge. The fuzzer counts edges in
//! a bitmap of `AFL_MAP_SIZE` bytes, none of which ever wraps around.

use crate::runner::constants::AFL_MAP_SIZE;
use vstd::prelude::*;

verus! {

/// Words of the buffer that the kernel traces into.
pub const COVER_SIZE: usize = 16384;

/// What stands for the entry before the first one.
pub const FIRST_PREVIOUS_LOCATION: u64 = 0xdead;

/// The words of the trace buffer that hold `count` entries, as first index
/// and index past the last; `None` where the buffer cannot hold as many.
pub fn trace_range(count: usize) -> (range: Option<(usize, usize)>)
    ensures
        match range {
            Some((first, end)) => first == 1 && end == 1 + count && end <= COVER_SIZE,
            None => 1 + count > COVER_SIZE,
        },
{
    if count >= COVER_SIZE {
        None
    } else {
        Some((1, 1 + count))
    }
}

/// The sixteen bits of a program counter that take part in an edge.
pub open spec fn location(pc: u64) -> u64 {
    pc & 0xffff
}

/// The byte of the bitmap that counts the edge from `previous` to `pc`.
pub open spec fn edge_index(previous: u64, pc: u64) -> u64 {
    location(pc) ^ previous
}

/// What `pc` leaves as `previous` for the entry after it.
pub open spec fn next_previous(pc: u64) -> u64 {
    location(pc) >> 1
}

/// One more, but never past 255.
pub open spec fn saturating_increment(count: u8) -> u8 {
    if count == u8::MAX {
        u8::MAX
    } else {
        (count + 1) as u8
    }
}

/// The bitmap after the edges of the trace `pcs`, which follows an entry
/// that left `previous`, were counted.
pub open spec fn fold_edges(map: Seq<u8>, pcs: Seq<u64>, previous: u64) -> Seq<u8>
    decreases pcs.len(),
{
    if pcs.len() == 0 {
        map
    } else {
        let index = edge_index(previous, pcs[0]) as int;
        fold_edges(
            map.update(index, saturating_increment(map[index])),
            pcs.drop_first(),
            next_previous(pcs[0]),
        )
    }
}

/// An edge between sixteen-bit locations has a byte in the bitmap.
pub proof fn lemma_edge_in_map(previous: u64, pc: u64)
    requires
        previous < AFL_MAP_SIZE,
    ensures
        edge_index(previous, pc) < AFL_MAP_SIZE,
        next_previous(pc) < AFL_MAP_SIZE,
{
    assert(((pc & 0xffff) ^ previous) < 0x1_0000u64) by (bit_vector)
        requires
            previous < 0x1_0000u64,
    ;
    assert(((pc & 0xffff) >> 1) < 0x1_0000u64) by (bit_vector);
}

/// Counting edges keeps the size of the bitmap and lowers no byte: no
/// counter wraps around.
pub proof fn lemma_fold_never_wraps(map: Seq<u8>, pcs: Seq<u64>, previous: u64)
    requires
        map.len() == AFL_MAP_SIZE,
        previous < AFL_MAP_SIZE,
    ensures
        fold_edges(map, pcs, previous).len() == map.len(),
        forall|i: int| 0 <= i < map.len() ==> map[i] <= #[trigger] fold_edges(map, pcs, previous)[i],
    decreases pcs.len(),
{
    if pcs.len() > 0 {
        let index = edge_index(previous, pcs[0]) as int;
        let counted = map.update(index, saturating_increment(map[index]));
        lemma_edge_in_map(previous, pcs[0]);
        lemma_fold_never_wraps(counted, pcs.drop_first(), next_previous(pcs[0]));
        assert forall|i: int| 0 <= i < map.len() implies map[i] <= #[trigger] fold_edges(map, pcs, previous)[i] by {
            assert(map[i] <= counted[i]);
        }
    }
}

/// Counts the edges of the trace `pcs` in the bitmap `shmem`.
pub fn fold_coverage(shmem: &mut [u8], pcs: &[u64])
    requires
        old(shmem)@.len() == AFL_MAP_SIZE,
    ensures
        final(shmem)@ == fold_edges(old(shmem)@, pcs@, FIRST_PREVIOUS_LOCATION),
        final(shmem)@.len() == AFL_MAP_SIZE,
        forall|i: int| 0 <= i < AFL_MAP_SIZE ==> old(shmem)@[i] <= #[trigger] final(shmem)@[i],
{
    let mut prev_loc: u64 = FIRST_PREVIOUS_LOCATION;
    let mut i: usize = 0;
    assert(pcs@.subrange(0, pcs@.len() as int) =~= pcs@);
    while i < pcs.len()
        invariant
            i <= pcs.len(),
            shmem@.len() == AFL_MAP_SIZE,
            prev_loc < AFL_MAP_SIZE,
            fold_edges(shmem@, pcs@.subrange(i as int, pcs@.len() as int), prev_loc) == fold_edges(
                old(shmem)@,
                pcs@,
                FIRST_PREVIOUS_LOCATION,
            ),
        decreases pcs.len() - i,
    {
        let current_loc: u64 = pcs[i];
        let mixed: u64 = (current_loc & 0xffff) ^ prev_loc;
        proof {
            lemma_edge_in_map(prev_loc, current_loc);
            let rest = pcs@.subrange(i as int, pcs@.len() as int);
            assert(rest[0] == current_loc);
            assert(rest.drop_first() =~= pcs@.subrange(i + 1, pcs@.len() as int));
        }
        prev_loc = (current_loc & 0xffff) >> 1;
        let index: usize = mixed as usize;
        let count: u8 = shmem[index];
        shmem[index] = if count == u8::MAX {
            u8::MAX
        } else {
            count + 1
        };
        i += 1;
    }
    proof {
        assert(pcs@.subrange(pcs@.len() as int, pcs@.len() as int) =~= Seq::empty());
        lemma_fold_never_wraps(old(shmem)@, pcs@, FIRST_PREVIOUS_LOCATION);
    }
}

} // verus!
