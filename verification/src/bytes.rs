//! Little-endian integers in byte sequences.

use vstd::prelude::*;

verus! {

/// Value of the two bytes at `at`, least significant first.
pub open spec fn le_u16(s: Seq<u8>, at: int) -> int {
    s[at] + 0x100 * s[at + 1]
}

/// Value of the four bytes at `at`, least significant first.
pub open spec fn le_u32(s: Seq<u8>, at: int) -> int {
    s[at] + 0x100 * s[at + 1] + 0x1_0000 * s[at + 2] + 0x100_0000 * s[at + 3]
}

/// Value of the eight bytes at `at`, least significant first.
pub open spec fn le_u64(s: Seq<u8>, at: int) -> int {
    le_u32(s, at) + 0x1_0000_0000 * le_u32(s, at + 4)
}

/// The four bytes that hold `value`, least significant first.
pub open spec fn u32_le_bytes(value: u32) -> Seq<u8> {
    seq![
        (value % 0x100) as u8,
        (value / 0x100 % 0x100) as u8,
        (value / 0x1_0000 % 0x100) as u8,
        (value / 0x100_0000) as u8,
    ]
}

/// Reading back what `u32_le_bytes` wrote gives the value again.
pub proof fn lemma_u32_le_round_trip(value: u32)
    ensures
        u32_le_bytes(value).len() == 4,
        le_u32(u32_le_bytes(value), 0) == value,
{
}

pub fn read_u8(buf: &[u8], at: usize) -> (value: u8)
    requires
        at < buf.len(),
    ensures
        value == buf@[at as int],
{
    buf[at]
}

pub fn read_u16(buf: &[u8], at: usize) -> (value: u16)
    requires
        at + 2 <= buf.len(),
    ensures
        value == le_u16(buf@, at as int),
{
    buf[at] as u16 + 0x100 * (buf[at + 1] as u16)
}

pub fn read_u32(buf: &[u8], at: usize) -> (value: u32)
    requires
        at + 4 <= buf.len(),
    ensures
        value == le_u32(buf@, at as int),
{
    buf[at] as u32 + 0x100 * (buf[at + 1] as u32) + 0x1_0000 * (buf[at + 2] as u32) + 0x100_0000 * (buf[at
        + 3] as u32)
}

pub fn read_u64(buf: &[u8], at: usize) -> (value: u64)
    requires
        at + 8 <= buf.len(),
    ensures
        value == le_u64(buf@, at as int),
{
    let low: u32 = read_u32(buf, at);
    let high: u32 = read_u32(buf, at + 4);
    low as u64 + 0x1_0000_0000 * (high as u64)
}

/// Copies the `N` bytes at `at`.
pub fn read_bytes<const N: usize>(buf: &[u8], at: usize) -> (bytes: [u8; N])
    requires
        at + N <= buf.len(),
    ensures
        bytes@ == buf@.subrange(at as int, at + N),
{
    let mut bytes: [u8; N] = [0u8; N];
    let mut i: usize = 0;
    while i < N
        invariant
            i <= N,
            at + N <= buf.len(),
            bytes@.len() == N,
            forall|j: int| 0 <= j < i ==> bytes@[j] == buf@[at + j],
        decreases N - i,
    {
        bytes[i] = buf[at + i];
        i += 1;
    }
    assert(bytes@ =~= buf@.subrange(at as int, at + N));
    bytes
}

/// The `N` eight-byte integers stored back to back from `at`.
pub open spec fn le_u64s(s: Seq<u8>, at: int, n: nat) -> Seq<u64> {
    Seq::new(n, |i: int| le_u64(s, at + 8 * i) as u64)
}

/// Reads `N` eight-byte integers stored back to back from `at`.
pub fn read_u64s<const N: usize>(buf: &[u8], at: usize) -> (values: [u64; N])
    requires
        at + 8 * N <= buf.len(),
    ensures
        values@ == le_u64s(buf@, at as int, N as nat),
{
    let mut values: [u64; N] = [0u64; N];
    let mut i: usize = 0;
    while i < N
        invariant
            i <= N,
            at + 8 * N <= buf.len(),
            values@.len() == N,
            forall|j: int| 0 <= j < i ==> values@[j] == le_u64(buf@, at + 8 * j),
        decreases N - i,
    {
        values[i] = read_u64(buf, at + 8 * i);
        i += 1;
    }
    assert(values@ =~= le_u64s(buf@, at as int, N as nat));
    values
}

/// The four bytes that hold `value`, least significant first.
pub fn u32_to_le(value: u32) -> (bytes: [u8; 4])
    ensures
        bytes@ == u32_le_bytes(value),
{
    let bytes: [u8; 4] = [
        (value % 0x100) as u8,
        (value / 0x100 % 0x100) as u8,
        (value / 0x1_0000 % 0x100) as u8,
        (value / 0x100_0000) as u8,
    ];
    assert(bytes@ =~= u32_le_bytes(value));
    bytes
}

} // verus!
