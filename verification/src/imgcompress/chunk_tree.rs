//! Range map from logical addresses to physical offsets.
//!
//! btrfs addresses its trees by logical addresses. The chunk tree says which
//! physical byte range of the device backs each logical range; this cache
//! keeps those ranges in the order in which they were found.

use vstd::prelude::*;

verus! {

/// A range `[start, start + size)` of logical addresses.
#[derive(Clone, Copy, Debug, Default)]
pub struct ChunkTreeKey {
    pub start: u64,
    pub size: u64,
}

/// Physical byte offset that backs the first address of a range.
#[derive(Clone, Copy, Debug, Default)]
pub struct ChunkTreeValue {
    pub offset: u64,
}

impl ChunkTreeKey {
    /// First address past the range.
    pub open spec fn end(self) -> int {
        self.start + self.size
    }

    /// `logical` lies in the range.
    pub open spec fn contains(self, logical: u64) -> bool {
        self.start <= logical < self.end()
    }

    /// One of the two ranges strictly contains a boundary of the other.
    /// Ranges that only touch, and two ranges with the same boundaries, do
    /// not conflict.
    pub open spec fn conflicts_with(self, other: ChunkTreeKey) -> bool {
        ||| other.start < self.start < other.end()
        ||| other.start < self.end() < other.end()
        ||| self.start < other.start < self.end()
        ||| self.start < other.end() < self.end()
    }
}

/// The logical range and its physical image both fit the 64-bit address space.
pub open spec fn representable(key: ChunkTreeKey, value: ChunkTreeValue) -> bool {
    &&& key.start + key.size <= u64::MAX
    &&& value.offset + key.size <= u64::MAX + 1
}

/// Some entry of `entries` conflicts with `key`.
pub open spec fn overlapping(entries: Seq<(ChunkTreeKey, ChunkTreeValue)>, key: ChunkTreeKey) -> bool {
    exists|i: int| 0 <= i < entries.len() && key.conflicts_with(#[trigger] entries[i].0)
}

/// Every entry is representable and no two entries conflict.
pub open spec fn entries_wf(entries: Seq<(ChunkTreeKey, ChunkTreeValue)>) -> bool {
    &&& forall|i: int| 0 <= i < entries.len() ==> representable(#[trigger] entries[i].0, entries[i].1)
    &&& forall|i: int, j: int|
        0 <= i < entries.len() && 0 <= j < entries.len() ==> !(#[trigger] entries[i].0).conflicts_with(
            #[trigger] entries[j].0,
        )
}

/// The earliest entry whose range contains `logical`.
pub open spec fn lookup(entries: Seq<(ChunkTreeKey, ChunkTreeValue)>, logical: u64) -> Option<
    (ChunkTreeKey, ChunkTreeValue),
>
    decreases entries.len(),
{
    if entries.len() == 0 {
        None
    } else if entries[0].0.contains(logical) {
        Some(entries[0])
    } else {
        lookup(entries.drop_first(), logical)
    }
}

/// Physical offset of `logical`: as far into the physical range as `logical`
/// is into the logical range that `lookup` finds. For representable entries
/// the sum fits 64 bits: see [`lemma_translate_exact`].
pub open spec fn translate(entries: Seq<(ChunkTreeKey, ChunkTreeValue)>, logical: u64) -> Option<u64> {
    match lookup(entries, logical) {
        Some((k, v)) => Some((v.offset + (logical - k.start)) as u64),
        None => None,
    }
}

/// `lookup` skips a prefix in which no range contains `logical`.
pub proof fn lemma_lookup_skip(entries: Seq<(ChunkTreeKey, ChunkTreeValue)>, logical: u64, n: int)
    requires
        0 <= n <= entries.len(),
        forall|j: int| 0 <= j < n ==> !(#[trigger] entries[j].0).contains(logical),
    ensures
        lookup(entries, logical) == lookup(entries.subrange(n, entries.len() as int), logical),
    decreases n,
{
    if n == 0 {
        assert(entries.subrange(0, entries.len() as int) =~= entries);
    } else {
        let rest = entries.drop_first();
        assert forall|j: int| 0 <= j < n - 1 implies !(#[trigger] rest[j].0).contains(logical) by {
            assert(rest[j] == entries[j + 1]);
        }
        lemma_lookup_skip(rest, logical, n - 1);
        assert(rest.subrange(n - 1, rest.len() as int) =~= entries.subrange(n, entries.len() as int));
    }
}

/// `lookup` finds an entry exactly when some range contains `logical`; what
/// it finds is the first such entry.
pub proof fn lemma_lookup_first(entries: Seq<(ChunkTreeKey, ChunkTreeValue)>, logical: u64)
    ensures
        match lookup(entries, logical) {
            Some(kv) => exists|i: int|
                0 <= i < entries.len() && #[trigger] entries[i] == kv && kv.0.contains(logical) && forall|j: int|
                    0 <= j < i ==> !(#[trigger] entries[j].0).contains(logical),
            None => forall|i: int| 0 <= i < entries.len() ==> !(#[trigger] entries[i].0).contains(logical),
        },
    decreases entries.len(),
{
    if entries.len() == 0 {
    } else if entries[0].0.contains(logical) {
        assert(entries[0] == lookup(entries, logical).unwrap());
    } else {
        let rest = entries.drop_first();
        lemma_lookup_first(rest, logical);
        match lookup(rest, logical) {
            Some(kv) => {
                let i = choose|i: int|
                    0 <= i < rest.len() && #[trigger] rest[i] == kv && kv.0.contains(logical) && forall|j: int|
                        0 <= j < i ==> !(#[trigger] rest[j].0).contains(logical);
                assert(entries[i + 1] == kv);
                assert forall|j: int| 0 <= j < i + 1 implies !(#[trigger] entries[j].0).contains(logical) by {
                    if j > 0 {
                        assert(rest[j - 1] == entries[j]);
                    }
                }
            },
            None => {
                assert forall|i: int| 0 <= i < entries.len() implies !(#[trigger] entries[i].0).contains(
                    logical,
                ) by {
                    if i > 0 {
                        assert(rest[i - 1] == entries[i]);
                    }
                }
            },
        }
    }
}

/// In a well-formed cache `translate` is `None` exactly when no range
/// contains `logical`; otherwise it is the stored offset of the first such
/// range plus the distance of `logical` from the start of that range.
pub proof fn lemma_translate_exact(entries: Seq<(ChunkTreeKey, ChunkTreeValue)>, logical: u64)
    requires
        entries_wf(entries),
    ensures
        match translate(entries, logical) {
            Some(p) => exists|i: int|
                0 <= i < entries.len() && (#[trigger] entries[i]).0.contains(logical) && p == entries[i].1.offset
                    + (logical - entries[i].0.start) && forall|j: int|
                    0 <= j < i ==> !(#[trigger] entries[j].0).contains(logical),
            None => forall|i: int| 0 <= i < entries.len() ==> !(#[trigger] entries[i].0).contains(logical),
        },
{
    lemma_lookup_first(entries, logical);
    match lookup(entries, logical) {
        Some(kv) => {
            let i = choose|i: int|
                0 <= i < entries.len() && #[trigger] entries[i] == kv && kv.0.contains(logical) && forall|j: int|
                    0 <= j < i ==> !(#[trigger] entries[j].0).contains(logical);
            assert(representable(entries[i].0, entries[i].1));
        },
        None => {},
    }
}

/// Two ranges that are not empty conflict exactly when they share an
/// address without being the same range. In particular ranges that only
/// touch do not conflict.
pub proof fn lemma_conflict_is_overlap(a: ChunkTreeKey, b: ChunkTreeKey)
    requires
        a.size > 0,
        b.size > 0,
    ensures
        a.conflicts_with(b) <==> a != b && exists|logical: u64| a.contains(logical) && b.contains(logical),
        a.end() <= b.start || b.end() <= a.start ==> !a.conflicts_with(b),
{
    if a.conflicts_with(b) {
        let shared: u64 = if a.start >= b.start {
            a.start
        } else {
            b.start
        };
        assert(a.contains(shared) && b.contains(shared));
    }
}

/// In a well-formed cache all ranges that contain one address are the same
/// range.
pub proof fn lemma_one_range_per_address(
    entries: Seq<(ChunkTreeKey, ChunkTreeValue)>,
    logical: u64,
    i: int,
    j: int,
)
    requires
        entries_wf(entries),
        0 <= i < entries.len(),
        0 <= j < entries.len(),
        entries[i].0.contains(logical),
        entries[j].0.contains(logical),
    ensures
        entries[i].0 == entries[j].0,
{
    assert(!entries[i].0.conflicts_with(entries[j].0));
}

/// A new entry changes nothing for the addresses that were mapped before,
/// and maps each other address of its range as far into the physical range
/// as the address is into the logical one.
pub proof fn lemma_translate_push(
    entries: Seq<(ChunkTreeKey, ChunkTreeValue)>,
    key: ChunkTreeKey,
    value: ChunkTreeValue,
    logical: u64,
)
    requires
        representable(key, value),
    ensures
        translate(entries.push((key, value)), logical) == if translate(entries, logical) is Some {
            translate(entries, logical)
        } else if key.contains(logical) {
            Some((value.offset + (logical - key.start)) as u64)
        } else {
            None
        },
        key.contains(logical) ==> value.offset + (logical - key.start) <= u64::MAX,
    decreases entries.len(),
{
    let longer = entries.push((key, value));
    if entries.len() == 0 {
        assert(longer.drop_first() =~= entries);
    } else if entries[0].0.contains(logical) {
    } else {
        assert(longer.drop_first() =~= entries.drop_first().push((key, value)));
        lemma_translate_push(entries.drop_first(), key, value, logical);
    }
}

/// Cache of the chunk tree: `(range, physical offset)` entries in the order
/// of their insertion.
pub struct ChunkTreeCache {
    inner: Vec<(ChunkTreeKey, ChunkTreeValue)>,
}

impl View for ChunkTreeCache {
    type V = Seq<(ChunkTreeKey, ChunkTreeValue)>;

    closed spec fn view(&self) -> Seq<(ChunkTreeKey, ChunkTreeValue)> {
        self.inner@
    }
}

impl Default for ChunkTreeCache {
    fn default() -> (cache: Self)
        ensures
            cache@ == Seq::<(ChunkTreeKey, ChunkTreeValue)>::empty(),
            cache.wf(),
    {
        ChunkTreeCache { inner: Vec::new() }
    }
}

impl ChunkTreeCache {
    /// The invariant of the cache: see [`entries_wf`].
    pub open spec fn wf(&self) -> bool {
        entries_wf(self@)
    }

    /// Adds a range. A range that conflicts with a stored one must not be
    /// handed in: test with [`Self::contains_overlapping`] first.
    pub fn insert(&mut self, key: ChunkTreeKey, value: ChunkTreeValue)
        requires
            old(self).wf(),
            representable(key, value),
            !overlapping(old(self)@, key),
        ensures
            final(self)@ == old(self)@.push((key, value)),
            final(self).wf(),
    {
        self.inner.push((key, value));
        proof {
            let before = old(self)@;
            let after = self@;
            assert forall|i: int, j: int| 0 <= i < after.len() && 0 <= j < after.len() implies !(
            #[trigger] after[i].0).conflicts_with(#[trigger] after[j].0) by {
                if i < before.len() && j < before.len() {
                    assert(after[i] == before[i] && after[j] == before[j]);
                } else if i < before.len() {
                    assert(after[i] == before[i]);
                    assert(!key.conflicts_with(before[i].0));
                } else if j < before.len() {
                    assert(after[j] == before[j]);
                    assert(!key.conflicts_with(before[j].0));
                }
            }
        }
    }

    /// The earliest stored entry whose range contains `logical`.
    pub fn mapping_kv(&self, logical: u64) -> (found: Option<(ChunkTreeKey, ChunkTreeValue)>)
        ensures
            found == lookup(self@, logical),
    {
        let mut i: usize = 0;
        while i < self.inner.len()
            invariant
                i <= self.inner.len(),
                forall|j: int| 0 <= j < i ==> !(#[trigger] self@[j].0).contains(logical),
            decreases self.inner.len() - i,
        {
            let (k, v) = self.inner[i];
            if logical >= k.start && logical - k.start < k.size {
                proof {
                    lemma_lookup_skip(self@, logical, i as int);
                    assert(self@.subrange(i as int, self@.len() as int)[0] == self@[i as int]);
                }
                return Some((k, v));
            }
            i += 1;
        }
        proof {
            lemma_lookup_skip(self@, logical, i as int);
        }
        None
    }

    /// Physical offset that backs `logical`, if a stored range contains it.
    pub fn offset(&self, logical: u64) -> (physical: Option<u64>)
        requires
            self.wf(),
        ensures
            physical == translate(self@, logical),
    {
        match self.mapping_kv(logical) {
            Some((k, v)) => {
                proof {
                    lemma_lookup_first(self@, logical);
                }
                Some(v.offset + (logical - k.start))
            },
            None => None,
        }
    }

    /// Whether a stored range conflicts with `key`.
    pub fn contains_overlapping(&self, key: &ChunkTreeKey) -> (conflict: bool)
        ensures
            conflict == overlapping(self@, *key),
    {
        let start: u128 = key.start as u128;
        let end: u128 = key.start as u128 + key.size as u128;
        let mut i: usize = 0;
        while i < self.inner.len()
            invariant
                i <= self.inner.len(),
                start == key.start,
                end == key.end(),
                forall|j: int| 0 <= j < i ==> !key.conflicts_with(#[trigger] self@[j].0),
            decreases self.inner.len() - i,
        {
            let (k, _) = self.inner[i];
            let k_start: u128 = k.start as u128;
            let k_end: u128 = k.start as u128 + k.size as u128;
            if (k_start < start && start < k_end) || (k_start < end && end < k_end) || (start < k_start
                && k_start < end) || (start < k_end && k_end < end) {
                assert(key.conflicts_with(self@[i as int].0));
                return true;
            }
            i += 1;
        }
        false
    }
}

} // verus!
