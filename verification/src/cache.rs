//! The LRU frame cache: bounded by entry count and byte budget, keyed by
//! `(source path, source time)`. Oldest entries sit at the front, the most
//! recently used at the back.

use vstd::prelude::*;
use crate::frame::RenderedFrame;

verus! {

/// One cached frame under its key.
#[derive(Debug, Clone)]
pub struct CacheEntry {
    pub file_path: String,
    pub source_time_ms: i64,
    pub frame: RenderedFrame,
}

/// The entry carries exactly this key.
pub open spec fn entry_matches(e: CacheEntry, path: Seq<char>, time_ms: i64) -> bool {
    e.file_path@ == path && e.source_time_ms == time_ms
}

/// Some entry carries the key.
pub open spec fn contains_key(entries: Seq<CacheEntry>, path: Seq<char>, time_ms: i64) -> bool {
    exists|i: int| 0 <= i < entries.len() && entry_matches(entries[i], path, time_ms)
}

/// Index of the first entry carrying the key.
pub open spec fn index_of_key(entries: Seq<CacheEntry>, path: Seq<char>, time_ms: i64) -> int {
    choose|i: int|
        0 <= i < entries.len() && entry_matches(entries[i], path, time_ms) && (forall|j: int|
            0 <= j < i ==> !entry_matches(entries[j], path, time_ms))
}

/// The frame stored under the key, front-most match first.
pub open spec fn lookup(entries: Seq<CacheEntry>, path: Seq<char>, time_ms: i64) -> Option<
    RenderedFrame,
>
    decreases entries.len(),
{
    if entries.len() == 0 {
        None
    } else if entry_matches(entries[0], path, time_ms) {
        Some(entries[0].frame)
    } else {
        lookup(entries.drop_first(), path, time_ms)
    }
}

/// No two entries carry the same key.
pub open spec fn keys_unique(entries: Seq<CacheEntry>) -> bool {
    forall|i: int, j: int|
        0 <= i < j < entries.len() ==> !entry_matches(
            #[trigger] entries[j],
            (#[trigger] entries[i]).file_path@,
            entries[i].source_time_ms,
        )
}

/// Total pixel bytes held by the entries.
pub open spec fn bytes_of(entries: Seq<CacheEntry>) -> int
    decreases entries.len(),
{
    if entries.len() == 0 {
        0
    } else {
        entries[0].frame.data@.len() + bytes_of(entries.drop_first())
    }
}

/// The entries with the first match for the key removed, if any.
pub open spec fn remove_key_model(entries: Seq<CacheEntry>, path: Seq<char>, time_ms: i64) -> Seq<
    CacheEntry,
> {
    if contains_key(entries, path, time_ms) {
        entries.remove(index_of_key(entries, path, time_ms))
    } else {
        entries
    }
}

/// Entries left after evicting from the front until the count is below
/// `max_entries` and `incoming` more bytes fit the budget, or nothing is left.
pub open spec fn evict_model(
    entries: Seq<CacheEntry>,
    incoming: int,
    max_entries: int,
    max_bytes: int,
) -> Seq<CacheEntry>
    decreases entries.len(),
{
    if entries.len() == 0 {
        entries
    } else if entries.len() >= max_entries || bytes_of(entries) + incoming > max_bytes {
        evict_model(entries.drop_first(), incoming, max_entries, max_bytes)
    } else {
        entries
    }
}

/// The entries a `put` leaves behind: replace the key if present, evict to
/// make room, and append the new entry at the most-recently-used end.
pub open spec fn put_model(
    entries: Seq<CacheEntry>,
    e: CacheEntry,
    max_entries: int,
    max_bytes: int,
) -> Seq<CacheEntry> {
    evict_model(
        remove_key_model(entries, e.file_path@, e.source_time_ms),
        e.frame.data@.len() as int,
        max_entries,
        max_bytes,
    ).push(e)
}

pub proof fn lemma_bytes_of_push(s: Seq<CacheEntry>, e: CacheEntry)
    ensures
        bytes_of(s.push(e)) == bytes_of(s) + e.frame.data@.len(),
    decreases s.len(),
{
    if s.len() == 0 {
        assert(s.push(e)[0] == e);
        assert(s.push(e).drop_first() =~= Seq::<CacheEntry>::empty());
        assert(bytes_of(s.push(e)) == e.frame.data@.len() + bytes_of(
            Seq::<CacheEntry>::empty(),
        ));
    } else {
        assert(s.push(e)[0] == s[0]);
        assert(s.push(e).drop_first() =~= s.drop_first().push(e));
        lemma_bytes_of_push(s.drop_first(), e);
        assert(bytes_of(s.push(e)) == s[0].frame.data@.len() + bytes_of(
            s.drop_first().push(e),
        ));
    }
}

pub proof fn lemma_bytes_of_remove(s: Seq<CacheEntry>, i: int)
    requires
        0 <= i < s.len(),
    ensures
        bytes_of(s.remove(i)) == bytes_of(s) - s[i].frame.data@.len(),
    decreases i,
{
    if i == 0 {
        assert(s.remove(0) =~= s.drop_first());
    } else {
        assert(s.remove(i).drop_first() =~= s.drop_first().remove(i - 1));
        lemma_bytes_of_remove(s.drop_first(), i - 1);
    }
}

pub proof fn lemma_bytes_of_nonneg(s: Seq<CacheEntry>)
    ensures
        bytes_of(s) >= 0,
    decreases s.len(),
{
    if s.len() > 0 {
        lemma_bytes_of_nonneg(s.drop_first());
    }
}

/// An LRU frame cache bounded by entry count and byte budget.
#[derive(Debug)]
pub struct FrameCache {
    pub entries: Vec<CacheEntry>,
    pub max_entries: usize,
    pub max_bytes: usize,
    pub current_bytes: usize,
    pub hit_count: u64,
    pub miss_count: u64,
}

impl FrameCache {
    /// The byte counter matches the entries, keys are unique, and the entry
    /// count respects the cap (a lone oversized entry may stand alone).
    pub open spec fn wf(self) -> bool {
        &&& self.current_bytes == bytes_of(self.entries@)
        &&& keys_unique(self.entries@)
        &&& self.entries@.len() <= self.max_entries || self.entries@.len() <= 1
        &&& self.max_entries <= u32::MAX
    }

    pub fn new(max_entries: usize, max_bytes: usize) -> (c: Self)
        requires
            max_entries <= u32::MAX,
        ensures
            c.wf(),
            c.entries@.len() == 0,
            c.max_entries == max_entries,
            c.max_bytes == max_bytes,
            c.current_bytes == 0,
            c.hit_count == 0,
            c.miss_count == 0,
    {
        Self {
            entries: Vec::new(),
            max_entries,
            max_bytes,
            current_bytes: 0,
            hit_count: 0,
            miss_count: 0,
        }
    }

    /// Looks the key up. A hit returns the stored frame, promotes its entry
    /// to the most-recently-used end and counts a hit; a miss counts a miss.
    pub fn get(&mut self, file_path: &String, source_time_ms: i64) -> (r: Option<&RenderedFrame>)
        requires
            old(self).wf(),
        ensures
            final(self).wf(),
            final(self).max_entries == old(self).max_entries,
            final(self).max_bytes == old(self).max_bytes,
            final(self).current_bytes == old(self).current_bytes,
            match r {
                Some(f) => {
                    &&& contains_key(old(self).entries@, file_path@, source_time_ms)
                    &&& lookup(old(self).entries@, file_path@, source_time_ms) == Some(*f)
                    &&& {
                        let i = index_of_key(old(self).entries@, file_path@, source_time_ms);
                        final(self).entries@ == old(self).entries@.remove(i).push(
                            old(self).entries@[i],
                        )
                    }
                    &&& final(self).hit_count == (if old(self).hit_count < u64::MAX {
                        old(self).hit_count + 1
                    } else {
                        old(self).hit_count as int
                    })
                    &&& final(self).miss_count == old(self).miss_count
                },
                None => {
                    &&& !contains_key(old(self).entries@, file_path@, source_time_ms)
                    &&& final(self).entries@ == old(self).entries@
                    &&& final(self).hit_count == old(self).hit_count
                    &&& final(self).miss_count == (if old(self).miss_count < u64::MAX {
                        old(self).miss_count + 1
                    } else {
                        old(self).miss_count as int
                    })
                },
            },
    {
        let n = self.entries.len();
        let mut k: usize = 0;
        while k < n
            invariant
                old(self).wf(),
                0 <= k <= n,
                n == self.entries@.len(),
                *self == *old(self),
                forall|j: int|
                    0 <= j < k ==> !entry_matches(
                        #[trigger] self.entries@[j],
                        file_path@,
                        source_time_ms,
                    ),
            decreases n - k,
        {
            if self.entries[k].source_time_ms == source_time_ms && self.entries[k].file_path
                == *file_path {
                proof {
                    lemma_index_of_key_is(self.entries@, file_path@, source_time_ms, k as int);
                    lemma_lookup_at_first_index(self.entries@, file_path@, source_time_ms, k as int);
                }
                if self.hit_count < u64::MAX {
                    self.hit_count = self.hit_count + 1;
                }
                if k + 1 < self.entries.len() {
                    let ghost pre = self.entries@;
                    let e = self.entries.remove(k);
                    self.entries.push(e);
                    proof {
                        lemma_bytes_of_remove(pre, k as int);
                        lemma_bytes_of_push(pre.remove(k as int), pre[k as int]);
                        lemma_keys_unique_move_to_back(pre, k as int);
                    }
                    let last = self.entries.len() - 1;
                    return Some(&self.entries[last].frame);
                } else {
                    proof {
                        assert(self.entries@.remove(k as int).push(self.entries@[k as int])
                            =~= self.entries@);
                    }
                    return Some(&self.entries[k].frame);
                }
            }
            k = k + 1;
        }
        if self.miss_count < u64::MAX {
            self.miss_count = self.miss_count + 1;
        }
        None
    }

    /// Stores the frame under the key: replaces any entry with the same key,
    /// evicts least-recently-used entries while the cache is over either cap,
    /// then appends the new entry at the most-recently-used end.
    pub fn put(&mut self, file_path: String, source_time_ms: i64, frame: RenderedFrame)
        requires
            old(self).wf(),
        ensures
            final(self).wf(),
            final(self).max_entries == old(self).max_entries,
            final(self).max_bytes == old(self).max_bytes,
            final(self).hit_count == old(self).hit_count,
            final(self).miss_count == old(self).miss_count,
            final(self).entries@.len() >= 1,
            final(self).entries@.drop_last() == evict_model(
                remove_key_model(old(self).entries@, file_path@, source_time_ms),
                frame.data@.len() as int,
                old(self).max_entries as int,
                old(self).max_bytes as int,
            ),
            entry_matches(final(self).entries@.last(), file_path@, source_time_ms),
            final(self).entries@.last().frame == frame,
            lookup(final(self).entries@, file_path@, source_time_ms) == Some(frame),
    {
        let frame_len = frame.data.len();
        // Replace: drop an existing entry with the same key.
        let n = self.entries.len();
        let mut k: usize = 0;
        let mut found: bool = false;
        while !found && k < n
            invariant
                old(self).wf(),
                0 <= k <= n,
                n == self.entries@.len(),
                *self == *old(self),
                forall|j: int|
                    0 <= j < k ==> !entry_matches(
                        #[trigger] self.entries@[j],
                        file_path@,
                        source_time_ms,
                    ),
                found ==> k < n && entry_matches(self.entries@[k as int], file_path@, source_time_ms),
            decreases n - k + (if found { 0int } else { 1int }),
        {
            if self.entries[k].source_time_ms == source_time_ms && self.entries[k].file_path
                == file_path {
                found = true;
            } else {
                k = k + 1;
            }
        }
        if found {
            proof {
                lemma_index_of_key_is(self.entries@, file_path@, source_time_ms, k as int);
                lemma_bytes_of_remove(self.entries@, k as int);
                lemma_bytes_of_nonneg(self.entries@.remove(k as int));
            }
            let old_entry = self.entries.remove(k);
            self.current_bytes = self.current_bytes - old_entry.frame.data.len();
        }
        proof {
            assert(self.entries@ == remove_key_model(old(self).entries@, file_path@, source_time_ms));
            assert(keys_unique(self.entries@)) by {
                if found {
                    lemma_keys_unique_remove(old(self).entries@, k as int);
                }
            }
            assert(!contains_key(self.entries@, file_path@, source_time_ms)) by {
                if found {
                    lemma_remove_only_match(old(self).entries@, file_path@, source_time_ms, k as int);
                } else {
                    if contains_key(self.entries@, file_path@, source_time_ms) {
                        let w = choose|w: int|
                            0 <= w < self.entries@.len() && entry_matches(
                                self.entries@[w],
                                file_path@,
                                source_time_ms,
                            );
                        assert(entry_matches(old(self).entries@[w], file_path@, source_time_ms));
                    }
                }
            }
        }
        let ghost after_remove = self.entries@;
        // Evict: pop the least-recently-used entry while either cap is hit.
        while self.entries.len() > 0 && (self.entries.len() >= self.max_entries
            || self.current_bytes > self.max_bytes
            || frame_len > self.max_bytes - self.current_bytes)
            invariant
                keys_unique(self.entries@),
                !contains_key(self.entries@, file_path@, source_time_ms),
                self.current_bytes == bytes_of(self.entries@),
                self.max_entries == old(self).max_entries,
                self.max_bytes == old(self).max_bytes,
                self.hit_count == old(self).hit_count,
                self.miss_count == old(self).miss_count,
                frame_len == frame.data@.len(),
                self.entries@.len() <= old(self).entries@.len(),
                evict_model(
                    self.entries@,
                    frame_len as int,
                    self.max_entries as int,
                    self.max_bytes as int,
                ) == evict_model(
                    after_remove,
                    frame_len as int,
                    self.max_entries as int,
                    self.max_bytes as int,
                ),
            decreases self.entries@.len(),
        {
            proof {
                lemma_bytes_of_remove(self.entries@, 0);
                lemma_bytes_of_nonneg(self.entries@.drop_first());
                assert(self.entries@.remove(0) =~= self.entries@.drop_first());
                lemma_keys_unique_remove(self.entries@, 0);
                assert(!contains_key(self.entries@.drop_first(), file_path@, source_time_ms)) by {
                    if contains_key(self.entries@.drop_first(), file_path@, source_time_ms) {
                        let w = choose|w: int|
                            0 <= w < self.entries@.drop_first().len() && entry_matches(
                                self.entries@.drop_first()[w],
                                file_path@,
                                source_time_ms,
                            );
                        assert(entry_matches(self.entries@[w + 1], file_path@, source_time_ms));
                    }
                }
            }
            let evicted = self.entries.remove(0);
            self.current_bytes = self.current_bytes - evicted.frame.data.len();
        }
        // Insert as the most-recently-used entry.
        proof {
            if self.entries.len() > 0 {
                assert(self.entries@.len() < self.max_entries);
                assert(bytes_of(self.entries@) + frame_len <= self.max_bytes);
            }
            lemma_bytes_of_nonneg(self.entries@);
            lemma_bytes_of_push(
                self.entries@,
                CacheEntry { file_path, source_time_ms, frame },
            );
        }
        let ghost after_evict = self.entries@;
        self.current_bytes = self.current_bytes + frame_len;
        let entry = CacheEntry { file_path, source_time_ms, frame };
        self.entries.push(entry);
        proof {
            assert(self.entries@.drop_last() =~= after_evict);
            assert(keys_unique(self.entries@)) by {
                assert forall|i: int, j: int| 0 <= i < j < self.entries@.len() implies
                    !entry_matches(
                        self.entries@[j],
                        self.entries@[i].file_path@,
                        self.entries@[i].source_time_ms,
                    ) by {
                    if j == self.entries@.len() - 1 {
                        assert(self.entries@[i] == after_evict[i]);
                        if entry_matches(
                            self.entries@[j],
                            self.entries@[i].file_path@,
                            self.entries@[i].source_time_ms,
                        ) {
                            assert(entry_matches(after_evict[i], file_path@, source_time_ms));
                        }
                    } else {
                        assert(self.entries@[i] == after_evict[i]);
                        assert(self.entries@[j] == after_evict[j]);
                    }
                }
            }
            lemma_lookup_last(self.entries@, file_path@, source_time_ms);
        }
    }

    /// Empties the cache and resets the byte counter; the hit and miss
    /// counters are kept.
    pub fn clear(&mut self)
        requires
            old(self).wf(),
        ensures
            final(self).wf(),
            final(self).entries@.len() == 0,
            final(self).current_bytes == 0,
            final(self).max_entries == old(self).max_entries,
            final(self).max_bytes == old(self).max_bytes,
            final(self).hit_count == old(self).hit_count,
            final(self).miss_count == old(self).miss_count,
            forall|path: Seq<char>, t: i64| lookup(final(self).entries@, path, t) is None,
    {
        self.entries.clear();
        self.current_bytes = 0;
        proof {
            assert(self.entries@ =~= Seq::<CacheEntry>::empty());
            assert(bytes_of(self.entries@) == 0);
        }
    }

    /// Entry count and byte total.
    pub fn stats(&self) -> (r: (u32, usize))
        requires
            self.wf(),
        ensures
            r.0 == self.entries@.len(),
            r.1 == self.current_bytes,
    {
        (self.entries.len() as u32, self.current_bytes)
    }

    pub fn hit_count(&self) -> (r: u64)
        ensures
            r == self.hit_count,
    {
        self.hit_count
    }

    pub fn miss_count(&self) -> (r: u64)
        ensures
            r == self.miss_count,
    {
        self.miss_count
    }
}

/// When the first match for a key sits at index `k`, `index_of_key` is `k`.
proof fn lemma_index_of_key_is(s: Seq<CacheEntry>, path: Seq<char>, t: i64, k: int)
    requires
        0 <= k < s.len(),
        entry_matches(s[k], path, t),
        forall|j: int| 0 <= j < k ==> !entry_matches(#[trigger] s[j], path, t),
    ensures
        contains_key(s, path, t),
        index_of_key(s, path, t) == k,
{
    assert(contains_key(s, path, t));
    let i = index_of_key(s, path, t);
    assert(0 <= i < s.len() && entry_matches(s[i], path, t) && (forall|j: int|
        0 <= j < i ==> !entry_matches(#[trigger] s[j], path, t))) by {
        assert(0 <= k < s.len() && entry_matches(s[k], path, t) && (forall|j: int|
            0 <= j < k ==> !entry_matches(#[trigger] s[j], path, t)));
    }
    if i < k {
        assert(!entry_matches(s[i], path, t));
    } else if i > k {
        assert(!entry_matches(s[k], path, t));
    }
}

/// When the first match for a key sits at index `i`, `lookup` returns its
/// frame.
proof fn lemma_lookup_at_first_index(s: Seq<CacheEntry>, path: Seq<char>, t: i64, i: int)
    requires
        0 <= i < s.len(),
        entry_matches(s[i], path, t),
        forall|j: int| 0 <= j < i ==> !entry_matches(#[trigger] s[j], path, t),
    ensures
        lookup(s, path, t) == Some(s[i].frame),
    decreases i,
{
    if i == 0 {
    } else {
        assert(s.drop_first()[i - 1] == s[i]);
        lemma_lookup_at_first_index(s.drop_first(), path, t, i - 1);
    }
}

/// When no entry before the last matches, `lookup` returns the last frame.
proof fn lemma_lookup_last(s: Seq<CacheEntry>, path: Seq<char>, t: i64)
    requires
        s.len() >= 1,
        entry_matches(s.last(), path, t),
        forall|j: int| 0 <= j < s.len() - 1 ==> !entry_matches(#[trigger] s[j], path, t),
    ensures
        lookup(s, path, t) == Some(s.last().frame),
{
    lemma_lookup_at_first_index(s, path, t, s.len() - 1);
}

/// Removing an entry keeps the remaining keys unique.
proof fn lemma_keys_unique_remove(s: Seq<CacheEntry>, i: int)
    requires
        keys_unique(s),
        0 <= i < s.len(),
    ensures
        keys_unique(s.remove(i)),
{
    let r = s.remove(i);
    assert forall|a: int, b: int| 0 <= a < b < r.len() implies !entry_matches(
        #[trigger] r[b],
        (#[trigger] r[a]).file_path@,
        r[a].source_time_ms,
    ) by {
        let a0 = if a < i { a } else { a + 1 };
        let b0 = if b < i { b } else { b + 1 };
        assert(r[a] == s[a0]);
        assert(r[b] == s[b0]);
        assert(!entry_matches(s[b0], s[a0].file_path@, s[a0].source_time_ms));
    }
}

/// Moving the entry at `i` to the back keeps the keys unique.
proof fn lemma_keys_unique_move_to_back(s: Seq<CacheEntry>, i: int)
    requires
        keys_unique(s),
        0 <= i < s.len(),
    ensures
        keys_unique(s.remove(i).push(s[i])),
{
    lemma_keys_unique_remove(s, i);
    let r = s.remove(i).push(s[i]);
    assert forall|a: int, b: int| 0 <= a < b < r.len() implies !entry_matches(
        #[trigger] r[b],
        (#[trigger] r[a]).file_path@,
        r[a].source_time_ms,
    ) by {
        if b == r.len() - 1 {
            let a0 = if a < i { a } else { a + 1 };
            assert(r[a] == s[a0]);
            assert(r[b] == s[i]);
            if a0 < i {
                assert(!entry_matches(s[i], s[a0].file_path@, s[a0].source_time_ms));
            } else {
                assert(!entry_matches(s[a0], s[i].file_path@, s[i].source_time_ms));
            }
        } else {
            let a0 = if a < i { a } else { a + 1 };
            let b0 = if b < i { b } else { b + 1 };
            assert(r[a] == s[a0]);
            assert(r[b] == s[b0]);
        }
    }
}

/// Removing the only match for a key leaves no match behind.
proof fn lemma_remove_only_match(s: Seq<CacheEntry>, path: Seq<char>, t: i64, i: int)
    requires
        keys_unique(s),
        0 <= i < s.len(),
        entry_matches(s[i], path, t),
    ensures
        !contains_key(s.remove(i), path, t),
{
    let r = s.remove(i);
    if contains_key(r, path, t) {
        let w = choose|w: int| 0 <= w < r.len() && entry_matches(r[w], path, t);
        let w0 = if w < i { w } else { w + 1 };
        assert(r[w] == s[w0]);
        assert(entry_matches(s[w0], path, t));
        if w0 < i {
            assert(!entry_matches(s[i], s[w0].file_path@, s[w0].source_time_ms));
        } else {
            assert(!entry_matches(s[w0], s[i].file_path@, s[i].source_time_ms));
        }
    }
}

/// Eviction keeps a suffix of the entries.
pub proof fn lemma_evict_model_is_suffix(
    s: Seq<CacheEntry>,
    incoming: int,
    max_entries: int,
    max_bytes: int,
)
    ensures
        exists|n: int|
            0 <= n <= s.len() && evict_model(s, incoming, max_entries, max_bytes) == s.skip(n),
    decreases s.len(),
{
    if s.len() == 0 {
        assert(evict_model(s, incoming, max_entries, max_bytes) == s.skip(0));
    } else if s.len() >= max_entries || bytes_of(s) + incoming > max_bytes {
        lemma_evict_model_is_suffix(s.drop_first(), incoming, max_entries, max_bytes);
        let n = choose|n: int|
            0 <= n <= s.drop_first().len() && evict_model(
                s.drop_first(),
                incoming,
                max_entries,
                max_bytes,
            ) == s.drop_first().skip(n);
        assert(s.drop_first().skip(n) =~= s.skip(n + 1));
        assert(evict_model(s, incoming, max_entries, max_bytes) == s.skip(n + 1));
    } else {
        assert(evict_model(s, incoming, max_entries, max_bytes) == s.skip(0));
    }
}

/// `lookup` finds a frame exactly when some entry carries the key.
pub proof fn lemma_lookup_iff_contains(s: Seq<CacheEntry>, path: Seq<char>, t: i64)
    ensures
        lookup(s, path, t) is Some <==> contains_key(s, path, t),
    decreases s.len(),
{
    if s.len() == 0 {
    } else if entry_matches(s[0], path, t) {
    } else {
        lemma_lookup_iff_contains(s.drop_first(), path, t);
        if contains_key(s, path, t) {
            let w = choose|w: int| 0 <= w < s.len() && entry_matches(s[w], path, t);
            assert(s.drop_first()[w - 1] == s[w]);
            assert(contains_key(s.drop_first(), path, t));
        }
        if contains_key(s.drop_first(), path, t) {
            let w = choose|w: int|
                0 <= w < s.drop_first().len() && entry_matches(s.drop_first()[w], path, t);
            assert(s[w + 1] == s.drop_first()[w]);
            assert(contains_key(s, path, t));
        }
    }
}

/// A frame that `lookup` finds is the frame of one of the entries.
pub proof fn lemma_lookup_frame_of(s: Seq<CacheEntry>, path: Seq<char>, t: i64)
    ensures
        lookup(s, path, t) matches Some(f) ==> exists|i: int|
            0 <= i < s.len() && (#[trigger] s[i]).frame == f,
    decreases s.len(),
{
    if s.len() == 0 {
    } else if entry_matches(s[0], path, t) {
        assert(s[0].frame == s[0].frame);
    } else {
        lemma_lookup_frame_of(s.drop_first(), path, t);
        if lookup(s, path, t) is Some {
            let f = lookup(s, path, t)->Some_0;
            let i = choose|i: int| 0 <= i < s.drop_first().len() && (#[trigger] s.drop_first()[i]).frame == f;
            assert(s[i + 1].frame == f);
        }
    }
}

/// Law: a `put` followed by a `get` on the same key finds exactly the frame
/// that was stored, whatever the cache held before.
pub proof fn lemma_put_then_get(
    entries: Seq<CacheEntry>,
    e: CacheEntry,
    max_entries: int,
    max_bytes: int,
)
    requires
        keys_unique(entries),
    ensures
        lookup(put_model(entries, e, max_entries, max_bytes), e.file_path@, e.source_time_ms)
            == Some(e.frame),
{
    let evicted = evict_model(
        remove_key_model(entries, e.file_path@, e.source_time_ms),
        e.frame.data@.len() as int,
        max_entries,
        max_bytes,
    );
    lemma_evict_model_keeps_no_match(entries, e, max_entries, max_bytes);
    let s = evicted.push(e);
    assert(s.last() == e);
    lemma_lookup_last(s, e.file_path@, e.source_time_ms);
}

/// After the replace and evict steps of a `put`, no entry matches the key.
proof fn lemma_evict_model_keeps_no_match(
    entries: Seq<CacheEntry>,
    e: CacheEntry,
    max_entries: int,
    max_bytes: int,
)
    requires
        keys_unique(entries),
    ensures
        forall|j: int|
            0 <= j < evict_model(
                remove_key_model(entries, e.file_path@, e.source_time_ms),
                e.frame.data@.len() as int,
                max_entries,
                max_bytes,
            ).len() ==> !entry_matches(
                #[trigger] evict_model(
                    remove_key_model(entries, e.file_path@, e.source_time_ms),
                    e.frame.data@.len() as int,
                    max_entries,
                    max_bytes,
                )[j],
                e.file_path@,
                e.source_time_ms,
            ),
{
    let path = e.file_path@;
    let t = e.source_time_ms;
    let removed = remove_key_model(entries, path, t);
    assert(!contains_key(removed, path, t)) by {
        if contains_key(entries, path, t) {
            lemma_first_index_properties(entries, path, t);
            lemma_remove_only_match(entries, path, t, index_of_key(entries, path, t));
        }
    }
    assert forall|j: int|
        0 <= j < removed.len() implies !entry_matches(#[trigger] removed[j], path, t) by {
        if entry_matches(removed[j], path, t) {
            assert(contains_key(removed, path, t));
        }
    }
    lemma_evict_keeps_no_match_rec(removed, path, t, e.frame.data@.len() as int, max_entries, max_bytes);
}

/// Eviction only drops entries; what stays carried no match before either.
proof fn lemma_evict_keeps_no_match_rec(
    s: Seq<CacheEntry>,
    path: Seq<char>,
    t: i64,
    incoming: int,
    max_entries: int,
    max_bytes: int,
)
    requires
        forall|j: int| 0 <= j < s.len() ==> !entry_matches(#[trigger] s[j], path, t),
    ensures
        forall|j: int|
            0 <= j < evict_model(s, incoming, max_entries, max_bytes).len() ==> !entry_matches(
                #[trigger] evict_model(s, incoming, max_entries, max_bytes)[j],
                path,
                t,
            ),
    decreases s.len(),
{
    if s.len() == 0 {
    } else if s.len() >= max_entries || bytes_of(s) + incoming > max_bytes {
        assert forall|j: int|
            0 <= j < s.drop_first().len() implies !entry_matches(
            #[trigger] s.drop_first()[j],
            path,
            t,
        ) by {
            assert(s.drop_first()[j] == s[j + 1]);
        }
        lemma_evict_keeps_no_match_rec(s.drop_first(), path, t, incoming, max_entries, max_bytes);
        assert(evict_model(s, incoming, max_entries, max_bytes) == evict_model(
            s.drop_first(),
            incoming,
            max_entries,
            max_bytes,
        ));
    } else {
    }
}

/// The first matching index really is first.
proof fn lemma_first_index_properties(s: Seq<CacheEntry>, path: Seq<char>, t: i64)
    requires
        contains_key(s, path, t),
    ensures
        ({
            let i = index_of_key(s, path, t);
            &&& 0 <= i < s.len()
            &&& entry_matches(s[i], path, t)
            &&& forall|j: int| 0 <= j < i ==> !entry_matches(#[trigger] s[j], path, t)
        }),
    decreases s.len(),
{
    let w = choose|w: int| 0 <= w < s.len() && entry_matches(s[w], path, t);
    lemma_exists_first_index(s, path, t, w);
}

/// If some index matches, a first matching index exists.
proof fn lemma_exists_first_index(s: Seq<CacheEntry>, path: Seq<char>, t: i64, w: int)
    requires
        0 <= w < s.len(),
        entry_matches(s[w], path, t),
    ensures
        (exists|i: int|
            0 <= i < s.len() && entry_matches(#[trigger] s[i], path, t) && (forall|j: int|
                0 <= j < i ==> !entry_matches(#[trigger] s[j], path, t))),
    decreases w,
{
    if forall|j: int| 0 <= j < w ==> !entry_matches(#[trigger] s[j], path, t) {
        assert(0 <= w < s.len() && entry_matches(s[w], path, t) && (forall|j: int|
            0 <= j < w ==> !entry_matches(#[trigger] s[j], path, t)));
    } else {
        let w2 = choose|w2: int| 0 <= w2 < w && entry_matches(#[trigger] s[w2], path, t);
        lemma_exists_first_index(s, path, t, w2);
    }
}

/// Eviction stops only once the survivors are under the entry cap and the
/// incoming bytes fit the budget, or nothing is left.
proof fn lemma_evict_model_fits(
    s: Seq<CacheEntry>,
    incoming: int,
    max_entries: int,
    max_bytes: int,
)
    ensures
        ({
            let ev = evict_model(s, incoming, max_entries, max_bytes);
            ev.len() == 0 || (ev.len() < max_entries && bytes_of(ev) + incoming <= max_bytes)
        }),
    decreases s.len(),
{
    if s.len() == 0 {
    } else if s.len() >= max_entries || bytes_of(s) + incoming > max_bytes {
        lemma_evict_model_fits(s.drop_first(), incoming, max_entries, max_bytes);
    } else {
    }
}

/// Law: after a `put`, the cache respects both caps: the entry count stays
/// within the entry cap and the stored bytes plus nothing more than the new
/// frame fit the byte budget — except when the new frame alone stands over
/// the budget, in which case it is the only entry.
pub proof fn lemma_put_within_caps(
    entries: Seq<CacheEntry>,
    e: CacheEntry,
    max_entries: int,
    max_bytes: int,
)
    requires
        max_entries >= 1,
    ensures
        put_model(entries, e, max_entries, max_bytes).len() <= max_entries,
        bytes_of(put_model(entries, e, max_entries, max_bytes)) <= max_bytes || put_model(
            entries,
            e,
            max_entries,
            max_bytes,
        ).len() == 1,
{
    let removed = remove_key_model(entries, e.file_path@, e.source_time_ms);
    let ev = evict_model(removed, e.frame.data@.len() as int, max_entries, max_bytes);
    lemma_evict_model_fits(removed, e.frame.data@.len() as int, max_entries, max_bytes);
    lemma_bytes_of_push(ev, e);
    lemma_bytes_of_nonneg(ev);
}

/// Law: a fresh key put into a full cache with byte headroom evicts exactly
/// the least-recently-used entry; every other entry survives, and the new
/// entry becomes the most recently used.
pub proof fn lemma_put_evicts_lru(
    entries: Seq<CacheEntry>,
    e: CacheEntry,
    max_entries: int,
    max_bytes: int,
)
    requires
        entries.len() == max_entries,
        max_entries >= 1,
        !contains_key(entries, e.file_path@, e.source_time_ms),
        bytes_of(entries.drop_first()) + e.frame.data@.len() <= max_bytes,
    ensures
        put_model(entries, e, max_entries, max_bytes) == entries.drop_first().push(e),
{
    assert(remove_key_model(entries, e.file_path@, e.source_time_ms) == entries);
    let rest = entries.drop_first();
    assert(evict_model(entries, e.frame.data@.len() as int, max_entries, max_bytes)
        == evict_model(rest, e.frame.data@.len() as int, max_entries, max_bytes));
    assert(evict_model(rest, e.frame.data@.len() as int, max_entries, max_bytes) == rest) by {
        if rest.len() > 0 {
            assert(rest.len() < max_entries);
        }
    }
}

} // verus!
