//! Which WAL segment files the retention worker deletes, and in what order.
//!
//! A segment is named by its starting WAL offset in hexadecimal with the
//! extension `.wal`. Segments whose data lies wholly below the committed
//! offset are deleted first, oldest first. If the segments left still take
//! more than the size limit, the oldest of them are pruned one by one until
//! the total fits. Deleting a file may fail; the total only shrinks by the
//! files that were actually deleted.
//!
//! [`WalCleanup`] makes these decisions one step at a time: the caller asks
//! for the next segment to delete, deletes the file and reports whether that
//! worked.
use vstd::prelude::*;

use crate::text::{chars_of, chars_slice, parse_hex_u64, parse_hex_u64_spec};

verus! {

// ---------------------------------------------------------------------------
// File names
// ---------------------------------------------------------------------------

/// Whether `name` has a `.` after its first character at position `k`, with
/// no `.` after it: the split that `Path::extension` makes.
pub open spec fn last_dot_at(name: Seq<char>, k: int) -> bool {
    &&& 0 < k < name.len()
    &&& name[k] == '.'
    &&& forall|j: int| k < j < name.len() ==> name[j] != '.'
}

/// The starting offset that a WAL segment file name stands for: the name's
/// extension (the text after its last `.`, where that `.` is not its first
/// character) is `wal`, and its stem (the text before) is a hexadecimal
/// `u64`.
pub open spec fn wal_file_start(name: Seq<char>) -> Option<u64> {
    if exists|k: int| last_dot_at(name, k) {
        let k = choose|k: int| last_dot_at(name, k);
        if name.subrange(k + 1, name.len() as int) == seq!['w', 'a', 'l'] {
            parse_hex_u64_spec(name.subrange(0, k))
        } else {
            None
        }
    } else {
        None
    }
}

proof fn lemma_last_dot_unique(name: Seq<char>, k: int, m: int)
    requires
        last_dot_at(name, k),
        last_dot_at(name, m),
    ensures
        k == m,
{
    if k < m {
        assert(name[m] != '.');
    } else if m < k {
        assert(name[k] != '.');
    }
}

/// The starting offset of the WAL segment file called `name`, or `None` when
/// the name is not that of a WAL segment.
pub fn parse_wal_file_name(name: &str) -> (r: Option<u64>)
    ensures
        r == wal_file_start(name@),
{
    let cs = chars_of(name);
    let n = cs.len();
    let mut k: usize = n;
    // Find the last '.'.
    let mut i: usize = n;
    while i > 0
        invariant
            i <= n,
            n == cs@.len(),
            cs@ == name@,
            k == n || (i <= k < n && cs@[k as int] == '.'),
            k == n ==> forall|j: int| i <= j < n ==> cs@[j] != '.',
            k < n ==> forall|j: int| k < j < n ==> cs@[j] != '.',
        decreases i,
    {
        i = i - 1;
        if k == n && cs[i] == '.' {
            k = i;
        }
    }
    if k == n || k == 0 {
        proof {
            if exists|m: int| last_dot_at(name@, m) {
                let m = choose|m: int| last_dot_at(name@, m);
                if k < n {
                    lemma_last_dot_unique(name@, m, 0);
                } else {
                    assert(cs@[m] != '.');
                }
            }
        }
        return None;
    }
    proof {
        assert(last_dot_at(name@, k as int));
        let m = choose|m: int| last_dot_at(name@, m);
        lemma_last_dot_unique(name@, m, k as int);
    }
    let ext = chars_slice(cs.as_slice(), k + 1, n);
    let is_wal = ext.len() == 3 && ext[0] == 'w' && ext[1] == 'a' && ext[2] == 'l';
    proof {
        if is_wal {
            assert(ext@ =~= seq!['w', 'a', 'l']);
        }
    }
    if !is_wal {
        return None;
    }
    let stem = chars_slice(cs.as_slice(), 0, k);
    parse_hex_u64(stem.as_slice())
}

// ---------------------------------------------------------------------------
// Segments
// ---------------------------------------------------------------------------

/// One WAL segment file: `id` is the caller's handle for the file (such as
/// its position in a directory listing), `start` the WAL offset the file
/// begins at, `size` its length in bytes.
#[derive(Clone, Copy, Debug, PartialEq, Eq, Structural)]
pub struct WalSegment {
    pub id: usize,
    pub start: u64,
    pub size: u64,
}

/// Whether all of the segment's data lies below the committed offset.
pub open spec fn fully_committed(s: WalSegment, committed_offset: u64) -> bool {
    s.start + s.size <= committed_offset
}

/// Whether the segments are in ascending order of their start offsets.
pub open spec fn ordered_by_start(s: Seq<WalSegment>) -> bool {
    forall|i: int, j: int| 0 <= i <= j < s.len() ==> s[i].start <= s[j].start
}

/// The total size of the segments whose positions are not in `removed`.
pub open spec fn kept_total(s: Seq<WalSegment>, removed: Set<int>) -> int
    decreases s.len(),
{
    if s.len() == 0 {
        0
    } else {
        kept_total(s.drop_last(), removed) + if removed.contains(s.len() - 1) {
            0
        } else {
            s.last().size as int
        }
    }
}

/// The total size of the segments.
pub open spec fn sizes_total(s: Seq<WalSegment>) -> int {
    kept_total(s, Set::empty())
}

/// Whether every segment's end offset, and the total size, fit in a `u64`
/// (the arithmetic of the cleanup does not overflow).
pub open spec fn cleanup_fits(s: Seq<WalSegment>) -> bool {
    &&& sizes_total(s) <= u64::MAX
    &&& forall|i: int| 0 <= i < s.len() ==> #[trigger] s[i].start + s[i].size <= u64::MAX
}

proof fn lemma_kept_total_nonneg(s: Seq<WalSegment>, removed: Set<int>)
    ensures
        kept_total(s, removed) >= 0,
    decreases s.len(),
{
    if s.len() > 0 {
        lemma_kept_total_nonneg(s.drop_last(), removed);
    }
}

/// Removing position `i` takes its size off the kept total.
proof fn lemma_kept_total_remove(s: Seq<WalSegment>, removed: Set<int>, i: int)
    requires
        0 <= i < s.len(),
        !removed.contains(i),
    ensures
        kept_total(s, removed.insert(i)) == kept_total(s, removed) - s[i].size,
        kept_total(s, removed) >= s[i].size,
    decreases s.len(),
{
    if i < s.len() - 1 {
        lemma_kept_total_remove(s.drop_last(), removed, i);
    } else {
        lemma_kept_total_nonneg(s.drop_last(), removed);
        lemma_kept_total_same(s.drop_last(), removed, removed.insert(i));
    }
}

/// The kept total only depends on the removed positions inside the
/// sequence.
proof fn lemma_kept_total_same(s: Seq<WalSegment>, a: Set<int>, b: Set<int>)
    requires
        forall|j: int| 0 <= j < s.len() ==> (a.contains(j) <==> b.contains(j)),
    ensures
        kept_total(s, a) == kept_total(s, b),
    decreases s.len(),
{
    if s.len() > 0 {
        lemma_kept_total_same(s.drop_last(), a, b);
    }
}

/// Inserting a segment anywhere adds its size to the total.
proof fn lemma_sizes_total_insert(s: Seq<WalSegment>, k: int, x: WalSegment)
    requires
        0 <= k <= s.len(),
    ensures
        sizes_total(s.insert(k, x)) == sizes_total(s) + x.size,
    decreases s.len(),
{
    let t = s.insert(k, x);
    if k == s.len() {
        assert(t.drop_last() =~= s);
    } else {
        assert(t.drop_last() =~= s.drop_last().insert(k, x));
        lemma_sizes_total_insert(s.drop_last(), k, x);
    }
}

/// A prefix never totals more than the whole.
proof fn lemma_sizes_total_prefix(s: Seq<WalSegment>, i: int)
    requires
        0 <= i <= s.len(),
    ensures
        sizes_total(s.take(i)) <= sizes_total(s),
    decreases s.len(),
{
    if i < s.len() {
        assert(s.drop_last().take(i) =~= s.take(i));
        lemma_sizes_total_prefix(s.drop_last(), i);
    } else {
        assert(s.take(i) =~= s);
    }
}

/// Whether `segments` can be cleaned up without overflow: see
/// [`cleanup_fits`].
pub fn segments_fit(segments: &Vec<WalSegment>) -> (r: bool)
    ensures
        r == cleanup_fits(segments@),
{
    let mut total: u64 = 0;
    let mut i: usize = 0;
    while i < segments.len()
        invariant
            i <= segments@.len(),
            total == sizes_total(segments@.take(i as int)),
            forall|j: int|
                0 <= j < i ==> #[trigger] segments@[j].start + segments@[j].size <= u64::MAX,
        decreases segments@.len() - i,
    {
        let s = segments[i];
        assert(segments@.take(i + 1).drop_last() =~= segments@.take(i as int));
        if s.start > u64::MAX - s.size {
            return false;
        }
        if total > u64::MAX - s.size {
            proof {
                lemma_sizes_total_prefix(segments@, i + 1);
            }
            return false;
        }
        total = total + s.size;
        i = i + 1;
    }
    assert(segments@.take(i as int) =~= segments@);
    true
}

// ---------------------------------------------------------------------------
// The cleanup
// ---------------------------------------------------------------------------

#[derive(Clone, Copy, Debug, PartialEq, Eq, Structural)]
enum Phase {
    /// Offering the fully committed segments.
    Committed,
    /// Offering the other segments while the total is over the limit.
    Emergency,
    /// Nothing more to offer.
    Finished,
}

/// The state of one cleanup, as the contracts see it.
pub struct WalCleanupView {
    /// The segments, in ascending order of their start offsets.
    pub segments: Seq<WalSegment>,
    pub committed_offset: u64,
    pub max_wal_bytes: u64,
    /// The total size of the segments not yet deleted.
    pub total: u64,
    /// The positions of the segments handed out for deletion so far.
    pub offered: Set<int>,
    /// The positions of the segments reported deleted.
    pub removed: Set<int>,
    /// The position handed out whose outcome is not reported yet.
    pub awaiting: Option<int>,
    /// Whether the cleanup has nothing more to hand out.
    pub finished: bool,
}

/// One run of the WAL cleanup over a directory's segments.
pub struct WalCleanup {
    segments: Vec<WalSegment>,
    committed_offset: u64,
    max_wal_bytes: u64,
    total: u64,
    phase: Phase,
    cursor: usize,
    awaiting: Option<usize>,
    offered: Ghost<Set<int>>,
    removed: Ghost<Set<int>>,
}

/// Whether every fully committed segment's position is in `offered`.
pub open spec fn all_committed_offered(v: WalCleanupView) -> bool {
    forall|j: int|
        0 <= j < v.segments.len() && fully_committed(v.segments[j], v.committed_offset)
            ==> #[trigger] v.offered.contains(j)
}

/// Whether every position is in `offered`.
pub open spec fn all_offered(v: WalCleanupView) -> bool {
    forall|j: int| 0 <= j < v.segments.len() ==> #[trigger] v.offered.contains(j)
}

impl View for WalCleanup {
    type V = WalCleanupView;

    closed spec fn view(&self) -> WalCleanupView {
        WalCleanupView {
            segments: self.segments@,
            committed_offset: self.committed_offset,
            max_wal_bytes: self.max_wal_bytes,
            total: self.total,
            offered: self.offered@,
            removed: self.removed@,
            awaiting: match self.awaiting {
                Some(i) => Some(i as int),
                None => None,
            },
            finished: self.phase == Phase::Finished,
        }
    }
}

impl WalCleanup {
    /// The cleanup's internal consistency, which [`WalCleanup::new`]
    /// establishes and every step keeps.
    pub closed spec fn wf(&self) -> bool {
        let segs = self.segments@;
        let c = self.committed_offset;
        &&& ordered_by_start(segs)
        &&& forall|i: int| 0 <= i < segs.len() ==> #[trigger] segs[i].start + segs[i].size <= u64::MAX
        &&& self.cursor <= segs.len()
        &&& self.total == kept_total(segs, self.removed@)
        &&& forall|j: int| #[trigger] self.removed@.contains(j) ==> self.offered@.contains(j)
        &&& forall|j: int| #[trigger] self.offered@.contains(j) ==> 0 <= j < segs.len()
        &&& self.awaiting matches Some(i) ==> self.offered@.contains(i as int) && !self.removed@.contains(i as int)
        &&& self.phase == Phase::Committed ==> forall|j: int|
            #[trigger] self.offered@.contains(j) <==> (0 <= j < self.cursor && fully_committed(segs[j], c))
        &&& self.phase == Phase::Emergency ==> forall|j: int|
            #[trigger] self.offered@.contains(j) <==> (0 <= j < segs.len() && (fully_committed(segs[j], c) || j < self.cursor))
        &&& self.phase == Phase::Finished ==> self.awaiting is None && all_committed_offered(self@)
            && (self.total <= self.max_wal_bytes || all_offered(self@))
    }

    /// Starts a cleanup of `segments` (in any order) against the committed
    /// WAL offset and the size limit. The segments are put in ascending
    /// order of their start offsets; the total is their total size.
    pub fn new(segments: Vec<WalSegment>, committed_offset: u64, max_wal_bytes: u64) -> (r: Self)
        requires
            cleanup_fits(segments@),
        ensures
            r.wf(),
            r@.segments.to_multiset() == segments@.to_multiset(),
            ordered_by_start(r@.segments),
            r@.total == sizes_total(r@.segments),
            r@.total == sizes_total(segments@),
            r@.committed_offset == committed_offset,
            r@.max_wal_bytes == max_wal_bytes,
            r@.offered == Set::<int>::empty(),
            r@.removed == Set::<int>::empty(),
            r@.awaiting is None,
            !r@.finished,
    {
        let mut sorted: Vec<WalSegment> = Vec::new();
        let mut total: u64 = 0;
        let mut i: usize = 0;
        assert(sorted@ =~= segments@.take(0));
        while i < segments.len()
            invariant
                i <= segments@.len(),
                cleanup_fits(segments@),
                ordered_by_start(sorted@),
                forall|j: int| 0 <= j < sorted@.len() ==> #[trigger] sorted@[j].start + sorted@[j].size <= u64::MAX,
                sorted@.to_multiset() == segments@.take(i as int).to_multiset(),
                sizes_total(sorted@) == sizes_total(segments@.take(i as int)),
                total == sizes_total(sorted@),
            decreases segments@.len() - i,
        {
            let x = segments[i];
            let mut k: usize = 0;
            while k < sorted.len() && sorted[k].start <= x.start
                invariant
                    k <= sorted@.len(),
                    forall|j: int| 0 <= j < k ==> #[trigger] sorted@[j].start <= x.start,
                decreases sorted@.len() - k,
            {
                k = k + 1;
            }
            proof {
                assert(segments@.take(i + 1) =~= segments@.take(i as int).push(x));
                vstd::seq_lib::to_multiset_build(segments@.take(i as int), x);
                vstd::seq_lib::to_multiset_insert(sorted@, k as int, x);
                lemma_sizes_total_insert(sorted@, k as int, x);
                assert(segments@.take(i + 1).drop_last() =~= segments@.take(i as int));
                lemma_sizes_total_prefix(segments@, i + 1);
                assert(x.start + x.size <= u64::MAX);
            }
            let ghost before = sorted@;
            sorted.insert(k, x);
            proof {
                assert forall|a: int, b: int| 0 <= a <= b < sorted@.len() implies sorted@[a].start <= sorted@[b].start by {
                    if a < k && b > k {
                        assert(sorted@[a] == before[a]);
                        assert(sorted@[b] == before[b - 1]);
                        assert(before[a].start <= x.start);
                    } else if a < k && b == k {
                        assert(sorted@[a] == before[a]);
                    } else if a == k && b > k {
                        assert(sorted@[b] == before[b - 1]);
                        assert(before[k as int].start > x.start);
                    } else if a > k {
                        assert(sorted@[a] == before[a - 1]);
                        assert(sorted@[b] == before[b - 1]);
                    } else if b < k {
                        assert(sorted@[a] == before[a]);
                        assert(sorted@[b] == before[b]);
                    }
                }
                assert forall|j: int| 0 <= j < sorted@.len() implies #[trigger] sorted@[j].start + sorted@[j].size <= u64::MAX by {
                    if j < k {
                        assert(sorted@[j] == before[j]);
                    } else if j > k {
                        assert(sorted@[j] == before[j - 1]);
                    }
                }
            }
            total = total + x.size;
            i = i + 1;
        }
        proof {
            assert(segments@.take(i as int) =~= segments@);
        }
        WalCleanup {
            segments: sorted,
            committed_offset,
            max_wal_bytes,
            total,
            phase: Phase::Committed,
            cursor: 0,
            awaiting: None,
            offered: Ghost(Set::empty()),
            removed: Ghost(Set::empty()),
        }
    }
    /// Hands out the next segment to delete, or `None` when the cleanup is
    /// over. The fully committed segments come first, in ascending order;
    /// then, while the total is over the limit, the other segments, oldest
    /// first. When nothing more comes, every fully committed segment has
    /// been handed out, and either the total is within the limit or every
    /// segment has been handed out.
    pub fn next_deletion(&mut self) -> (r: Option<WalSegment>)
        requires
            old(self).wf(),
            old(self)@.awaiting is None,
        ensures
            final(self).wf(),
            final(self)@.segments == old(self)@.segments,
            final(self)@.committed_offset == old(self)@.committed_offset,
            final(self)@.max_wal_bytes == old(self)@.max_wal_bytes,
            final(self)@.total == old(self)@.total,
            final(self)@.removed == old(self)@.removed,
            old(self)@.finished ==> r is None,
            old(self)@.total <= old(self)@.max_wal_bytes ==> (r matches Some(seg) ==> seg.start
                + seg.size <= old(self)@.committed_offset),
            r matches Some(seg) ==> {
                let v = old(self)@;
                &&& final(self)@.awaiting matches Some(i) && 0 <= i < v.segments.len()
                    && seg == v.segments[i] && !v.offered.contains(i)
                    && final(self)@.offered == v.offered.insert(i)
                    && if fully_committed(seg, v.committed_offset) {
                        forall|j: int| 0 <= j < i && fully_committed(v.segments[j], v.committed_offset)
                            ==> #[trigger] v.offered.contains(j)
                    } else {
                        &&& all_committed_offered(v)
                        &&& v.total > v.max_wal_bytes
                        &&& forall|j: int| 0 <= j < i ==> #[trigger] v.offered.contains(j)
                    }
                &&& !final(self)@.finished
            },
            r is None ==> {
                &&& final(self)@.finished
                &&& final(self)@.awaiting is None
                &&& final(self)@.offered == old(self)@.offered
                &&& all_committed_offered(final(self)@)
                &&& final(self)@.total <= final(self)@.max_wal_bytes || all_offered(final(self)@)
            },
    {
        if self.phase == Phase::Finished {
            return None;
        }
        let n = self.segments.len();
        let c = self.committed_offset;
        let mut phase = self.phase;
        let mut cursor = self.cursor;
        let ghost segs = self.segments@;
        let ghost offered = self.offered@;
        loop
            invariant
                n == segs.len(),
                segs == self.segments@,
                c == self.committed_offset,
                offered == self.offered@,
                self.wf(),
                *self == *old(self),
                self.awaiting is None,
                phase != Phase::Finished,
                cursor <= n,
                phase == Phase::Committed ==> forall|j: int|
                    #[trigger] offered.contains(j) <==> (0 <= j < cursor && fully_committed(segs[j], c)),
                phase == Phase::Emergency ==> forall|j: int|
                    #[trigger] offered.contains(j) <==> (0 <= j < n && (fully_committed(segs[j], c) || j < cursor)),
                self.phase != Phase::Finished,
            decreases (if phase == Phase::Committed { 2 * n + 2 - cursor } else { n + 1 - cursor }),
        {
            if cursor == n {
                if phase == Phase::Committed {
                    phase = Phase::Emergency;
                    cursor = 0;
                } else {
                    proof {
                        assert forall|j: int| 0 <= j < n implies #[trigger] offered.contains(j) by {}
                    }
                    self.phase = Phase::Finished;
                    self.cursor = cursor;
                    return None;
                }
            } else {
                let s = self.segments[cursor];
                let committed = s.start + s.size <= c;
                if phase == Phase::Committed {
                    if committed {
                        self.phase = phase;
                        self.cursor = cursor + 1;
                        self.awaiting = Some(cursor);
                        self.offered = Ghost(offered.insert(cursor as int));
                        return Some(s);
                    }
                    cursor = cursor + 1;
                } else if committed {
                    cursor = cursor + 1;
                } else if self.total <= self.max_wal_bytes {
                    proof {
                        assert forall|j: int| 0 <= j < n && fully_committed(segs[j], c)
                            implies #[trigger] offered.contains(j) by {}
                    }
                    self.phase = Phase::Finished;
                    self.cursor = cursor;
                    return None;
                } else {
                    proof {
                        assert forall|j: int| 0 <= j < n && fully_committed(segs[j], c)
                            implies #[trigger] offered.contains(j) by {}
                    }
                    self.phase = phase;
                    self.cursor = cursor + 1;
                    self.awaiting = Some(cursor);
                    self.offered = Ghost(offered.insert(cursor as int));
                    return Some(s);
                }
            }
        }
    }

    /// Records whether the segment handed out last was deleted. A deleted
    /// segment's size comes off the total.
    pub fn record(&mut self, deleted: bool)
        requires
            old(self).wf(),
            old(self)@.awaiting is Some,
        ensures
            final(self).wf(),
            final(self)@.segments == old(self)@.segments,
            final(self)@.committed_offset == old(self)@.committed_offset,
            final(self)@.max_wal_bytes == old(self)@.max_wal_bytes,
            final(self)@.offered == old(self)@.offered,
            final(self)@.finished == old(self)@.finished,
            final(self)@.awaiting is None,
            old(self)@.awaiting matches Some(i) && if deleted {
                &&& final(self)@.removed == old(self)@.removed.insert(i)
                &&& final(self)@.total == old(self)@.total - old(self)@.segments[i].size
            } else {
                &&& final(self)@.removed == old(self)@.removed
                &&& final(self)@.total == old(self)@.total
            },
    {
        let i = self.awaiting.unwrap();
        if deleted {
            let size = self.segments[i].size;
            proof {
                lemma_kept_total_remove(self.segments@, self.removed@, i as int);
            }
            self.total = self.total - size;
            self.removed = Ghost(self.removed@.insert(i as int));
        }
        self.awaiting = None;
    }

    /// The segments not reported deleted total what the cleanup counts.
    pub proof fn lemma_total_is_kept(&self)
        requires
            self.wf(),
        ensures
            self@.total == kept_total(self@.segments, self@.removed),
    {
    }
}

/// Whether the offset `o` lies within the segment's extent, its end
/// included.
pub open spec fn reaches(s: WalSegment, o: int) -> bool {
    s.start <= o <= s.start + s.size
}

/// A segment counts as committed exactly when every offset its data
/// reaches, up to its end, lies at or below the committed offset: a segment
/// whose data runs past the committed offset is never committed.
pub proof fn law_committed_segments_end_below_offset(s: WalSegment, committed_offset: u64)
    ensures
        fully_committed(s, committed_offset) <==> forall|o: int|
            #[trigger] reaches(s, o) ==> o <= committed_offset,
{
    if !fully_committed(s, committed_offset) {
        let o = s.start + s.size;
        assert(reaches(s, o) && !(o <= committed_offset));
    }
}

} // verus!
