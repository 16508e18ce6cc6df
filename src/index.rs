use crate::error::IggyError;
use vstd::prelude::*;

verus! {

/// One entry of a segment's index: a message's offset relative to the
/// segment start, where its batch starts in the log file, and its timestamp.
#[derive(Debug, Clone, Copy, PartialEq, Eq, Structural)]
pub struct IndexEntry {
    pub relative_offset: u32,
    pub position: u32,
    pub timestamp: u64,
}

/// Relative offsets strictly increase and timestamps never decrease.
pub open spec fn index_sorted(es: Seq<IndexEntry>) -> bool {
    &&& forall|i: int, j: int|
        0 <= i < j < es.len() ==> (#[trigger] es[i]).relative_offset < (
        #[trigger] es[j]).relative_offset
    &&& forall|i: int, j: int|
        0 <= i < j < es.len() ==> (#[trigger] es[i]).timestamp <= (#[trigger] es[j]).timestamp
}

/// The offset index and time index of a segment, as one sorted vector of
/// fixed-width entries.
#[derive(Debug)]
pub struct SegmentIndex {
    entries: Vec<IndexEntry>,
}

impl View for SegmentIndex {
    type V = Seq<IndexEntry>;

    closed spec fn view(&self) -> Seq<IndexEntry> {
        self.entries@
    }
}

impl SegmentIndex {
    pub open spec fn wf(&self) -> bool {
        index_sorted(self@)
    }

    pub fn new() -> (r: SegmentIndex)
        ensures
            r.wf(),
            r@ == Seq::<IndexEntry>::empty(),
    {
        SegmentIndex { entries: Vec::new() }
    }

    pub fn len(&self) -> (r: usize)
        ensures
            r == self@.len(),
    {
        self.entries.len()
    }

    /// Adds an entry after the last; its relative offset must be greater and
    /// its timestamp not smaller, else `InvalidOffset`.
    pub fn push(&mut self, entry: IndexEntry) -> (r: Result<(), IggyError>)
        requires
            old(self).wf(),
        ensures
            final(self).wf(),
            old(self)@.len() > 0 && (entry.relative_offset <= old(self)@.last().relative_offset
                || entry.timestamp < old(self)@.last().timestamp) ==> r == Err::<(), IggyError>(
                IggyError::InvalidOffset,
            ) && final(self)@ == old(self)@,
            !(old(self)@.len() > 0 && (entry.relative_offset <= old(self)@.last().relative_offset
                || entry.timestamp < old(self)@.last().timestamp)) ==> r is Ok && final(self)@
                == old(self)@.push(entry),
    {
        let n = self.entries.len();
        if n > 0 {
            let last = self.entries[n - 1];
            if entry.relative_offset <= last.relative_offset || entry.timestamp < last.timestamp {
                return Err(IggyError::InvalidOffset);
            }
        }
        let ghost old_es = self@;
        self.entries.push(entry);
        proof {
            let es = self@;
            assert forall|i: int, j: int| 0 <= i < j < es.len() implies (#[trigger] es[i]).relative_offset
                < (#[trigger] es[j]).relative_offset && es[i].timestamp <= es[j].timestamp by {
                if j == es.len() - 1 && i < j {
                    assert(es[i] == old_es[i]);
                    if i < old_es.len() - 1 {
                        assert(old_es[i].relative_offset < old_es.last().relative_offset);
                        assert(old_es[i].timestamp <= old_es.last().timestamp);
                    }
                }
            }
        }
        Ok(())
    }

    /// The entry to start reading at for `target`: the last one whose relative
    /// offset is at most `target`; `None` when every entry is past it.
    pub fn find_by_offset(&self, target: u32) -> (r: Option<IndexEntry>)
        requires
            self.wf(),
        ensures
            r is None <==> (self@.len() == 0 || self@[0].relative_offset > target),
            r matches Some(e) ==> exists|k: int|
                0 <= k < self@.len() && #[trigger] self@[k] == e && e.relative_offset <= target && (
                k + 1 == self@.len() || self@[k + 1].relative_offset > target),
    {
        let ghost es = self@;
        let mut lo: usize = 0;
        let mut hi: usize = self.entries.len();
        while lo < hi
            invariant
                es == self@,
                index_sorted(es),
                lo <= hi <= es.len(),
                forall|j: int| 0 <= j < lo ==> (#[trigger] es[j]).relative_offset <= target,
                forall|j: int| hi <= j < es.len() ==> (#[trigger] es[j]).relative_offset > target,
            decreases hi - lo,
        {
            let mid = lo + (hi - lo) / 2;
            if self.entries[mid].relative_offset <= target {
                proof {
                    assert forall|j: int| 0 <= j < mid + 1 implies (#[trigger] es[j]).relative_offset
                        <= target by {
                        if j < mid {
                            assert(es[j].relative_offset < es[mid as int].relative_offset);
                        }
                    }
                }
                lo = mid + 1;
            } else {
                hi = mid;
            }
        }
        if lo == 0 {
            None
        } else {
            let e = self.entries[lo - 1];
            assert(es[lo - 1] == e);
            Some(e)
        }
    }

    /// The first entry whose timestamp is at least `t`; with equal timestamps
    /// the earlier offset wins. `None` when every entry is older.
    pub fn find_by_timestamp(&self, t: u64) -> (r: Option<IndexEntry>)
        requires
            self.wf(),
        ensures
            r is None <==> (forall|j: int| 0 <= j < self@.len() ==> (#[trigger] self@[j]).timestamp < t),
            r matches Some(e) ==> exists|k: int|
                0 <= k < self@.len() && #[trigger] self@[k] == e && e.timestamp >= t && forall|j: int|
                    0 <= j < k ==> (#[trigger] self@[j]).timestamp < t,
    {
        let ghost es = self@;
        let mut lo: usize = 0;
        let mut hi: usize = self.entries.len();
        while lo < hi
            invariant
                es == self@,
                index_sorted(es),
                lo <= hi <= es.len(),
                forall|j: int| 0 <= j < lo ==> (#[trigger] es[j]).timestamp < t,
                forall|j: int| hi <= j < es.len() ==> (#[trigger] es[j]).timestamp >= t,
            decreases hi - lo,
        {
            let mid = lo + (hi - lo) / 2;
            if self.entries[mid].timestamp < t {
                proof {
                    assert forall|j: int| 0 <= j < mid + 1 implies (#[trigger] es[j]).timestamp < t by {
                        if j < mid {
                            assert(es[j].timestamp <= es[mid as int].timestamp);
                        }
                    }
                }
                lo = mid + 1;
            } else {
                proof {
                    assert forall|j: int| mid <= j < es.len() implies (#[trigger] es[j]).timestamp >= t by {
                        if j > mid {
                            assert(es[mid as int].timestamp <= es[j].timestamp);
                        }
                    }
                }
                hi = mid;
            }
        }
        if lo == self.entries.len() {
            None
        } else {
            let e = self.entries[lo];
            assert(es[lo as int] == e);
            Some(e)
        }
    }
}

} // verus!
