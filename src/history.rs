//! The bounded, sequence-ordered window of one player's recent snapshots.

use crate::codec::{PlayerState, SnapshotView, STATE_LEN};
use vstd::prelude::*;

verus! {

/// How many snapshots a history retains.
pub const MAX_UPDATES: usize = 20;

/// A retained snapshot and its sequence number.
pub type Entry = (u32, SnapshotView);

/// Sequence numbers strictly increase along `h`.
pub open spec fn ascending(h: Seq<Entry>) -> bool {
    forall|i: int, j: int| 0 <= i < j < h.len() ==> h[i].0 < h[j].0
}

/// Whether `h` retains a snapshot with sequence number `sequence`.
pub open spec fn holds_sequence(h: Seq<Entry>, sequence: u32) -> bool {
    exists|i: int| 0 <= i < h.len() && h[i].0 == sequence
}

/// How many leading entries of `h` have a sequence number below `sequence`:
/// in an ascending history, the place where `sequence` goes.
pub open spec fn rank(h: Seq<Entry>, sequence: u32) -> nat
    decreases h.len(),
{
    if h.len() > 0 && h[0].0 < sequence {
        1 + rank(h.drop_first(), sequence)
    } else {
        0
    }
}

/// The history after a snapshot with `sequence` arrives: duplicates are
/// dropped; below capacity any new sequence is inserted in order; at capacity
/// it is inserted only if it exceeds the oldest retained sequence, which is
/// then evicted.
pub open spec fn accepted(h: Seq<Entry>, sequence: u32, snapshot: SnapshotView) -> Seq<Entry> {
    if holds_sequence(h, sequence) {
        h
    } else if h.len() < MAX_UPDATES {
        h.insert(rank(h, sequence) as int, (sequence, snapshot))
    } else if h[0].0 < sequence {
        h.drop_first().insert(rank(h.drop_first(), sequence) as int, (sequence, snapshot))
    } else {
        h
    }
}

/// Index of the most recent snapshot of `h` not yet sent to `to`, or -1.
pub open spec fn freshest_unsent(h: Seq<Entry>, to: u32) -> int
    decreases h.len(),
{
    if h.len() == 0 {
        -1
    } else if !h.last().1.sent_to.contains(to) {
        h.len() - 1
    } else {
        freshest_unsent(h.drop_last(), to)
    }
}

/// `h` after its freshest snapshot not yet sent to `to`, if any, is marked
/// as sent to `to`.
pub open spec fn marked(h: Seq<Entry>, to: u32) -> Seq<Entry> {
    let k = freshest_unsent(h, to);
    if k >= 0 {
        h.update(k, (h[k].0, SnapshotView { sent_to: h[k].1.sent_to.insert(to), ..h[k].1 }))
    } else {
        h
    }
}

/// The record of the freshest snapshot of `h` not yet sent to `to`, if any.
pub open spec fn picked(h: Seq<Entry>, to: u32) -> Option<[u8; STATE_LEN]> {
    let k = freshest_unsent(h, to);
    if k >= 0 {
        Some(h[k].1.bytes)
    } else {
        None
    }
}

/// What `freshest_unsent` finds: -1 or an index of `h` whose snapshot was
/// not sent to `to`, every later snapshot having been sent to `to`.
pub proof fn lemma_freshest_unsent(h: Seq<Entry>, to: u32)
    ensures
        -1 <= freshest_unsent(h, to) < h.len(),
        freshest_unsent(h, to) >= 0 ==> !h[freshest_unsent(h, to)].1.sent_to.contains(to),
        forall|j: int|
            freshest_unsent(h, to) < j < h.len() ==> (#[trigger] h[j]).1.sent_to.contains(to),
    decreases h.len(),
{
    if h.len() > 0 {
        lemma_freshest_unsent(h.drop_last(), to);
        assert forall|j: int| freshest_unsent(h, to) < j < h.len() implies (#[trigger] h[j]).1.sent_to.contains(
            to,
        ) by {
            if j < h.len() - 1 {
                assert(h[j] == h.drop_last()[j]);
            }
        }
    }
}

/// Marking keeps the sequence numbers, and so the order, of a history.
pub proof fn lemma_marked_keeps_order(h: Seq<Entry>, to: u32)
    ensures
        marked(h, to).len() == h.len(),
        forall|j: int| 0 <= j < h.len() ==> (#[trigger] marked(h, to)[j]).0 == h[j].0,
        ascending(h) ==> ascending(marked(h, to)),
{
    lemma_freshest_unsent(h, to);
}

/// A snapshot is never selected twice for one player: once selected for
/// `to` it is marked as sent to `to`, and the next selection for `to` is a
/// strictly older snapshot, if any.
pub proof fn lemma_no_reselection(h: Seq<Entry>, to: u32)
    requires
        freshest_unsent(h, to) >= 0,
    ensures
        marked(h, to)[freshest_unsent(h, to)].1.sent_to.contains(to),
        freshest_unsent(marked(h, to), to) < freshest_unsent(h, to),
{
    let k = freshest_unsent(h, to);
    let m = marked(h, to);
    lemma_freshest_unsent(h, to);
    lemma_freshest_unsent(m, to);
    let k2 = freshest_unsent(m, to);
    if k2 >= k {
        assert(m[k2].1.sent_to.contains(to));
    }
}

/// A snapshot whose sequence number is already retained is rejected: the
/// history, and every sent-to set in it, stays as it was.
pub proof fn lemma_duplicate_rejected(h: Seq<Entry>, sequence: u32, snapshot: SnapshotView)
    requires
        holds_sequence(h, sequence),
    ensures
        accepted(h, sequence, snapshot) == h,
{
}

/// An update leaves each retained snapshot as it was: every entry of the
/// new history, but the one just offered, is an entry of the old one, with
/// the same sent-to set.
pub proof fn lemma_update_keeps_entries(h: Seq<Entry>, sequence: u32, snapshot: SnapshotView)
    ensures
        forall|j: int|
            0 <= j < accepted(h, sequence, snapshot).len() && (#[trigger] accepted(
                h,
                sequence,
                snapshot,
            )[j]) != (sequence, snapshot) ==> h.contains(accepted(h, sequence, snapshot)[j]),
{
    let a = accepted(h, sequence, snapshot);
    let e = (sequence, snapshot);
    if holds_sequence(h, sequence) {
        assert forall|j: int| 0 <= j < a.len() && a[j] != e implies h.contains(a[j]) by {
            assert(h[j] == a[j]);
        }
    } else if h.len() < MAX_UPDATES {
        let p = rank(h, sequence) as int;
        lemma_rank_bound(h, sequence);
        assert forall|j: int| 0 <= j < a.len() && a[j] != e implies h.contains(a[j]) by {
            if j < p {
                assert(h[j] == a[j]);
            } else if j > p {
                assert(h[j - 1] == a[j]);
            }
        }
    } else if h[0].0 < sequence {
        let t = h.drop_first();
        let p = rank(t, sequence) as int;
        lemma_rank_bound(t, sequence);
        assert forall|j: int| 0 <= j < a.len() && a[j] != e implies h.contains(a[j]) by {
            if j < p {
                assert(h[j + 1] == a[j]);
            } else if j > p {
                assert(h[j] == a[j]);
            }
        }
    } else {
        assert forall|j: int| 0 <= j < a.len() && a[j] != e implies h.contains(a[j]) by {
            assert(h[j] == a[j]);
        }
    }
}

/// `rank` is at most the length of the history.
proof fn lemma_rank_bound(h: Seq<Entry>, sequence: u32)
    ensures
        rank(h, sequence) <= h.len(),
    decreases h.len(),
{
    if h.len() > 0 {
        lemma_rank_bound(h.drop_first(), sequence);
    }
}

/// A player's retained snapshots, ascending by sequence number.
pub struct History {
    entries: Vec<(u32, PlayerState)>,
}

impl View for History {
    type V = Seq<Entry>;

    closed spec fn view(&self) -> Seq<Entry> {
        self.entries@.map_values(|e: (u32, PlayerState)| (e.0, e.1@))
    }
}

impl History {
    /// Sequence numbers ascend and at most `MAX_UPDATES` are retained.
    pub open spec fn wf(&self) -> bool {
        &&& ascending(self@)
        &&& self@.len() <= MAX_UPDATES
    }

    /// An empty history.
    pub fn new() -> (r: Self)
        ensures
            r.wf(),
            r@ == Seq::<Entry>::empty(),
    {
        let r = History { entries: Vec::new() };
        assert(r@ =~= Seq::<Entry>::empty());
        r
    }

    /// Number of retained snapshots.
    pub fn len(&self) -> (r: usize)
        ensures
            r == self@.len(),
    {
        self.entries.len()
    }

    /// Selects the most recent snapshot not yet sent to player `to`, marks it
    /// as sent to `to`, and returns its record; `None` when every retained
    /// snapshot has already been sent to `to`.
    pub fn take_freshest_unsent(&mut self, to: u32) -> (r: Option<[u8; STATE_LEN]>)
        requires
            old(self).wf(),
        ensures
            final(self).wf(),
            final(self)@ == marked(old(self)@, to),
            r == picked(old(self)@, to),
    {
        let ghost h = self@;
        let mut j: usize = self.entries.len();
        proof {
            assert(h.subrange(0, j as int) =~= h);
        }
        while j > 0
            invariant
                0 <= j <= h.len(),
                h == self@,
                h == old(self)@,
                ascending(h),
                h.len() <= MAX_UPDATES,
                h.len() == self.entries@.len(),
                freshest_unsent(h, to) == freshest_unsent(h.subrange(0, j as int), to),
            decreases j,
        {
            let k = j - 1;
            proof {
                assert(h[k as int] == (self.entries@[k as int].0, self.entries@[k as int].1@));
                assert(h.subrange(0, j as int).drop_last() =~= h.subrange(0, k as int));
            }
            if !self.entries[k].1.was_sent_to(to) {
                proof {
                    assert(h.subrange(0, j as int).last() == h[k as int]);
                    assert(freshest_unsent(h, to) == k);
                }
                let ghost before = self.entries@;
                self.entries[k].1.mark_sent_to(to);
                let bytes = self.entries[k].1.bytes();
                proof {
                    assert(self.entries@ =~= before.update(
                        k as int,
                        (before[k as int].0, self.entries@[k as int].1),
                    ));
                    assert(self@ =~= marked(h, to));
                }
                return Some(bytes);
            }
            j = k;
        }
        None
    }

    /// Offers a snapshot with number `sequence` to the history; see
    /// `accepted` for what is kept.
    #[verifier::rlimit(40)]
    pub fn update(&mut self, sequence: u32, snapshot: PlayerState)
        requires
            old(self).wf(),
        ensures
            final(self).wf(),
            final(self)@ == accepted(old(self)@, sequence, snapshot@),
    {
        let ghost h = self@;
        let ghost e: Entry = (sequence, snapshot@);
        let n = self.entries.len();
        let mut i: usize = 0;
        proof {
            assert(h.subrange(0, n as int) =~= h);
            assert forall|j: int| 0 <= j < n implies self.entries@[j].0 == h[j].0 by {
                assert(h[j] == (self.entries@[j].0, self.entries@[j].1@));
            }
        }
        while i < n && self.entries[i].0 < sequence
            invariant
                0 <= i <= n,
                n == h.len(),
                n == self.entries@.len(),
                h == self@,
                forall|j: int| 0 <= j < n ==> self.entries@[j].0 == h[j].0,
                ascending(h),
                forall|j: int| 0 <= j < i ==> h[j].0 < sequence,
                rank(h, sequence) == i + rank(h.subrange(i as int, n as int), sequence),
            decreases n - i,
        {
            proof {
                let t = h.subrange(i as int, n as int);
                assert(t.drop_first() =~= h.subrange(i + 1, n as int));
            }
            i += 1;
        }
        proof {
            assert(rank(h.subrange(i as int, n as int), sequence) == 0);
        }
        // `i` is where `sequence` goes; an equal sequence there is a duplicate.
        if i < n && self.entries[i].0 == sequence {
            proof {
                assert(h[i as int].0 == sequence);
            }
            return;
        }
        proof {
            assert(!holds_sequence(h, sequence));
            assert(forall|j: int| i <= j < n ==> h[j].0 > sequence);
        }
        if n < MAX_UPDATES {
            self.entries.insert(i, (sequence, snapshot));
            proof {
                assert(self@ =~= h.insert(i as int, e));
            }
            return;
        }
        // At capacity: a snapshot older than every retained one is dropped;
        // otherwise the oldest is evicted to make room.
        if i > 0 {
            self.entries.remove(0);
            self.entries.insert(i - 1, (sequence, snapshot));
            proof {
                assert(h[0].0 < sequence);
                assert(rank(h.drop_first(), sequence) == i - 1);
                assert(self@ =~= h.drop_first().insert(i - 1, e));
            }
        }
    }
}

} // verus!
