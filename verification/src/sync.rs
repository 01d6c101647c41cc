//! The synchronizer: the state machine that decides, for each incoming diff,
//! whether it is applied, held back, dropped, or shows that the book has lost
//! its place in the stream and must be rebuilt from a fresh snapshot.

use crate::book::{BookView, DepthDiff, DepthSnapshot, OrderBook};
use vstd::prelude::*;

verus! {

/// Where the synchronizer stands.
#[derive(Clone, Copy, Debug, PartialEq, Eq, Structural)]
pub enum SyncState {
    /// No diff has been applied since the last reset or snapshot.
    AwaitingSnapshot,
    /// The book follows the stream diff by diff.
    Synced,
    /// Continuity was lost; diffs are dropped until a snapshot arrives.
    Resyncing,
}

/// What became of a diff.
#[derive(Clone, Copy, Debug, PartialEq, Eq, Structural)]
pub enum DiffOutcome {
    /// Held back until the snapshot arrives.
    Buffered,
    /// Dropped: the snapshot already covers it.
    Stale,
    /// Applied to the book.
    Applied,
    /// Not applied: it does not continue the book. A snapshot is needed.
    Gap,
    /// Dropped while a snapshot is awaited after a gap.
    Ignored,
}

/// The diff ends before the update `last_update_id`.
pub open spec fn is_stale(diff: DepthDiff, last_update_id: u64) -> bool {
    diff.final_update_id < last_update_id
}

/// The range of the diff holds the update `last_update_id`.
pub open spec fn bridges(diff: DepthDiff, last_update_id: u64) -> bool {
    diff.first_update_id <= last_update_id <= diff.final_update_id
}

/// The diff names `last_update_id` as the update before it.
pub open spec fn continues(diff: DepthDiff, last_update_id: u64) -> bool {
    diff.previous_final_update_id == last_update_id
}

/// The mathematical view of a synchronizer.
pub struct SyncView {
    pub state: SyncState,
    /// A snapshot has been applied and no diff since.
    pub anchored: bool,
    pub book: BookView,
    /// The diffs held back, oldest first.
    pub pending: Seq<DepthDiff>,
}

impl SyncView {
    /// The book is valid, only an unanchored wait holds diffs back, and only
    /// a wait is anchored.
    pub open spec fn wf(self) -> bool {
        &&& self.book.wf()
        &&& forall|i: int| 0 <= i < self.pending.len() ==> (#[trigger] self.pending[i]).wf()
        &&& (self.anchored ==> self.state == SyncState::AwaitingSnapshot)
        &&& (self.pending.len() > 0 ==> self.state == SyncState::AwaitingSnapshot
            && !self.anchored)
    }

    /// A snapshot fetch is due: the book has nothing to stand on.
    pub open spec fn needs_snapshot(self) -> bool {
        self.state != SyncState::Synced && !self.anchored
    }

    /// What becomes of `diff` in this state.
    pub open spec fn outcome(self, diff: DepthDiff) -> DiffOutcome {
        let at = self.book.final_update_id;
        match self.state {
            SyncState::Synced => if continues(diff, at) {
                DiffOutcome::Applied
            } else {
                DiffOutcome::Gap
            },
            SyncState::Resyncing => DiffOutcome::Ignored,
            SyncState::AwaitingSnapshot => if !self.anchored {
                DiffOutcome::Buffered
            } else if is_stale(diff, at) {
                DiffOutcome::Stale
            } else if bridges(diff, at) || continues(diff, at) {
                DiffOutcome::Applied
            } else {
                DiffOutcome::Gap
            },
        }
    }

    /// The state after `diff` is handed in.
    pub open spec fn on_diff(self, diff: DepthDiff) -> SyncView {
        match self.outcome(diff) {
            DiffOutcome::Buffered => SyncView {
                state: self.state,
                anchored: self.anchored,
                book: self.book,
                pending: self.pending.push(diff),
            },
            DiffOutcome::Applied => SyncView {
                state: SyncState::Synced,
                anchored: false,
                book: self.book.apply_diff(diff),
                pending: self.pending,
            },
            DiffOutcome::Gap => SyncView {
                state: SyncState::Resyncing,
                anchored: false,
                book: self.book,
                pending: self.pending,
            },
            DiffOutcome::Stale | DiffOutcome::Ignored => self,
        }
    }

    /// The state after the diffs are handed in one after the other.
    pub open spec fn replay(self, diffs: Seq<DepthDiff>) -> SyncView
        decreases diffs.len(),
    {
        if diffs.len() == 0 {
            self
        } else {
            self.replay(diffs.drop_last()).on_diff(diffs.last())
        }
    }

    /// The state after `snapshot` arrives: the book is reset to it, and the
    /// diffs held back are then handed in, oldest first.
    pub open spec fn on_snapshot(self, snapshot: DepthSnapshot) -> SyncView {
        (SyncView {
            state: SyncState::AwaitingSnapshot,
            anchored: true,
            book: self.book.apply_snapshot(snapshot),
            pending: Seq::empty(),
        }).replay(self.pending)
    }

    /// The state after the stream was lost: a wait for a snapshot, with
    /// nothing held back. The book keeps its levels until the snapshot.
    pub open spec fn reset(self) -> SyncView {
        SyncView {
            state: SyncState::AwaitingSnapshot,
            anchored: false,
            book: self.book,
            pending: Seq::empty(),
        }
    }
}

/// The synchronizer of one instrument. It owns the book.
#[derive(Clone, Debug)]
pub struct Synchronizer {
    book: OrderBook,
    state: SyncState,
    anchored: bool,
    pending: Vec<DepthDiff>,
}

impl View for Synchronizer {
    type V = SyncView;

    closed spec fn view(&self) -> SyncView {
        SyncView {
            state: self.state,
            anchored: self.anchored,
            book: self.book@,
            pending: self.pending@,
        }
    }
}

impl Synchronizer {
    /// The representation invariant.
    pub closed spec fn wf(&self) -> bool {
        &&& self.book.wf()
        &&& forall|i: int| 0 <= i < self.pending@.len() ==> (#[trigger] self.pending@[i]).wf()
        &&& (self.anchored ==> self.state == SyncState::AwaitingSnapshot)
        &&& (self.pending@.len() > 0 ==> self.state == SyncState::AwaitingSnapshot
            && !self.anchored)
    }

    /// A well-formed synchronizer has a valid view.
    pub proof fn lemma_view_valid(&self)
        requires
            self.wf(),
        ensures
            self@.wf(),
    {
        self.book.lemma_view_valid();
    }

    /// A synchronizer that awaits its first snapshot.
    pub fn new(book: OrderBook) -> (r: Synchronizer)
        requires
            book.wf(),
        ensures
            r.wf(),
            r@ == (SyncView {
                state: SyncState::AwaitingSnapshot,
                anchored: false,
                book: book@,
                pending: Seq::empty(),
            }),
    {
        Synchronizer { book, state: SyncState::AwaitingSnapshot, anchored: false, pending: Vec::new() }
    }

    /// Where the synchronizer stands.
    pub fn state(&self) -> (r: SyncState)
        ensures
            r == self@.state,
    {
        self.state
    }

    /// The book.
    pub fn book(&self) -> (r: &OrderBook)
        requires
            self.wf(),
        ensures
            r.wf(),
            r@ == self@.book,
    {
        &self.book
    }

    /// The number of diffs held back.
    pub fn pending_len(&self) -> (r: usize)
        ensures
            r == self@.pending.len(),
    {
        self.pending.len()
    }

    /// Whether a snapshot fetch is due.
    pub fn needs_snapshot(&self) -> (r: bool)
        ensures
            r == self@.needs_snapshot(),
    {
        match self.state {
            SyncState::Synced => false,
            _ => !self.anchored,
        }
    }

    /// The step for a diff that is not held back.
    fn process(&mut self, diff: &DepthDiff) -> (r: DiffOutcome)
        requires
            old(self).wf(),
            diff.wf(),
            old(self)@.outcome(*diff) != DiffOutcome::Buffered,
        ensures
            final(self).wf(),
            r == old(self)@.outcome(*diff),
            final(self)@ == old(self)@.on_diff(*diff),
    {
        let at: u64 = self.book.final_update_id();
        let applies: bool = match self.state {
            SyncState::Resyncing => { return DiffOutcome::Ignored; },
            SyncState::Synced => diff.previous_final_update_id == at,
            SyncState::AwaitingSnapshot => {
                if diff.final_update_id < at {
                    return DiffOutcome::Stale;
                }
                diff.first_update_id <= at || diff.previous_final_update_id == at
            },
        };
        if applies {
            self.book.apply_diff(diff);
            self.state = SyncState::Synced;
            self.anchored = false;
            DiffOutcome::Applied
        } else {
            self.state = SyncState::Resyncing;
            self.anchored = false;
            DiffOutcome::Gap
        }
    }

    /// Hands in the next diff of the stream.
    ///
    /// Before the snapshot has arrived the diff is held back. Right after
    /// a snapshot, a diff that ends before the snapshot is dropped, and one
    /// that bridges or directly continues it is applied. Once synced, a diff
    /// is applied exactly when it names the book's position as the update
    /// before it; any other diff leaves the book untouched and starts a
    /// resynchronization, during which diffs are dropped.
    pub fn on_diff(&mut self, diff: DepthDiff) -> (r: DiffOutcome)
        requires
            old(self).wf(),
            diff.wf(),
        ensures
            final(self).wf(),
            r == old(self)@.outcome(diff),
            final(self)@ == old(self)@.on_diff(diff),
            old(self)@.state == SyncState::Synced && !continues(diff, old(self)@.book.final_update_id)
                ==> final(self)@.book == old(self)@.book && final(self)@.state
                == SyncState::Resyncing,
    {
        let holds_back: bool = match self.state {
            SyncState::AwaitingSnapshot => !self.anchored,
            _ => false,
        };
        if holds_back {
            self.pending.push(diff);
            DiffOutcome::Buffered
        } else {
            self.process(&diff)
        }
    }

    /// Hands in a fetched snapshot: the book is reset to it, then the diffs
    /// held back are handed in, oldest first. Returns the state reached.
    pub fn on_snapshot(&mut self, snapshot: &DepthSnapshot) -> (r: SyncState)
        requires
            old(self).wf(),
            snapshot.wf(),
        ensures
            final(self).wf(),
            final(self)@ == old(self)@.on_snapshot(*snapshot),
            r == final(self)@.state,
            final(self)@.pending.len() == 0,
    {
        let mut held: Vec<DepthDiff> = Vec::new();
        std::mem::swap(&mut held, &mut self.pending);
        self.book.apply_snapshot(snapshot);
        self.state = SyncState::AwaitingSnapshot;
        self.anchored = true;
        let ghost start = self@;
        let mut i: usize = 0;
        while i < held.len()
            invariant
                i <= held@.len(),
                held@ == old(self)@.pending,
                forall|k: int| 0 <= k < held@.len() ==> (#[trigger] held@[k]).wf(),
                self.wf(),
                self@.pending.len() == 0,
                self@.state == SyncState::AwaitingSnapshot ==> self@.anchored,
                self@ == start.replay(held@.take(i as int)),
            decreases held@.len() - i,
        {
            proof {
                assert(held@.take(i + 1).drop_last() =~= held@.take(i as int));
                assert(held@[i as int].wf());
            }
            self.process(&held[i]);
            i = i + 1;
        }
        assert(held@.take(i as int) =~= held@);
        self.state
    }

    /// Forgets the stream position after the connection was lost: the next
    /// diffs are held back until a fresh snapshot arrives.
    pub fn reset(&mut self)
        requires
            old(self).wf(),
        ensures
            final(self).wf(),
            final(self)@ == old(self)@.reset(),
    {
        self.state = SyncState::AwaitingSnapshot;
        self.anchored = false;
        self.pending.clear();
    }
}

/// While synced, a diff that does not name the book's position as the update
/// before it never changes the book: it starts a resynchronization.
pub proof fn lemma_gap_never_mutates(v: SyncView, diff: DepthDiff)
    requires
        v.state == SyncState::Synced,
        diff.previous_final_update_id != v.book.final_update_id,
    ensures
        v.on_diff(diff).book == v.book,
        v.on_diff(diff).state == SyncState::Resyncing,
{
}

/// A diff never moves the book's position backwards, provided the diff itself
/// does not end before the update it names as its predecessor.
pub proof fn lemma_diff_moves_forward(v: SyncView, diff: DepthDiff)
    requires
        diff.previous_final_update_id <= diff.final_update_id,
    ensures
        v.book.final_update_id <= v.on_diff(diff).book.final_update_id,
{
}

/// Over any run of diffs, in whatever state it starts, the book's position
/// never decreases, provided no diff ends before the update it names as its
/// predecessor: the position after the first `i` diffs is at most the
/// position after the first `j`, for `i <= j`.
pub proof fn lemma_update_id_monotonic(v: SyncView, diffs: Seq<DepthDiff>, i: int, j: int)
    requires
        forall|k: int|
            0 <= k < diffs.len() ==> (#[trigger] diffs[k]).previous_final_update_id
                <= diffs[k].final_update_id,
        0 <= i <= j <= diffs.len(),
    ensures
        v.replay(diffs.take(i)).book.final_update_id <= v.replay(
            diffs.take(j),
        ).book.final_update_id,
    decreases j - i,
{
    if i < j {
        lemma_update_id_monotonic(v, diffs, i, j - 1);
        assert(diffs.take(j).drop_last() =~= diffs.take(j - 1));
        assert(diffs.take(j).last() == diffs[j - 1]);
        lemma_diff_moves_forward(v.replay(diffs.take(j - 1)), diffs[j - 1]);
    }
}

/// A snapshot with nothing held back leaves exactly the snapshot's book, and
/// the synchronizer anchored on it.
pub proof fn lemma_snapshot_resets(v: SyncView, snapshot: DepthSnapshot)
    requires
        v.pending.len() == 0,
    ensures
        v.on_snapshot(snapshot).book == v.book.apply_snapshot(snapshot),
        v.on_snapshot(snapshot).state == SyncState::AwaitingSnapshot,
        v.on_snapshot(snapshot).anchored,
{
}

/// Every step keeps the view valid.
pub proof fn lemma_on_diff_keeps_wf(v: SyncView, diff: DepthDiff)
    requires
        v.wf(),
        diff.wf(),
    ensures
        v.on_diff(diff).wf(),
{
    crate::book::lemma_apply_diff_keeps_wf(v.book, diff);
}

/// A run of well-formed diffs keeps the view valid.
pub proof fn lemma_replay_keeps_wf(v: SyncView, diffs: Seq<DepthDiff>)
    requires
        v.wf(),
        forall|i: int| 0 <= i < diffs.len() ==> (#[trigger] diffs[i]).wf(),
    ensures
        v.replay(diffs).wf(),
    decreases diffs.len(),
{
    if diffs.len() > 0 {
        lemma_replay_keeps_wf(v, diffs.drop_last());
        assert(diffs.last().wf());
        lemma_on_diff_keeps_wf(v.replay(diffs.drop_last()), diffs.last());
    }
}

/// After a snapshot nothing is held back, and the view is valid.
pub proof fn lemma_on_snapshot_keeps_wf(v: SyncView, snapshot: DepthSnapshot)
    requires
        v.wf(),
        snapshot.wf(),
    ensures
        v.on_snapshot(snapshot).wf(),
{
    crate::book::lemma_apply_snapshot_keeps_wf(v.book, snapshot);
    let start = SyncView {
        state: SyncState::AwaitingSnapshot,
        anchored: true,
        book: v.book.apply_snapshot(snapshot),
        pending: Seq::empty(),
    };
    lemma_replay_keeps_wf(start, v.pending);
}

} // verus!
