//! The stream supervisor: the decisions that drive one instrument from
//! connecting to the update stream, through snapshot recovery, to publishing
//! depth records.
//!
//! The supervisor performs no I/O. It is handed each event of the outside
//! world and answers with the next action to perform; whoever runs it carries
//! the action out and hands back what happened.

use crate::book::{BookView, Depth, DepthDiff, DepthSnapshot};
use crate::sync::{DiffOutcome, SyncState, SyncView, Synchronizer};
use vstd::prelude::*;

verus! {

/// What the outside world reports.
#[derive(Clone, Debug)]
pub enum StreamEvent {
    /// The stream connection is up.
    Connected,
    /// An attempt to connect failed.
    ConnectFailed,
    /// The stream connection was lost.
    Disconnected,
    /// The stream delivered a diff.
    Diff(DepthDiff),
    /// The stream delivered a message that could not be decoded.
    Malformed,
    /// The snapshot fetch returned.
    Snapshot(DepthSnapshot),
    /// The snapshot fetch failed.
    SnapshotFailed,
}

impl StreamEvent {
    /// The levels the event carries are well formed.
    pub open spec fn wf(&self) -> bool {
        match self {
            StreamEvent::Diff(diff) => diff.wf(),
            StreamEvent::Snapshot(snapshot) => snapshot.wf(),
            _ => true,
        }
    }
}

/// The kind of the next action.
#[derive(Clone, Copy, Debug, PartialEq, Eq, Structural)]
pub enum ActionKind {
    Connect,
    FetchSnapshot,
    Publish,
    Idle,
}

/// One depth record for the output sink.
#[derive(Clone, Debug)]
pub struct DepthRecord {
    pub symbol: String,
    pub timestamp: u64,
    pub depth: Depth,
    /// The sink is to be rotated before this record is written.
    pub rotate: bool,
}

/// What to do next.
#[derive(Clone, Debug)]
pub enum Action {
    /// Connect to the update stream.
    Connect,
    /// Fetch a snapshot.
    FetchSnapshot,
    /// Hand the record to the sink, then wait for the stream.
    Publish(DepthRecord),
    /// Wait for the stream.
    Idle,
}

impl Action {
    pub open spec fn kind(&self) -> ActionKind {
        match self {
            Action::Connect => ActionKind::Connect,
            Action::FetchSnapshot => ActionKind::FetchSnapshot,
            Action::Publish(_) => ActionKind::Publish,
            Action::Idle => ActionKind::Idle,
        }
    }
}

/// An event time in milliseconds lies past a deadline in seconds.
pub open spec fn rotation_due(timestamp_ms: u64, deadline_s: u64) -> bool {
    timestamp_ms / 1000 > deadline_s
}

/// Whether an event time in milliseconds lies past a deadline in seconds: the
/// rule by which an output sink is rotated.
pub fn is_rotation_due(timestamp_ms: u64, deadline_s: u64) -> (r: bool)
    ensures
        r == rotation_due(timestamp_ms, deadline_s),
{
    timestamp_ms / 1000 > deadline_s
}

/// The mathematical view of a supervisor.
pub struct SupervisorView {
    pub sync: SyncView,
    pub connected: bool,
    /// A snapshot fetch is under way.
    pub fetching: bool,
    /// The number of levels per side in a depth record.
    pub levels: nat,
    /// The time, in seconds, after which the sink is rotated.
    pub rollover: u64,
}

impl SupervisorView {
    pub open spec fn wf(self) -> bool {
        self.sync.wf()
    }

    /// The state after `event`.
    pub open spec fn next(self, event: StreamEvent) -> SupervisorView {
        match event {
            StreamEvent::Connected => SupervisorView {
                sync: self.sync.reset(),
                connected: true,
                fetching: true,
                levels: self.levels,
                rollover: self.rollover,
            },
            StreamEvent::ConnectFailed | StreamEvent::Disconnected => SupervisorView {
                sync: self.sync.reset(),
                connected: false,
                fetching: false,
                levels: self.levels,
                rollover: self.rollover,
            },
            StreamEvent::Malformed => self,
            StreamEvent::Diff(diff) => if self.connected {
                SupervisorView {
                    sync: self.sync.on_diff(diff),
                    connected: true,
                    fetching: self.fetching || self.sync.outcome(diff) == DiffOutcome::Gap,
                    levels: self.levels,
                    rollover: self.rollover,
                }
            } else {
                self
            },
            StreamEvent::Snapshot(snapshot) => if self.connected {
                SupervisorView {
                    sync: self.sync.on_snapshot(snapshot),
                    connected: true,
                    fetching: self.sync.on_snapshot(snapshot).state == SyncState::Resyncing,
                    levels: self.levels,
                    rollover: self.rollover,
                }
            } else {
                self
            },
            StreamEvent::SnapshotFailed => if self.connected {
                SupervisorView {
                    sync: self.sync,
                    connected: true,
                    fetching: true,
                    levels: self.levels,
                    rollover: self.rollover,
                }
            } else {
                self
            },
        }
    }

    /// The kind of action that answers `event`.
    pub open spec fn action(self, event: StreamEvent) -> ActionKind {
        match event {
            StreamEvent::Connected => ActionKind::FetchSnapshot,
            StreamEvent::ConnectFailed | StreamEvent::Disconnected => ActionKind::Connect,
            StreamEvent::Malformed => ActionKind::Idle,
            StreamEvent::Diff(diff) => if !self.connected {
                ActionKind::Idle
            } else {
                match self.sync.outcome(diff) {
                    DiffOutcome::Applied => ActionKind::Publish,
                    DiffOutcome::Gap => ActionKind::FetchSnapshot,
                    _ => ActionKind::Idle,
                }
            },
            StreamEvent::Snapshot(snapshot) => if !self.connected {
                ActionKind::Idle
            } else if self.sync.on_snapshot(snapshot).state == SyncState::Resyncing {
                ActionKind::FetchSnapshot
            } else {
                ActionKind::Publish
            },
            StreamEvent::SnapshotFailed => if self.connected {
                ActionKind::FetchSnapshot
            } else {
                ActionKind::Idle
            },
        }
    }
}

impl DepthRecord {
    /// The record shows `book` to `levels` levels, and asks for a rotation
    /// exactly when the book's time lies past `rollover`.
    pub open spec fn describes(&self, book: BookView, levels: nat, rollover: u64) -> bool {
        &&& self.symbol@ == book.symbol
        &&& self.timestamp == book.timestamp
        &&& self.depth.is_depth_of(book, levels)
        &&& self.rotate == rotation_due(book.timestamp, rollover)
    }
}

/// The supervisor of one instrument. It owns the synchronizer and the book.
#[derive(Clone, Debug)]
pub struct StreamSupervisor {
    sync: Synchronizer,
    connected: bool,
    fetching: bool,
    levels: usize,
    rollover: u64,
}

impl View for StreamSupervisor {
    type V = SupervisorView;

    closed spec fn view(&self) -> SupervisorView {
        SupervisorView {
            sync: self.sync@,
            connected: self.connected,
            fetching: self.fetching,
            levels: self.levels as nat,
            rollover: self.rollover,
        }
    }
}

impl StreamSupervisor {
    /// The representation invariant.
    pub closed spec fn wf(&self) -> bool {
        self.sync.wf()
    }

    /// A supervisor that is not yet connected. `levels` is the depth of the
    /// records it publishes, `rollover` the time in seconds after which the
    /// sink is first rotated.
    pub fn new(sync: Synchronizer, levels: usize, rollover: u64) -> (r: StreamSupervisor)
        requires
            sync.wf(),
        ensures
            r.wf(),
            r@ == (SupervisorView {
                sync: sync@,
                connected: false,
                fetching: false,
                levels: levels as nat,
                rollover,
            }),
    {
        StreamSupervisor { sync, connected: false, fetching: false, levels, rollover }
    }

    /// The first action: connect.
    pub fn start(&self) -> (r: Action)
        ensures
            r.kind() == ActionKind::Connect,
    {
        Action::Connect
    }

    /// The synchronizer.
    pub fn synchronizer(&self) -> (r: &Synchronizer)
        requires
            self.wf(),
        ensures
            r.wf(),
            r@ == self@.sync,
    {
        &self.sync
    }

    /// Whether the stream connection is up.
    pub fn is_connected(&self) -> (r: bool)
        ensures
            r == self@.connected,
    {
        self.connected
    }

    /// Whether a snapshot fetch is under way.
    pub fn is_fetching(&self) -> (r: bool)
        ensures
            r == self@.fetching,
    {
        self.fetching
    }

    /// Sets the time, in seconds, after which the sink is next rotated. The
    /// book and the synchronizer are not touched.
    pub fn set_rollover(&mut self, deadline: u64)
        ensures
            final(self).wf() == old(self).wf(),
            final(self)@ == (SupervisorView { rollover: deadline, ..old(self)@ }),
    {
        self.rollover = deadline;
    }

    /// The depth record of the book as it stands.
    pub fn record(&self) -> (r: DepthRecord)
        requires
            self.wf(),
        ensures
            r.describes(self@.sync.book, self@.levels, self@.rollover),
    {
        let book = self.sync.book();
        let timestamp: u64 = book.timestamp();
        DepthRecord {
            symbol: book.symbol().clone(),
            timestamp,
            depth: book.depth(self.levels),
            rotate: is_rotation_due(timestamp, self.rollover),
        }
    }

    /// Takes the next event and answers with the next action.
    ///
    /// A new connection resets the synchronizer and fetches a snapshot; a
    /// lost or failed connection resets it and connects again, without limit.
    /// A diff is handed to the synchronizer: applied, it is published; a gap
    /// fetches a snapshot. A snapshot is handed to the synchronizer and the
    /// book is published, unless the diffs held back show a gap, which
    /// fetches again. A failed fetch is retried, without limit. A message
    /// that could not be decoded is dropped.
    pub fn handle(&mut self, event: StreamEvent) -> (r: Action)
        requires
            old(self).wf(),
            event.wf(),
        ensures
            final(self).wf(),
            final(self)@ == old(self)@.next(event),
            r.kind() == old(self)@.action(event),
            r matches Action::Publish(record) ==> record.describes(
                final(self)@.sync.book,
                final(self)@.levels,
                final(self)@.rollover,
            ),
    {
        match event {
            StreamEvent::Connected => {
                self.sync.reset();
                self.connected = true;
                self.fetching = true;
                Action::FetchSnapshot
            },
            StreamEvent::ConnectFailed | StreamEvent::Disconnected => {
                self.sync.reset();
                self.connected = false;
                self.fetching = false;
                Action::Connect
            },
            StreamEvent::Malformed => Action::Idle,
            StreamEvent::Diff(diff) => {
                if !self.connected {
                    return Action::Idle;
                }
                match self.sync.on_diff(diff) {
                    DiffOutcome::Applied => Action::Publish(self.record()),
                    DiffOutcome::Gap => {
                        self.fetching = true;
                        Action::FetchSnapshot
                    },
                    _ => Action::Idle,
                }
            },
            StreamEvent::Snapshot(snapshot) => {
                if !self.connected {
                    return Action::Idle;
                }
                match self.sync.on_snapshot(&snapshot) {
                    SyncState::Resyncing => {
                        self.fetching = true;
                        Action::FetchSnapshot
                    },
                    _ => {
                        self.fetching = false;
                        Action::Publish(self.record())
                    },
                }
            },
            StreamEvent::SnapshotFailed => {
                if !self.connected {
                    return Action::Idle;
                }
                self.fetching = true;
                Action::FetchSnapshot
            },
        }
    }
}

/// A new connection always starts from a reset synchronizer and a snapshot
/// fetch, whatever the supervisor held before.
pub proof fn lemma_reconnect_resets(v: SupervisorView)
    ensures
        v.next(StreamEvent::Connected).sync == v.sync.reset(),
        v.next(StreamEvent::Connected).sync.state == SyncState::AwaitingSnapshot,
        v.next(StreamEvent::Connected).sync.pending.len() == 0,
        v.action(StreamEvent::Connected) == ActionKind::FetchSnapshot,
        v.next(StreamEvent::Disconnected).sync == v.sync.reset(),
        v.action(StreamEvent::Disconnected) == ActionKind::Connect,
{
}

/// No failure ends the run: a failed connection is answered by connecting
/// again, a failed fetch on a live connection by fetching again, and neither
/// changes the book.
pub proof fn lemma_failures_are_retried(v: SupervisorView)
    ensures
        v.action(StreamEvent::ConnectFailed) == ActionKind::Connect,
        v.next(StreamEvent::ConnectFailed).sync.book == v.sync.book,
        v.connected ==> v.action(StreamEvent::SnapshotFailed) == ActionKind::FetchSnapshot,
        v.next(StreamEvent::SnapshotFailed).sync == v.sync,
        v.next(StreamEvent::Malformed) == v,
{
}

/// Every event keeps the view valid.
pub proof fn lemma_next_keeps_wf(v: SupervisorView, event: StreamEvent)
    requires
        v.wf(),
        event.wf(),
    ensures
        v.next(event).wf(),
{
    match event {
        StreamEvent::Diff(diff) => {
            crate::sync::lemma_on_diff_keeps_wf(v.sync, diff);
        },
        StreamEvent::Snapshot(snapshot) => {
            crate::sync::lemma_on_snapshot_keeps_wf(v.sync, snapshot);
        },
        _ => {},
    }
}

} // verus!
