//! The deduplication engine: one file at a time, one decision per event.
//!
//! A file is named by its position in the listing, so the file in hand is
//! always number `scanned`. The caller offers the file's key, performs the read
//! or removal that each answer asks for, and reports the outcome as the next
//! event, until the answer is `Action::Done`.

use vstd::prelude::*;
use crate::index::{
    bucket_of, buckets, map_from_iter, members, register, spec_capacity_hint, spec_register, Index,
    CAPACITY_LIMIT,
};
use crate::key::ScanError;

verus! {

/// What the engine is waiting for.
#[derive(Clone, Copy, Debug, PartialEq, Eq, Structural)]
pub enum Phase {
    /// No file in hand: the key of the next file of the listing.
    Idle,
    /// The content of the file in hand, whose key already has a bucket.
    Content { key: usize },
    /// The content of the member at `pos` of the bucket of `key`.
    Compare { key: usize, pos: usize },
    /// Whether the file in hand, a duplicate, could be removed.
    Delete,
}

/// How the engine left a file.
#[derive(Clone, Copy, Debug, PartialEq, Eq, Structural)]
pub enum Outcome {
    /// It is the first file seen with its content, and now in the index.
    Registered,
    /// It repeated an earlier file and was removed.
    Deleted,
    /// It was left untouched and unregistered, for the reason given.
    Skipped(ScanError),
}

/// What the caller is to do next.
#[derive(Clone, Copy, Debug, PartialEq, Eq, Structural)]
pub enum Action {
    /// Read the whole content of this file and report it.
    ReadContent(usize),
    /// Remove this file and report whether that succeeded.
    Remove(usize),
    /// The file in hand is finished: show the count and offer the next file.
    Done(Outcome),
}

/// What the caller reports.
#[derive(Debug)]
pub enum Event {
    /// The key of the next file of the listing, `None` where it has none.
    Key(Option<usize>),
    /// The content that was asked for, `None` where the read failed.
    Content(Option<Vec<u8>>),
    /// Whether the removal that was asked for succeeded.
    Removed(bool),
}

/// An event, with contents as sequences.
pub enum EventView {
    Key(Option<usize>),
    Content(Option<Seq<u8>>),
    Removed(bool),
}

impl View for Event {
    type V = EventView;

    open spec fn view(&self) -> EventView {
        match *self {
            Event::Key(k) => EventView::Key(k),
            Event::Content(Some(c)) => EventView::Content(Some(c@)),
            Event::Content(None) => EventView::Content(None),
            Event::Removed(ok) => EventView::Removed(ok),
        }
    }
}

/// The engine as a mathematical value.
pub struct State {
    /// For each key, the files found unique so far, oldest first.
    pub index: Map<usize, Seq<usize>>,
    /// Files finished, whatever became of them.
    pub scanned: nat,
    /// Files removed.
    pub deleted: nat,
    /// What the engine is waiting for.
    pub phase: Phase,
    /// Content of the file in hand, while it is compared.
    pub data: Seq<u8>,
}

impl State {
    /// The file in hand: the next position of the listing.
    pub open spec fn current(self) -> usize {
        self.scanned as usize
    }

    /// That `file` is a member of some bucket.
    pub open spec fn holds(self, file: usize) -> bool {
        exists|k: usize, i: int|
            self.index.contains_key(k) && 0 <= i < self.index[k].len() && #[trigger] self.index[k][i]
                == file
    }

    /// The invariant: the counters are in step, every bucket has a member,
    /// the members of a bucket are earlier files, in listing order, and no
    /// file is in two buckets.
    pub open spec fn wf(self) -> bool {
        &&& self.deleted <= self.scanned <= usize::MAX
        &&& !(self.phase is Idle) ==> self.scanned < usize::MAX
        &&& self.phase is Idle ==> self.data.len() == 0
        &&& forall|k: usize| #[trigger]
            self.index.contains_key(k) ==> 0 < self.index[k].len() <= self.scanned
        &&& forall|k: usize, i: int, j: int|
            self.index.contains_key(k) && 0 <= i < j < self.index[k].len() ==> #[trigger] self.index[k][i]
                < #[trigger] self.index[k][j]
        &&& forall|k: usize, i: int|
            self.index.contains_key(k) && 0 <= i < self.index[k].len() ==> #[trigger] self.index[k][i]
                < self.scanned
        &&& forall|k: usize, i: int, l: usize, j: int|
            self.index.contains_key(k) && 0 <= i < self.index[k].len() && self.index.contains_key(l)
                && 0 <= j < self.index[l].len() && #[trigger] self.index[k][i]
                == #[trigger] self.index[l][j] ==> k == l
        &&& match self.phase {
            Phase::Content { key } => self.index.contains_key(key),
            Phase::Compare { key, pos } => self.index.contains_key(key) && pos
                < self.index[key].len(),
            _ => true,
        }
    }

    /// Whether `e` is the report that the engine is waiting for. A new file is
    /// taken only while the count of files still fits a machine word.
    pub open spec fn accepts(self, e: EventView) -> bool {
        match (self.phase, e) {
            (Phase::Idle, EventView::Key(_)) => self.scanned < usize::MAX,
            (Phase::Content { .. }, EventView::Content(_)) => true,
            (Phase::Compare { .. }, EventView::Content(_)) => true,
            (Phase::Delete, EventView::Removed(_)) => true,
            _ => false,
        }
    }

    /// The file in hand is finished.
    pub open spec fn finish(self) -> State {
        State { scanned: self.scanned + 1, phase: Phase::Idle, data: Seq::empty(), ..self }
    }

    /// The file in hand joins the bucket of `key` and is finished.
    pub open spec fn enrol(self, key: usize) -> State {
        State { index: spec_register(self.index, key, self.current()), ..self }.finish()
    }

    /// Comparison goes on at `pos` of the bucket of `key`: with that member
    /// where there is one, else the file in hand has met no equal and joins.
    pub open spec fn compare_from(self, key: usize, pos: int) -> (State, Action) {
        if pos < self.index[key].len() {
            (
                State { phase: Phase::Compare { key, pos: pos as usize }, ..self },
                Action::ReadContent(self.index[key][pos]),
            )
        } else {
            (self.enrol(key), Action::Done(Outcome::Registered))
        }
    }

    /// The state after `e`, and what the caller is to do next. This is for a
    /// report that the engine accepts; any other leaves the state as it is.
    pub open spec fn next(self, e: EventView) -> (State, Action) {
        match (self.phase, e) {
            (Phase::Idle, EventView::Key(None)) => (
                self.finish(),
                Action::Done(Outcome::Skipped(ScanError::ExtractionFailed)),
            ),
            (Phase::Idle, EventView::Key(Some(key))) => if self.index.contains_key(key) {
                (State { phase: Phase::Content { key }, ..self }, Action::ReadContent(self.current()))
            } else {
                (self.enrol(key), Action::Done(Outcome::Registered))
            },
            (Phase::Content { key }, EventView::Content(None)) => (
                self.finish(),
                Action::Done(Outcome::Skipped(ScanError::ReadFailed)),
            ),
            (Phase::Content { key }, EventView::Content(Some(data))) => State {
                data,
                ..self
            }.compare_from(key, 0),
            (Phase::Compare { key, pos }, EventView::Content(other)) => if other == Some(
                self.data,
            ) {
                (State { phase: Phase::Delete, ..self }, Action::Remove(self.current()))
            } else {
                self.compare_from(key, pos + 1)
            },
            (Phase::Delete, EventView::Removed(true)) => (
                State { deleted: self.deleted + 1, ..self }.finish(),
                Action::Done(Outcome::Deleted),
            ),
            (Phase::Delete, EventView::Removed(false)) => (
                self.finish(),
                Action::Done(Outcome::Skipped(ScanError::DeletionFailed)),
            ),
            _ => (self, Action::Done(Outcome::Skipped(ScanError::ExtractionFailed))),
        }
    }
}

/// Whether two byte strings are the same, byte for byte.
pub fn same_bytes(a: &[u8], b: &[u8]) -> (same: bool)
    ensures
        same == (a@ == b@),
{
    if a.len() != b.len() {
        return false;
    }
    let mut i: usize = 0;
    while i < a.len()
        invariant
            a@.len() == b@.len(),
            i <= a@.len(),
            forall|j: int| 0 <= j < i ==> a@[j] == b@[j],
        decreases a@.len() - i,
    {
        if a[i] != b[i] {
            return false;
        }
        i += 1;
    }
    assert(a@ =~= b@);
    true
}

/// The engine: the index, the two counters, and what it is waiting for.
pub struct Deduper {
    index: Index,
    scanned: usize,
    deleted: usize,
    phase: Phase,
    data: Vec<u8>,
}

impl View for Deduper {
    type V = State;

    closed spec fn view(&self) -> State {
        State {
            index: buckets(&self.index),
            scanned: self.scanned as nat,
            deleted: self.deleted as nat,
            phase: self.phase,
            data: self.data@,
        }
    }
}

impl Deduper {
    /// The invariant of the engine: that of its state.
    pub open spec fn wf(&self) -> bool {
        self@.wf()
    }

    /// An engine that has seen no file, with an index sized for a listing that
    /// expects at least `lower` and, where it knows, at most `upper` entries.
    /// The size asked for is to stay within `CAPACITY_LIMIT`.
    pub fn new(lower: usize, upper: Option<usize>) -> (d: Deduper)
        requires
            spec_capacity_hint(lower, upper) <= CAPACITY_LIMIT,
        ensures
            d.wf(),
            d@ == (State {
                index: Map::empty(),
                scanned: 0,
                deleted: 0,
                phase: Phase::Idle,
                data: Seq::empty(),
            }),
    {
        let d = Deduper {
            index: map_from_iter(lower, upper),
            scanned: 0,
            deleted: 0,
            phase: Phase::Idle,
            data: Vec::new(),
        };
        assert(d@.data =~= Seq::empty());
        d
    }

    /// Files finished so far, whatever became of them.
    pub fn scanned(&self) -> (n: usize)
        ensures
            n == self@.scanned,
    {
        self.scanned
    }

    /// Files removed so far.
    pub fn deleted(&self) -> (n: usize)
        ensures
            n == self@.deleted,
    {
        self.deleted
    }

    /// What the engine is waiting for.
    pub fn phase(&self) -> (p: Phase)
        ensures
            p == self@.phase,
    {
        self.phase
    }

    /// The members of the bucket of `key`, oldest first; `None` where no file
    /// with that key has been registered.
    pub fn bucket(&self, key: usize) -> (found: Option<Vec<usize>>)
        ensures
            match found {
                Some(b) => self@.index.contains_key(key) && b@ == self@.index[key],
                None => !self@.index.contains_key(key),
            },
    {
        members(&self.index, key)
    }

    /// Whether `event` is the report that the engine is waiting for.
    pub fn accepts(&self, event: &Event) -> (ok: bool)
        ensures
            ok == self@.accepts(event@),
    {
        match (self.phase, event) {
            (Phase::Idle, Event::Key(_)) => self.scanned < usize::MAX,
            (Phase::Content { .. }, Event::Content(_)) => true,
            (Phase::Compare { .. }, Event::Content(_)) => true,
            (Phase::Delete, Event::Removed(_)) => true,
            _ => false,
        }
    }

    fn finish(&mut self)
        requires
            old(self)@.scanned < usize::MAX,
        ensures
            final(self)@ == old(self)@.finish(),
    {
        self.scanned = self.scanned + 1;
        self.phase = Phase::Idle;
        self.data = Vec::new();
        assert(self@.data =~= Seq::empty());
    }

    fn enrol(&mut self, key: usize)
        requires
            old(self)@.scanned < usize::MAX,
        ensures
            final(self)@ == old(self)@.enrol(key),
    {
        register(&mut self.index, key, self.scanned);
        self.finish();
    }

    fn compare_from(&mut self, key: usize, pos: usize) -> (action: Action)
        requires
            old(self)@.scanned < usize::MAX,
            old(self)@.index.contains_key(key),
        ensures
            final(self)@ == old(self)@.compare_from(key, pos as int).0,
            action == old(self)@.compare_from(key, pos as int).1,
    {
        let member: Option<usize> = match bucket_of(&self.index, key) {
            Some(bucket) => if pos < bucket.len() {
                Some(bucket[pos])
            } else {
                None
            },
            None => None,
        };
        match member {
            Some(file) => {
                self.phase = Phase::Compare { key, pos };
                Action::ReadContent(file)
            },
            None => {
                self.enrol(key);
                Action::Done(Outcome::Registered)
            },
        }
    }

    /// Takes the report `event` and says what to do next.
    ///
    /// The new state and the answer are those of `State::next`. In words: a
    /// file without a key is skipped; the first file with a key is registered
    /// unread; any other is read and compared with the members of its bucket,
    /// oldest first, each read once; a member that cannot be read counts as
    /// different; at the first equal member the file in hand is to be removed,
    /// and is never registered; with no equal member it joins the bucket at the
    /// end. Every finished file adds one to `scanned`, every successful removal
    /// one to `deleted`.
    pub fn step(&mut self, event: Event) -> (action: Action)
        requires
            old(self).wf(),
            old(self)@.accepts(event@),
        ensures
            final(self).wf(),
            final(self)@ == old(self)@.next(event@).0,
            action == old(self)@.next(event@).1,
    {
        proof {
            crate::laws::step_keeps_wf(self@, event@);
        }
        match event {
            Event::Key(None) => {
                self.finish();
                Action::Done(Outcome::Skipped(ScanError::ExtractionFailed))
            },
            Event::Key(Some(key)) => {
                if bucket_of(&self.index, key).is_some() {
                    self.phase = Phase::Content { key };
                    Action::ReadContent(self.scanned)
                } else {
                    self.enrol(key);
                    Action::Done(Outcome::Registered)
                }
            },
            Event::Content(None) => {
                match self.phase {
                    Phase::Compare { key, pos } => self.compare_from(key, pos + 1),
                    _ => {
                        self.finish();
                        Action::Done(Outcome::Skipped(ScanError::ReadFailed))
                    },
                }
            },
            Event::Content(Some(content)) => {
                match self.phase {
                    Phase::Compare { key, pos } => {
                        if same_bytes(content.as_slice(), self.data.as_slice()) {
                            self.phase = Phase::Delete;
                            Action::Remove(self.scanned)
                        } else {
                            self.compare_from(key, pos + 1)
                        }
                    },
                    Phase::Content { key } => {
                        self.data = content;
                        self.compare_from(key, 0)
                    },
                    _ => Action::Done(Outcome::Skipped(ScanError::ExtractionFailed)),
                }
            },
            Event::Removed(ok) => {
                if ok {
                    self.deleted = self.deleted + 1;
                    self.finish();
                    Action::Done(Outcome::Deleted)
                } else {
                    self.finish();
                    Action::Done(Outcome::Skipped(ScanError::DeletionFailed))
                }
            },
        }
    }
}

} // verus!
