//! Whole files and whole listings: what the engine comes to when every action
//! it asks for is performed and reported.

use vstd::prelude::*;
use crate::engine::{Action, EventView, Phase, State};
use crate::key::spec_read_id;

verus! {

/// What the disk has to say while one file is in hand.
pub struct Answers {
    /// The key of the file in hand, `None` where extraction fails.
    pub key: Option<usize>,
    /// The content of the file in hand, `None` where the read fails.
    pub own: Option<Seq<u8>>,
    /// The content of each earlier file, `None` where the read fails.
    pub others: spec_fn(usize) -> Option<Seq<u8>>,
    /// Whether removing the file in hand succeeds.
    pub removed: bool,
}

impl Answers {
    /// The report that follows when the action `a`, asked for in state `s`,
    /// has been performed; `None` where the file in hand is finished.
    pub open spec fn reply(self, s: State, a: Action) -> Option<EventView> {
        match a {
            Action::ReadContent(f) => Some(
                EventView::Content(
                    if f == s.current() {
                        self.own
                    } else {
                        (self.others)(f)
                    },
                ),
            ),
            Action::Remove(_) => Some(EventView::Removed(self.removed)),
            Action::Done(_) => None,
        }
    }
}

/// The state reached from `s`, where `a` is pending, by performing each action
/// and reporting it, until the file in hand is finished or `limit` reports
/// have been made.
pub open spec fn drive(s: State, a: Action, w: Answers, limit: nat) -> State
    decreases limit,
{
    match w.reply(s, a) {
        Some(e) if limit > 0 => {
            let (t, b) = s.next(e);
            drive(t, b, w, (limit - 1) as nat)
        },
        _ => s,
    }
}

/// Reports that finish any file in state `s`: one per member of the largest
/// bucket there could be, one for the file's own content, one for a removal.
pub open spec fn enough(s: State) -> nat {
    s.scanned + 2
}

/// The state after the next file has been offered to `s` and driven to its end.
pub open spec fn episode(s: State, w: Answers) -> State {
    let (t, a) = s.next(EventView::Key(w.key));
    drive(t, a, w, enough(s))
}

/// The files whose content is read, in the order of the reads, while the
/// engine is driven as in `drive`.
pub open spec fn reads(s: State, a: Action, w: Answers, limit: nat) -> Seq<usize>
    decreases limit,
{
    match w.reply(s, a) {
        Some(e) if limit > 0 => {
            let (t, b) = s.next(e);
            let rest = reads(t, b, w, (limit - 1) as nat);
            match a {
                Action::ReadContent(f) => seq![f] + rest,
                _ => rest,
            }
        },
        _ => Seq::empty(),
    }
}

/// The files whose content is read while the next file is in hand.
pub open spec fn episode_reads(s: State, w: Answers) -> Seq<usize> {
    let (t, a) = s.next(EventView::Key(w.key));
    reads(t, a, w, enough(s))
}

/// Where comparison stops when it starts at `pos`: one past the first member
/// from there on that is read with content `data`, or the end of the bucket.
pub open spec fn stop(members: Seq<usize>, data: Seq<u8>, w: Answers, pos: int) -> int
    decreases members.len() - pos,
{
    if pos < 0 || pos >= members.len() {
        members.len() as int
    } else if (w.others)(members[pos]) == Some(data) {
        pos + 1
    } else {
        stop(members, data, w, pos + 1)
    }
}

/// The reads that the next file costs, said at once: none for a file without a
/// key or the first with its key; else one of the file itself and, where that
/// succeeds, one of each member of its bucket, oldest first, up to and
/// including the first that is equal.
pub open spec fn scan_reads(s: State, w: Answers) -> Seq<usize> {
    match w.key {
        Some(key) if s.index.contains_key(key) => match w.own {
            None => seq![s.current()],
            Some(data) => seq![s.current()] + s.index[key].subrange(
                0,
                stop(s.index[key], data, w, 0),
            ),
        },
        _ => Seq::empty(),
    }
}

/// That some member of the bucket of `key` is read with content `data`.
pub open spec fn meets_equal(s: State, key: usize, data: Seq<u8>, w: Answers) -> bool {
    exists|p: int|
        0 <= p < s.index[key].len() && (w.others)(#[trigger] s.index[key][p]) == Some(data)
}

/// `s` with the file in hand removed and finished, or only finished where the
/// removal fails.
pub open spec fn dispose(s: State, removed: bool) -> State {
    if removed {
        State { deleted: s.deleted + 1, ..s }.finish()
    } else {
        s.finish()
    }
}

/// What becomes of the next file, said at once: without a key it is skipped;
/// the first with its key is registered; unreadable, it is skipped; equal to a
/// member of its bucket as that member is read, it is removed; else it is
/// registered.
pub open spec fn scan_file(s: State, w: Answers) -> State {
    match w.key {
        None => s.finish(),
        Some(key) => if !s.index.contains_key(key) {
            s.enrol(key)
        } else {
            match w.own {
                None => s.finish(),
                Some(data) => if meets_equal(s, key, data, w) {
                    dispose(s, w.removed)
                } else {
                    s.enrol(key)
                },
            }
        },
    }
}

/// The state after a listing of `ws.len()` files, the disk answering `ws[i]`
/// while file `i` is in hand.
pub open spec fn remove_duplicates(s: State, ws: Seq<Answers>) -> State
    decreases ws.len(),
{
    if ws.len() == 0 {
        s
    } else {
        episode(remove_duplicates(s, ws.drop_last()), ws.last())
    }
}

/// An engine that has seen no file.
pub open spec fn fresh() -> State {
    State { index: Map::empty(), scanned: 0, deleted: 0, phase: Phase::Idle, data: Seq::empty() }
}

/// The key of a file with the given content, `None` where it is too short.
pub open spec fn key_of(content: Seq<u8>) -> Option<usize> {
    match spec_read_id(content) {
        Ok(key) => Some(key),
        Err(_) => None,
    }
}

/// A disk on which nothing fails: `files` lists the content of each file of the
/// directory, and this is what it answers while file `i` is in hand.
pub open spec fn honest(files: Seq<Seq<u8>>, i: int) -> Answers {
    Answers {
        key: key_of(files[i]),
        own: Some(files[i]),
        others: |f: usize| if f < files.len() { Some(files[f as int]) } else { None },
        removed: true,
    }
}

/// The state after the first `n` files of the directory `files`, on a disk on
/// which nothing fails.
pub open spec fn scan(files: Seq<Seq<u8>>, n: nat) -> State
    decreases n,
{
    if n == 0 {
        fresh()
    } else {
        episode(scan(files, (n - 1) as nat), honest(files, n - 1))
    }
}

/// That file `i` of the directory was removed when its turn came.
pub open spec fn removes(files: Seq<Seq<u8>>, i: int) -> bool {
    scan(files, (i + 1) as nat).deleted == scan(files, i as nat).deleted + 1
}

/// That file `i` has the content of an earlier file of the listing.
pub open spec fn repeats(files: Seq<Seq<u8>>, i: int) -> bool {
    exists|j: int| 0 <= j < i && #[trigger] files[j] == files[i]
}

/// That file `i` has a key and is the first of the listing with its content.
pub open spec fn first_of_kind(files: Seq<Seq<u8>>, i: int) -> bool {
    key_of(files[i]) is Some && !repeats(files, i)
}

/// That `f` is a member of the bucket of `key`.
pub open spec fn listed(s: State, key: usize, f: usize) -> bool {
    s.index.contains_key(key) && s.index[key].contains(f)
}

/// That the index holds, of the first `n` files, exactly those that have a key
/// and are the first with their content, each under its own key.
pub open spec fn holds_the_firsts(files: Seq<Seq<u8>>, n: nat, s: State) -> bool {
    &&& forall|k: usize, f: usize| #[trigger]
        listed(s, k, f) ==> f < n && key_of(files[f as int]) == Some(k) && first_of_kind(
            files,
            f as int,
        )
    &&& forall|f: int|
        0 <= f < n && #[trigger] first_of_kind(files, f) ==> listed(
            s,
            key_of(files[f])->0,
            f as usize,
        )
}

/// That no file of the directory that has a key has the content of an earlier
/// one: there is nothing to remove.
pub open spec fn deduplicated(files: Seq<Seq<u8>>) -> bool {
    forall|i: int| 0 <= i < files.len() && key_of(#[trigger] files[i]) is Some ==> !repeats(files, i)
}

/// How many of the first `n` files have a key and the content of an earlier
/// file.
pub open spec fn copies(files: Seq<Seq<u8>>, n: nat) -> nat
    decreases n,
{
    if n == 0 {
        0
    } else if key_of(files[n - 1]) is Some && repeats(files, n - 1) {
        copies(files, (n - 1) as nat) + 1
    } else {
        copies(files, (n - 1) as nat)
    }
}

} // verus!
