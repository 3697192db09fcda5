//! What holds of the engine over every state, every report and every listing.

use vstd::prelude::*;
use crate::engine::{Action, EventView, Outcome, Phase, State};
use crate::key::{spec_key_width, spec_read_id, ScanError};
use crate::run::{
    copies, deduplicated, dispose, drive, enough, episode, episode_reads, first_of_kind,
    holds_the_firsts, honest, key_of, listed, meets_equal, reads, remove_duplicates, removes,
    repeats, scan, scan_file, scan_reads, stop, Answers,
};

verus! {

/// Every accepted report leaves the engine's invariant in place.
pub proof fn step_keeps_wf(s: State, e: EventView)
    requires
        s.wf(),
        s.accepts(e),
    ensures
        s.next(e).0.wf(),
{
}

/// A file shorter than a key has no key, and the engine leaves a file without
/// a key alone: it asks for no read and no removal, and the index and the count
/// of removed files stay as they were.
pub proof fn short_file_is_left_alone(s: State, content: Seq<u8>)
    requires
        s.wf(),
        s.phase is Idle,
        content.len() < spec_key_width(),
    ensures
        spec_read_id(content) == Err::<usize, ScanError>(ScanError::ExtractionFailed),
        key_of(content) is None,
        s.next(EventView::Key(key_of(content))).1 == Action::Done(
            Outcome::Skipped(ScanError::ExtractionFailed),
        ),
        s.next(EventView::Key(key_of(content))).0.index == s.index,
        s.next(EventView::Key(key_of(content))).0.deleted == s.deleted,
        forall|w: Answers| w.key == key_of(content) ==> #[trigger] episode(s, w) == s.finish(),
{
    assert forall|w: Answers| w.key == key_of(content) implies #[trigger] episode(s, w)
        == s.finish() by {
        reveal_with_fuel(drive, 1);
    }
}

/// Only the file in hand is ever to be removed, and it is in no bucket; every
/// member of the index stays where it is, whatever is reported.
pub proof fn members_are_never_removed(s: State, e: EventView)
    requires
        s.wf(),
        s.accepts(e),
    ensures
        forall|f: usize| s.next(e).1 == Action::Remove(f) ==> f == s.current() && !s.holds(f),
        forall|k: usize, p: int|
            s.index.contains_key(k) && 0 <= p < s.index[k].len() ==> s.next(e).0.index.contains_key(
                k,
            ) && p < s.next(e).0.index[k].len() && #[trigger] s.next(e).0.index[k][p]
                == s.index[k][p],
{
}

/// The report made for the action that the engine asked for is one it accepts.
pub proof fn reply_is_accepted(s: State, e: EventView, w: Answers)
    requires
        s.wf(),
        s.accepts(e),
        !(s.next(e).1 is Done),
    ensures
        w.reply(s.next(e).0, s.next(e).1) is Some,
        s.next(e).0.accepts(w.reply(s.next(e).0, s.next(e).1)->0),
{
}

/// One more to `scanned` for each finished file and for nothing else, whatever
/// was reported; one more to `deleted` for each successful removal and for
/// nothing else.
pub proof fn counters_step(s: State, e: EventView)
    requires
        s.wf(),
        s.accepts(e),
    ensures
        s.next(e).0.scanned == s.scanned + (if s.next(e).1 is Done { 1nat } else { 0nat }),
        s.next(e).0.deleted == s.deleted + (if s.phase is Delete && e == EventView::Removed(true) {
            1nat
        } else {
            0nat
        }),
        s.next(e).1 is Done <==> s.next(e).0.phase is Idle,
{
}

/// Comparison from the member at `pos` on, driven to its end: the file in
/// hand is disposed of where a member from there on is read with its content,
/// and joins the bucket where none is.
proof fn compare_tail(s: State, w: Answers, key: usize, pos: int, limit: nat)
    requires
        s.wf(),
        0 <= pos < s.index[key].len(),
        s.phase == (Phase::Compare { key, pos: pos as usize }),
        limit >= s.index[key].len() - pos + 1,
    ensures
        drive(s, Action::ReadContent(s.index[key][pos]), w, limit) == (if exists|p: int|
            pos <= p < s.index[key].len() && (w.others)(#[trigger] s.index[key][p]) == Some(
                s.data,
            ) {
            dispose(s, w.removed)
        } else {
            s.enrol(key)
        }),
    decreases s.index[key].len() - pos,
{
    let f = s.index[key][pos];
    let a = Action::ReadContent(f);
    assert(f != s.current());
    let e = w.reply(s, a)->0;
    assert(e == EventView::Content((w.others)(f)));
    let (t, b) = s.next(e);
    assert(drive(s, a, w, limit) == drive(t, b, w, (limit - 1) as nat));
    if (w.others)(f) == Some(s.data) {
        let e2 = w.reply(t, b)->0;
        let (t2, b2) = t.next(e2);
        assert(drive(t, b, w, (limit - 1) as nat) == drive(t2, b2, w, (limit - 2) as nat));
        assert(b2 is Done);
        assert(drive(t2, b2, w, (limit - 2) as nat) == t2);
        assert(t2 == dispose(s, w.removed));
    } else if pos + 1 < s.index[key].len() {
        compare_tail(t, w, key, pos + 1, (limit - 1) as nat);
        assert(dispose(t, w.removed) == dispose(s, w.removed));
        assert(t.enrol(key) == s.enrol(key));
        assert forall|p: int|
            pos <= p < s.index[key].len() && (w.others)(#[trigger] s.index[key][p]) == Some(
                s.data,
            ) implies pos + 1 <= p by {}
    } else {
        assert(b is Done);
        assert(drive(t, b, w, (limit - 1) as nat) == t);
    }
}

/// Driving the engine through one file comes to what `scan_file` says at
/// once, and leaves the engine ready for the next file with one more scanned.
pub proof fn episode_is_scan_file(s: State, w: Answers)
    requires
        s.wf(),
        s.phase is Idle,
        s.scanned < usize::MAX,
    ensures
        episode(s, w) == scan_file(s, w),
        episode(s, w).wf(),
        episode(s, w).phase is Idle,
        episode(s, w).scanned == s.scanned + 1,
        s.deleted <= episode(s, w).deleted <= s.deleted + 1,
{
    let e = EventView::Key(w.key);
    let (t, a) = s.next(e);
    let limit = enough(s);
    assert(s.finish().wf());
    assert(dispose(s, w.removed).wf());
    match w.key {
        None => {
            assert(drive(t, a, w, limit) == t);
        },
        Some(key) => {
            assert(s.enrol(key).wf());
            if !s.index.contains_key(key) {
                assert(drive(t, a, w, limit) == t);
            } else {
                let e1 = w.reply(t, a)->0;
                assert(e1 == EventView::Content(w.own));
                let (t1, a1) = t.next(e1);
                assert(drive(t, a, w, limit) == drive(t1, a1, w, (limit - 1) as nat));
                match w.own {
                    None => {
                        assert(drive(t1, a1, w, (limit - 1) as nat) == t1);
                    },
                    Some(data) => {
                        compare_tail(t1, w, key, 0, (limit - 1) as nat);
                        assert(dispose(t1, w.removed) == dispose(s, w.removed));
                        assert(t1.enrol(key) == s.enrol(key));
                    },
                }
            }
        },
    }
}

/// The reads of a comparison that starts at `pos`.
proof fn compare_reads(s: State, w: Answers, key: usize, pos: int, limit: nat)
    requires
        s.wf(),
        0 <= pos < s.index[key].len(),
        s.phase == (Phase::Compare { key, pos: pos as usize }),
        limit >= s.index[key].len() - pos + 1,
    ensures
        pos < stop(s.index[key], s.data, w, pos) <= s.index[key].len(),
        reads(s, Action::ReadContent(s.index[key][pos]), w, limit) == s.index[key].subrange(
            pos,
            stop(s.index[key], s.data, w, pos),
        ),
    decreases s.index[key].len() - pos,
{
    let m = s.index[key];
    let f = m[pos];
    let a = Action::ReadContent(f);
    assert(f != s.current());
    let e = w.reply(s, a)->0;
    assert(e == EventView::Content((w.others)(f)));
    let (t, b) = s.next(e);
    assert(reads(s, a, w, limit) == seq![f] + reads(t, b, w, (limit - 1) as nat));
    assert(stop(m, s.data, w, m.len() as int) == m.len());
    if (w.others)(f) == Some(s.data) {
        assert(stop(m, s.data, w, pos) == pos + 1);
        let e2 = w.reply(t, b)->0;
        let (t2, b2) = t.next(e2);
        assert(reads(t, b, w, (limit - 1) as nat) == reads(t2, b2, w, (limit - 2) as nat));
        assert(b2 is Done);
        assert(reads(t2, b2, w, (limit - 2) as nat) == Seq::<usize>::empty());
        assert(seq![f] + Seq::<usize>::empty() =~= m.subrange(pos, pos + 1));
    } else if pos + 1 < m.len() {
        compare_reads(t, w, key, pos + 1, (limit - 1) as nat);
        let end = stop(m, s.data, w, pos + 1);
        assert(stop(m, s.data, w, pos) == end);
        assert(seq![f] + m.subrange(pos + 1, end) =~= m.subrange(pos, end));
    } else {
        assert(b is Done);
        assert(reads(t, b, w, (limit - 1) as nat) == Seq::<usize>::empty());
        assert(stop(m, s.data, w, pos) == pos + 1);
        assert(seq![f] + Seq::<usize>::empty() =~= m.subrange(pos, pos + 1));
    }
}

/// While a file is in hand, its own content is read at most once, and then
/// each member of its bucket at most once, oldest first, up to the first that
/// is equal: the reads are those of `scan_reads`.
pub proof fn episode_reads_each_once(s: State, w: Answers)
    requires
        s.wf(),
        s.phase is Idle,
        s.scanned < usize::MAX,
    ensures
        episode_reads(s, w) == scan_reads(s, w),
{
    let e = EventView::Key(w.key);
    let (t, a) = s.next(e);
    let limit = enough(s);
    match w.key {
        None => {
            assert(reads(t, a, w, limit) == Seq::<usize>::empty());
        },
        Some(key) => {
            if !s.index.contains_key(key) {
                assert(reads(t, a, w, limit) == Seq::<usize>::empty());
            } else {
                let e1 = w.reply(t, a)->0;
                assert(e1 == EventView::Content(w.own));
                let (t1, a1) = t.next(e1);
                assert(reads(t, a, w, limit) == seq![s.current()] + reads(
                    t1,
                    a1,
                    w,
                    (limit - 1) as nat,
                ));
                match w.own {
                    None => {
                        assert(reads(t1, a1, w, (limit - 1) as nat) == Seq::<usize>::empty());
                        assert(seq![s.current()] + Seq::<usize>::empty() =~= seq![s.current()]);
                    },
                    Some(data) => {
                        compare_reads(t1, w, key, 0, (limit - 1) as nat);
                    },
                }
            }
        },
    }
}

/// After a listing, `scanned` has grown by the number of files listed,
/// whatever the disk answered for any of them.
pub proof fn scanned_counts_the_listing(s: State, ws: Seq<Answers>)
    requires
        s.wf(),
        s.phase is Idle,
        s.scanned + ws.len() <= usize::MAX,
    ensures
        remove_duplicates(s, ws).scanned == s.scanned + ws.len(),
        remove_duplicates(s, ws).wf(),
        remove_duplicates(s, ws).phase is Idle,
        s.deleted <= remove_duplicates(s, ws).deleted <= s.deleted + ws.len(),
    decreases ws.len(),
{
    if ws.len() > 0 {
        scanned_counts_the_listing(s, ws.drop_last());
        episode_is_scan_file(remove_duplicates(s, ws.drop_last()), ws.last());
    }
}

/// A file that repeats an earlier one repeats one that repeats none.
proof fn first_copy(files: Seq<Seq<u8>>, i: int) -> (j: int)
    requires
        0 <= i < files.len(),
        repeats(files, i),
    ensures
        0 <= j < i,
        files[j] == files[i],
        !repeats(files, j),
    decreases i,
{
    let c = choose|c: int| 0 <= c < i && #[trigger] files[c] == files[i];
    if repeats(files, c) {
        first_copy(files, c)
    } else {
        c
    }
}

/// On a disk on which nothing fails, the engine is ready for file `n` after
/// the first `n` files, its index holds the firsts among them, and file
/// `n - 1` was removed exactly if it has a key and repeats an earlier file.
pub proof fn scan_holds_the_firsts(files: Seq<Seq<u8>>, n: nat)
    requires
        n <= files.len() <= usize::MAX,
    ensures
        scan(files, n).wf(),
        scan(files, n).phase is Idle,
        scan(files, n).scanned == n,
        holds_the_firsts(files, n, scan(files, n)),
        n > 0 ==> (removes(files, n - 1) <==> key_of(files[n - 1]) is Some && repeats(
            files,
            n - 1,
        )),
        n > 0 ==> scan(files, (n - 1) as nat).deleted <= scan(files, n).deleted,
    decreases n,
{
    if n == 0 {
        let s = scan(files, 0);
        assert forall|k: usize, f: usize| #[trigger] listed(s, k, f) implies false by {}
    } else {
        let i = n - 1;
        let s0 = scan(files, i as nat);
        let w = honest(files, i);
        scan_holds_the_firsts(files, i as nat);
        episode_is_scan_file(s0, w);
        let s = scan(files, n);
        assert(s == scan_file(s0, w));
        let now = i as usize;
        match w.key {
            None => {
                assert(s.index == s0.index);
                assert forall|k: usize, f: usize| #[trigger] listed(s, k, f) implies listed(
                    s0,
                    k,
                    f,
                ) by {}
                assert forall|f: int| 0 <= f < n && #[trigger] first_of_kind(files, f) implies listed(
                    s,
                    key_of(files[f])->0,
                    f as usize,
                ) by {
                    assert(listed(s0, key_of(files[f])->0, f as usize));
                }
            },
            Some(key) => {
                // an earlier file with this content would have left a first of its kind in the bucket
                if repeats(files, i) {
                    let j = first_copy(files, i);
                    assert(first_of_kind(files, j));
                    assert(listed(s0, key, j as usize));
                    let p = choose|p: int|
                        0 <= p < s0.index[key].len() && s0.index[key][p] == j as usize;
                    assert((w.others)(s0.index[key][p]) == Some(files[i]));
                    assert(meets_equal(s0, key, files[i], w));
                }
                if s0.index.contains_key(key) && meets_equal(s0, key, files[i], w) {
                    let p = choose|p: int|
                        0 <= p < s0.index[key].len() && (w.others)(#[trigger] s0.index[key][p])
                            == Some(files[i]);
                    let f = s0.index[key][p];
                    assert(s0.index[key].contains(f));
                    assert(listed(s0, key, f));
                    assert(files[f as int] == files[i]);
                    assert(repeats(files, i));
                    assert(s == dispose(s0, true));
                    assert(s.index == s0.index);
                    assert forall|k: usize, f: usize| #[trigger] listed(s, k, f) implies listed(
                        s0,
                        k,
                        f,
                    ) by {}
                    assert forall|f: int|
                        0 <= f < n && #[trigger] first_of_kind(files, f) implies listed(
                        s,
                        key_of(files[f])->0,
                        f as usize,
                    ) by {
                        assert(listed(s0, key_of(files[f])->0, f as usize));
                    }
                } else {
                    assert(!repeats(files, i));
                    assert(s == s0.enrol(key));
                    assert(s.index[key].last() == now);
                    assert forall|k: usize, f: usize| #[trigger] listed(s, k, f) implies f < n
                        && key_of(files[f as int]) == Some(k) && first_of_kind(files, f as int) by {
                        let p = choose|p: int| 0 <= p < s.index[k].len() && s.index[k][p] == f;
                        if f != now {
                            assert(s0.index.contains_key(k));
                            assert(s0.index[k][p] == f);
                            assert(listed(s0, k, f));
                        } else if k != key {
                            assert(s0.index[k][p] == f);
                            assert(listed(s0, k, f));
                        }
                    }
                    assert forall|f: int|
                        0 <= f < n && #[trigger] first_of_kind(files, f) implies listed(
                        s,
                        key_of(files[f])->0,
                        f as usize,
                    ) by {
                        let k = key_of(files[f])->0;
                        if f < i {
                            assert(listed(s0, k, f as usize));
                            let p = choose|p: int|
                                0 <= p < s0.index[k].len() && s0.index[k][p] == f as usize;
                            assert(s.index[k][p] == f as usize);
                        } else {
                            assert(s.index[key][s.index[key].len() - 1] == now);
                        }
                    }
                }
            },
        }
    }
}

/// The key of a file is read from its head: any prefix that holds a whole key,
/// or the whole of a shorter file, gives what the file gives.
pub proof fn key_is_read_from_the_head(content: Seq<u8>, n: int)
    requires
        n <= content.len(),
        spec_key_width() <= n || n == content.len(),
    ensures
        spec_read_id(content.subrange(0, n)) == spec_read_id(content),
{
    if spec_key_width() <= n {
        assert(content.subrange(0, n).subrange(0, spec_key_width() as int) =~= content.subrange(
            0,
            spec_key_width() as int,
        ));
    } else {
        assert(content.subrange(0, n) =~= content);
    }
}

/// A file shorter than a key is never removed and never a member of any
/// bucket.
pub proof fn short_file_survives_unlisted(files: Seq<Seq<u8>>, i: int, n: nat, k: usize)
    requires
        0 <= i < files.len() <= usize::MAX,
        n <= files.len(),
        files[i].len() < spec_key_width(),
    ensures
        key_of(files[i]) is None,
        !removes(files, i),
        !listed(scan(files, n), k, i as usize),
{
    scan_holds_the_firsts(files, (i + 1) as nat);
    scan_holds_the_firsts(files, n);
}

/// Of two files with the same content and a key, the later is removed when its
/// turn comes.
pub proof fn later_copy_is_removed(files: Seq<Seq<u8>>, i: int, j: int)
    requires
        0 <= i < j < files.len() <= usize::MAX,
        files[i] == files[j],
        key_of(files[j]) is Some,
    ensures
        removes(files, j),
{
    scan_holds_the_firsts(files, (j + 1) as nat);
}

/// The first file with its content is not removed, however many copies follow
/// and whatever other files share its key; where it has a key it is a member of
/// the bucket of that key from its turn on.
pub proof fn first_of_its_content_survives(files: Seq<Seq<u8>>, i: int, n: nat)
    requires
        0 <= i < n <= files.len() <= usize::MAX,
        !repeats(files, i),
    ensures
        !removes(files, i),
        key_of(files[i]) is Some ==> listed(scan(files, n), key_of(files[i])->0, i as usize),
{
    scan_holds_the_firsts(files, (i + 1) as nat);
    scan_holds_the_firsts(files, n);
    if key_of(files[i]) is Some {
        assert(first_of_kind(files, i));
    }
}

/// Two files with the same key and different content, each the first with its
/// content, both survive, and both end up in the bucket of their key.
pub proof fn colliding_files_both_survive(files: Seq<Seq<u8>>, i: int, j: int)
    requires
        0 <= i < j < files.len() <= usize::MAX,
        key_of(files[i]) is Some,
        key_of(files[i]) == key_of(files[j]),
        !repeats(files, i),
        !repeats(files, j),
    ensures
        files[i] != files[j],
        !removes(files, i),
        !removes(files, j),
        listed(scan(files, files.len()), key_of(files[i])->0, i as usize),
        listed(scan(files, files.len()), key_of(files[i])->0, j as usize),
{
    first_of_its_content_survives(files, i, files.len());
    first_of_its_content_survives(files, j, files.len());
}

/// No two members of the index have the same content, in one bucket or in
/// two.
pub proof fn members_differ(files: Seq<Seq<u8>>, n: nat, k: usize, f: usize, l: usize, g: usize)
    requires
        n <= files.len() <= usize::MAX,
        listed(scan(files, n), k, f),
        listed(scan(files, n), l, g),
        f != g,
    ensures
        files[f as int] != files[g as int],
{
    scan_holds_the_firsts(files, n);
}

/// On a disk on which nothing fails, `deleted` counts the files that have a
/// key and the content of an earlier file.
pub proof fn deleted_counts_the_copies(files: Seq<Seq<u8>>, n: nat)
    requires
        n <= files.len() <= usize::MAX,
    ensures
        scan(files, n).deleted == copies(files, n),
    decreases n,
{
    if n > 0 {
        deleted_counts_the_copies(files, (n - 1) as nat);
        scan_holds_the_firsts(files, (n - 1) as nat);
        scan_holds_the_firsts(files, n);
        episode_is_scan_file(scan(files, (n - 1) as nat), honest(files, n - 1));
    }
}

/// In a directory with nothing to remove, nothing is removed.
pub proof fn deduplicated_directory_loses_nothing(files: Seq<Seq<u8>>, n: nat)
    requires
        n <= files.len() <= usize::MAX,
        deduplicated(files),
    ensures
        scan(files, n).deleted == 0,
    decreases n,
{
    if n > 0 {
        deduplicated_directory_loses_nothing(files, (n - 1) as nat);
        scan_holds_the_firsts(files, (n - 1) as nat);
        scan_holds_the_firsts(files, n);
        episode_is_scan_file(scan(files, (n - 1) as nat), honest(files, n - 1));
        assert(key_of(files[n - 1]) is Some ==> !repeats(files, n - 1));
    }
}

/// A second run removes nothing: where `again` lists files that the run over
/// `files` left in place, none of them twice and in any order, the directory
/// has nothing to remove and the run over it removes nothing.
pub proof fn second_run_deletes_nothing(
    files: Seq<Seq<u8>>,
    again: Seq<Seq<u8>>,
    origin: spec_fn(int) -> int,
)
    requires
        files.len() <= usize::MAX,
        again.len() <= usize::MAX,
        forall|a: int|
            0 <= a < again.len() ==> 0 <= #[trigger] origin(a) < files.len() && !removes(
                files,
                origin(a),
            ) && again[a] == files[origin(a)],
        forall|a: int, b: int|
            0 <= a < b < again.len() ==> #[trigger] origin(a) != #[trigger] origin(b),
    ensures
        deduplicated(again),
        scan(again, again.len()).deleted == 0,
{
    assert forall|b: int| 0 <= b < again.len() && key_of(#[trigger] again[b]) is Some implies !repeats(
        again,
        b,
    ) by {
        if repeats(again, b) {
            let a = choose|a: int| 0 <= a < b && #[trigger] again[a] == again[b];
            let (oa, ob) = (origin(a), origin(b));
            if oa < ob {
                later_copy_is_removed(files, oa, ob);
            } else {
                later_copy_is_removed(files, ob, oa);
            }
        }
    }
    deduplicated_directory_loses_nothing(again, again.len());
}

} // verus!
