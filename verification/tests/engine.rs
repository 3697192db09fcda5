use dedup::engine::same_bytes;
use dedup::{
    capacity_hint, key_width, map_from_iter, read_id, Action, Deduper, Event, Outcome, Phase,
    ScanError, CAPACITY_LIMIT,
};

/// A directory held in memory: the content of each file while it exists.
struct Dir {
    files: Vec<Option<Vec<u8>>>,
    reads: Vec<usize>,
    refuse_removal: bool,
}

fn dir(files: &[&[u8]]) -> Dir {
    Dir {
        files: files.iter().map(|f| Some(f.to_vec())).collect(),
        reads: vec![0; files.len()],
        refuse_removal: false,
    }
}

/// Runs the engine over the whole directory, in listing order.
fn run(d: &mut Dir) -> (Deduper, Vec<Outcome>) {
    let mut engine = Deduper::new(d.files.len(), Some(d.files.len()));
    let mut outcomes = Vec::new();
    for i in 0..d.files.len() {
        assert_eq!(engine.scanned(), i);
        let head = d.files[i].clone().unwrap_or_default();
        let mut event = Event::Key(read_id(&head).ok());
        loop {
            assert!(engine.accepts(&event));
            match engine.step(event) {
                Action::ReadContent(f) => {
                    d.reads[f] += 1;
                    event = Event::Content(d.files[f].clone());
                }
                Action::Remove(f) => {
                    assert_eq!(f, i);
                    if d.refuse_removal {
                        event = Event::Removed(false);
                    } else {
                        d.files[f] = None;
                        event = Event::Removed(true);
                    }
                }
                Action::Done(o) => {
                    outcomes.push(o);
                    break;
                }
            }
        }
    }
    (engine, outcomes)
}

fn word(bytes: [u8; 8]) -> usize {
    if u16::from_ne_bytes([1, 0]) == 1 {
        u64::from_le_bytes(bytes) as usize
    } else {
        u64::from_be_bytes(bytes) as usize
    }
}

#[test]
fn key_width_is_a_machine_word() {
    assert_eq!(key_width(), std::mem::size_of::<usize>());
    assert_eq!(key_width() * 8, usize::BITS as usize);
}

#[test]
fn read_id_decodes_the_leading_word() {
    if key_width() == 8 {
        let k = read_id(&[1, 2, 3, 4, 5, 6, 7, 8, b'x']).unwrap();
        assert_eq!(k, word([1, 2, 3, 4, 5, 6, 7, 8]));
        assert_ne!(k, 1);
        if u16::from_ne_bytes([1, 0]) == 1 {
            assert_eq!(k, 0x0807060504030201);
        } else {
            assert_eq!(k, 0x0102030405060708);
        }
    }
}

#[test]
fn read_id_ignores_what_follows_the_word() {
    let mut a = vec![9u8; key_width()];
    let k = read_id(&a).unwrap();
    a.push(1);
    a.push(2);
    assert_eq!(read_id(&a), Ok(k));
}

#[test]
fn read_id_tells_keys_apart() {
    let mut a = vec![0u8; key_width()];
    let mut b = vec![0u8; key_width()];
    a[0] = 1;
    b[key_width() - 1] = 1;
    assert_ne!(read_id(&a), read_id(&b));
    assert_eq!(read_id(&vec![0u8; key_width()]), Ok(0));
    assert_eq!(read_id(&vec![255u8; key_width()]), Ok(usize::MAX));
}

#[test]
fn read_id_refuses_short_files() {
    assert_eq!(read_id(&[]), Err(ScanError::ExtractionFailed));
    assert_eq!(read_id(&[1, 2, 3]), Err(ScanError::ExtractionFailed));
    let almost = vec![7u8; key_width() - 1];
    assert_eq!(read_id(&almost), Err(ScanError::ExtractionFailed));
}

#[test]
fn capacity_hint_prefers_the_upper_bound() {
    assert_eq!(capacity_hint(3, Some(10)), 10);
    assert_eq!(capacity_hint(3, None), 3);
    assert_eq!(capacity_hint(5, Some(0)), 0);
}

#[test]
fn map_from_iter_is_empty() {
    let m = map_from_iter(4, Some(16));
    assert!(m.is_empty());
    assert!(m.capacity() >= 16);
    assert!(map_from_iter(0, None).is_empty());
}

#[test]
fn same_bytes_compares_byte_for_byte() {
    assert!(same_bytes(b"abc", b"abc"));
    assert!(same_bytes(b"", b""));
    assert!(!same_bytes(b"abc", b"abd"));
    assert!(!same_bytes(b"abc", b"ab"));
    assert!(!same_bytes(b"", b"a"));
}

#[test]
fn new_engine_has_seen_nothing() {
    let e = Deduper::new(0, None);
    assert_eq!(e.scanned(), 0);
    assert_eq!(e.deleted(), 0);
    assert_eq!(e.phase(), Phase::Idle);
    assert_eq!(e.bucket(0), None);
}

#[test]
fn empty_directory() {
    let mut d = dir(&[]);
    let (e, outcomes) = run(&mut d);
    assert_eq!(e.scanned(), 0);
    assert_eq!(e.deleted(), 0);
    assert!(outcomes.is_empty());
}

#[test]
fn duplicate_is_removed_and_collision_survives() {
    let a: &[u8] = &[1, 2, 3, 4, 5, 6, 7, 8, b'x'];
    let b: &[u8] = &[1, 2, 3, 4, 5, 6, 7, 8, b'x'];
    let c: &[u8] = &[1, 2, 3, 4, 5, 6, 7, 8, b'y'];
    let mut d = dir(&[a, b, c]);
    let (e, outcomes) = run(&mut d);
    assert_eq!(outcomes, vec![Outcome::Registered, Outcome::Deleted, Outcome::Registered]);
    assert_eq!(e.scanned(), 3);
    assert_eq!(e.deleted(), 1);
    assert!(d.files[0].is_some());
    assert!(d.files[1].is_none());
    assert!(d.files[2].is_some());
    if key_width() == 8 {
        assert_eq!(e.bucket(word([1, 2, 3, 4, 5, 6, 7, 8])), Some(vec![0, 2]));
    }
}

#[test]
fn short_file_is_left_alone() {
    let mut d = dir(&[&[1, 2, 3]]);
    let (e, outcomes) = run(&mut d);
    assert_eq!(outcomes, vec![Outcome::Skipped(ScanError::ExtractionFailed)]);
    assert_eq!(e.scanned(), 1);
    assert_eq!(e.deleted(), 0);
    assert_eq!(d.files[0], Some(vec![1, 2, 3]));
    assert_eq!(d.reads[0], 0);
}

#[test]
fn equal_short_files_both_stay() {
    let mut d = dir(&[b"abc", b"abc"]);
    let (e, _) = run(&mut d);
    assert_eq!(e.scanned(), 2);
    assert_eq!(e.deleted(), 0);
    assert!(d.files[0].is_some() && d.files[1].is_some());
}

#[test]
fn first_of_many_copies_survives() {
    let f: &[u8] = b"0123456789abcdef-same";
    let mut d = dir(&[f, f, f, f]);
    let (e, outcomes) = run(&mut d);
    assert_eq!(
        outcomes,
        vec![Outcome::Registered, Outcome::Deleted, Outcome::Deleted, Outcome::Deleted]
    );
    assert_eq!(e.scanned(), 4);
    assert_eq!(e.deleted(), 3);
    assert!(d.files[0].is_some());
    assert_eq!(d.files.iter().filter(|f| f.is_some()).count(), 1);
}

#[test]
fn colliding_keys_are_read_once_per_comparison() {
    let a: &[u8] = b"01234567-a";
    let b: &[u8] = b"01234567-b";
    let c: &[u8] = b"01234567-c";
    let mut d = dir(&[a, b, c]);
    let (e, outcomes) = run(&mut d);
    assert_eq!(outcomes, vec![Outcome::Registered; 3]);
    assert_eq!(e.deleted(), 0);
    // a is read against b and against c, b against c; b and c once as the file in hand
    assert_eq!(d.reads, vec![2, 2, 1]);
    if key_width() == 8 {
        assert_eq!(e.bucket(read_id(a).unwrap()), Some(vec![0, 1, 2]));
    }
}

#[test]
fn second_run_deletes_nothing() {
    let x: &[u8] = b"01234567-x";
    let y: &[u8] = b"01234567-y";
    let z: &[u8] = b"76543210-x";
    let mut d = dir(&[x, y, x, z, y, z, b"abc", b"abc"]);
    let (e, _) = run(&mut d);
    assert_eq!(e.scanned(), 8);
    assert_eq!(e.deleted(), 3);
    let left: Vec<Vec<u8>> = d.files.iter().flatten().cloned().collect();
    assert_eq!(left.len(), 5);
    let again: Vec<&[u8]> = left.iter().map(|f| f.as_slice()).collect();
    let mut d2 = dir(&again);
    let (e2, _) = run(&mut d2);
    assert_eq!(e2.scanned(), 5);
    assert_eq!(e2.deleted(), 0);
    assert!(d2.files.iter().all(|f| f.is_some()));
}

#[test]
fn failed_removal_is_reported_and_not_registered() {
    let f: &[u8] = b"01234567-same";
    let mut d = dir(&[f, f, f]);
    d.refuse_removal = true;
    let (e, outcomes) = run(&mut d);
    assert_eq!(
        outcomes,
        vec![
            Outcome::Registered,
            Outcome::Skipped(ScanError::DeletionFailed),
            Outcome::Skipped(ScanError::DeletionFailed)
        ]
    );
    assert_eq!(e.scanned(), 3);
    assert_eq!(e.deleted(), 0);
    assert_eq!(e.bucket(read_id(f).unwrap()), Some(vec![0]));
}

#[test]
fn unreadable_file_in_hand_is_skipped() {
    let mut e = Deduper::new(2, None);
    assert_eq!(e.step(Event::Key(Some(7))), Action::Done(Outcome::Registered));
    assert_eq!(e.step(Event::Key(Some(7))), Action::ReadContent(1));
    assert_eq!(e.phase(), Phase::Content { key: 7 });
    assert_eq!(e.step(Event::Content(None)), Action::Done(Outcome::Skipped(ScanError::ReadFailed)));
    assert_eq!(e.scanned(), 2);
    assert_eq!(e.deleted(), 0);
    assert_eq!(e.bucket(7), Some(vec![0]));
}

#[test]
fn unreadable_member_counts_as_different_and_stays() {
    let mut e = Deduper::new(3, Some(3));
    assert_eq!(e.step(Event::Key(Some(7))), Action::Done(Outcome::Registered));
    assert_eq!(e.step(Event::Key(Some(7))), Action::ReadContent(1));
    assert_eq!(e.step(Event::Content(Some(vec![1, 2]))), Action::ReadContent(0));
    assert_eq!(e.phase(), Phase::Compare { key: 7, pos: 0 });
    assert_eq!(e.step(Event::Content(None)), Action::Done(Outcome::Registered));
    assert_eq!(e.bucket(7), Some(vec![0, 1]));
    // the next file is compared with both members, oldest first
    assert_eq!(e.step(Event::Key(Some(7))), Action::ReadContent(2));
    assert_eq!(e.step(Event::Content(Some(vec![1, 2]))), Action::ReadContent(0));
    assert_eq!(e.step(Event::Content(Some(vec![9]))), Action::ReadContent(1));
    assert_eq!(e.phase(), Phase::Compare { key: 7, pos: 1 });
    assert_eq!(e.step(Event::Content(Some(vec![1, 2]))), Action::Remove(2));
    assert_eq!(e.phase(), Phase::Delete);
    assert_eq!(e.step(Event::Removed(true)), Action::Done(Outcome::Deleted));
    assert_eq!(e.scanned(), 3);
    assert_eq!(e.deleted(), 1);
    assert_eq!(e.bucket(7), Some(vec![0, 1]));
    assert_eq!(e.bucket(8), None);
}

#[test]
fn engine_accepts_only_the_awaited_report() {
    let mut e = Deduper::new(0, None);
    assert!(e.accepts(&Event::Key(None)));
    assert!(!e.accepts(&Event::Content(None)));
    assert!(!e.accepts(&Event::Removed(true)));
    e.step(Event::Key(Some(1)));
    e.step(Event::Key(Some(1)));
    assert!(e.accepts(&Event::Content(None)));
    assert!(!e.accepts(&Event::Key(Some(1))));
    assert!(!e.accepts(&Event::Removed(false)));
}

#[test]
fn scanned_counts_every_file_whatever_happens() {
    let mut e = Deduper::new(0, None);
    e.step(Event::Key(None));
    assert_eq!(e.scanned(), 1);
    e.step(Event::Key(Some(3)));
    assert_eq!(e.scanned(), 2);
    e.step(Event::Key(Some(3)));
    assert_eq!(e.scanned(), 2);
    e.step(Event::Content(None));
    assert_eq!(e.scanned(), 3);
    e.step(Event::Key(Some(3)));
    e.step(Event::Content(Some(vec![])));
    e.step(Event::Content(Some(vec![])));
    assert_eq!(e.scanned(), 3);
    e.step(Event::Removed(false));
    assert_eq!(e.scanned(), 4);
    assert_eq!(e.deleted(), 0);
}

#[test]
fn file_of_exactly_one_key_has_a_key() {
    let k = vec![5u8; key_width()];
    let mut d = dir(&[&k, &k, b"short"]);
    let (e, outcomes) = run(&mut d);
    assert_eq!(
        outcomes,
        vec![
            Outcome::Registered,
            Outcome::Deleted,
            Outcome::Skipped(ScanError::ExtractionFailed)
        ]
    );
    assert_eq!(e.scanned(), 3);
    assert_eq!(e.deleted(), 1);
    assert_eq!(d.reads, vec![1, 1, 0]);
}

#[test]
fn first_file_with_a_key_is_registered_unread() {
    let mut d = dir(&[b"01234567-a", b"76543210-a"]);
    let (e, outcomes) = run(&mut d);
    assert_eq!(outcomes, vec![Outcome::Registered, Outcome::Registered]);
    assert_eq!(d.reads, vec![0, 0]);
    assert_eq!(e.deleted(), 0);
    assert_eq!(e.bucket(read_id(b"01234567-a").unwrap()), Some(vec![0]));
    assert_eq!(e.bucket(read_id(b"76543210-a").unwrap()), Some(vec![1]));
}

#[test]
fn comparison_stops_at_the_first_equal_member() {
    let a: &[u8] = b"01234567-a";
    let b: &[u8] = b"01234567-b";
    let c: &[u8] = b"01234567-c";
    let mut d = dir(&[a, b, c, b]);
    let (e, outcomes) = run(&mut d);
    assert_eq!(outcomes[3], Outcome::Deleted);
    assert_eq!(e.deleted(), 1);
    // the last file is read once, then a and b; c is not reached
    assert_eq!(d.reads, vec![3, 3, 1, 1]);
    assert_eq!(e.bucket(read_id(a).unwrap()), Some(vec![0, 1, 2]));
}

#[test]
fn capacity_limit_leaves_room() {
    assert_eq!(CAPACITY_LIMIT, usize::MAX / 256);
    assert!(capacity_hint(0, None) <= CAPACITY_LIMIT);
}
