//! The lock protocol's decisions: marker naming, directory-scan predicates,
//! the writer's claim check, and the snapshot consistency independent
//! readers observe.

use somedb::db::{is_rlock_name, rlock_file, someone_has_rlock, someone_has_wlock, wlock_file};
use somedb::db::{Database, RLock, WLock};
use somedb::sample::MyStruct;

#[test]
fn marker_names_never_collide_with_tables() {
    let r = rlock_file("stem", "77-0");
    let w = wlock_file("stem");
    assert_eq!(r, "stem.77-0-rlock");
    assert_eq!(w, "stem.wlock");
    assert!(is_rlock_name(&r));
    assert!(!is_rlock_name(&w));
    assert!(!is_rlock_name("stem.sdb"));
    assert!(!r.ends_with(".sdb") && !w.ends_with(".sdb"));
}

#[test]
fn reader_waits_for_a_writer_marker() {
    let lock = RLock::new(String::from("stem"), String::from("77-0"));
    let empty: Vec<String> = vec![];
    assert!(lock.may_acquire(&empty));
    let listing = vec![String::from("stem.sdb"), String::from("stem.wlock")];
    assert!(!lock.may_acquire(&listing));
    let other = vec![String::from("other.wlock")];
    assert!(lock.may_acquire(&other));
    assert_eq!(lock.marker(), "stem.77-0-rlock");
}

#[test]
fn writer_excludes_readers_and_writers() {
    let lock = WLock::new(String::from("stem"), String::from("77-0"));
    let empty: Vec<String> = vec![];
    assert!(lock.may_claim(&empty));
    assert!(!lock.may_claim(&vec![String::from("stem.wlock")]));
    assert!(lock.may_proceed(&empty));
    assert!(!lock.may_proceed(&vec![String::from("stem.77-1-rlock")]));
    assert!(!lock.may_proceed(&vec![
        String::from("stem.sdb"),
        String::from("other.90-2-rlock"),
    ]));
    assert!(lock.claim_intact(&String::from("77-0")));
    assert!(!lock.claim_intact(&String::from("90-1")));
    assert_eq!(lock.marker(), "stem.wlock");
}

#[test]
fn scan_predicates_see_markers() {
    let listing = vec![
        String::from("a.sdb"),
        String::from("a.12-0-rlock"),
        String::from("b.sdb"),
    ];
    assert!(someone_has_rlock(&listing));
    assert!(!someone_has_rlock(&vec![String::from("a.sdb")]));
    let w = String::from("a.wlock");
    assert!(!someone_has_wlock(&listing, &w));
    let mut with_w = listing.clone();
    with_w.push(String::from("a.wlock"));
    assert!(someone_has_wlock(&with_w, &w));
}

#[test]
fn independent_read_snapshots_are_consistent() {
    let mut db = Database::default().unwrap();
    let a = db.store(MyStruct { id: 0, data: String::from("a") }).unwrap();
    let b = db.store(MyStruct { id: 0, data: String::from("b") }).unwrap();
    let mut snapshots = Vec::new();
    for _ in 0..8 {
        snapshots.push(db.query::<MyStruct>().unwrap());
    }
    for mut q in snapshots {
        assert_eq!(q.next(), Some(a.clone()));
        assert_eq!(q.next(), Some(b.clone()));
        assert_eq!(q.next(), None);
    }
}
