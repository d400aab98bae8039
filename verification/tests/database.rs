//! The database operations, exercised end to end against the in-memory
//! table registry: store and find, id generation, duplicate rejection,
//! updates, deletes, and the unregistered-type guard.

use somedb::db::{Database, DbError};
use somedb::sample::{Foo, ManualStruct, MyStruct};
use somedb::storable::Storable;

#[test]
fn load_without_create() {
    let db = Database::default().unwrap();
    assert_eq!(
        db.find_by_id::<Foo>(0)
            .expect_err("find should not succed in this case"),
        DbError::TypeNotFound
    );
}

#[test]
fn store_then_find() {
    let mut db = Database::default().unwrap();
    let stored = db
        .store(MyStruct { id: 0, data: String::from("value") })
        .unwrap();
    let found = db.find_by_id::<MyStruct>(stored.id).unwrap();
    assert_eq!(found, Some(stored));
}

#[test]
fn generated_ids_are_distinct_and_increasing() {
    let mut db = Database::default().unwrap();
    let entity = MyStruct { id: 0, data: String::from("Hello, World!") };
    let first = db.store(entity.clone()).unwrap();
    let second = db.store(entity.clone()).unwrap();
    let third = db.store(entity.clone()).unwrap();
    assert_ne!(first.id, second.id);
    assert_ne!(second.id, third.id);
    assert!(first.id < second.id && second.id < third.id);
    let ids = db.read_all_ids::<MyStruct>().unwrap();
    assert_eq!(ids, vec![first.id, second.id, third.id]);
    for i in 0..ids.len() {
        for j in 0..i {
            assert_ne!(ids[i], ids[j]);
        }
    }
}

#[test]
fn manual_duplicate_id_is_rejected() {
    let mut db = Database::default().unwrap();
    db.store(ManualStruct { id: 5, data: String::from("one") })
        .unwrap();
    let before = db.read_all::<ManualStruct>().unwrap();
    let err = db
        .store(ManualStruct { id: 5, data: String::from("two") })
        .expect_err("duplicate manual id must be refused");
    assert_eq!(err, DbError::IdExists);
    let after = db.read_all::<ManualStruct>().unwrap();
    assert_eq!(before, after);
}

#[test]
fn manual_ids_are_kept() {
    let mut db = Database::default().unwrap();
    let stored = db
        .store(ManualStruct { id: 42, data: String::from("kept") })
        .unwrap();
    assert_eq!(stored.id, 42);
    assert!(db.find_by_id::<ManualStruct>(42).unwrap().is_some());
}

#[test]
fn delete_is_idempotent() {
    let mut db = Database::default().unwrap();
    let stored = db
        .store(MyStruct { id: 0, data: String::from("x") })
        .unwrap();
    let before = db.read_all::<MyStruct>().unwrap();
    db.delte_entity_by_id::<MyStruct>(stored.id + 100).unwrap();
    assert_eq!(db.read_all::<MyStruct>().unwrap(), before);
    db.delte_entity_by_id::<MyStruct>(stored.id).unwrap();
    assert_eq!(db.find_by_id::<MyStruct>(stored.id).unwrap(), None);
    db.delte_entity_by_id::<MyStruct>(stored.id).unwrap();
    assert_eq!(db.read_all::<MyStruct>().unwrap(), vec![]);
}

#[test]
fn update_replaces_exactly_the_matching_row() {
    let mut db = Database::default().unwrap();
    let a = db.store(MyStruct { id: 0, data: String::from("a") }).unwrap();
    let b = db.store(MyStruct { id: 0, data: String::from("b") }).unwrap();
    let c = db.store(MyStruct { id: 0, data: String::from("c") }).unwrap();
    db.update_entity(MyStruct { id: b.id, data: String::from("B") })
        .unwrap();
    let rows = db.read_all::<MyStruct>().unwrap();
    assert_eq!(rows.len(), 3);
    assert_eq!(rows[0], a);
    assert_eq!(rows[1], MyStruct { id: b.id, data: String::from("B") });
    assert_eq!(rows[2], c);
    let err = db
        .update_entity(MyStruct { id: 9999, data: String::from("?") })
        .expect_err("missing id must be refused");
    assert_eq!(err, DbError::IdNotFound);
    assert_eq!(db.read_all::<MyStruct>().unwrap(), rows);
}

#[test]
fn unregistered_type_is_guarded() {
    let mut db = Database::default().unwrap();
    assert_eq!(db.read_all::<Foo>().unwrap_err(), DbError::TypeNotFound);
    assert_eq!(db.read_all_ids::<Foo>().unwrap_err(), DbError::TypeNotFound);
    assert_eq!(db.find_by_id::<Foo>(1).unwrap_err(), DbError::TypeNotFound);
    assert_eq!(
        db.update_entity(Foo { id: 1 }).unwrap_err(),
        DbError::TypeNotFound
    );
    assert_eq!(
        db.delte_entity_by_id::<Foo>(1).unwrap_err(),
        DbError::TypeNotFound
    );
    assert_eq!(
        db.delete_entity_store::<Foo>().unwrap_err(),
        DbError::TypeNotFound
    );
    assert!(!db.contains_type(&Foo::type_hash()));
}

#[test]
fn delete_entity_store_drops_the_table() {
    let mut db = Database::default().unwrap();
    db.store(Foo { id: 0 }).unwrap();
    assert!(db.contains_type(&Foo::type_hash()));
    db.delete_entity_store::<Foo>().unwrap();
    assert!(!db.contains_type(&Foo::type_hash()));
    assert_eq!(db.read_all::<Foo>().unwrap_err(), DbError::TypeNotFound);
}

#[test]
fn write_all_replaces_the_whole_table() {
    let mut db = Database::default().unwrap();
    db.store(ManualStruct { id: 1, data: String::from("old") })
        .unwrap();
    db.write_all(vec![
        ManualStruct { id: 7, data: String::from("x") },
        ManualStruct { id: 9, data: String::from("y") },
    ])
    .unwrap();
    let rows = db.read_all::<ManualStruct>().unwrap();
    assert_eq!(rows.len(), 2);
    assert_eq!(rows[0].id, 7);
    assert_eq!(rows[1].id, 9);
    let next = db
        .store(ManualStruct { id: 11, data: String::from("z") })
        .unwrap();
    assert_eq!(next.id, 11);
}

#[test]
fn raw_read_on_missing_file_is_an_io_error() {
    let db = Database::default().unwrap();
    let err = match db.raw_read_all::<Foo>() {
        Ok(_) => panic!("reading a missing table file must fail"),
        Err(e) => e,
    };
    assert!(matches!(err, DbError::IoError(_)));
}

#[test]
fn garbage_blob_is_a_load_error() {
    let mut db = Database::default().unwrap();
    db.load_table(MyStruct::type_hash(), vec![1, 2, 3]);
    assert_eq!(db.read_all::<MyStruct>().unwrap_err(), DbError::LoadError);
}

#[test]
fn version_mismatch_fails_closed() {
    fn frame(mut inner: Vec<u8>) -> Vec<u8> {
        let mut out = (inner.len() as u32).to_be_bytes().to_vec();
        out.append(&mut inner);
        out
    }
    let mut inner = frame(b"9.9.9".to_vec());
    inner.append(&mut frame(0u32.to_be_bytes().to_vec()));
    inner.append(&mut frame(vec![]));
    let blob = frame(inner);
    let mut db = Database::default().unwrap();
    db.load_table(MyStruct::type_hash(), blob);
    assert_eq!(
        db.read_all::<MyStruct>().unwrap_err(),
        DbError::InvalidFileVersion
    );
}

#[test]
fn table_bytes_round_trip_through_load() {
    let mut db = Database::default().unwrap();
    let stored = db
        .store(MyStruct { id: 0, data: String::from("persist me") })
        .unwrap();
    let hash = MyStruct::type_hash();
    let blob = db.table_bytes(&hash).expect("registered").clone();
    let mut other = Database::default().unwrap();
    other.load_table(hash, blob);
    assert_eq!(
        other.find_by_id::<MyStruct>(stored.id).unwrap(),
        Some(stored)
    );
}

#[test]
fn file_names_use_the_fingerprint_code() {
    let db = Database::default().unwrap();
    let hash = MyStruct::type_hash();
    let name = db.type_hash_file_path(&hash);
    assert_eq!(name, format!("sdb/{}.sdb", hash.encode()));
}
