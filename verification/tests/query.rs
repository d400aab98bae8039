//! The query layer end to end: read-only snapshots, the typed expression
//! tree, and the mutable filter/map/save pipeline.

use somedb::db::Database;
use somedb::gen_query::{BinOp, GenExpr, Value, ValueKind};
use somedb::query::DbIterator;
use somedb::sample::{MyStruct, MyStructExprBase};

#[test]
fn read_only_query_yields_the_snapshot_in_order() {
    let mut db = Database::default().unwrap();
    let a = db.store(MyStruct { id: 0, data: String::from("a") }).unwrap();
    let b = db.store(MyStruct { id: 0, data: String::from("b") }).unwrap();
    let mut q = db.query::<MyStruct>().unwrap();
    assert_eq!(q.next(), Some(a));
    assert_eq!(q.next(), Some(b));
    assert_eq!(q.next(), None);
    assert_eq!(q.next(), None);
}

#[test]
fn expression_tree_checks_operand_kinds() {
    let one = GenExpr::lit(Value::U32(1));
    let two = GenExpr::lit(Value::U32(2));
    let yes = GenExpr::lit(Value::Bool(true));
    let txt = GenExpr::lit(Value::Str(String::from("t")));
    assert!(one.kind() == Some(ValueKind::U32));
    assert!(GenExpr::lit(Value::U32(1)).eq(two).is_some());
    assert!(GenExpr::lit(Value::U32(1)).eq(yes).is_none());
    assert!(GenExpr::lit(Value::Bool(false)).lor(GenExpr::lit(Value::Bool(true))).is_some());
    assert!(txt.land(GenExpr::lit(Value::Bool(true))).is_none());
    assert!(GenExpr::lit(Value::U32(1)).add(GenExpr::lit(Value::Str(String::from("x")))).is_none());
}

#[test]
fn expression_tree_evaluates_against_a_row() {
    let mut db = Database::default().unwrap();
    let stored = db
        .store(MyStruct { id: 0, data: String::from("needle") })
        .unwrap();
    let base = MyStructExprBase;
    let hit = base
        .data()
        .eq(GenExpr::lit(Value::Str(String::from("needle"))))
        .unwrap();
    assert_eq!(
        hit.exec::<MyStruct>(&db, stored.id),
        Some(Value::Bool(true))
    );
    let miss = base
        .data()
        .eq(GenExpr::lit(Value::Str(String::from("other"))))
        .unwrap();
    assert_eq!(
        miss.exec::<MyStruct>(&db, stored.id),
        Some(Value::Bool(false))
    );
    let absent_row = hit.exec::<MyStruct>(&db, stored.id + 1);
    assert_eq!(absent_row, None);
}

#[test]
fn arithmetic_operators_wrap_and_guard() {
    let sum = GenExpr::lit(Value::U32(u32::MAX))
        .add(GenExpr::lit(Value::U32(1)))
        .unwrap();
    let db = Database::default().unwrap();
    assert_eq!(sum.exec::<MyStruct>(&db, 0), Some(Value::U32(0)));
    let div = GenExpr::lit(Value::U32(8))
        .div(GenExpr::lit(Value::U32(0)))
        .unwrap();
    assert_eq!(div.exec::<MyStruct>(&db, 0), None);
    let shifted = GenExpr::lit(Value::U32(1))
        .shl(GenExpr::lit(Value::U32(4)))
        .unwrap();
    assert_eq!(shifted.exec::<MyStruct>(&db, 0), Some(Value::U32(16)));
    let cmp = GenExpr::lit(Value::U32(3))
        .bin(BinOp::Lt, GenExpr::lit(Value::U32(5)))
        .unwrap();
    assert_eq!(cmp.exec::<MyStruct>(&db, 0), Some(Value::Bool(true)));
}

#[test]
fn filter_map_save_rewrites_the_table() {
    let mut db = Database::default().unwrap();
    let entity = MyStruct { id: 0, data: String::from("Hello, World!") };
    let first = db.store(entity.clone()).unwrap();
    let second = db.store(entity.clone()).unwrap();
    let third = db.store(entity.clone()).unwrap();

    let pipeline = db
        .query_mut::<MyStruct>()
        .unwrap()
        .filter(|e: &MyStructExprBase| {
            e.id().neq(GenExpr::lit(Value::U32(second.id))).unwrap()
        })
        .map(&db, |mut e: MyStruct| {
            e.data.push('a');
            e
        });
    pipeline.save_to_db(&mut db).unwrap();

    let rows = db.read_all::<MyStruct>().unwrap();
    assert_eq!(rows.len(), 2);
    assert_eq!(rows[0].id, first.id);
    assert_eq!(rows[0].data, "Hello, World!a");
    assert_eq!(rows[1].id, third.id);
    assert_eq!(rows[1].data, "Hello, World!a");
    assert_eq!(db.find_by_id::<MyStruct>(second.id).unwrap(), None);

    let fourth = db.store(entity.clone()).unwrap();
    assert!(fourth.id > third.id);
}

#[test]
fn collect_vec_drains_in_order() {
    let mut db = Database::default().unwrap();
    let a = db.store(MyStruct { id: 0, data: String::from("a") }).unwrap();
    let b = db.store(MyStruct { id: 0, data: String::from("b") }).unwrap();
    let rows = db.query_mut::<MyStruct>().unwrap().collect_vec(&db);
    assert_eq!(rows, vec![a, b]);
}

#[test]
fn filter_expr_keeps_only_matching_rows() {
    let mut db = Database::default().unwrap();
    let a = db.store(MyStruct { id: 0, data: String::from("keep") }).unwrap();
    db.store(MyStruct { id: 0, data: String::from("drop") }).unwrap();
    let c = db.store(MyStruct { id: 0, data: String::from("keep") }).unwrap();
    let base = MyStructExprBase;
    let expr = base
        .data()
        .eq(GenExpr::lit(Value::Str(String::from("keep"))))
        .unwrap();
    let rows = db
        .query_mut::<MyStruct>()
        .unwrap()
        .filter_expr(expr)
        .collect_vec(&db);
    assert_eq!(rows, vec![a, c]);
}
