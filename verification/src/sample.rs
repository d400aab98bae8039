//! Example record types with their capabilities written out by hand: the
//! codec, identity and field-resolver implementations that the external
//! code-generation facility would emit for these declarations. They double
//! as the record types the test suite stores.

use vstd::prelude::*;

use crate::byte_reader::{frame, take_block, u32_be, ByteReader};
use crate::db::{DbError, DbResult, Database};
use crate::entity::Entity;
use crate::gen_query::{
    AttrExpr, EntityFields, ExprEntity, GenExpr, ResolveAttrExpr, Value, ValueKind, ValueView,
};
use crate::sha::sha1;
use crate::storable::Storable;
use crate::type_hash::{fingerprint_input, TypeHash};
use vstd::string::StringExecFns;
use vstd::utf8::encode_utf8;

verus! {

/// A record with an engine-generated id and one text field.
#[derive(Debug, Clone, PartialEq)]
pub struct MyStruct {
    pub id: u32,
    pub data: String,
}

/// The model of a `MyStruct` row.
pub struct MyStructV {
    pub id: u32,
    pub data: Seq<char>,
}

impl DeepView for MyStruct {
    type V = MyStructV;

    open spec fn deep_view(&self) -> MyStructV {
        MyStructV { id: self.id, data: self.data@ }
    }
}

impl Storable for MyStruct {
    open spec fn spec_hash() -> Seq<u8> {
        sha1(
            fingerprint_input(
                "MyStruct"@,
                seq!["id"@, "data"@],
                seq![<u32 as Storable>::spec_hash(), <String as Storable>::spec_hash()],
            ),
        )
    }

    open spec fn enc(m: MyStructV) -> Seq<u8> {
        frame(u32_be(m.id)) + frame(encode_utf8(m.data))
    }

    open spec fn dec(b: Seq<u8>) -> Option<MyStructV> {
        match take_block(b) {
            None => None,
            Some(p1) => match <u32 as Storable>::dec(p1.0) {
                None => None,
                Some(id) => match take_block(p1.1) {
                    None => None,
                    Some(p2) => match <String as Storable>::dec(p2.0) {
                        None => None,
                        Some(data) => Some(MyStructV { id, data }),
                    },
                },
            },
        }
    }

    open spec fn dec_err(b: Seq<u8>) -> DbError {
        DbError::LoadError
    }

    #[verifier::rlimit(50)]
    proof fn lemma_round_trip(m: MyStructV) {
        let f1 = frame(u32_be(m.id));
        let f2 = frame(encode_utf8(m.data));
        let b = Self::enc(m);
        assert(b =~= f1 + f2);
        crate::byte_reader::lemma_take_block_frame(u32_be(m.id), f2);
        assert(take_block(b) == Some((u32_be(m.id), f2)));
        crate::byte_reader::lemma_u32_be_round(m.id);
        assert(<u32 as Storable>::dec(u32_be(m.id)) == Some(m.id));
        assert(f2 =~= frame(encode_utf8(m.data)) + Seq::<u8>::empty());
        crate::byte_reader::lemma_take_block_frame(encode_utf8(m.data), Seq::<u8>::empty());
        assert(take_block(f2) == Some((encode_utf8(m.data), Seq::<u8>::empty())));
        vstd::utf8::encode_utf8_valid_utf8(m.data);
        vstd::utf8::encode_utf8_decode_utf8(m.data);
        assert(<String as Storable>::dec(encode_utf8(m.data)) == Some(m.data));
    }

    fn type_hash() -> (r: TypeHash) {
        let names: [&str; 2] = ["id", "data"];
        let types: [TypeHash; 2] = [<u32 as Storable>::type_hash(), <String as Storable>::type_hash()];
        let r = TypeHash::new("MyStruct", names.as_slice(), types.as_slice());
        proof {
            assert(names@.map_values(|s: &str| s@) =~= seq!["id"@, "data"@]);
            assert(types@.map_values(|t: TypeHash| t@) =~= seq![
                <u32 as Storable>::spec_hash(),
                <String as Storable>::spec_hash(),
            ]);
        }
        r
    }

    fn inner_encoded(&self) -> (r: Vec<u8>) {
        let mut r = self.id.encoded();
        let mut db = self.data.encoded();
        r.append(&mut db);
        proof {
            assert(r@ =~= Self::enc(self.deep_view()));
        }
        r
    }

    fn decoded(reader: ByteReader<'_>) -> (r: DbResult<Self>) {
        let mut rd = reader;
        let ib = match rd.reader_for_block() {
            Some(b) => b,
            None => {
                return Err(DbError::LoadError);
            },
        };
        let id = match <u32 as Storable>::decoded(ib) {
            Ok(v) => v,
            Err(_) => {
                return Err(DbError::LoadError);
            },
        };
        let sb = match rd.reader_for_block() {
            Some(b) => b,
            None => {
                return Err(DbError::LoadError);
            },
        };
        let data = match <String as Storable>::decoded(sb) {
            Ok(v) => v,
            Err(_) => {
                return Err(DbError::LoadError);
            },
        };
        Ok(MyStruct { id, data })
    }
}

impl Entity for MyStruct {
    type Id = u32;

    type ExprBase = MyStructExprBase;

    open spec fn spec_generate_id() -> bool {
        true
    }

    open spec fn vid(m: MyStructV) -> u32 {
        m.id
    }

    open spec fn with_vid(m: MyStructV, id: u32) -> MyStructV {
        MyStructV { id, data: m.data }
    }

    proof fn lemma_with_vid(m: MyStructV, id: u32) {
    }

    fn generate_id() -> (r: bool) {
        true
    }

    fn get_id(&self) -> (r: u32) {
        self.id
    }

    fn set_id(&mut self, id: u32) {
        self.id = id;
    }

    fn duplicate(&self) -> (r: Self) {
        MyStruct { id: self.id, data: self.data.clone() }
    }
}

impl EntityFields for MyStruct {
    open spec fn field_of(m: MyStructV, field: Seq<char>) -> Option<ValueView> {
        if field == "id"@ {
            Some(ValueView::U32(m.id))
        } else if field == "data"@ {
            Some(ValueView::Str(m.data))
        } else {
            None
        }
    }
}

impl ResolveAttrExpr for MyStruct {
    fn resolve(field_name: &str, row_id: u32, db: &Database) -> (r: Option<Value>) {
        let row = match db.find_by_id::<MyStruct>(row_id) {
            Ok(Some(row)) => row,
            Ok(None) => {
                return None;
            },
            Err(_) => {
                return None;
            },
        };
        proof {
            crate::db::lemma_first_idx::<MyStruct>(
                crate::db::blob_dec::<MyStruct>(db@[<MyStruct as Storable>::spec_hash()]).unwrap().entities,
                row_id,
            );
        }
        let f = String::from_str(field_name);
        if f == String::from_str("id") {
            Some(Value::U32(row.id))
        } else if f == String::from_str("data") {
            Some(Value::Str(row.data))
        } else {
            None
        }
    }
}

/// The capability object a `MyStruct` filter predicate is handed: one typed
/// accessor per field.
pub struct MyStructExprBase;

impl ExprEntity for MyStructExprBase {
    fn new() -> Self {
        MyStructExprBase
    }
}

impl MyStructExprBase {
    /// The `id` field as an expression leaf.
    pub fn id(&self) -> (r: GenExpr)
        ensures
            r matches GenExpr::Attr(a) && a.field_name@ == "id"@ && a.kind == ValueKind::U32,
    {
        GenExpr::Attr(AttrExpr::new("id", ValueKind::U32))
    }

    /// The `data` field as an expression leaf.
    pub fn data(&self) -> (r: GenExpr)
        ensures
            r matches GenExpr::Attr(a) && a.field_name@ == "data"@ && a.kind == ValueKind::Str,
    {
        GenExpr::Attr(AttrExpr::new("data", ValueKind::Str))
    }
}


/// A record with an engine-generated id and no other field.
#[derive(Debug, Clone, PartialEq)]
pub struct Foo {
    pub id: u32,
}

/// The model of a `Foo` row.
pub struct FooV {
    pub id: u32,
}

impl DeepView for Foo {
    type V = FooV;

    open spec fn deep_view(&self) -> FooV {
        FooV { id: self.id }
    }
}

impl Storable for Foo {
    open spec fn spec_hash() -> Seq<u8> {
        sha1(fingerprint_input("Foo"@, seq!["id"@], seq![<u32 as Storable>::spec_hash()]))
    }

    open spec fn enc(m: FooV) -> Seq<u8> {
        frame(u32_be(m.id))
    }

    open spec fn dec(b: Seq<u8>) -> Option<FooV> {
        match take_block(b) {
            None => None,
            Some(p1) => match <u32 as Storable>::dec(p1.0) {
                None => None,
                Some(id) => Some(FooV { id }),
            },
        }
    }

    open spec fn dec_err(b: Seq<u8>) -> DbError {
        DbError::LoadError
    }

    #[verifier::rlimit(50)]
    proof fn lemma_round_trip(m: FooV) {
        let b = Self::enc(m);
        assert(b =~= frame(u32_be(m.id)) + Seq::<u8>::empty());
        crate::byte_reader::lemma_take_block_frame(u32_be(m.id), Seq::<u8>::empty());
        crate::byte_reader::lemma_u32_be_round(m.id);
        assert(<u32 as Storable>::dec(u32_be(m.id)) == Some(m.id));
    }

    fn type_hash() -> (r: TypeHash) {
        let names: [&str; 1] = ["id"];
        let types: [TypeHash; 1] = [<u32 as Storable>::type_hash()];
        let r = TypeHash::new("Foo", names.as_slice(), types.as_slice());
        proof {
            assert(names@.map_values(|s: &str| s@) =~= seq!["id"@]);
            assert(types@.map_values(|t: TypeHash| t@) =~= seq![<u32 as Storable>::spec_hash()]);
        }
        r
    }

    fn inner_encoded(&self) -> (r: Vec<u8>) {
        let r = self.id.encoded();
        proof {
            assert(r@ =~= Self::enc(self.deep_view()));
        }
        r
    }

    fn decoded(reader: ByteReader<'_>) -> (r: DbResult<Self>) {
        let mut rd = reader;
        let ib = match rd.reader_for_block() {
            Some(b) => b,
            None => {
                return Err(DbError::LoadError);
            },
        };
        let id = match <u32 as Storable>::decoded(ib) {
            Ok(v) => v,
            Err(_) => {
                return Err(DbError::LoadError);
            },
        };
        Ok(Foo { id })
    }
}

impl Entity for Foo {
    type Id = u32;

    type ExprBase = FooExprBase;

    open spec fn spec_generate_id() -> bool {
        true
    }

    open spec fn vid(m: FooV) -> u32 {
        m.id
    }

    open spec fn with_vid(m: FooV, id: u32) -> FooV {
        FooV { id }
    }

    proof fn lemma_with_vid(m: FooV, id: u32) {
    }

    fn generate_id() -> (r: bool) {
        true
    }

    fn get_id(&self) -> (r: u32) {
        self.id
    }

    fn set_id(&mut self, id: u32) {
        self.id = id;
    }

    fn duplicate(&self) -> (r: Self) {
        Foo { id: self.id }
    }
}

impl EntityFields for Foo {
    open spec fn field_of(m: FooV, field: Seq<char>) -> Option<ValueView> {
        if field == "id"@ {
            Some(ValueView::U32(m.id))
        } else {
            None
        }
    }
}

impl ResolveAttrExpr for Foo {
    fn resolve(field_name: &str, row_id: u32, db: &Database) -> (r: Option<Value>) {
        let row = match db.find_by_id::<Foo>(row_id) {
            Ok(Some(row)) => row,
            Ok(None) => {
                return None;
            },
            Err(_) => {
                return None;
            },
        };
        proof {
            crate::db::lemma_first_idx::<Foo>(
                crate::db::blob_dec::<Foo>(db@[<Foo as Storable>::spec_hash()]).unwrap().entities,
                row_id,
            );
        }
        let f = String::from_str(field_name);
        if f == String::from_str("id") {
            Some(Value::U32(row.id))
        } else {
            None
        }
    }
}

/// The capability object a `Foo` filter predicate is handed.
pub struct FooExprBase;

impl ExprEntity for FooExprBase {
    fn new() -> Self {
        FooExprBase
    }
}

impl FooExprBase {
    /// The `id` field as an expression leaf.
    pub fn id(&self) -> (r: GenExpr)
        ensures
            r matches GenExpr::Attr(a) && a.field_name@ == "id"@ && a.kind == ValueKind::U32,
    {
        GenExpr::Attr(AttrExpr::new("id", ValueKind::U32))
    }
}

/// A record with caller-supplied ids and one text field: storing a
/// duplicate id is refused.
#[derive(Debug, Clone, PartialEq)]
pub struct ManualStruct {
    pub id: u32,
    pub data: String,
}

/// The model of a `ManualStruct` row.
pub struct ManualStructV {
    pub id: u32,
    pub data: Seq<char>,
}

impl DeepView for ManualStruct {
    type V = ManualStructV;

    open spec fn deep_view(&self) -> ManualStructV {
        ManualStructV { id: self.id, data: self.data@ }
    }
}

impl Storable for ManualStruct {
    open spec fn spec_hash() -> Seq<u8> {
        sha1(
            fingerprint_input(
                "ManualStruct"@,
                seq!["id"@, "data"@],
                seq![<u32 as Storable>::spec_hash(), <String as Storable>::spec_hash()],
            ),
        )
    }

    open spec fn enc(m: ManualStructV) -> Seq<u8> {
        frame(u32_be(m.id)) + frame(encode_utf8(m.data))
    }

    open spec fn dec(b: Seq<u8>) -> Option<ManualStructV> {
        match take_block(b) {
            None => None,
            Some(p1) => match <u32 as Storable>::dec(p1.0) {
                None => None,
                Some(id) => match take_block(p1.1) {
                    None => None,
                    Some(p2) => match <String as Storable>::dec(p2.0) {
                        None => None,
                        Some(data) => Some(ManualStructV { id, data }),
                    },
                },
            },
        }
    }

    open spec fn dec_err(b: Seq<u8>) -> DbError {
        DbError::LoadError
    }

    #[verifier::rlimit(50)]
    proof fn lemma_round_trip(m: ManualStructV) {
        let f1 = frame(u32_be(m.id));
        let f2 = frame(encode_utf8(m.data));
        let b = Self::enc(m);
        assert(b =~= f1 + f2);
        crate::byte_reader::lemma_take_block_frame(u32_be(m.id), f2);
        assert(take_block(b) == Some((u32_be(m.id), f2)));
        crate::byte_reader::lemma_u32_be_round(m.id);
        assert(<u32 as Storable>::dec(u32_be(m.id)) == Some(m.id));
        assert(f2 =~= frame(encode_utf8(m.data)) + Seq::<u8>::empty());
        crate::byte_reader::lemma_take_block_frame(encode_utf8(m.data), Seq::<u8>::empty());
        assert(take_block(f2) == Some((encode_utf8(m.data), Seq::<u8>::empty())));
        vstd::utf8::encode_utf8_valid_utf8(m.data);
        vstd::utf8::encode_utf8_decode_utf8(m.data);
        assert(<String as Storable>::dec(encode_utf8(m.data)) == Some(m.data));
    }

    fn type_hash() -> (r: TypeHash) {
        let names: [&str; 2] = ["id", "data"];
        let types: [TypeHash; 2] = [<u32 as Storable>::type_hash(), <String as Storable>::type_hash()];
        let r = TypeHash::new("ManualStruct", names.as_slice(), types.as_slice());
        proof {
            assert(names@.map_values(|s: &str| s@) =~= seq!["id"@, "data"@]);
            assert(types@.map_values(|t: TypeHash| t@) =~= seq![
                <u32 as Storable>::spec_hash(),
                <String as Storable>::spec_hash(),
            ]);
        }
        r
    }

    fn inner_encoded(&self) -> (r: Vec<u8>) {
        let mut r = self.id.encoded();
        let mut db = self.data.encoded();
        r.append(&mut db);
        proof {
            assert(r@ =~= Self::enc(self.deep_view()));
        }
        r
    }

    fn decoded(reader: ByteReader<'_>) -> (r: DbResult<Self>) {
        let mut rd = reader;
        let ib = match rd.reader_for_block() {
            Some(b) => b,
            None => {
                return Err(DbError::LoadError);
            },
        };
        let id = match <u32 as Storable>::decoded(ib) {
            Ok(v) => v,
            Err(_) => {
                return Err(DbError::LoadError);
            },
        };
        let sb = match rd.reader_for_block() {
            Some(b) => b,
            None => {
                return Err(DbError::LoadError);
            },
        };
        let data = match <String as Storable>::decoded(sb) {
            Ok(v) => v,
            Err(_) => {
                return Err(DbError::LoadError);
            },
        };
        Ok(ManualStruct { id, data })
    }
}

impl Entity for ManualStruct {
    type Id = u32;

    type ExprBase = ManualStructExprBase;

    open spec fn spec_generate_id() -> bool {
        false
    }

    open spec fn vid(m: ManualStructV) -> u32 {
        m.id
    }

    open spec fn with_vid(m: ManualStructV, id: u32) -> ManualStructV {
        ManualStructV { id, data: m.data }
    }

    proof fn lemma_with_vid(m: ManualStructV, id: u32) {
    }

    fn generate_id() -> (r: bool) {
        false
    }

    fn get_id(&self) -> (r: u32) {
        self.id
    }

    fn set_id(&mut self, id: u32) {
        self.id = id;
    }

    fn duplicate(&self) -> (r: Self) {
        ManualStruct { id: self.id, data: self.data.clone() }
    }
}

impl EntityFields for ManualStruct {
    open spec fn field_of(m: ManualStructV, field: Seq<char>) -> Option<ValueView> {
        if field == "id"@ {
            Some(ValueView::U32(m.id))
        } else if field == "data"@ {
            Some(ValueView::Str(m.data))
        } else {
            None
        }
    }
}

impl ResolveAttrExpr for ManualStruct {
    fn resolve(field_name: &str, row_id: u32, db: &Database) -> (r: Option<Value>) {
        let row = match db.find_by_id::<ManualStruct>(row_id) {
            Ok(Some(row)) => row,
            Ok(None) => {
                return None;
            },
            Err(_) => {
                return None;
            },
        };
        proof {
            crate::db::lemma_first_idx::<ManualStruct>(
                crate::db::blob_dec::<ManualStruct>(db@[<ManualStruct as Storable>::spec_hash()]).unwrap().entities,
                row_id,
            );
        }
        let f = String::from_str(field_name);
        if f == String::from_str("id") {
            Some(Value::U32(row.id))
        } else if f == String::from_str("data") {
            Some(Value::Str(row.data))
        } else {
            None
        }
    }
}

/// The capability object a `ManualStruct` filter predicate is handed: one typed
/// accessor per field.
pub struct ManualStructExprBase;

impl ExprEntity for ManualStructExprBase {
    fn new() -> Self {
        ManualStructExprBase
    }
}

impl ManualStructExprBase {
    /// The `id` field as an expression leaf.
    pub fn id(&self) -> (r: GenExpr)
        ensures
            r matches GenExpr::Attr(a) && a.field_name@ == "id"@ && a.kind == ValueKind::U32,
    {
        GenExpr::Attr(AttrExpr::new("id", ValueKind::U32))
    }

    /// The `data` field as an expression leaf.
    pub fn data(&self) -> (r: GenExpr)
        ensures
            r matches GenExpr::Attr(a) && a.field_name@ == "data"@ && a.kind == ValueKind::Str,
    {
        GenExpr::Attr(AttrExpr::new("data", ValueKind::Str))
    }
}

} // verus!
