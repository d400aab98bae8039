//! The database: a registry of typed tables keyed by schema fingerprint,
//! with whole-table create/read/update/delete operations built on the codec.
//!
//! The database models its backing directory in memory: one whole-table blob
//! per registered type, keyed by the type's fingerprint bytes. Its abstract
//! state is the map from fingerprint bytes to blob bytes; every operation
//! says exactly how it reads or rewrites that map. A file-backed front end
//! loads a blob from disk into this map before an operation and writes it
//! back out after, under the lock protocol's markers.

use vstd::prelude::*;

use crate::byte_reader::{frame, take_block, ByteReader};
use crate::entity::Entity;
use crate::entity_meta::{EntityMeta, MetaView};
use crate::id::IdType;
use crate::storable::Storable;
use crate::type_hash::{encode_hash, TypeHash};
use vstd::string::{StrSliceExecFns, StringExecFns};

verus! {

/// The outcome of a database operation.
pub type DbResult<T> = Result<T, DbError>;

/// Every recoverable failure a database operation can report.
#[derive(Debug, Clone)]
pub enum DbError {
    /// A caller-supplied id is already taken by a stored row.
    IdExists,
    /// The entity type was never stored and is not registered.
    TypeNotFound,
    /// No stored row carries the id an update named.
    IdNotFound,
    /// A filesystem failure, with its message.
    IoError(String),
    /// A table block is no well-formed encoding.
    LoadError,
    /// A table was written by another version of the engine.
    InvalidFileVersion,
}

impl PartialEq for DbError {
    /// Two errors are the same failure; an `IoError` never equals anything,
    /// its message being incidental.
    fn eq(&self, other: &Self) -> (r: bool) {
        match self {
            Self::IdExists => matches!(other, Self::IdExists),
            Self::TypeNotFound => matches!(other, Self::TypeNotFound),
            Self::IdNotFound => matches!(other, Self::IdNotFound),
            Self::IoError(_) => false,
            Self::LoadError => matches!(other, Self::LoadError),
            Self::InvalidFileVersion => matches!(other, Self::InvalidFileVersion),
        }
    }
}

impl vstd::std_specs::cmp::PartialEqSpecImpl for DbError {
    open spec fn obeys_eq_spec() -> bool {
        true
    }

    open spec fn eq_spec(&self, other: &Self) -> bool {
        match self {
            Self::IdExists => other is IdExists,
            Self::TypeNotFound => other is TypeNotFound,
            Self::IdNotFound => other is IdNotFound,
            Self::IoError(_) => false,
            Self::LoadError => other is LoadError,
            Self::InvalidFileVersion => other is InvalidFileVersion,
        }
    }
}

/// Whether some table in the registry is keyed by these fingerprint bytes.
pub open spec fn has_key(s: Seq<(TypeHash, Vec<u8>)>, h: Seq<u8>) -> bool {
    exists|i: int| 0 <= i < s.len() && s[i].0@ == h
}

/// The blob of the table keyed by these fingerprint bytes.
pub open spec fn blob_at(s: Seq<(TypeHash, Vec<u8>)>, h: Seq<u8>) -> Seq<u8> {
    s[choose|i: int| 0 <= i < s.len() && s[i].0@ == h].1@
}

/// The decoded table model carried by one whole-table blob: the outer frame
/// peeled, the table container decoded from it.
pub open spec fn blob_dec<T: Entity>(blob: Seq<u8>) -> Option<
    MetaView<T::Id, <T as DeepView>::V>,
> {
    match take_block(blob) {
        None => None,
        Some(p) => <EntityMeta<T> as Storable>::dec(p.0),
    }
}

/// The error reported for a whole-table blob that does not decode.
pub open spec fn blob_dec_err<T: Entity>(blob: Seq<u8>) -> DbError {
    match take_block(blob) {
        None => DbError::LoadError,
        Some(p) => <EntityMeta<T> as Storable>::dec_err(p.0),
    }
}

/// The table model of a freshly created table: the initial id, no rows.
pub open spec fn empty_meta<T: Entity>() -> MetaView<T::Id, <T as DeepView>::V> {
    MetaView { last_id: <T::Id as IdType>::first(), entities: Seq::<<T as DeepView>::V>::empty() }
}

/// A database instance: the registry of typed tables, each held as one
/// whole-table blob, keyed by its type's schema fingerprint, plus the name
/// of the directory the tables belong to.
pub struct Database {
    db_dir: String,
    tables: Vec<(TypeHash, Vec<u8>)>,
}

impl View for Database {
    type V = Map<Seq<u8>, Seq<u8>>;

    /// The abstract state: fingerprint bytes to whole-table blob bytes.
    closed spec fn view(&self) -> Map<Seq<u8>, Seq<u8>> {
        Map::new(|h: Seq<u8>| has_key(self.tables@, h), |h: Seq<u8>| blob_at(self.tables@, h))
    }
}

impl Database {
    /// No two registry entries share a fingerprint.
    #[verifier::type_invariant]
    spec fn wf(&self) -> bool {
        forall|i: int, j: int|
            0 <= i < j < self.tables@.len() ==> self.tables@[i].0@ != self.tables@[j].0@
    }

    /// The directory this database stands for.
    pub closed spec fn spec_dir(&self) -> Seq<char> {
        self.db_dir@
    }

    /// A database over the default directory, with no types registered.
    pub fn default() -> (r: DbResult<Database>)
        ensures
            match r {
                Ok(db) => db@ == Map::<Seq<u8>, Seq<u8>>::empty() && db.spec_dir() == "sdb/"@,
                Err(e) => false,
            },
    {
        Ok(Self::with_dir(String::from_str("sdb/")))
    }

    /// A database over the named directory, with no types registered.
    pub fn with_dir(db_dir: String) -> (r: Database)
        ensures
            r@ == Map::<Seq<u8>, Seq<u8>>::empty(),
            r.spec_dir() == db_dir@,
    {
        let r = Database { db_dir, tables: Vec::new() };
        proof {
            assert(r@ =~= Map::<Seq<u8>, Seq<u8>>::empty());
        }
        r
    }

    /// The index of the registry entry keyed by this fingerprint.
    fn find_table(&self, hash: &TypeHash) -> (r: Option<usize>)
        ensures
            match r {
                Some(i) => self@.contains_key(hash@) && i < self.tables@.len()
                    && self.tables@[i as int].0@ == hash@ && self@[hash@] == self.tables@[
                    i as int
                ].1@,
                None => !self@.contains_key(hash@),
            },
    {
        proof {
            use_type_invariant(&*self);
        }
        let mut i: usize = 0;
        while i < self.tables.len()
            invariant
                i <= self.tables@.len(),
                forall|k: int| 0 <= k < i ==> self.tables@[k].0@ != hash@,
            decreases self.tables@.len() - i,
        {
            if self.tables[i].0.matches(hash) {
                proof {
                    use_type_invariant(&*self);
                    lemma_blob_lookup(self.tables@, i as int, hash@);
                }
                return Some(i);
            }
            i += 1;
        }
        None
    }

    /// Whether a type with this fingerprint is registered.
    pub fn contains_type(&self, hash: &TypeHash) -> (r: bool)
        ensures
            r == self@.contains_key(hash@),
    {
        self.find_table(hash).is_some()
    }

    /// Hand a whole-table blob to the registry, creating or replacing the
    /// entry for this fingerprint. The file-backed front end loads each
    /// table file through this before an operation on its type.
    pub fn load_table(&mut self, hash: TypeHash, blob: Vec<u8>)
        ensures
            final(self)@ == old(self)@.insert(hash@, blob@),
            final(self).spec_dir() == old(self).spec_dir(),
    {
        proof {
            use_type_invariant(&*self);
        }
        let idx = self.find_table(&hash);
        let ghost s0 = self.tables@;
        let mut tabs: Vec<(TypeHash, Vec<u8>)> = Vec::new();
        core::mem::swap(&mut tabs, &mut self.tables);
        match idx {
            Some(i) => {
                tabs[i] = (hash, blob);
                core::mem::swap(&mut tabs, &mut self.tables);
                proof {
                    lemma_model_update(s0, self.tables@, i as int, hash@, blob@);
                    assert(self@ =~= old(self)@.insert(hash@, blob@));
                }
            },
            None => {
                tabs.push((hash, blob));
                core::mem::swap(&mut tabs, &mut self.tables);
                proof {
                    lemma_model_push(s0, self.tables@, hash@, blob@);
                    assert(self@ =~= old(self)@.insert(hash@, blob@));
                }
            },
        }
    }

    /// The whole-table blob registered for this fingerprint. The file-backed
    /// front end writes this back to the table's file after an operation.
    pub fn table_bytes(&self, hash: &TypeHash) -> (r: Option<&Vec<u8>>)
        ensures
            match r {
                Some(b) => self@.contains_key(hash@) && b@ == self@[hash@],
                None => !self@.contains_key(hash@),
            },
    {
        match self.find_table(hash) {
            Some(i) => Some(&self.tables[i].1),
            None => None,
        }
    }

    /// The table container of type `T`, decoded from its registered blob.
    /// The table must have been loaded: an unregistered type reads as a
    /// missing file.
    pub fn raw_read_all<T: Entity>(&self) -> (r: DbResult<EntityMeta<T>>)
        ensures
            match r {
                Ok(meta) => self@.contains_key(T::spec_hash()) && blob_dec::<T>(
                    self@[T::spec_hash()],
                ) == Some(meta.deep_view()),
                Err(e) => if self@.contains_key(T::spec_hash()) {
                    blob_dec::<T>(self@[T::spec_hash()]) is None && e == blob_dec_err::<T>(
                        self@[T::spec_hash()],
                    )
                } else {
                    e is IoError
                },
            },
    {
        let hash = T::type_hash();
        let i = match self.find_table(&hash) {
            Some(i) => i,
            None => {
                return Err(DbError::IoError(String::from_str("no table file for this type")));
            },
        };
        let mut rd = ByteReader::new(self.tables[i].1.as_slice());
        match rd.reader_for_block() {
            Some(block) => <EntityMeta<T> as Storable>::decoded(block),
            None => Err(DbError::LoadError),
        }
    }

    /// Replace type `T`'s whole table with this container, encoded and
    /// framed. The table must have been loaded: writing an unregistered
    /// type fails as a missing file does; a container whose encoding
    /// overflows its length frame is refused.
    pub fn raw_write_all<T: Entity>(&mut self, raw: EntityMeta<T>) -> (r: DbResult<()>)
        ensures
            final(self).spec_dir() == old(self).spec_dir(),
            match r {
                Ok(()) => old(self)@.contains_key(T::spec_hash())
                    && <EntityMeta<T> as Storable>::enc(raw.deep_view()).len() <= u32::MAX
                    && final(self)@ == old(self)@.insert(
                    T::spec_hash(),
                    frame(<EntityMeta<T> as Storable>::enc(raw.deep_view())),
                ),
                Err(e) => final(self)@ == old(self)@ && e is IoError
                    && (!old(self)@.contains_key(T::spec_hash())
                    || <EntityMeta<T> as Storable>::enc(raw.deep_view()).len() > u32::MAX),
            },
    {
        let hash = T::type_hash();
        if self.find_table(&hash).is_none() {
            return Err(DbError::IoError(String::from_str("no table file for this type")));
        }
        let inner = raw.inner_encoded();
        if (inner.len() as u64) > (u32::MAX as u64) {
            return Err(DbError::IoError(String::from_str("table too large to frame")));
        }
        let blob = frame_vec(inner);
        self.load_table(hash, blob);
        Ok(())
    }

    /// Drop type `T`'s table from the registry altogether: the irreversible
    /// schema drop. The front end deletes the table's file.
    pub fn delete_entity_store<T: Entity>(&mut self) -> (r: DbResult<()>)
        ensures
            final(self).spec_dir() == old(self).spec_dir(),
            match r {
                Ok(()) => old(self)@.contains_key(T::spec_hash())
                    && final(self)@ == old(self)@.remove(T::spec_hash()),
                Err(e) => e == DbError::TypeNotFound && !old(self)@.contains_key(T::spec_hash())
                    && final(self)@ == old(self)@,
            },
    {
        proof {
            use_type_invariant(&*self);
        }
        let hash = T::type_hash();
        let i = match self.find_table(&hash) {
            Some(i) => i,
            None => {
                return Err(DbError::TypeNotFound);
            },
        };
        let ghost s0 = self.tables@;
        let mut tabs: Vec<(TypeHash, Vec<u8>)> = Vec::new();
        core::mem::swap(&mut tabs, &mut self.tables);
        tabs.remove(i);
        core::mem::swap(&mut tabs, &mut self.tables);
        proof {
            lemma_model_remove(s0, self.tables@, i as int, hash@);
            assert(final(self)@ =~= old(self)@.remove(hash@));
        }
        Ok(())
    }

    /// Store one entity. The type's table is created on first store; with
    /// generated ids the entity's id is overwritten by the id after the
    /// table's last, with manual ids a duplicate is refused; the row is
    /// appended, the last id updated, and the whole table rewritten. The
    /// entity as stored, id included, is returned.
    pub fn store<T: Entity>(&mut self, data: T) -> (r: DbResult<T>)
        ensures
            final(self).spec_dir() == old(self).spec_dir(),
            (pre_table::<T>(old(self)@) matches Some(p) && (T::spec_generate_id()
                ==> p.last_id.can_advance()) && (!T::spec_generate_id() ==> !has_id::<T>(
                p.entities,
                T::vid(data.deep_view()),
            )) && <EntityMeta<T> as Storable>::enc(
                stored_table::<T>(p, stored_row::<T>(p, data.deep_view())),
            ).len() <= u32::MAX) ==> r is Ok,
            match r {
                Ok(stored) => {
                    &&& pre_table::<T>(old(self)@) matches Some(p)
                    &&& (!T::spec_generate_id() ==> stored.deep_view() == data.deep_view()
                        && !has_id::<T>(p.entities, T::vid(data.deep_view())))
                    &&& (T::spec_generate_id() ==> stored.deep_view() == T::with_vid(
                        data.deep_view(),
                        T::vid(stored.deep_view()),
                    ))
                    &&& (T::spec_generate_id() && p.last_id.can_advance() ==> T::vid(
                        stored.deep_view(),
                    ) == p.last_id.next())
                    &&& <EntityMeta<T> as Storable>::enc(
                        stored_table::<T>(p, stored.deep_view()),
                    ).len() <= u32::MAX
                    &&& final(self)@ == old(self)@.insert(
                        T::spec_hash(),
                        frame(
                            <EntityMeta<T> as Storable>::enc(
                                stored_table::<T>(p, stored.deep_view()),
                            ),
                        ),
                    )
                },
                Err(e) => {
                    &&& final(self)@ == old(self)@
                    &&& if old(self)@.contains_key(T::spec_hash()) && blob_dec::<T>(
                        old(self)@[T::spec_hash()],
                    ) is None {
                        e == blob_dec_err::<T>(old(self)@[T::spec_hash()])
                    } else if !T::spec_generate_id() && (pre_table::<T>(old(self)@) matches Some(p)
                        && has_id::<T>(p.entities, T::vid(data.deep_view()))) {
                        e == DbError::IdExists
                    } else {
                        e is IoError
                    }
                },
            },
    {
        let hash = T::type_hash();
        let mut existing: EntityMeta<T> = if self.contains_type(&hash) {
            match self.raw_read_all::<T>() {
                Ok(m) => m,
                Err(e) => {
                    return Err(e);
                },
            }
        } else {
            EntityMeta { last_id: <T::Id as IdType>::initial(), entities: Vec::new() }
        };
        let ghost p = existing.deep_view();
        proof {
            if !old(self)@.contains_key(T::spec_hash()) {
                assert(p.entities =~= empty_meta::<T>().entities);
            }
            assert(pre_table::<T>(old(self)@) == Some(p));
        }
        let ghost d0 = data.deep_view();
        let mut data = data;
        if T::generate_id() {
            let nid = <T::Id as IdType>::generate(existing.last_id);
            data.set_id(nid);
            proof {
                T::lemma_with_vid(d0, nid);
            }
        } else {
            if find_index_by_id(&existing.entities, data.get_id()).is_some() {
                return Err(DbError::IdExists);
            }
        }
        let ghost sv = data.deep_view();
        let dup = data.duplicate();
        existing.entities.push(dup);
        existing.last_id = data.get_id();
        proof {
            assert(existing.entities.deep_view() =~= p.entities.push(sv));
            assert(existing.deep_view() == stored_table::<T>(p, sv));
        }
        let inner = existing.inner_encoded();
        if (inner.len() as u64) > (u32::MAX as u64) {
            return Err(DbError::IoError(String::from_str("table too large to frame")));
        }
        let blob = frame_vec(inner);
        self.load_table(hash, blob);
        Ok(data)
    }

    /// Replace type `T`'s whole table with these rows: the last id becomes
    /// the final row's id, or the initial id where no rows are given.
    pub fn write_all<T: Entity>(&mut self, entities: Vec<T>) -> (r: DbResult<()>)
        ensures
            final(self).spec_dir() == old(self).spec_dir(),
            match r {
                Ok(()) => <EntityMeta<T> as Storable>::enc(
                    replaced_table::<T>(entities.deep_view()),
                ).len() <= u32::MAX && final(self)@ == old(self)@.insert(
                    T::spec_hash(),
                    frame(
                        <EntityMeta<T> as Storable>::enc(replaced_table::<T>(entities.deep_view())),
                    ),
                ),
                Err(e) => final(self)@ == old(self)@ && e is IoError && <EntityMeta<
                    T,
                > as Storable>::enc(replaced_table::<T>(entities.deep_view())).len() > u32::MAX,
            },
    {
        let last_id = if entities.len() > 0 {
            entities[entities.len() - 1].get_id()
        } else {
            <T::Id as IdType>::initial()
        };
        let meta = EntityMeta { last_id, entities };
        let inner = meta.inner_encoded();
        if (inner.len() as u64) > (u32::MAX as u64) {
            return Err(DbError::IoError(String::from_str("table too large to frame")));
        }
        let blob = frame_vec(inner);
        self.load_table(T::type_hash(), blob);
        Ok(())
    }

    /// All rows of type `T`'s table, in stored order. An unregistered type
    /// is refused.
    pub fn read_all<T: Entity>(&self) -> (r: DbResult<Vec<T>>)
        ensures
            match r {
                Ok(rows) => self@.contains_key(T::spec_hash()) && (blob_dec::<T>(
                    self@[T::spec_hash()],
                ) matches Some(mv) && rows.deep_view() == mv.entities),
                Err(e) => if !self@.contains_key(T::spec_hash()) {
                    e == DbError::TypeNotFound
                } else {
                    blob_dec::<T>(self@[T::spec_hash()]) is None && e == blob_dec_err::<T>(
                        self@[T::spec_hash()],
                    )
                },
            },
    {
        let hash = T::type_hash();
        if !self.contains_type(&hash) {
            return Err(DbError::TypeNotFound);
        }
        match self.raw_read_all::<T>() {
            Ok(m) => Ok(m.entities),
            Err(e) => Err(e),
        }
    }

    /// The ids of all rows of type `T`'s table, in stored order.
    pub fn read_all_ids<T: Entity>(&self) -> (r: DbResult<Vec<T::Id>>)
        ensures
            match r {
                Ok(ids) => self@.contains_key(T::spec_hash()) && (blob_dec::<T>(
                    self@[T::spec_hash()],
                ) matches Some(mv) && ids@.len() == mv.entities.len() && (forall|k: int|
                    0 <= k < mv.entities.len() ==> ids@[k] == T::vid(#[trigger] mv.entities[k]))),
                Err(e) => if !self@.contains_key(T::spec_hash()) {
                    e == DbError::TypeNotFound
                } else {
                    blob_dec::<T>(self@[T::spec_hash()]) is None && e == blob_dec_err::<T>(
                        self@[T::spec_hash()],
                    )
                },
            },
    {
        let rows = match self.read_all::<T>() {
            Ok(rows) => rows,
            Err(e) => {
                return Err(e);
            },
        };
        let mut ids: Vec<T::Id> = Vec::new();
        let mut i: usize = 0;
        while i < rows.len()
            invariant
                i <= rows@.len(),
                rows.deep_view().len() == rows@.len(),
                ids@.len() == i,
                forall|k: int| 0 <= k < i ==> ids@[k] == T::vid(#[trigger] rows.deep_view()[k]),
            decreases rows@.len() - i,
        {
            let id = rows[i].get_id();
            proof {
                assert(rows.deep_view()[i as int] == rows@[i as int].deep_view());
            }
            ids.push(id);
            i += 1;
        }
        Ok(ids)
    }

    /// The first stored row of type `T` carrying this id, or `None` where no
    /// row does.
    pub fn find_by_id<T: Entity>(&self, id: T::Id) -> (r: DbResult<Option<T>>)
        ensures
            match r {
                Ok(opt) => self@.contains_key(T::spec_hash()) && (blob_dec::<T>(
                    self@[T::spec_hash()],
                ) matches Some(mv) && match opt {
                    Some(row) => has_id::<T>(mv.entities, id) && row.deep_view()
                        == mv.entities[first_idx::<T>(mv.entities, id)],
                    None => !has_id::<T>(mv.entities, id),
                }),
                Err(e) => if !self@.contains_key(T::spec_hash()) {
                    e == DbError::TypeNotFound
                } else {
                    blob_dec::<T>(self@[T::spec_hash()]) is None && e == blob_dec_err::<T>(
                        self@[T::spec_hash()],
                    )
                },
            },
    {
        let mut rows = match self.read_all::<T>() {
            Ok(rows) => rows,
            Err(e) => {
                return Err(e);
            },
        };
        match find_index_by_id(&rows, id) {
            Some(i) => {
                proof {
                    lemma_first_idx::<T>(rows.deep_view(), id);
                    assert(rows.deep_view()[i as int] == rows@[i as int].deep_view());
                }
                let row = rows[i].duplicate();
                Ok(Some(row))
            },
            None => Ok(None),
        }
    }

    /// Replace the first stored row whose id matches this entity's id; a
    /// missing id is refused and the table left unchanged.
    pub fn update_entity<T: Entity>(&mut self, entity: T) -> (r: DbResult<()>)
        ensures
            final(self).spec_dir() == old(self).spec_dir(),
            match r {
                Ok(()) => old(self)@.contains_key(T::spec_hash()) && (blob_dec::<T>(
                    old(self)@[T::spec_hash()],
                ) matches Some(mv) && {
                    &&& has_id::<T>(mv.entities, T::vid(entity.deep_view()))
                    &&& <EntityMeta<T> as Storable>::enc(
                        updated_table::<T>(mv, entity.deep_view()),
                    ).len() <= u32::MAX
                    &&& final(self)@ == old(self)@.insert(
                        T::spec_hash(),
                        frame(
                            <EntityMeta<T> as Storable>::enc(
                                updated_table::<T>(mv, entity.deep_view()),
                            ),
                        ),
                    )
                }),
                Err(e) => final(self)@ == old(self)@ && if !old(self)@.contains_key(
                    T::spec_hash(),
                ) {
                    e == DbError::TypeNotFound
                } else if blob_dec::<T>(old(self)@[T::spec_hash()]) is None {
                    e == blob_dec_err::<T>(old(self)@[T::spec_hash()])
                } else if (blob_dec::<T>(old(self)@[T::spec_hash()]) matches Some(mv) && !has_id::<
                    T,
                >(mv.entities, T::vid(entity.deep_view()))) {
                    e == DbError::IdNotFound
                } else {
                    e is IoError && (blob_dec::<T>(old(self)@[T::spec_hash()]) matches Some(mv)
                        && <EntityMeta<T> as Storable>::enc(
                        updated_table::<T>(mv, entity.deep_view()),
                    ).len() > u32::MAX)
                },
            },
    {
        let hash = T::type_hash();
        if !self.contains_type(&hash) {
            return Err(DbError::TypeNotFound);
        }
        let mut raw: EntityMeta<T> = match self.raw_read_all::<T>() {
            Ok(m) => m,
            Err(e) => {
                return Err(e);
            },
        };
        let ghost mv = raw.deep_view();
        let i = match find_index_by_id(&raw.entities, entity.get_id()) {
            Some(i) => i,
            None => {
                return Err(DbError::IdNotFound);
            },
        };
        proof {
            lemma_first_idx::<T>(raw.entities.deep_view(), T::vid(entity.deep_view()));
            assert(raw.entities.deep_view().len() == raw.entities@.len());
        }
        raw.entities[i] = entity;
        proof {
            assert(raw.entities.deep_view() =~= mv.entities.update(
                i as int,
                raw.entities@[i as int].deep_view(),
            ));
        }
        let inner = raw.inner_encoded();
        if (inner.len() as u64) > (u32::MAX as u64) {
            return Err(DbError::IoError(String::from_str("table too large to frame")));
        }
        let blob = frame_vec(inner);
        self.load_table(hash, blob);
        Ok(())
    }

    /// Remove every stored row of type `T` carrying this id. An absent id is
    /// no error: the operation is idempotent.
    pub fn delte_entity_by_id<T: Entity>(&mut self, id: T::Id) -> (r: DbResult<()>)
        ensures
            final(self).spec_dir() == old(self).spec_dir(),
            match r {
                Ok(()) => old(self)@.contains_key(T::spec_hash()) && (blob_dec::<T>(
                    old(self)@[T::spec_hash()],
                ) matches Some(mv) && <EntityMeta<T> as Storable>::enc(
                    deleted_table::<T>(mv, id),
                ).len() <= u32::MAX && final(self)@ == old(self)@.insert(
                    T::spec_hash(),
                    frame(<EntityMeta<T> as Storable>::enc(deleted_table::<T>(mv, id))),
                )),
                Err(e) => final(self)@ == old(self)@ && if !old(self)@.contains_key(
                    T::spec_hash(),
                ) {
                    e == DbError::TypeNotFound
                } else if blob_dec::<T>(old(self)@[T::spec_hash()]) is None {
                    e == blob_dec_err::<T>(old(self)@[T::spec_hash()])
                } else {
                    e is IoError && (blob_dec::<T>(old(self)@[T::spec_hash()]) matches Some(mv)
                        && <EntityMeta<T> as Storable>::enc(deleted_table::<T>(mv, id)).len()
                        > u32::MAX)
                },
            },
    {
        let hash = T::type_hash();
        if !self.contains_type(&hash) {
            return Err(DbError::TypeNotFound);
        }
        let raw: EntityMeta<T> = match self.raw_read_all::<T>() {
            Ok(m) => m,
            Err(e) => {
                return Err(e);
            },
        };
        let ghost mv = raw.deep_view();
        let ghost pred = |m: <T as DeepView>::V| T::vid(m) != id;
        let mut rows = raw.entities;
        let mut kept: Vec<T> = Vec::new();
        let mut i: usize = 0;
        proof {
            assert(mv.entities.take(0).filter(pred) =~= Seq::<<T as DeepView>::V>::empty()) by {
                assert(mv.entities.take(0) =~= Seq::<<T as DeepView>::V>::empty());
                reveal(Seq::filter);
            }
            assert(kept.deep_view() =~= Seq::<<T as DeepView>::V>::empty());
        }
        while i < rows.len()
            invariant
                i <= rows@.len(),
                rows.deep_view() == mv.entities,
                rows.deep_view().len() == rows@.len(),
                kept.deep_view() == mv.entities.take(i as int).filter(pred),
                pred == (|m: <T as DeepView>::V| T::vid(m) != id),
            decreases rows@.len() - i,
        {
            let ghost kept0 = kept.deep_view();
            let row_id = rows[i].get_id();
            proof {
                assert(rows.deep_view()[i as int] == rows@[i as int].deep_view());
            }
            if !<T::Id as IdType>::id_eq(row_id, id) {
                let row = rows[i].duplicate();
                kept.push(row);
                proof {
                    assert(kept.deep_view() =~= kept0.push(mv.entities[i as int]));
                }
            }
            proof {
                reveal(Seq::filter);
                assert(mv.entities.take(i + 1).drop_last() =~= mv.entities.take(i as int));
                assert(mv.entities.take(i + 1).last() == mv.entities[i as int]);
                assert(kept.deep_view() =~= mv.entities.take(i + 1).filter(pred));
            }
            i += 1;
        }
        proof {
            assert(mv.entities.take(mv.entities.len() as int) =~= mv.entities);
        }
        let meta = EntityMeta { last_id: raw.last_id, entities: kept };
        let inner = meta.inner_encoded();
        if (inner.len() as u64) > (u32::MAX as u64) {
            return Err(DbError::IoError(String::from_str("table too large to frame")));
        }
        let blob = frame_vec(inner);
        self.load_table(hash, blob);
        Ok(())
    }

    /// Replace — or create — type `T`'s whole table with this container,
    /// encoded and framed.
    pub(crate) fn write_table<T: Entity>(&mut self, raw: EntityMeta<T>) -> (r: DbResult<()>)
        ensures
            final(self).spec_dir() == old(self).spec_dir(),
            match r {
                Ok(()) => <EntityMeta<T> as Storable>::enc(raw.deep_view()).len() <= u32::MAX
                    && final(self)@ == old(self)@.insert(
                    T::spec_hash(),
                    frame(<EntityMeta<T> as Storable>::enc(raw.deep_view())),
                ),
                Err(e) => final(self)@ == old(self)@ && e is IoError && <EntityMeta<
                    T,
                > as Storable>::enc(raw.deep_view()).len() > u32::MAX,
            },
    {
        let inner = raw.inner_encoded();
        if (inner.len() as u64) > (u32::MAX as u64) {
            return Err(DbError::IoError(String::from_str("table too large to frame")));
        }
        let blob = frame_vec(inner);
        self.load_table(T::type_hash(), blob);
        Ok(())
    }

    /// A read-only query over type `T`'s table: one snapshot, loaded now,
    /// yielding cloned rows in stored order.
    pub fn query<T: Entity>(&self) -> (r: DbResult<crate::query::DbQuery<T>>)
        ensures
            match r {
                Ok(q) => self@.contains_key(T::spec_hash()) && (blob_dec::<T>(
                    self@[T::spec_hash()],
                ) matches Some(mv) && q.rows() == mv.entities && q.at() == 0),
                Err(e) => if self@.contains_key(T::spec_hash()) {
                    blob_dec::<T>(self@[T::spec_hash()]) is None && e == blob_dec_err::<T>(
                        self@[T::spec_hash()],
                    )
                } else {
                    e is IoError
                },
            },
    {
        crate::query::DbQuery::new(self)
    }

    /// A mutable query pipeline over type `T`'s table: one snapshot, loaded
    /// now, whose terminal rewrite replaces the whole table.
    pub fn query_mut<T: crate::gen_query::ResolveAttrExpr>(&mut self) -> (r: DbResult<
        crate::query::DbQueryMut<T>,
    >)
        ensures
            final(self)@ == old(self)@,
            final(self).spec_dir() == old(self).spec_dir(),
            match r {
                Ok(q) => old(self)@.contains_key(T::spec_hash()) && (blob_dec::<T>(
                    old(self)@[T::spec_hash()],
                ) matches Some(mv) && q.snapshot() == mv.entities && q.at() == 0
                    && q.snapshot_last() == mv.last_id),
                Err(e) => if old(self)@.contains_key(T::spec_hash()) {
                    blob_dec::<T>(old(self)@[T::spec_hash()]) is None && e == blob_dec_err::<T>(
                        old(self)@[T::spec_hash()],
                    )
                } else {
                    e is IoError
                },
            },
    {
        crate::query::DbQueryMut::new(self)
    }

    /// The name of the file a type's table is stored in: the fingerprint's
    /// textual code with the table suffix, inside the database directory.
    pub fn type_hash_file_path(&self, type_hash: &TypeHash) -> (r: String)
        ensures
            r@ == self.spec_dir() + encode_hash(type_hash@) + ".sdb"@,
    {
        let mut path = self.db_dir.clone();
        path.append(type_hash.encode().as_str());
        path.append(".sdb");
        path
    }
}

/// Whether some row carries this id.
pub open spec fn has_id<T: Entity>(rows: Seq<<T as DeepView>::V>, id: T::Id) -> bool {
    exists|i: int| 0 <= i < rows.len() && T::vid(#[trigger] rows[i]) == id
}

/// The index of the first row carrying this id.
pub open spec fn first_idx<T: Entity>(rows: Seq<<T as DeepView>::V>, id: T::Id) -> int
    decreases rows.len(),
{
    if rows.len() == 0 {
        0
    } else if T::vid(rows[0]) == id {
        0
    } else {
        1 + first_idx::<T>(rows.skip(1), id)
    }
}

/// Where some row carries the id, the first index is in range, carries it,
/// and no earlier row does.
pub proof fn lemma_first_idx<T: Entity>(rows: Seq<<T as DeepView>::V>, id: T::Id)
    requires
        has_id::<T>(rows, id),
    ensures
        0 <= first_idx::<T>(rows, id) < rows.len(),
        T::vid(rows[first_idx::<T>(rows, id)]) == id,
        forall|k: int| 0 <= k < first_idx::<T>(rows, id) ==> T::vid(#[trigger] rows[k]) != id,
    decreases rows.len(),
{
    if T::vid(rows[0]) == id {
    } else {
        assert(has_id::<T>(rows.skip(1), id)) by {
            let w = choose|i: int| 0 <= i < rows.len() && T::vid(#[trigger] rows[i]) == id;
            assert(rows.skip(1)[w - 1] == rows[w]);
        }
        lemma_first_idx::<T>(rows.skip(1), id);
        let f = first_idx::<T>(rows, id);
        assert(rows[f] == rows.skip(1)[f - 1]);
        assert forall|k: int| 0 <= k < f implies T::vid(#[trigger] rows[k]) != id by {
            if k > 0 {
                assert(rows[k] == rows.skip(1)[k - 1]);
            }
        }
    }
}

/// The row a store lays down for `data` against the prior table `p`: with
/// generated ids, `data` with the next id after the table's last; with
/// manual ids, `data` itself.
pub open spec fn stored_row<T: Entity>(
    p: MetaView<T::Id, <T as DeepView>::V>,
    d: <T as DeepView>::V,
) -> <T as DeepView>::V {
    if T::spec_generate_id() {
        T::with_vid(d, p.last_id.next())
    } else {
        d
    }
}

/// The table after a store: the new row appended, the last id set to the
/// new row's id.
pub open spec fn stored_table<T: Entity>(
    p: MetaView<T::Id, <T as DeepView>::V>,
    s: <T as DeepView>::V,
) -> MetaView<T::Id, <T as DeepView>::V> {
    MetaView { last_id: T::vid(s), entities: p.entities.push(s) }
}

/// The table after an update: the first row carrying the entity's id
/// replaced by the entity, every other row untouched, the last id kept.
pub open spec fn updated_table<T: Entity>(
    mv: MetaView<T::Id, <T as DeepView>::V>,
    e: <T as DeepView>::V,
) -> MetaView<T::Id, <T as DeepView>::V> {
    MetaView {
        last_id: mv.last_id,
        entities: mv.entities.update(first_idx::<T>(mv.entities, T::vid(e)), e),
    }
}

/// The table after a delete: every row carrying the id removed, the order of
/// the rest kept, the last id kept.
pub open spec fn deleted_table<T: Entity>(
    mv: MetaView<T::Id, <T as DeepView>::V>,
    id: T::Id,
) -> MetaView<T::Id, <T as DeepView>::V> {
    MetaView {
        last_id: mv.last_id,
        entities: mv.entities.filter(|m: <T as DeepView>::V| T::vid(m) != id),
    }
}

/// The table a whole-table replacement lays down: exactly the given rows,
/// the last id taken from the final row, or the initial id where there is
/// none.
pub open spec fn replaced_table<T: Entity>(rows: Seq<<T as DeepView>::V>) -> MetaView<
    T::Id,
    <T as DeepView>::V,
> {
    MetaView {
        last_id: if rows.len() > 0 {
            T::vid(rows.last())
        } else {
            <T::Id as IdType>::first()
        },
        entities: rows,
    }
}

/// The table a store starts from: the decoded registered table, or a fresh
/// empty one where the type was never stored.
pub open spec fn pre_table<T: Entity>(m: Map<Seq<u8>, Seq<u8>>) -> Option<
    MetaView<T::Id, <T as DeepView>::V>,
> {
    if m.contains_key(T::spec_hash()) {
        blob_dec::<T>(m[T::spec_hash()])
    } else {
        Some(empty_meta::<T>())
    }
}

/// The first index whose row carries this id, scanning in stored order.
fn find_index_by_id<T: Entity>(rows: &Vec<T>, id: T::Id) -> (r: Option<usize>)
    ensures
        match r {
            Some(i) => has_id::<T>(rows.deep_view(), id) && i == first_idx::<T>(
                rows.deep_view(),
                id,
            ),
            None => !has_id::<T>(rows.deep_view(), id),
        },
{
    let mut i: usize = 0;
    while i < rows.len()
        invariant
            i <= rows@.len(),
            rows.deep_view().len() == rows@.len(),
            forall|k: int| 0 <= k < i ==> T::vid(#[trigger] rows.deep_view()[k]) != id,
        decreases rows@.len() - i,
    {
        if <T::Id as IdType>::id_eq(rows[i].get_id(), id) {
            proof {
                assert(rows.deep_view()[i as int] == rows@[i as int].deep_view());
                assert(has_id::<T>(rows.deep_view(), id));
                lemma_first_idx::<T>(rows.deep_view(), id);
                let f = first_idx::<T>(rows.deep_view(), id);
                assert(f == i as int) by {
                    if f < i {
                        assert(T::vid(rows.deep_view()[f]) != id);
                    }
                    if f > i {
                        assert(T::vid(rows.deep_view()[i as int]) != id);
                    }
                };
            }
            return Some(i);
        }
        i += 1;
    }
    proof {
        if has_id::<T>(rows.deep_view(), id) {
            let w = choose|k: int|
                0 <= k < rows.deep_view().len() && T::vid(#[trigger] rows.deep_view()[k]) == id;
            assert(T::vid(rows.deep_view()[w]) != id);
        }
    }
    None
}

/// Whether a name is a reader marker's: it carries the reader suffix, so it
/// never collides with a writer marker or a table file.
pub open spec fn spec_is_rlock_name(n: Seq<char>) -> bool {
    n.len() >= 6 && n.subrange(n.len() - 6, n.len() as int) == "-rlock"@
}

/// Whether a name is a writer marker's.
pub open spec fn spec_is_wlock_name(n: Seq<char>) -> bool {
    n.len() >= 6 && n.subrange(n.len() - 6, n.len() as int) == ".wlock"@
}

/// Whether a name is a table file's: what the open-time directory scan
/// discovers.
pub open spec fn spec_is_table_name(n: Seq<char>) -> bool {
    n.len() >= 4 && n.subrange(n.len() - 4, n.len() as int) == ".sdb"@
}

/// Lock markers never collide with the table-file discovery pattern: no
/// reader or writer marker's name is a table file's name.
pub proof fn lemma_markers_not_tables(n: Seq<char>)
    ensures
        spec_is_rlock_name(n) ==> !spec_is_table_name(n),
        spec_is_wlock_name(n) ==> !spec_is_table_name(n),
{
    reveal_strlit("-rlock");
    reveal_strlit(".wlock");
    reveal_strlit(".sdb");
    if spec_is_rlock_name(n) && spec_is_table_name(n) {
        assert(n.subrange(n.len() - 6, n.len() as int)[5] == 'k');
        assert(n.subrange(n.len() - 4, n.len() as int)[3] == 'b');
        assert(n[n.len() - 1] == 'k' && n[n.len() - 1] == 'b');
    }
    if spec_is_wlock_name(n) && spec_is_table_name(n) {
        assert(n.subrange(n.len() - 6, n.len() as int)[5] == 'k');
        assert(n.subrange(n.len() - 4, n.len() as int)[3] == 'b');
        assert(n[n.len() - 1] == 'k' && n[n.len() - 1] == 'b');
    }
}

/// The reader marker's name for a table file stem and a holder identifier:
/// unique per holder, so each reader deletes only its own marker.
pub fn rlock_file(stem: &str, guid: &str) -> (r: String)
    ensures
        r@ == stem@ + "."@ + guid@ + "-rlock"@,
        spec_is_rlock_name(r@),
{
    let mut r = String::from_str(stem);
    r.append(".");
    r.append(guid);
    r.append("-rlock");
    proof {
        assert(r@ =~= stem@ + "."@ + guid@ + "-rlock"@);
        reveal_strlit("-rlock");
        assert(r@.subrange(r@.len() - 6, r@.len() as int) =~= "-rlock"@);
    }
    r
}

/// The writer marker's name for a table file stem: one per table, claimed by
/// writing the holder's identifier into it.
pub fn wlock_file(stem: &str) -> (r: String)
    ensures
        r@ == stem@ + ".wlock"@,
        spec_is_wlock_name(r@),
{
    let mut r = String::from_str(stem);
    r.append(".wlock");
    proof {
        assert(r@ =~= stem@ + ".wlock"@);
        reveal_strlit(".wlock");
        assert(r@.subrange(r@.len() - 6, r@.len() as int) =~= ".wlock"@);
    }
    r
}

/// Whether this name is a reader marker's.
pub fn is_rlock_name(name: &str) -> (r: bool)
    ensures
        r == spec_is_rlock_name(name@),
{
    let n = name.unicode_len();
    if n < 6 {
        return false;
    }
    let tail = String::from_str(name.substring_char(n - 6, n));
    let suffix = String::from_str("-rlock");
    let r = tail == suffix;
    proof {
        assert(tail@ == name@.subrange(n - 6, n as int));
    }
    r
}

/// Whether any reader marker stands in a directory listing: while one does,
/// a writer must not proceed.
pub fn someone_has_rlock(files: &Vec<String>) -> (r: bool)
    ensures
        r == exists|i: int| 0 <= i < files@.len() && spec_is_rlock_name(#[trigger] files@[i]@),
{
    let mut i: usize = 0;
    while i < files.len()
        invariant
            i <= files@.len(),
            forall|k: int| 0 <= k < i ==> !spec_is_rlock_name(#[trigger] files@[k]@),
        decreases files@.len() - i,
    {
        if is_rlock_name(files[i].as_str()) {
            return true;
        }
        i += 1;
    }
    false
}

/// Whether the named writer marker stands in a directory listing: while it
/// does, neither a reader nor another writer may proceed.
pub fn someone_has_wlock(files: &Vec<String>, wlock: &String) -> (r: bool)
    ensures
        r == exists|i: int| 0 <= i < files@.len() && #[trigger] files@[i]@ == wlock@,
{
    let mut i: usize = 0;
    while i < files.len()
        invariant
            i <= files@.len(),
            forall|k: int| 0 <= k < i ==> #[trigger] files@[k]@ != wlock@,
        decreases files@.len() - i,
    {
        if files[i] == *wlock {
            return true;
        }
        i += 1;
    }
    false
}

/// A reader's intent on one table file: the decisions of the reader half of
/// the advisory protocol. The front end runs the busy-wait loop: it lists
/// the directory, asks `may_acquire`, sleeps and retries while refused, then
/// creates this reader's own marker; on scope exit it deletes only that
/// marker.
pub struct RLock {
    stem: String,
    guid: String,
}

impl RLock {
    /// The table file stem this reader watches.
    pub closed spec fn spec_stem(&self) -> Seq<char> {
        self.stem@
    }

    /// The holder's unique identifier.
    pub closed spec fn spec_guid(&self) -> Seq<char> {
        self.guid@
    }

    /// A reader's intent on the table file with this stem, held by `guid`.
    pub fn new(stem: String, guid: String) -> (r: RLock)
        ensures
            r.spec_stem() == stem@,
            r.spec_guid() == guid@,
    {
        RLock { stem, guid }
    }

    /// This reader's own marker name.
    pub fn marker(&self) -> (r: String)
        ensures
            r@ == self.spec_stem() + "."@ + self.spec_guid() + "-rlock"@,
            spec_is_rlock_name(r@),
    {
        rlock_file(self.stem.as_str(), self.guid.as_str())
    }

    /// Whether a reader may proceed against this directory listing: only
    /// while no writer marker for its table exists.
    pub fn may_acquire(&self, files: &Vec<String>) -> (r: bool)
        ensures
            r == !(exists|i: int|
                0 <= i < files@.len() && #[trigger] files@[i]@ == self.spec_stem() + ".wlock"@),
    {
        let w = wlock_file(self.stem.as_str());
        !someone_has_wlock(files, &w)
    }
}

/// A writer's intent on one table file: the decisions of the writer half of
/// the advisory protocol. The front end busy-waits while another writer
/// marker exists, claims the marker by writing this holder's identifier into
/// it, busy-waits while any reader marker exists, then re-reads the marker
/// and aborts if the claim was lost; on scope exit it deletes the marker.
pub struct WLock {
    stem: String,
    guid: String,
}

impl WLock {
    /// The table file stem this writer watches.
    pub closed spec fn spec_stem(&self) -> Seq<char> {
        self.stem@
    }

    /// The holder's unique identifier.
    pub closed spec fn spec_guid(&self) -> Seq<char> {
        self.guid@
    }

    /// A writer's intent on the table file with this stem, held by `guid`.
    pub fn new(stem: String, guid: String) -> (r: WLock)
        ensures
            r.spec_stem() == stem@,
            r.spec_guid() == guid@,
    {
        WLock { stem, guid }
    }

    /// The writer marker name this writer claims.
    pub fn marker(&self) -> (r: String)
        ensures
            r@ == self.spec_stem() + ".wlock"@,
            spec_is_wlock_name(r@),
    {
        wlock_file(self.stem.as_str())
    }

    /// The claim content this writer stands by: its own identifier.
    pub fn claim(&self) -> (r: &String)
        ensures
            r@ == self.spec_guid(),
    {
        &self.guid
    }

    /// Whether a writer may claim the marker against this directory
    /// listing: only while no writer marker for its table exists.
    pub fn may_claim(&self, files: &Vec<String>) -> (r: bool)
        ensures
            r == !(exists|i: int|
                0 <= i < files@.len() && #[trigger] files@[i]@ == self.spec_stem() + ".wlock"@),
    {
        let w = wlock_file(self.stem.as_str());
        !someone_has_wlock(files, &w)
    }

    /// Whether a writer may proceed to its table rewrite against this
    /// directory listing: only while no reader marker at all exists, so a
    /// writer excludes every reader.
    pub fn may_proceed(&self, files: &Vec<String>) -> (r: bool)
        ensures
            r == !(exists|i: int|
                0 <= i < files@.len() && spec_is_rlock_name(#[trigger] files@[i]@)),
    {
        !someone_has_rlock(files)
    }

    /// Whether the marker still carries this writer's claim. A lost claim
    /// means two writers raced the claim window: the protocol's invariant is
    /// broken and the front end aborts fatally.
    pub fn claim_intact(&self, content: &String) -> (r: bool)
        ensures
            r == (content@ == self.spec_guid()),
    {
        *content == self.guid
    }
}

/// A framed copy of an inner encoding: the 4-byte big-endian length, then
/// the bytes.
fn frame_vec(inner: Vec<u8>) -> (r: Vec<u8>)
    requires
        inner@.len() <= u32::MAX,
    ensures
        r@ == frame(inner@),
{
    let ghost inner0 = inner@;
    let len = inner.len() as u32;
    let mut inner = inner;
    let mut r: Vec<u8> = Vec::new();
    r.push((len >> 24u32) as u8);
    r.push((len >> 16u32) as u8);
    r.push((len >> 8u32) as u8);
    r.push(len as u8);
    r.append(&mut inner);
    proof {
        assert(r@ =~= frame(inner0));
    }
    r
}

/// Removing the entry at an index drops exactly that key.
proof fn lemma_model_remove(s0: Seq<(TypeHash, Vec<u8>)>, s1: Seq<(TypeHash, Vec<u8>)>, i: int, h: Seq<u8>)
    requires
        forall|x: int, y: int| 0 <= x < y < s0.len() ==> s0[x].0@ != s0[y].0@,
        0 <= i < s0.len(),
        s0[i].0@ == h,
        s1 == s0.remove(i),
    ensures
        forall|x: int, y: int| 0 <= x < y < s1.len() ==> s1[x].0@ != s1[y].0@,
        forall|k: Seq<u8>| has_key(s1, k) == (has_key(s0, k) && k != h),
        forall|k: Seq<u8>| has_key(s1, k) ==> blob_at(s1, k) == blob_at(s0, k),
{
    assert forall|x: int| 0 <= x < s1.len() implies s1[x] == (if x < i {
        s0[x]
    } else {
        s0[x + 1]
    }) by {}
    assert forall|x: int, y: int| 0 <= x < y < s1.len() implies s1[x].0@ != s1[y].0@ by {}
    assert forall|k: Seq<u8>| has_key(s1, k) == (has_key(s0, k) && k != h) by {
        if has_key(s1, k) {
            let w = choose|w: int| 0 <= w < s1.len() && s1[w].0@ == k;
            if w < i {
                assert(s0[w].0@ == k);
            } else {
                assert(s0[w + 1].0@ == k);
            }
            assert(has_key(s0, k));
            assert(k != h);
        }
        if has_key(s0, k) && k != h {
            let w = choose|w: int| 0 <= w < s0.len() && s0[w].0@ == k;
            assert(w != i);
            if w < i {
                assert(s1[w].0@ == k);
            } else {
                assert(s1[w - 1].0@ == k);
            }
        }
    }
    assert forall|k: Seq<u8>| has_key(s1, k) implies blob_at(s1, k) == blob_at(s0, k) by {
        let w = choose|w: int| 0 <= w < s1.len() && s1[w].0@ == k;
        if w < i {
            lemma_blob_lookup(s0, w, k);
        } else {
            lemma_blob_lookup(s0, w + 1, k);
        }
        lemma_blob_lookup(s1, w, k);
    }
}

/// With distinct keys, the entry found at an index is the entry the model
/// reads.
proof fn lemma_blob_lookup(s: Seq<(TypeHash, Vec<u8>)>, i: int, h: Seq<u8>)
    requires
        forall|x: int, y: int| 0 <= x < y < s.len() ==> s[x].0@ != s[y].0@,
        0 <= i < s.len(),
        s[i].0@ == h,
    ensures
        has_key(s, h),
        blob_at(s, h) == s[i].1@,
{
    let j = choose|j: int| 0 <= j < s.len() && s[j].0@ == h;
    if j != i {
        assert(false);
    }
}

/// Replacing the entry at an index rewrites exactly that key's blob.
proof fn lemma_model_update(
    s0: Seq<(TypeHash, Vec<u8>)>,
    s1: Seq<(TypeHash, Vec<u8>)>,
    i: int,
    h: Seq<u8>,
    blob: Seq<u8>,
)
    requires
        forall|x: int, y: int| 0 <= x < y < s0.len() ==> s0[x].0@ != s0[y].0@,
        0 <= i < s0.len(),
        s0[i].0@ == h,
        s1.len() == s0.len(),
        s1[i].0@ == h,
        s1[i].1@ == blob,
        forall|k: int| 0 <= k < s0.len() && k != i ==> s1[k] == s0[k],
    ensures
        forall|x: int, y: int| 0 <= x < y < s1.len() ==> s1[x].0@ != s1[y].0@,
        forall|k: Seq<u8>| has_key(s1, k) == has_key(s0, k),
        blob_at(s1, h) == blob,
        forall|k: Seq<u8>| has_key(s0, k) && k != h ==> blob_at(s1, k) == blob_at(s0, k),
{
    assert forall|x: int| 0 <= x < s0.len() implies s1[x].0@ == s0[x].0@ by {}
    assert forall|k: Seq<u8>| has_key(s1, k) == has_key(s0, k) by {
        if has_key(s0, k) {
            let w = choose|w: int| 0 <= w < s0.len() && s0[w].0@ == k;
            assert(s1[w].0@ == k);
        }
        if has_key(s1, k) {
            let w = choose|w: int| 0 <= w < s1.len() && s1[w].0@ == k;
            assert(s0[w].0@ == k);
        }
    }
    lemma_blob_lookup(s1, i, h);
    assert forall|k: Seq<u8>| has_key(s0, k) && k != h implies blob_at(s1, k) == blob_at(s0, k) by {
        let w = choose|w: int| 0 <= w < s0.len() && s0[w].0@ == k;
        lemma_blob_lookup(s0, w, k);
        assert(w != i);
        assert(s1[w].0@ == k && s1[w].1@ == s0[w].1@);
        lemma_blob_lookup(s1, w, k);
    }
}

/// Appending an entry under a fresh key adds exactly that key's blob.
proof fn lemma_model_push(
    s0: Seq<(TypeHash, Vec<u8>)>,
    s1: Seq<(TypeHash, Vec<u8>)>,
    h: Seq<u8>,
    blob: Seq<u8>,
)
    requires
        forall|x: int, y: int| 0 <= x < y < s0.len() ==> s0[x].0@ != s0[y].0@,
        !has_key(s0, h),
        s1 == s0.push(s1[s0.len() as int]),
        s1[s0.len() as int].0@ == h,
        s1[s0.len() as int].1@ == blob,
    ensures
        forall|x: int, y: int| 0 <= x < y < s1.len() ==> s1[x].0@ != s1[y].0@,
        forall|k: Seq<u8>| has_key(s1, k) == (has_key(s0, k) || k == h),
        blob_at(s1, h) == blob,
        forall|k: Seq<u8>| has_key(s0, k) ==> blob_at(s1, k) == blob_at(s0, k),
{
    let n = s0.len() as int;
    assert forall|x: int, y: int| 0 <= x < y < s1.len() implies s1[x].0@ != s1[y].0@ by {
        if y < n {
        } else {
            assert(s1[x].0@ == s0[x].0@);
            if s1[x].0@ == h {
                assert(has_key(s0, h));
            }
        }
    }
    assert forall|k: Seq<u8>| has_key(s1, k) == (has_key(s0, k) || k == h) by {
        if has_key(s0, k) {
            let w = choose|w: int| 0 <= w < s0.len() && s0[w].0@ == k;
            assert(s1[w].0@ == k);
        }
        if k == h {
            assert(s1[n].0@ == k);
        }
        if has_key(s1, k) && k != h {
            let w = choose|w: int| 0 <= w < s1.len() && s1[w].0@ == k;
            assert(w != n);
            assert(s0[w].0@ == k);
        }
    }
    lemma_blob_lookup(s1, n, h);
    assert forall|k: Seq<u8>| has_key(s0, k) implies blob_at(s1, k) == blob_at(s0, k) by {
        let w = choose|w: int| 0 <= w < s0.len() && s0[w].0@ == k;
        lemma_blob_lookup(s0, w, k);
        assert(s1[w].0@ == k && s1[w].1@ == s0[w].1@);
        if k == h {
            assert(has_key(s0, h));
        }
        lemma_blob_lookup(s1, w, k);
    }
}

} // verus!
