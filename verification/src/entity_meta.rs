//! The table container: the whole persisted state for one entity type — a
//! format-version tag, the last assigned id, and the ordered list of stored
//! rows. It is always read and rewritten as one unit, and decoding with a
//! mismatched version tag fails closed.

use vstd::prelude::*;

use crate::byte_reader::{frame, take_block, ByteReader};
use crate::db::{DbError, DbResult};
use crate::entity::Entity;
use crate::id::IdType;
use crate::sha::sha1;
use crate::storable::{seq_dec, seq_dec_err, seq_enc, Storable};
use crate::type_hash::{fingerprint_input, TypeHash};
use vstd::utf8::{decode_utf8, encode_utf8, valid_utf8};

verus! {

/// The format-version tag written at the head of every table file.
pub open spec fn version_chars() -> Seq<char> {
    "0.1.0"@
}

/// The format-version tag.
pub fn version() -> (r: &'static str)
    ensures
        r@ == version_chars(),
{
    "0.1.0"
}

/// The model of a table: the last assigned id and the models of the stored
/// rows, in stored order.
pub struct MetaView<I, R> {
    /// The last id the table assigned or was given.
    pub last_id: I,
    /// The stored rows, in insertion order.
    pub entities: Seq<R>,
}

/// A whole table: version tag, last assigned id, stored rows.
pub struct EntityMeta<T: Entity> {
    /// The last id the table assigned or was given.
    pub last_id: T::Id,
    /// The stored rows, in insertion order.
    pub entities: Vec<T>,
}

impl<T: Entity> DeepView for EntityMeta<T> {
    type V = MetaView<T::Id, <T as DeepView>::V>;

    open spec fn deep_view(&self) -> Self::V {
        MetaView { last_id: self.last_id, entities: self.entities.deep_view() }
    }
}

impl<T: Entity> Storable for EntityMeta<T> {
    open spec fn spec_hash() -> Seq<u8> {
        sha1(fingerprint_input(""@, Seq::<Seq<char>>::empty(), Seq::<Seq<u8>>::empty()))
    }

    open spec fn enc(m: MetaView<T::Id, <T as DeepView>::V>) -> Seq<u8> {
        frame(encode_utf8(version_chars())) + frame(<T::Id as Storable>::enc(m.last_id)) + frame(
            seq_enc::<T>(m.entities),
        )
    }

    open spec fn dec(b: Seq<u8>) -> Option<MetaView<T::Id, <T as DeepView>::V>> {
        match take_block(b) {
            None => None,
            Some(p1) => match <String as Storable>::dec(p1.0) {
                None => None,
                Some(vc) => if vc != version_chars() {
                    None
                } else {
                    match take_block(p1.1) {
                        None => None,
                        Some(p2) => match <T::Id as Storable>::dec(p2.0) {
                            None => None,
                            Some(id) => match take_block(p2.1) {
                                None => None,
                                Some(p3) => match seq_dec::<T>(p3.0) {
                                    None => None,
                                    Some(rows) => Some(MetaView { last_id: id, entities: rows }),
                                },
                            },
                        },
                    }
                },
            },
        }
    }

    open spec fn dec_err(b: Seq<u8>) -> DbError {
        match take_block(b) {
            None => DbError::LoadError,
            Some(p1) => match <String as Storable>::dec(p1.0) {
                None => DbError::LoadError,
                Some(vc) => if vc != version_chars() {
                    DbError::InvalidFileVersion
                } else {
                    match take_block(p1.1) {
                        None => DbError::LoadError,
                        Some(p2) => match <T::Id as Storable>::dec(p2.0) {
                            None => <T::Id as Storable>::dec_err(p2.0),
                            Some(id) => match take_block(p2.1) {
                                None => DbError::LoadError,
                                Some(p3) => seq_dec_err::<T>(p3.0),
                            },
                        },
                    }
                },
            },
        }
    }

    proof fn lemma_round_trip(m: MetaView<T::Id, <T as DeepView>::V>) {
        broadcast use vstd::utf8::encode_utf8_valid_utf8;
        broadcast use vstd::utf8::encode_utf8_decode_utf8;

        let f1 = frame(encode_utf8(version_chars()));
        let f2 = frame(<T::Id as Storable>::enc(m.last_id));
        let f3 = frame(seq_enc::<T>(m.entities));
        let b = Self::enc(m);
        assert(b =~= f1 + (f2 + f3));
        crate::byte_reader::lemma_take_block_frame(encode_utf8(version_chars()), f2 + f3);
        assert(take_block(b) == Some((encode_utf8(version_chars()), f2 + f3)));
        assert(<String as Storable>::dec(encode_utf8(version_chars())) == Some(version_chars()));
        assert(f2 + f3 =~= f2 + f3);
        crate::byte_reader::lemma_take_block_frame(<T::Id as Storable>::enc(m.last_id), f3);
        <T::Id as Storable>::lemma_round_trip(m.last_id);
        crate::byte_reader::lemma_take_block_frame(seq_enc::<T>(m.entities), Seq::<u8>::empty());
        assert(f3 =~= frame(seq_enc::<T>(m.entities)) + Seq::<u8>::empty());
        crate::storable::lemma_seq_round_trip::<T>(m.entities);
    }

    fn type_hash() -> (r: TypeHash) {
        let names: [&str; 0] = [];
        let types: [TypeHash; 0] = [];
        let r = TypeHash::new("", names.as_slice(), types.as_slice());
        proof {
            assert(names@.map_values(|s: &str| s@) =~= Seq::<Seq<char>>::empty());
            assert(types@.map_values(|t: TypeHash| t@) =~= Seq::<Seq<u8>>::empty());
        }
        r
    }

    fn inner_encoded(&self) -> (r: Vec<u8>) {
        let ver: String = String::from_str(version());
        let mut r = ver.encoded();
        let mut ib = self.last_id.encoded();
        r.append(&mut ib);
        let mut eb = self.entities.encoded();
        r.append(&mut eb);
        proof {
            <T::Id as IdType>::lemma_view_id(self.last_id);
            assert(r@ =~= Self::enc(self.deep_view()));
        }
        r
    }

    fn decoded(reader: ByteReader<'_>) -> (r: DbResult<Self>) {
        let ghost b0 = reader.bytes();
        let mut rd = reader;
        let vb = match rd.reader_for_block() {
            Some(b) => b,
            None => {
                return Err(DbError::LoadError);
            },
        };
        let ver = match <String as Storable>::decoded(vb) {
            Ok(v) => v,
            Err(e) => {
                return Err(e);
            },
        };
        let expected: String = String::from_str(version());
        if ver != expected {
            return Err(DbError::InvalidFileVersion);
        }
        let ib = match rd.reader_for_block() {
            Some(b) => b,
            None => {
                return Err(DbError::LoadError);
            },
        };
        let last_id = match <T::Id as Storable>::decoded(ib) {
            Ok(v) => v,
            Err(e) => {
                return Err(e);
            },
        };
        let eb = match rd.reader_for_block() {
            Some(b) => b,
            None => {
                return Err(DbError::LoadError);
            },
        };
        let entities = match <Vec<T> as Storable>::decoded(eb) {
            Ok(v) => v,
            Err(e) => {
                return Err(e);
            },
        };
        proof {
            <T::Id as IdType>::lemma_view_id(last_id);
        }
        Ok(EntityMeta { last_id, entities })
    }
}

} // verus!
