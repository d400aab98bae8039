//! The storable capability: a type that can report its schema fingerprint,
//! produce its framed binary encoding, and decode itself from a cursor.
//!
//! Every implementation carries its own specification: a spec-level encoder
//! `enc` and decoder `dec` over the type's deep view, and the proof
//! obligation that decoding inverts encoding. The executable methods are
//! verified against those spec functions, so the round-trip property holds
//! of every storable type by construction.

use vstd::prelude::*;

use crate::byte_reader::{be_to_u32, frame, take_block, u32_be, ByteReader};
use crate::db::{DbError, DbResult};
use crate::sha::{sha1, u64_be};
use crate::type_hash::{fingerprint_input, TypeHash};
use vstd::string::{StrSliceExecFns, StringExecFns};
use vstd::utf8::{decode_utf8, encode_utf8, valid_utf8};

verus! {

/// A value that the engine can persist.
///
/// `enc` gives the inner (unframed) byte image of a value's model; `dec`
/// reads a whole block back, `None` exactly where no model encodes to it.
/// `dec_err` names the error the executable decoder reports for a block
/// `dec` refuses.
pub trait Storable: DeepView + Sized {
    /// The fingerprint bytes of this type's shape.
    spec fn spec_hash() -> Seq<u8>;

    /// The inner encoding of a value's model.
    spec fn enc(m: <Self as DeepView>::V) -> Seq<u8>;

    /// The inner decoding of one whole block.
    spec fn dec(b: Seq<u8>) -> Option<<Self as DeepView>::V>;

    /// The error reported for a block that does not decode.
    spec fn dec_err(b: Seq<u8>) -> DbError;

    /// Decoding inverts encoding, for every model whose encoding fits its
    /// length frames.
    proof fn lemma_round_trip(m: <Self as DeepView>::V)
        requires
            Self::enc(m).len() <= u32::MAX,
        ensures
            Self::dec(Self::enc(m)) == Some(m),
    ;

    /// This type's schema fingerprint.
    fn type_hash() -> (r: TypeHash)
        ensures
            r@ == Self::spec_hash(),
    ;

    /// The inner encoding of this value.
    fn inner_encoded(&self) -> (r: Vec<u8>)
        ensures
            r@ == Self::enc(self.deep_view()),
    ;

    /// This value decoded from a whole block.
    fn decoded(reader: ByteReader<'_>) -> (r: DbResult<Self>)
        requires
            reader.wf(),
        ensures
            match r {
                Ok(v) => Self::dec(reader.bytes()) == Some(v.deep_view()),
                Err(e) => Self::dec(reader.bytes()) is None && e == Self::dec_err(reader.bytes()),
            },
    ;

    /// The framed encoding of this value: its length, then its inner
    /// encoding. The length prefix is reduced to 32 bits, so only values
    /// whose inner encoding is at most `u32::MAX` bytes round-trip.
    fn encoded(&self) -> (r: Vec<u8>)
        ensures
            r@ == frame(Self::enc(self.deep_view())),
    {
        let mut inner = self.inner_encoded();
        #[verifier::truncate]
        let len = inner.len() as u32;
        let mut r: Vec<u8> = Vec::new();
        r.push((len >> 24u32) as u8);
        r.push((len >> 16u32) as u8);
        r.push((len >> 8u32) as u8);
        r.push(len as u8);
        r.append(&mut inner);
        proof {
            assert(r@ =~= frame(Self::enc(self.deep_view())));
        }
        r
    }
}

impl Storable for u32 {
    open spec fn spec_hash() -> Seq<u8> {
        sha1(encode_utf8("u32"@))
    }

    open spec fn enc(m: u32) -> Seq<u8> {
        u32_be(m)
    }

    open spec fn dec(b: Seq<u8>) -> Option<u32> {
        if b.len() == 4 {
            Some(be_to_u32(b))
        } else {
            None
        }
    }

    open spec fn dec_err(b: Seq<u8>) -> DbError {
        DbError::LoadError
    }

    proof fn lemma_round_trip(m: u32) {
        crate::byte_reader::lemma_u32_be_round(m);
    }

    fn type_hash() -> TypeHash {
        TypeHash::from_str("u32")
    }

    fn inner_encoded(&self) -> (r: Vec<u8>) {
        let x = *self;
        let mut r: Vec<u8> = Vec::with_capacity(4);
        r.push((x >> 24u32) as u8);
        r.push((x >> 16u32) as u8);
        r.push((x >> 8u32) as u8);
        r.push(x as u8);
        proof {
            assert(r@ =~= u32_be(x));
        }
        r
    }

    fn decoded(reader: ByteReader<'_>) -> (r: DbResult<Self>) {
        let s = reader.read_byte_slice();
        if s.len() != 4 {
            return Err(DbError::LoadError);
        }
        let v = ((s[0] as u32) << 24u32) | ((s[1] as u32) << 16u32) | ((s[2] as u32) << 8u32) | (
        s[3] as u32);
        proof {
            assert(reader.bytes() =~= seq![s@[0], s@[1], s@[2], s@[3]]);
        }
        Ok(v)
    }
}

impl Storable for String {
    open spec fn spec_hash() -> Seq<u8> {
        sha1(encode_utf8("String"@))
    }

    open spec fn enc(m: Seq<char>) -> Seq<u8> {
        encode_utf8(m)
    }

    open spec fn dec(b: Seq<u8>) -> Option<Seq<char>> {
        if valid_utf8(b) {
            Some(decode_utf8(b))
        } else {
            None
        }
    }

    open spec fn dec_err(b: Seq<u8>) -> DbError {
        DbError::LoadError
    }

    proof fn lemma_round_trip(m: Seq<char>) {
        broadcast use vstd::utf8::encode_utf8_valid_utf8;
        broadcast use vstd::utf8::encode_utf8_decode_utf8;

    }

    fn type_hash() -> TypeHash {
        TypeHash::from_str("String")
    }

    fn inner_encoded(&self) -> (r: Vec<u8>) {
        self.as_str().as_bytes_vec()
    }

    fn decoded(reader: ByteReader<'_>) -> (r: DbResult<Self>) {
        let s = reader.read_byte_slice();
        let mut v: Vec<u8> = Vec::with_capacity(s.len());
        v.extend_from_slice(s);
        proof {
            assert(v@ =~= reader.bytes());
        }
        match string_from_utf8(v) {
            Some(st) => {
                proof {
                    broadcast use vstd::utf8::encode_utf8_decode_utf8;

                    assert(decode_utf8(reader.bytes()) == st@);
                }
                Ok(st)
            },
            None => Err(DbError::LoadError),
        }
    }
}


/// The big-endian byte images of the other integer widths, with their
/// read-back functions and round-trip lemmas.
pub open spec fn u8_be(n: u8) -> Seq<u8> {
    seq![n]
}

pub open spec fn u16_be(n: u16) -> Seq<u8> {
    seq![(n >> 8) as u8, n as u8]
}

pub open spec fn be_to_u16(b: Seq<u8>) -> u16
    recommends
        b.len() == 2,
{
    (((b[0] as u16) << 8) | (b[1] as u16)) as u16
}

pub open spec fn be_to_u64(b: Seq<u8>) -> u64
    recommends
        b.len() == 8,
{
    (((b[0] as u64) << 56) | ((b[1] as u64) << 48) | ((b[2] as u64) << 40) | ((b[3] as u64) << 32) | ((b[4] as u64) << 24) | ((b[5] as u64) << 16) | ((b[6] as u64) << 8) | (b[7] as u64)) as u64
}

pub open spec fn u128_be(n: u128) -> Seq<u8> {
    seq![
        (n >> 120) as u8,
        (n >> 112) as u8,
        (n >> 104) as u8,
        (n >> 96) as u8,
        (n >> 88) as u8,
        (n >> 80) as u8,
        (n >> 72) as u8,
        (n >> 64) as u8,
        (n >> 56) as u8,
        (n >> 48) as u8,
        (n >> 40) as u8,
        (n >> 32) as u8,
        (n >> 24) as u8,
        (n >> 16) as u8,
        (n >> 8) as u8,
        n as u8,
    ]
}

pub open spec fn be_to_u128(b: Seq<u8>) -> u128
    recommends
        b.len() == 16,
{
    (((b[0] as u128) << 120) | ((b[1] as u128) << 112) | ((b[2] as u128) << 104) | ((b[3] as u128) << 96) | ((b[4] as u128) << 88) | ((b[5] as u128) << 80) | ((b[6] as u128) << 72) | ((b[7] as u128) << 64) | ((b[8] as u128) << 56) | ((b[9] as u128) << 48) | ((b[10] as u128) << 40) | ((b[11] as u128) << 32) | ((b[12] as u128) << 24) | ((b[13] as u128) << 16) | ((b[14] as u128) << 8) | (b[15] as u128)) as u128
}

pub proof fn lemma_u16_be_round(n: u16)
    ensures
        be_to_u16(u16_be(n)) == n,
{
    assert((((((n >> 8) as u8) as u16) << 8) | ((n as u8) as u16)) as u16 == n) by (bit_vector);
}

pub proof fn lemma_u64_be_round(n: u64)
    ensures
        be_to_u64(u64_be(n)) == n,
{
    assert((((((n >> 56) as u8) as u64) << 56) | ((((n >> 48) as u8) as u64) << 48) | ((((n >> 40) as u8) as u64) << 40) | ((((n >> 32) as u8) as u64) << 32) | ((((n >> 24) as u8) as u64) << 24) | ((((n >> 16) as u8) as u64) << 16) | ((((n >> 8) as u8) as u64) << 8) | ((n as u8) as u64)) as u64 == n) by (bit_vector);
}

pub proof fn lemma_u128_be_round(n: u128)
    ensures
        be_to_u128(u128_be(n)) == n,
{
    assert((((((n >> 120) as u8) as u128) << 120) | ((((n >> 112) as u8) as u128) << 112) | ((((n >> 104) as u8) as u128) << 104) | ((((n >> 96) as u8) as u128) << 96) | ((((n >> 88) as u8) as u128) << 88) | ((((n >> 80) as u8) as u128) << 80) | ((((n >> 72) as u8) as u128) << 72) | ((((n >> 64) as u8) as u128) << 64) | ((((n >> 56) as u8) as u128) << 56) | ((((n >> 48) as u8) as u128) << 48) | ((((n >> 40) as u8) as u128) << 40) | ((((n >> 32) as u8) as u128) << 32) | ((((n >> 24) as u8) as u128) << 24) | ((((n >> 16) as u8) as u128) << 16) | ((((n >> 8) as u8) as u128) << 8) | ((n as u8) as u128)) as u128 == n) by (bit_vector);
}

impl Storable for u8 {
    open spec fn spec_hash() -> Seq<u8> {
        sha1(encode_utf8("u8"@))
    }

    open spec fn enc(m: u8) -> Seq<u8> {
        u8_be(m)
    }

    open spec fn dec(b: Seq<u8>) -> Option<u8> {
        if b.len() == 1 {
            Some(b[0])
        } else {
            None
        }
    }

    open spec fn dec_err(b: Seq<u8>) -> DbError {
        DbError::LoadError
    }

    proof fn lemma_round_trip(m: u8) {
    }

    fn type_hash() -> TypeHash {
        TypeHash::from_str("u8")
    }

    fn inner_encoded(&self) -> (r: Vec<u8>) {
        let x = *self;
        let mut r: Vec<u8> = Vec::new();
        r.push(x);
        proof {
            assert(r@ =~= u8_be(x));
        }
        r
    }

    fn decoded(reader: ByteReader<'_>) -> (r: DbResult<Self>) {
        let s = reader.read_byte_slice();
        if s.len() != 1 {
            return Err(DbError::LoadError);
        }
        let v = s[0];
        proof {
            assert(reader.bytes() =~= seq![s@[0]]);
        }
        Ok(v)
    }
}

impl Storable for u16 {
    open spec fn spec_hash() -> Seq<u8> {
        sha1(encode_utf8("u16"@))
    }

    open spec fn enc(m: u16) -> Seq<u8> {
        u16_be(m)
    }

    open spec fn dec(b: Seq<u8>) -> Option<u16> {
        if b.len() == 2 {
            Some(be_to_u16(b))
        } else {
            None
        }
    }

    open spec fn dec_err(b: Seq<u8>) -> DbError {
        DbError::LoadError
    }

    proof fn lemma_round_trip(m: u16) {
        lemma_u16_be_round(m);
    }

    fn type_hash() -> TypeHash {
        TypeHash::from_str("u16")
    }

    fn inner_encoded(&self) -> (r: Vec<u8>) {
        let x = *self;
        let mut r: Vec<u8> = Vec::new();
        r.push((x >> 8u32) as u8);
        r.push(x as u8);
        proof {
            assert(r@ =~= u16_be(x));
        }
        r
    }

    fn decoded(reader: ByteReader<'_>) -> (r: DbResult<Self>) {
        let s = reader.read_byte_slice();
        if s.len() != 2 {
            return Err(DbError::LoadError);
        }
        let v = ((s[0] as u16) << 8u32) | (s[1] as u16);
        proof {
            assert(reader.bytes() =~= seq![s@[0], s@[1]]);
        }
        Ok(v)
    }
}

impl Storable for u64 {
    open spec fn spec_hash() -> Seq<u8> {
        sha1(encode_utf8("u64"@))
    }

    open spec fn enc(m: u64) -> Seq<u8> {
        u64_be(m)
    }

    open spec fn dec(b: Seq<u8>) -> Option<u64> {
        if b.len() == 8 {
            Some(be_to_u64(b))
        } else {
            None
        }
    }

    open spec fn dec_err(b: Seq<u8>) -> DbError {
        DbError::LoadError
    }

    proof fn lemma_round_trip(m: u64) {
        lemma_u64_be_round(m);
    }

    fn type_hash() -> TypeHash {
        TypeHash::from_str("u64")
    }

    fn inner_encoded(&self) -> (r: Vec<u8>) {
        let x = *self;
        let mut r: Vec<u8> = Vec::new();
        r.push((x >> 56u32) as u8);
        r.push((x >> 48u32) as u8);
        r.push((x >> 40u32) as u8);
        r.push((x >> 32u32) as u8);
        r.push((x >> 24u32) as u8);
        r.push((x >> 16u32) as u8);
        r.push((x >> 8u32) as u8);
        r.push(x as u8);
        proof {
            assert(r@ =~= u64_be(x));
        }
        r
    }

    fn decoded(reader: ByteReader<'_>) -> (r: DbResult<Self>) {
        let s = reader.read_byte_slice();
        if s.len() != 8 {
            return Err(DbError::LoadError);
        }
        let v = ((s[0] as u64) << 56u32) | ((s[1] as u64) << 48u32) | ((s[2] as u64) << 40u32) | ((s[3] as u64) << 32u32) | ((s[4] as u64) << 24u32) | ((s[5] as u64) << 16u32) | ((s[6] as u64) << 8u32) | (s[7] as u64);
        proof {
            assert(reader.bytes() =~= seq![s@[0], s@[1], s@[2], s@[3], s@[4], s@[5], s@[6], s@[7]]);
        }
        Ok(v)
    }
}

impl Storable for u128 {
    open spec fn spec_hash() -> Seq<u8> {
        sha1(encode_utf8("u128"@))
    }

    open spec fn enc(m: u128) -> Seq<u8> {
        u128_be(m)
    }

    open spec fn dec(b: Seq<u8>) -> Option<u128> {
        if b.len() == 16 {
            Some(be_to_u128(b))
        } else {
            None
        }
    }

    open spec fn dec_err(b: Seq<u8>) -> DbError {
        DbError::LoadError
    }

    proof fn lemma_round_trip(m: u128) {
        lemma_u128_be_round(m);
    }

    fn type_hash() -> TypeHash {
        TypeHash::from_str("u128")
    }

    fn inner_encoded(&self) -> (r: Vec<u8>) {
        let x = *self;
        let mut r: Vec<u8> = Vec::new();
        r.push((x >> 120u32) as u8);
        r.push((x >> 112u32) as u8);
        r.push((x >> 104u32) as u8);
        r.push((x >> 96u32) as u8);
        r.push((x >> 88u32) as u8);
        r.push((x >> 80u32) as u8);
        r.push((x >> 72u32) as u8);
        r.push((x >> 64u32) as u8);
        r.push((x >> 56u32) as u8);
        r.push((x >> 48u32) as u8);
        r.push((x >> 40u32) as u8);
        r.push((x >> 32u32) as u8);
        r.push((x >> 24u32) as u8);
        r.push((x >> 16u32) as u8);
        r.push((x >> 8u32) as u8);
        r.push(x as u8);
        proof {
            assert(r@ =~= u128_be(x));
        }
        r
    }

    fn decoded(reader: ByteReader<'_>) -> (r: DbResult<Self>) {
        let s = reader.read_byte_slice();
        if s.len() != 16 {
            return Err(DbError::LoadError);
        }
        let v = ((s[0] as u128) << 120u32) | ((s[1] as u128) << 112u32) | ((s[2] as u128) << 104u32) | ((s[3] as u128) << 96u32) | ((s[4] as u128) << 88u32) | ((s[5] as u128) << 80u32) | ((s[6] as u128) << 72u32) | ((s[7] as u128) << 64u32) | ((s[8] as u128) << 56u32) | ((s[9] as u128) << 48u32) | ((s[10] as u128) << 40u32) | ((s[11] as u128) << 32u32) | ((s[12] as u128) << 24u32) | ((s[13] as u128) << 16u32) | ((s[14] as u128) << 8u32) | (s[15] as u128);
        proof {
            assert(reader.bytes() =~= seq![s@[0], s@[1], s@[2], s@[3], s@[4], s@[5], s@[6], s@[7], s@[8], s@[9], s@[10], s@[11], s@[12], s@[13], s@[14], s@[15]]);
        }
        Ok(v)
    }
}

impl Storable for i8 {
    open spec fn spec_hash() -> Seq<u8> {
        sha1(encode_utf8("i8"@))
    }

    open spec fn enc(m: i8) -> Seq<u8> {
        u8_be(m as u8)
    }

    open spec fn dec(b: Seq<u8>) -> Option<i8> {
        if b.len() == 1 {
            Some(b[0] as i8)
        } else {
            None
        }
    }

    open spec fn dec_err(b: Seq<u8>) -> DbError {
        DbError::LoadError
    }

    proof fn lemma_round_trip(m: i8) {
        assert(((m as u8) as i8) == m) by (bit_vector);
    }

    fn type_hash() -> TypeHash {
        TypeHash::from_str("i8")
    }

    fn inner_encoded(&self) -> (r: Vec<u8>) {
        #[verifier::truncate]
        let x = *self as u8;
        let mut r: Vec<u8> = Vec::new();
        r.push(x);
        proof {
            assert(r@ =~= u8_be(x));
        }
        r
    }

    fn decoded(reader: ByteReader<'_>) -> (r: DbResult<Self>) {
        let s = reader.read_byte_slice();
        if s.len() != 1 {
            return Err(DbError::LoadError);
        }
        let raw = s[0];
        #[verifier::truncate]
        let v = raw as i8;
        proof {
            assert(reader.bytes() =~= seq![s@[0]]);
        }
        Ok(v)
    }
}

impl Storable for i16 {
    open spec fn spec_hash() -> Seq<u8> {
        sha1(encode_utf8("i16"@))
    }

    open spec fn enc(m: i16) -> Seq<u8> {
        u16_be(m as u16)
    }

    open spec fn dec(b: Seq<u8>) -> Option<i16> {
        if b.len() == 2 {
            Some(be_to_u16(b) as i16)
        } else {
            None
        }
    }

    open spec fn dec_err(b: Seq<u8>) -> DbError {
        DbError::LoadError
    }

    proof fn lemma_round_trip(m: i16) {
        lemma_u16_be_round(m as u16);
        assert(((m as u16) as i16) == m) by (bit_vector);
    }

    fn type_hash() -> TypeHash {
        TypeHash::from_str("i16")
    }

    fn inner_encoded(&self) -> (r: Vec<u8>) {
        #[verifier::truncate]
        let x = *self as u16;
        let mut r: Vec<u8> = Vec::new();
        r.push((x >> 8u32) as u8);
        r.push(x as u8);
        proof {
            assert(r@ =~= u16_be(x));
        }
        r
    }

    fn decoded(reader: ByteReader<'_>) -> (r: DbResult<Self>) {
        let s = reader.read_byte_slice();
        if s.len() != 2 {
            return Err(DbError::LoadError);
        }
        let raw = ((s[0] as u16) << 8u32) | (s[1] as u16);
        #[verifier::truncate]
        let v = raw as i16;
        proof {
            assert(reader.bytes() =~= seq![s@[0], s@[1]]);
        }
        Ok(v)
    }
}

impl Storable for i32 {
    open spec fn spec_hash() -> Seq<u8> {
        sha1(encode_utf8("i32"@))
    }

    open spec fn enc(m: i32) -> Seq<u8> {
        u32_be(m as u32)
    }

    open spec fn dec(b: Seq<u8>) -> Option<i32> {
        if b.len() == 4 {
            Some(be_to_u32(b) as i32)
        } else {
            None
        }
    }

    open spec fn dec_err(b: Seq<u8>) -> DbError {
        DbError::LoadError
    }

    proof fn lemma_round_trip(m: i32) {
        crate::byte_reader::lemma_u32_be_round(m as u32);
        assert(((m as u32) as i32) == m) by (bit_vector);
    }

    fn type_hash() -> TypeHash {
        TypeHash::from_str("i32")
    }

    fn inner_encoded(&self) -> (r: Vec<u8>) {
        #[verifier::truncate]
        let x = *self as u32;
        let mut r: Vec<u8> = Vec::new();
        r.push((x >> 24u32) as u8);
        r.push((x >> 16u32) as u8);
        r.push((x >> 8u32) as u8);
        r.push(x as u8);
        proof {
            assert(r@ =~= u32_be(x));
        }
        r
    }

    fn decoded(reader: ByteReader<'_>) -> (r: DbResult<Self>) {
        let s = reader.read_byte_slice();
        if s.len() != 4 {
            return Err(DbError::LoadError);
        }
        let raw = ((s[0] as u32) << 24u32) | ((s[1] as u32) << 16u32) | ((s[2] as u32) << 8u32) | (s[3] as u32);
        #[verifier::truncate]
        let v = raw as i32;
        proof {
            assert(reader.bytes() =~= seq![s@[0], s@[1], s@[2], s@[3]]);
        }
        Ok(v)
    }
}

impl Storable for i64 {
    open spec fn spec_hash() -> Seq<u8> {
        sha1(encode_utf8("i64"@))
    }

    open spec fn enc(m: i64) -> Seq<u8> {
        u64_be(m as u64)
    }

    open spec fn dec(b: Seq<u8>) -> Option<i64> {
        if b.len() == 8 {
            Some(be_to_u64(b) as i64)
        } else {
            None
        }
    }

    open spec fn dec_err(b: Seq<u8>) -> DbError {
        DbError::LoadError
    }

    proof fn lemma_round_trip(m: i64) {
        lemma_u64_be_round(m as u64);
        assert(((m as u64) as i64) == m) by (bit_vector);
    }

    fn type_hash() -> TypeHash {
        TypeHash::from_str("i64")
    }

    fn inner_encoded(&self) -> (r: Vec<u8>) {
        #[verifier::truncate]
        let x = *self as u64;
        let mut r: Vec<u8> = Vec::new();
        r.push((x >> 56u32) as u8);
        r.push((x >> 48u32) as u8);
        r.push((x >> 40u32) as u8);
        r.push((x >> 32u32) as u8);
        r.push((x >> 24u32) as u8);
        r.push((x >> 16u32) as u8);
        r.push((x >> 8u32) as u8);
        r.push(x as u8);
        proof {
            assert(r@ =~= u64_be(x));
        }
        r
    }

    fn decoded(reader: ByteReader<'_>) -> (r: DbResult<Self>) {
        let s = reader.read_byte_slice();
        if s.len() != 8 {
            return Err(DbError::LoadError);
        }
        let raw = ((s[0] as u64) << 56u32) | ((s[1] as u64) << 48u32) | ((s[2] as u64) << 40u32) | ((s[3] as u64) << 32u32) | ((s[4] as u64) << 24u32) | ((s[5] as u64) << 16u32) | ((s[6] as u64) << 8u32) | (s[7] as u64);
        #[verifier::truncate]
        let v = raw as i64;
        proof {
            assert(reader.bytes() =~= seq![s@[0], s@[1], s@[2], s@[3], s@[4], s@[5], s@[6], s@[7]]);
        }
        Ok(v)
    }
}

impl Storable for i128 {
    open spec fn spec_hash() -> Seq<u8> {
        sha1(encode_utf8("i128"@))
    }

    open spec fn enc(m: i128) -> Seq<u8> {
        u128_be(m as u128)
    }

    open spec fn dec(b: Seq<u8>) -> Option<i128> {
        if b.len() == 16 {
            Some(be_to_u128(b) as i128)
        } else {
            None
        }
    }

    open spec fn dec_err(b: Seq<u8>) -> DbError {
        DbError::LoadError
    }

    proof fn lemma_round_trip(m: i128) {
        lemma_u128_be_round(m as u128);
        assert(((m as u128) as i128) == m) by (bit_vector);
    }

    fn type_hash() -> TypeHash {
        TypeHash::from_str("i128")
    }

    fn inner_encoded(&self) -> (r: Vec<u8>) {
        #[verifier::truncate]
        let x = *self as u128;
        let mut r: Vec<u8> = Vec::new();
        r.push((x >> 120u32) as u8);
        r.push((x >> 112u32) as u8);
        r.push((x >> 104u32) as u8);
        r.push((x >> 96u32) as u8);
        r.push((x >> 88u32) as u8);
        r.push((x >> 80u32) as u8);
        r.push((x >> 72u32) as u8);
        r.push((x >> 64u32) as u8);
        r.push((x >> 56u32) as u8);
        r.push((x >> 48u32) as u8);
        r.push((x >> 40u32) as u8);
        r.push((x >> 32u32) as u8);
        r.push((x >> 24u32) as u8);
        r.push((x >> 16u32) as u8);
        r.push((x >> 8u32) as u8);
        r.push(x as u8);
        proof {
            assert(r@ =~= u128_be(x));
        }
        r
    }

    fn decoded(reader: ByteReader<'_>) -> (r: DbResult<Self>) {
        let s = reader.read_byte_slice();
        if s.len() != 16 {
            return Err(DbError::LoadError);
        }
        let raw = ((s[0] as u128) << 120u32) | ((s[1] as u128) << 112u32) | ((s[2] as u128) << 104u32) | ((s[3] as u128) << 96u32) | ((s[4] as u128) << 88u32) | ((s[5] as u128) << 80u32) | ((s[6] as u128) << 72u32) | ((s[7] as u128) << 64u32) | ((s[8] as u128) << 56u32) | ((s[9] as u128) << 48u32) | ((s[10] as u128) << 40u32) | ((s[11] as u128) << 32u32) | ((s[12] as u128) << 24u32) | ((s[13] as u128) << 16u32) | ((s[14] as u128) << 8u32) | (s[15] as u128);
        #[verifier::truncate]
        let v = raw as i128;
        proof {
            assert(reader.bytes() =~= seq![s@[0], s@[1], s@[2], s@[3], s@[4], s@[5], s@[6], s@[7], s@[8], s@[9], s@[10], s@[11], s@[12], s@[13], s@[14], s@[15]]);
        }
        Ok(v)
    }
}

/// The encoding of an ordered sequence: each element framed, back to back.
/// No element count is stored; a decoder consumes blocks until its enclosing
/// block is exhausted.
pub open spec fn seq_enc<T: Storable>(v: Seq<<T as DeepView>::V>) -> Seq<u8>
    decreases v.len(),
{
    if v.len() == 0 {
        Seq::<u8>::empty()
    } else {
        frame(T::enc(v[0])) + seq_enc::<T>(v.skip(1))
    }
}

/// The decoding of an ordered sequence: framed elements peeled off until the
/// bytes are exhausted, `None` as soon as a frame or an element is
/// malformed.
pub open spec fn seq_dec<T: Storable>(b: Seq<u8>) -> Option<Seq<<T as DeepView>::V>>
    decreases b.len(),
{
    if b.len() == 0 {
        Some(Seq::<<T as DeepView>::V>::empty())
    } else {
        match take_block(b) {
            None => None,
            Some(p) => match T::dec(p.0) {
                None => None,
                Some(m) => match seq_dec::<T>(p.1) {
                    None => None,
                    Some(s) => Some(seq![m] + s),
                },
            },
        }
    }
}

/// The error a sequence decoder reports: a bad frame is a load error, a bad
/// element reports that element's own error.
pub open spec fn seq_dec_err<T: Storable>(b: Seq<u8>) -> DbError
    decreases b.len(),
{
    if b.len() == 0 {
        DbError::LoadError
    } else {
        match take_block(b) {
            None => DbError::LoadError,
            Some(p) => if T::dec(p.0) is None {
                T::dec_err(p.0)
            } else {
                seq_dec_err::<T>(p.1)
            },
        }
    }
}

/// Sequence decoding inverts sequence encoding.
pub proof fn lemma_seq_round_trip<T: Storable>(v: Seq<<T as DeepView>::V>)
    requires
        seq_enc::<T>(v).len() <= u32::MAX,
    ensures
        seq_dec::<T>(seq_enc::<T>(v)) == Some(v),
    decreases v.len(),
{
    if v.len() == 0 {
        assert(seq_dec::<T>(seq_enc::<T>(v)) == Some(Seq::<<T as DeepView>::V>::empty()));
        assert(v =~= Seq::<<T as DeepView>::V>::empty());
    } else {
        let e0 = T::enc(v[0]);
        let rest = seq_enc::<T>(v.skip(1));
        assert(seq_enc::<T>(v) == frame(e0) + rest);
        assert(frame(e0).len() == 4 + e0.len());
        crate::byte_reader::lemma_take_block_frame(e0, rest);
        T::lemma_round_trip(v[0]);
        lemma_seq_round_trip::<T>(v.skip(1));
        assert(seq![v[0]] + v.skip(1) =~= v);
    }
}

/// One more element extends the encoded sequence at its end.
pub proof fn lemma_seq_enc_snoc<T: Storable>(v: Seq<<T as DeepView>::V>, i: int)
    requires
        0 <= i < v.len(),
    ensures
        seq_enc::<T>(v.take(i + 1)) == seq_enc::<T>(v.take(i)) + frame(T::enc(v[i])),
    decreases i,
{
    if i == 0 {
        assert(v.take(0) =~= Seq::<<T as DeepView>::V>::empty());
        assert(v.take(1).skip(1) =~= Seq::<<T as DeepView>::V>::empty());
        assert(v.take(1)[0] == v[0]);
        assert(seq_enc::<T>(Seq::<<T as DeepView>::V>::empty()) == Seq::<u8>::empty());
        assert(seq_enc::<T>(v.take(1)) == frame(T::enc(v.take(1)[0])) + seq_enc::<T>(
            v.take(1).skip(1),
        ));
        assert(seq_enc::<T>(v.take(1)) =~= frame(T::enc(v[0])));
        assert(seq_enc::<T>(v.take(0)) + frame(T::enc(v[0])) =~= frame(T::enc(v[0])));
    } else {
        lemma_seq_enc_snoc::<T>(v.skip(1), i - 1);
        assert(v.take(i + 1).skip(1) =~= v.skip(1).take(i));
        assert(v.take(i).skip(1) =~= v.skip(1).take(i - 1));
        assert(v.take(i + 1)[0] == v[0]);
        assert(v.take(i)[0] == v[0]);
        assert(v.skip(1)[i - 1] == v[i]);
        assert(seq_enc::<T>(v.take(i + 1)) == frame(T::enc(v[0])) + seq_enc::<T>(
            v.skip(1).take(i),
        ));
        assert(seq_enc::<T>(v.take(i)) == frame(T::enc(v[0])) + seq_enc::<T>(
            v.skip(1).take(i - 1),
        ));
        assert(seq_enc::<T>(v.take(i + 1)) =~= seq_enc::<T>(v.take(i)) + frame(T::enc(v[i])));
    }
}

impl<T: Storable> Storable for Vec<T> {
    open spec fn spec_hash() -> Seq<u8> {
        sha1(fingerprint_input("Vec"@, seq!["inner"@], seq![T::spec_hash()]))
    }

    open spec fn enc(m: Seq<<T as DeepView>::V>) -> Seq<u8> {
        seq_enc::<T>(m)
    }

    open spec fn dec(b: Seq<u8>) -> Option<Seq<<T as DeepView>::V>> {
        seq_dec::<T>(b)
    }

    open spec fn dec_err(b: Seq<u8>) -> DbError {
        seq_dec_err::<T>(b)
    }

    proof fn lemma_round_trip(m: Seq<<T as DeepView>::V>) {
        lemma_seq_round_trip::<T>(m);
    }

    fn type_hash() -> (r: TypeHash) {
        let names: [&str; 1] = ["inner"];
        let types: [TypeHash; 1] = [T::type_hash()];
        let r = TypeHash::new("Vec", names.as_slice(), types.as_slice());
        proof {
            assert(names@.map_values(|s: &str| s@) =~= seq!["inner"@]);
            assert(types@.map_values(|t: TypeHash| t@) =~= seq![T::spec_hash()]);
        }
        r
    }

    fn inner_encoded(&self) -> (r: Vec<u8>) {
        let ghost m = self.deep_view();
        let mut r: Vec<u8> = Vec::new();
        let mut i: usize = 0;
        while i < self.len()
            invariant
                m == self.deep_view(),
                m.len() == self@.len(),
                i <= self@.len(),
                r@ == seq_enc::<T>(m.take(i as int)),
            decreases self@.len() - i,
        {
            let mut e = self[i].encoded();
            r.append(&mut e);
            proof {
                assert(m[i as int] == self@[i as int].deep_view());
                lemma_seq_enc_snoc::<T>(m, i as int);
            }
            i += 1;
        }
        proof {
            assert(m.take(m.len() as int) =~= m);
        }
        r
    }

    fn decoded(reader: ByteReader<'_>) -> (r: DbResult<Self>) {
        let ghost b0 = reader.bytes();
        let mut reader = reader;
        let mut res: Vec<T> = Vec::new();
        proof {
            assert(res.deep_view() =~= Seq::<<T as DeepView>::V>::empty());
        }
        #[verifier::loop_isolation(false)]
        while !reader.is_at_end()
            invariant
                reader.wf(),
                match seq_dec::<T>(reader.bytes()) {
                    Some(s) => seq_dec::<T>(b0) == Some(res.deep_view() + s),
                    None => seq_dec::<T>(b0) is None && seq_dec_err::<T>(b0) == seq_dec_err::<T>(
                        reader.bytes(),
                    ),
                },
            decreases reader.bytes().len(),
        {
            let ghost pre = reader.bytes();
            let block = match reader.reader_for_block() {
                Some(b) => b,
                None => {
                    proof {
                        assert(seq_dec::<T>(pre) is None);
                        assert(seq_dec_err::<T>(pre) == DbError::LoadError);
                    }
                    return Err(DbError::LoadError);
                },
            };
            let ghost blk = block.bytes();
            let ghost rest = reader.bytes();
            let v = match T::decoded(block) {
                Ok(v) => v,
                Err(e) => {
                    proof {
                        assert(seq_dec::<T>(pre) is None);
                        assert(seq_dec_err::<T>(pre) == T::dec_err(blk));
                    }
                    return Err(e);
                },
            };
            let ghost old_res = res.deep_view();
            res.push(v);
            proof {
                assert(res.deep_view() =~= old_res + seq![v.deep_view()]);
                assert(seq_dec::<T>(pre) == match seq_dec::<T>(rest) {
                    None => None::<Seq<<T as DeepView>::V>>,
                    Some(s) => Some(seq![v.deep_view()] + s),
                });
                if seq_dec::<T>(rest) is Some {
                    let s = seq_dec::<T>(rest).unwrap();
                    assert((old_res + seq![v.deep_view()]) + s =~= old_res + (seq![v.deep_view()]
                        + s));
                }
            }
        }
        proof {
            assert(seq_dec::<T>(reader.bytes()) == Some(Seq::<<T as DeepView>::V>::empty()));
            assert(res.deep_view() + Seq::<<T as DeepView>::V>::empty() =~= res.deep_view());
        }
        Ok(res)
    }
}


/// Word-sized integers are stored as 8 bytes whatever the platform's word
/// size, so table files keep one layout across machines; decoding refuses a
/// value the running platform's word cannot hold.
impl Storable for usize {
    open spec fn spec_hash() -> Seq<u8> {
        sha1(encode_utf8("usize"@))
    }

    open spec fn enc(m: usize) -> Seq<u8> {
        u64_be(m as u64)
    }

    open spec fn dec(b: Seq<u8>) -> Option<usize> {
        if b.len() == 8 && be_to_u64(b) <= usize::MAX {
            Some(be_to_u64(b) as usize)
        } else {
            None
        }
    }

    open spec fn dec_err(b: Seq<u8>) -> DbError {
        DbError::LoadError
    }

    proof fn lemma_round_trip(m: usize) {
        lemma_u64_be_round(m as u64);
    }

    fn type_hash() -> TypeHash {
        TypeHash::from_str("usize")
    }

    fn inner_encoded(&self) -> (r: Vec<u8>) {
        let x = *self as u64;
        let mut r: Vec<u8> = Vec::new();
        r.push((x >> 56u32) as u8);
        r.push((x >> 48u32) as u8);
        r.push((x >> 40u32) as u8);
        r.push((x >> 32u32) as u8);
        r.push((x >> 24u32) as u8);
        r.push((x >> 16u32) as u8);
        r.push((x >> 8u32) as u8);
        r.push(x as u8);
        proof {
            assert(r@ =~= u64_be(x));
        }
        r
    }

    fn decoded(reader: ByteReader<'_>) -> (r: DbResult<Self>) {
        let s = reader.read_byte_slice();
        if s.len() != 8 {
            return Err(DbError::LoadError);
        }
        let raw = ((s[0] as u64) << 56u32) | ((s[1] as u64) << 48u32) | ((s[2] as u64) << 40u32)
            | ((s[3] as u64) << 32u32) | ((s[4] as u64) << 24u32) | ((s[5] as u64) << 16u32) | ((
        s[6] as u64) << 8u32) | (s[7] as u64);
        proof {
            assert(reader.bytes() =~= seq![s@[0], s@[1], s@[2], s@[3], s@[4], s@[5], s@[6], s@[7]]);
        }
        if raw > (usize::MAX as u64) {
            return Err(DbError::LoadError);
        }
        Ok(raw as usize)
    }
}

/// Signed word-sized integers are stored as 8 bytes in two's complement,
/// like the 64-bit form; decoding refuses a value the running platform's
/// word cannot hold.
impl Storable for isize {
    open spec fn spec_hash() -> Seq<u8> {
        sha1(encode_utf8("isize"@))
    }

    open spec fn enc(m: isize) -> Seq<u8> {
        u64_be((m as i64) as u64)
    }

    open spec fn dec(b: Seq<u8>) -> Option<isize> {
        if b.len() == 8 && (isize::MIN as i64) <= (be_to_u64(b) as i64) <= (isize::MAX as i64) {
            Some((be_to_u64(b) as i64) as isize)
        } else {
            None
        }
    }

    open spec fn dec_err(b: Seq<u8>) -> DbError {
        DbError::LoadError
    }

    proof fn lemma_round_trip(m: isize) {
        lemma_u64_be_round((m as i64) as u64);
        let v = m as i64;
        assert(((v as u64) as i64) == v) by (bit_vector);
    }

    fn type_hash() -> TypeHash {
        TypeHash::from_str("isize")
    }

    fn inner_encoded(&self) -> (r: Vec<u8>) {
        #[verifier::truncate]
        let x = (*self as i64) as u64;
        let mut r: Vec<u8> = Vec::new();
        r.push((x >> 56u32) as u8);
        r.push((x >> 48u32) as u8);
        r.push((x >> 40u32) as u8);
        r.push((x >> 32u32) as u8);
        r.push((x >> 24u32) as u8);
        r.push((x >> 16u32) as u8);
        r.push((x >> 8u32) as u8);
        r.push(x as u8);
        proof {
            assert(r@ =~= u64_be(x));
        }
        r
    }

    fn decoded(reader: ByteReader<'_>) -> (r: DbResult<Self>) {
        let s = reader.read_byte_slice();
        if s.len() != 8 {
            return Err(DbError::LoadError);
        }
        let raw = ((s[0] as u64) << 56u32) | ((s[1] as u64) << 48u32) | ((s[2] as u64) << 40u32)
            | ((s[3] as u64) << 32u32) | ((s[4] as u64) << 24u32) | ((s[5] as u64) << 16u32) | ((
        s[6] as u64) << 8u32) | (s[7] as u64);
        proof {
            assert(reader.bytes() =~= seq![s@[0], s@[1], s@[2], s@[3], s@[4], s@[5], s@[6], s@[7]]);
        }
        #[verifier::truncate]
        let v = raw as i64;
        if v < (isize::MIN as i64) || v > (isize::MAX as i64) {
            return Err(DbError::LoadError);
        }
        Ok(v as isize)
    }
}

/// Relies on `String::from_utf8`: it returns a string exactly when the bytes
/// are valid UTF-8, and that string's UTF-8 bytes are exactly the input.
#[verifier::external_body]
fn string_from_utf8(v: Vec<u8>) -> (r: Option<String>)
    ensures
        match r {
            Some(s) => valid_utf8(v@) && encode_utf8(s@) == v@,
            None => !valid_utf8(v@),
        },
{
    String::from_utf8(v).ok()
}

} // verus!
