//! Schema fingerprints. A fingerprint is the 20-byte digest of a type's
//! name, its field names in declared order, and each field's own fingerprint
//! bytes. It is the sole schema-identity mechanism and doubles as the stable
//! file-naming key, through a URL-safe textual code of 28 characters.

use vstd::prelude::*;
use vstd::string::StringSliceAdditionalSpecFns;
use vstd::utf8::encode_utf8;

use crate::sha::{sha1, Sha1};

verus! {

/// The URL-safe code of one 6-bit digit: letters, digits, `-` and `_`.
pub open spec fn enc_digit(d: u8) -> u8
    recommends
        d < 64,
{
    if d < 26 {
        (65 + d) as u8
    } else if d < 52 {
        (71 + d) as u8
    } else if d < 62 {
        (d - 4) as u8
    } else if d == 62 {
        45u8
    } else {
        95u8
    }
}

/// The 6-bit digit a code byte stands for: `=` counts as 0, anything outside
/// the alphabet is refused.
pub open spec fn dec_digit(e: u8) -> Option<u8> {
    if 65 <= e <= 90 {
        Some((e - 65) as u8)
    } else if 97 <= e <= 122 {
        Some((e - 71) as u8)
    } else if 48 <= e <= 57 {
        Some((e + 4) as u8)
    } else if e == 45 {
        Some(62u8)
    } else if e == 95 {
        Some(63u8)
    } else if e == 61 {
        Some(0u8)
    } else {
        None
    }
}

/// One full 3-byte group encoded as 4 code bytes.
pub open spec fn enc3(b0: u8, b1: u8, b2: u8) -> Seq<u8> {
    seq![
        enc_digit(b0 >> 2),
        enc_digit(((b0 << 4) | (b1 >> 4)) & 0x3f),
        enc_digit(((b1 << 2) | (b2 >> 6)) & 0x3f),
        enc_digit(b2 & 0x3f),
    ]
}

/// The final 2-byte group encoded as 3 code bytes and a `=` mark.
pub open spec fn enc2(b0: u8, b1: u8) -> Seq<u8> {
    seq![
        enc_digit(b0 >> 2),
        enc_digit(((b0 << 4) | (b1 >> 4)) & 0x3f),
        enc_digit((b1 << 2) & 0x3f),
        61,
    ]
}

/// The 28 code bytes of 20 digest bytes: six full groups and one final
/// group.
pub open spec fn encode_hash_bytes(h: Seq<u8>) -> Seq<u8>
    recommends
        h.len() == 20,
{
    enc3(h[0], h[1], h[2]) + enc3(h[3], h[4], h[5]) + enc3(h[6], h[7], h[8]) + enc3(
        h[9],
        h[10],
        h[11],
    ) + enc3(h[12], h[13], h[14]) + enc3(h[15], h[16], h[17]) + enc2(h[18], h[19])
}

/// The 28-character textual code of 20 digest bytes. Every code byte is
/// ASCII, so the characters are the code bytes themselves.
pub open spec fn encode_hash(h: Seq<u8>) -> Seq<char>
    recommends
        h.len() == 20,
{
    encode_hash_bytes(h).map_values(|b: u8| b as char)
}

/// Four code bytes at offset `o` decoded back to 3 bytes; the group must not
/// end in `=`.
pub open spec fn dec_group3(b: Seq<u8>, o: int) -> Option<Seq<u8>>
    recommends
        0 <= o,
        o + 4 <= b.len(),
{
    if dec_digit(b[o]) is Some && dec_digit(b[o + 1]) is Some && dec_digit(b[o + 2]) is Some
        && dec_digit(b[o + 3]) is Some && b[o + 3] != 61 {
        let d0 = dec_digit(b[o]).unwrap();
        let d1 = dec_digit(b[o + 1]).unwrap();
        let d2 = dec_digit(b[o + 2]).unwrap();
        let d3 = dec_digit(b[o + 3]).unwrap();
        Some(seq![(d0 << 2) | (d1 >> 4), (d1 << 4) | (d2 >> 2), (d2 << 6) | d3])
    } else {
        None
    }
}

/// Four code bytes at offset `o` decoded back to 2 bytes; the group must end
/// in `=`.
pub open spec fn dec_group2(b: Seq<u8>, o: int) -> Option<Seq<u8>>
    recommends
        0 <= o,
        o + 4 <= b.len(),
{
    if dec_digit(b[o]) is Some && dec_digit(b[o + 1]) is Some && dec_digit(b[o + 2]) is Some && b[o
        + 3] == 61 {
        let d0 = dec_digit(b[o]).unwrap();
        let d1 = dec_digit(b[o + 1]).unwrap();
        let d2 = dec_digit(b[o + 2]).unwrap();
        Some(seq![(d0 << 2) | (d1 >> 4), (d1 << 4) | (d2 >> 2)])
    } else {
        None
    }
}

/// The first `c` full groups of a textual code decoded and joined, `None` as
/// soon as one group is malformed.
pub open spec fn dec_groups(b: Seq<u8>, c: int) -> Option<Seq<u8>>
    recommends
        0 <= c,
        4 * c <= b.len(),
    decreases c,
{
    if c <= 0 {
        Some(Seq::<u8>::empty())
    } else if dec_groups(b, c - 1) is Some && dec_group3(b, 4 * (c - 1)) is Some {
        Some(dec_groups(b, c - 1).unwrap() + dec_group3(b, 4 * (c - 1)).unwrap())
    } else {
        None
    }
}

/// The 20 digest bytes read back from the 28 bytes of a textual code, or
/// `None` where the text is no well-formed code: six full groups, then the
/// final group.
pub open spec fn decode_hash(b: Seq<u8>) -> Option<Seq<u8>> {
    if b.len() == 28 && dec_groups(b, 6) is Some && dec_group2(b, 24) is Some {
        Some(dec_groups(b, 6).unwrap() + dec_group2(b, 24).unwrap())
    } else {
        None
    }
}

/// Once a full group is malformed, every longer join of groups is `None`.
proof fn lemma_dec_groups_none(b: Seq<u8>, c: int, c2: int)
    requires
        0 <= c < c2,
        dec_group3(b, 4 * c) is None,
    ensures
        dec_groups(b, c2) is None,
    decreases c2,
{
    if c2 - 1 == c {
        assert(dec_groups(b, c2) is None);
    } else {
        lemma_dec_groups_none(b, c, c2 - 1);
    }
}

/// The byte stream a fingerprint digests for the fields: each field's name
/// as UTF-8, then that field's own fingerprint bytes, in declared order.
pub open spec fn fields_bytes(fnames: Seq<Seq<char>>, ftypes: Seq<Seq<u8>>) -> Seq<u8>
    recommends
        fnames.len() == ftypes.len(),
    decreases fnames.len(),
{
    if fnames.len() == 0 {
        Seq::<u8>::empty()
    } else {
        encode_utf8(fnames[0]) + ftypes[0] + fields_bytes(fnames.skip(1), ftypes.skip(1))
    }
}

/// The whole byte stream a type's fingerprint digests: its name as UTF-8,
/// then its fields. Opaque: a fingerprint is a deterministic function of the
/// declared shape, which is all callers rely on.
#[verifier::opaque]
pub open spec fn fingerprint_input(
    name: Seq<char>,
    fnames: Seq<Seq<char>>,
    ftypes: Seq<Seq<u8>>,
) -> Seq<u8> {
    encode_utf8(name) + fields_bytes(fnames, ftypes)
}

/// A 20-byte schema fingerprint.
#[derive(Debug, PartialEq, Eq, Hash, Clone, Copy)]
pub struct TypeHash {
    hash: [u8; 20],
}

impl View for TypeHash {
    type V = Seq<u8>;

    closed spec fn view(&self) -> Seq<u8> {
        self.hash@
    }
}

impl TypeHash {
    /// The fingerprint of a declared type shape: digest of the type name,
    /// then, for each field in order, the field name and the field type's
    /// own fingerprint. Fingerprint equality is the codec's only
    /// compatibility check, so distinct shapes must be given distinct names.
    pub fn new(name: &str, field_names: &[&str], field_types: &[TypeHash]) -> (r: TypeHash)
        requires
            field_names@.len() == field_types@.len(),
        ensures
            r@ == sha1(
                fingerprint_input(
                    name@,
                    field_names@.map_values(|s: &str| s@),
                    field_types@.map_values(|t: TypeHash| t@),
                ),
            ),
    {
        let ghost fnames = field_names@.map_values(|s: &str| s@);
        let ghost ftypes = field_types@.map_values(|t: TypeHash| t@);
        let mut sha = Sha1::new().update(name.as_bytes());
        proof {
            assert(sha@ =~= encode_utf8(name@));
        }
        let mut i: usize = 0;
        while i < field_names.len()
            invariant
                field_names@.len() == field_types@.len(),
                fnames == field_names@.map_values(|s: &str| s@),
                ftypes == field_types@.map_values(|t: TypeHash| t@),
                i <= field_names@.len(),
                sha@ == encode_utf8(name@) + fields_bytes(fnames.take(i as int), ftypes.take(i as int)),
            decreases field_names@.len() - i,
        {
            let fname: &str = field_names[i];
            sha = sha.update(fname.as_bytes());
            sha = sha.update(field_types[i].as_bytes());
            proof {
                lemma_fields_bytes_snoc(fnames, ftypes, i as int);
            }
            i += 1;
        }
        proof {
            assert(fnames.take(fnames.len() as int) =~= fnames);
            assert(ftypes.take(ftypes.len() as int) =~= ftypes);
            reveal(fingerprint_input);
        }
        Self::from_digest(sha.finalize())
    }

    /// The fingerprint of a primitive: the digest of its name alone.
    pub fn from_str(src: &str) -> (r: TypeHash)
        ensures
            r@ == sha1(encode_utf8(src@)),
    {
        let sha = Sha1::new().update(src.as_bytes());
        proof {
            assert(sha@ =~= encode_utf8(src@));
        }
        Self::from_digest(sha.finalize())
    }

    /// A fingerprint from raw digest bytes.
    pub fn from_raw(hash: [u8; 20]) -> (r: TypeHash)
        ensures
            r@ == hash@,
    {
        TypeHash { hash }
    }

    /// A fingerprint from a 20-byte digest vector.
    fn from_digest(d: Vec<u8>) -> (r: TypeHash)
        requires
            d@.len() == 20,
        ensures
            r@ == d@,
    {
        let mut hash = [0u8; 20];
        let mut i: usize = 0;
        while i < 20
            invariant
                d@.len() == 20,
                i <= 20,
                hash@.len() == 20,
                forall|j: int| 0 <= j < i ==> hash@[j] == d@[j],
            decreases 20 - i,
        {
            hash[i] = d[i];
            i += 1;
        }
        let r = TypeHash { hash };
        proof {
            assert(r@ =~= d@);
        }
        r
    }

    /// The digest bytes.
    pub fn as_bytes(&self) -> (r: &[u8])
        ensures
            r@ == self@,
    {
        self.hash.as_slice()
    }

    /// The URL-safe 28-character textual code of this fingerprint, used as
    /// the stable file-naming key.
    pub fn encode(self) -> (r: String)
        ensures
            r@ == encode_hash(self@),
    {
        let h = &self.hash;
        let mut codes: Vec<u8> = Vec::with_capacity(28);
        push_group3(&mut codes, h[0], h[1], h[2]);
        push_group3(&mut codes, h[3], h[4], h[5]);
        push_group3(&mut codes, h[6], h[7], h[8]);
        push_group3(&mut codes, h[9], h[10], h[11]);
        push_group3(&mut codes, h[12], h[13], h[14]);
        push_group3(&mut codes, h[15], h[16], h[17]);
        push_group2(&mut codes, h[18], h[19]);
        proof {
            assert(codes@ =~= encode_hash_bytes(self@));
            broadcast use lemma_enc_digit_ascii;

            assert forall|i: int| 0 <= i < codes@.len() implies codes@[i] < 128 by {
                assert(encode_hash_bytes(self@)[i] < 128);
            }
        }
        let r = ascii_to_string(codes);
        proof {
            assert(r@ =~= encode_hash(self@));
        }
        r
    }

    /// The fingerprint a textual code names, or `None` where the text is no
    /// well-formed code: it must be 28 bytes, all from the code alphabet,
    /// with a `=` mark closing the last group and no earlier one.
    pub fn decode(data: &str) -> (r: Option<TypeHash>)
        ensures
            match r {
                Some(t) => decode_hash(data.spec_bytes()) == Some(t@),
                None => decode_hash(data.spec_bytes()) is None,
            },
    {
        let s: &[u8] = data.as_bytes();
        if s.len() != 28 {
            return None;
        }
        let mut out: Vec<u8> = Vec::with_capacity(20);
        let mut c: usize = 0;
        while c < 6
            invariant
                c <= 6,
                s@.len() == 28,
                s@ == data.spec_bytes(),
                out@.len() == 3 * c,
                dec_groups(s@, c as int) == Some(out@),
            decreases 6 - c,
        {
            let o = 4 * c;
            let e3 = s[o + 3];
            let (d0, d1, d2, d3) = match (get_dec(s[o]), get_dec(s[o + 1]), get_dec(s[o + 2]), get_dec(e3)) {
                (Some(d0), Some(d1), Some(d2), Some(d3)) => (d0, d1, d2, d3),
                _ => {
                    proof {
                        assert(dec_group3(s@, 4 * c as int) is None);
                        lemma_dec_groups_none(s@, c as int, 6);
                    }
                    return None;
                },
            };
            if e3 == 61 {
                proof {
                    assert(dec_group3(s@, 4 * c as int) is None);
                    lemma_dec_groups_none(s@, c as int, 6);
                }
                return None;
            }
            out.push((d0 << 2) | (d1 >> 4));
            out.push((d1 << 4) | (d2 >> 2));
            out.push((d2 << 6) | d3);
            c += 1;
            proof {
                assert(dec_group3(s@, 4 * (c as int - 1)).unwrap() =~= seq![
                    (d0 << 2) | (d1 >> 4),
                    (d1 << 4) | (d2 >> 2),
                    (d2 << 6) | d3,
                ]);
                assert(dec_groups(s@, c as int) == Some(out@)) by {
                    assert(out@ =~= dec_groups(s@, c as int - 1).unwrap() + dec_group3(
                        s@,
                        4 * (c as int - 1),
                    ).unwrap());
                };
            }
        }
        let (d0, d1, d2) = match (get_dec(s[24]), get_dec(s[25]), get_dec(s[26])) {
            (Some(d0), Some(d1), Some(d2)) => (d0, d1, d2),
            _ => {
                proof {
                    assert(dec_group2(s@, 24) is None);
                }
                return None;
            },
        };
        if s[27] != 61 {
            proof {
                assert(dec_group2(s@, 24) is None);
            }
            return None;
        }
        out.push((d0 << 2) | (d1 >> 4));
        out.push((d1 << 4) | (d2 >> 2));
        proof {
            assert(dec_group2(s@, 24).unwrap() =~= seq![(d0 << 2) | (d1 >> 4), (d1 << 4) | (d2 >> 2)]);
            assert(out@ =~= dec_groups(s@, 6).unwrap() + dec_group2(s@, 24).unwrap());
        }
        Some(Self::from_digest(out))
    }

    /// Whether two fingerprints hold the same digest bytes.
    pub fn matches(&self, other: &TypeHash) -> (r: bool)
        ensures
            r == (self@ == other@),
    {
        let mut i: usize = 0;
        while i < 20
            invariant
                i <= 20,
                forall|j: int| 0 <= j < i ==> self@[j] == other@[j],
            decreases 20 - i,
        {
            if self.hash[i] != other.hash[i] {
                return false;
            }
            i += 1;
        }
        proof {
            assert(self@ =~= other@);
        }
        true
    }
}

/// Every code byte of the alphabet is ASCII.
pub broadcast proof fn lemma_enc_digit_ascii(d: u8)
    ensures
        #[trigger] enc_digit(d) < 128,
{
}

/// The code byte of one 6-bit digit.
fn get_enc(d: u8) -> (r: u8)
    requires
        d < 64,
    ensures
        r == enc_digit(d),
{
    if d < 26 {
        65 + d
    } else if d < 52 {
        71 + d
    } else if d < 62 {
        d - 4
    } else if d == 62 {
        45
    } else {
        95
    }
}

/// The 6-bit digit of one code byte, `None` outside the alphabet.
fn get_dec(e: u8) -> (r: Option<u8>)
    ensures
        r == dec_digit(e),
{
    if 65 <= e && e <= 90 {
        Some(e - 65)
    } else if 97 <= e && e <= 122 {
        Some(e - 71)
    } else if 48 <= e && e <= 57 {
        Some(e + 4)
    } else if e == 45 {
        Some(62)
    } else if e == 95 {
        Some(63)
    } else if e == 61 {
        Some(0)
    } else {
        None
    }
}

/// Append the 4 code bytes of one full 3-byte group.
fn push_group3(codes: &mut Vec<u8>, b0: u8, b1: u8, b2: u8)
    ensures
        final(codes)@ == old(codes)@ + enc3(b0, b1, b2),
{
    proof {
        assert(b0 >> 2 < 64 && ((b0 << 4) | (b1 >> 4)) & 0x3f < 64 && ((b1 << 2) | (b2 >> 6))
            & 0x3f < 64 && b2 & 0x3f < 64) by (bit_vector);
    }
    codes.push(get_enc(b0 >> 2));
    codes.push(get_enc(((b0 << 4) | (b1 >> 4)) & 0x3f));
    codes.push(get_enc(((b1 << 2) | (b2 >> 6)) & 0x3f));
    codes.push(get_enc(b2 & 0x3f));
    proof {
        assert(final(codes)@ =~= old(codes)@ + enc3(b0, b1, b2));
    }
}

/// Append the 3 code bytes and the `=` mark of the final 2-byte group.
fn push_group2(codes: &mut Vec<u8>, b0: u8, b1: u8)
    ensures
        final(codes)@ == old(codes)@ + enc2(b0, b1),
{
    proof {
        assert(b0 >> 2 < 64 && ((b0 << 4) | (b1 >> 4)) & 0x3f < 64 && (b1 << 2) & 0x3f
            < 64) by (bit_vector);
    }
    codes.push(get_enc(b0 >> 2));
    codes.push(get_enc(((b0 << 4) | (b1 >> 4)) & 0x3f));
    codes.push(get_enc((b1 << 2) & 0x3f));
    codes.push(61);
    proof {
        assert(final(codes)@ =~= old(codes)@ + enc2(b0, b1));
    }
}

/// Relies on `String::from_utf8`: ASCII bytes are valid UTF-8 and decode to
/// the string whose characters are exactly those bytes.
#[verifier::external_body]
fn ascii_to_string(codes: Vec<u8>) -> (r: String)
    requires
        forall|i: int| 0 <= i < codes@.len() ==> codes@[i] < 128,
    ensures
        r@ == codes@.map_values(|b: u8| b as char),
{
    String::from_utf8(codes).unwrap_or_default()
}

/// Decoding inverts encoding, digit by digit; no alphabet byte is the `=`
/// mark.
proof fn lemma_enc_dec(d: u8)
    requires
        d < 64,
    ensures
        dec_digit(enc_digit(d)) == Some(d),
        enc_digit(d) != 61,
{
}

/// A full group decodes back to its 3 bytes, wherever it stands.
proof fn lemma_group3_round(b: Seq<u8>, o: int, b0: u8, b1: u8, b2: u8)
    requires
        0 <= o,
        o + 4 <= b.len(),
        b.subrange(o, o + 4) == enc3(b0, b1, b2),
    ensures
        dec_group3(b, o) == Some(seq![b0, b1, b2]),
{
    assert(b[o] == enc_digit(b0 >> 2));
    assert(b[o + 1] == enc_digit(((b0 << 4) | (b1 >> 4)) & 0x3f));
    assert(b[o + 2] == enc_digit(((b1 << 2) | (b2 >> 6)) & 0x3f));
    assert(b[o + 3] == enc_digit(b2 & 0x3f));
    assert(b0 >> 2 < 64 && ((b0 << 4) | (b1 >> 4)) & 0x3f < 64 && ((b1 << 2) | (b2 >> 6)) & 0x3f
        < 64 && b2 & 0x3f < 64) by (bit_vector);
    lemma_enc_dec(b0 >> 2);
    lemma_enc_dec(((b0 << 4) | (b1 >> 4)) & 0x3f);
    lemma_enc_dec(((b1 << 2) | (b2 >> 6)) & 0x3f);
    lemma_enc_dec(b2 & 0x3f);
    assert((((b0 >> 2) << 2) | ((((b0 << 4) | (b1 >> 4)) & 0x3f) >> 4)) == b0) by (bit_vector);
    assert((((((b0 << 4) | (b1 >> 4)) & 0x3f) << 4) | ((((b1 << 2) | (b2 >> 6)) & 0x3f) >> 2))
        == b1) by (bit_vector);
    assert((((((b1 << 2) | (b2 >> 6)) & 0x3f) << 6) | (b2 & 0x3f)) == b2) by (bit_vector);
    assert(dec_group3(b, o).unwrap() =~= seq![b0, b1, b2]);
}

/// The final group decodes back to its 2 bytes.
proof fn lemma_group2_round(b: Seq<u8>, o: int, b0: u8, b1: u8)
    requires
        0 <= o,
        o + 4 <= b.len(),
        b.subrange(o, o + 4) == enc2(b0, b1),
    ensures
        dec_group2(b, o) == Some(seq![b0, b1]),
{
    assert(b[o] == enc_digit(b0 >> 2));
    assert(b[o + 1] == enc_digit(((b0 << 4) | (b1 >> 4)) & 0x3f));
    assert(b[o + 2] == enc_digit((b1 << 2) & 0x3f));
    assert(b[o + 3] == 61);
    assert(b0 >> 2 < 64 && ((b0 << 4) | (b1 >> 4)) & 0x3f < 64 && (b1 << 2) & 0x3f
        < 64) by (bit_vector);
    lemma_enc_dec(b0 >> 2);
    lemma_enc_dec(((b0 << 4) | (b1 >> 4)) & 0x3f);
    lemma_enc_dec((b1 << 2) & 0x3f);
    assert((((b0 >> 2) << 2) | ((((b0 << 4) | (b1 >> 4)) & 0x3f) >> 4)) == b0) by (bit_vector);
    assert((((((b0 << 4) | (b1 >> 4)) & 0x3f) << 4) | (((b1 << 2) & 0x3f) >> 2))
        == b1) by (bit_vector);
    assert(dec_group2(b, o).unwrap() =~= seq![b0, b1]);
}

/// Decoding a fingerprint's own textual code gives the fingerprint back:
/// the code round-trips through its UTF-8 text.
#[verifier::rlimit(100)]
pub proof fn lemma_code_round_trip(h: Seq<u8>)
    requires
        h.len() == 20,
    ensures
        decode_hash(encode_utf8(encode_hash(h))) == Some(h),
{
    let bytes = encode_hash_bytes(h);
    let chars = encode_hash(h);
    broadcast use lemma_enc_digit_ascii;

    assert forall|i: int| 0 <= i < chars.len() implies '\0' <= #[trigger] chars[i] <= '\u{7f}' by {
        assert(bytes[i] < 128);
        assert(chars[i] == bytes[i] as char);
    }
    assert(vstd::utf8::is_ascii_chars(chars));
    vstd::utf8::is_ascii_chars_encode_utf8(chars);
    assert(encode_utf8(chars) =~= bytes) by {
        assert forall|i: int| 0 <= i < chars.len() implies encode_utf8(chars)[i] == bytes[i] by {
            assert(chars[i] as u8 == encode_utf8(chars)[i]);
            assert(chars[i] == bytes[i] as char);
            assert(bytes[i] < 128);
        }
    }
    assert(bytes.len() == 28);
    assert(bytes.subrange(0, 4) =~= enc3(h[0], h[1], h[2]));
    assert(bytes.subrange(4, 8) =~= enc3(h[3], h[4], h[5]));
    assert(bytes.subrange(8, 12) =~= enc3(h[6], h[7], h[8]));
    assert(bytes.subrange(12, 16) =~= enc3(h[9], h[10], h[11]));
    assert(bytes.subrange(16, 20) =~= enc3(h[12], h[13], h[14]));
    assert(bytes.subrange(20, 24) =~= enc3(h[15], h[16], h[17]));
    assert(bytes.subrange(24, 28) =~= enc2(h[18], h[19]));
    lemma_group3_round(bytes, 0, h[0], h[1], h[2]);
    lemma_group3_round(bytes, 4, h[3], h[4], h[5]);
    lemma_group3_round(bytes, 8, h[6], h[7], h[8]);
    lemma_group3_round(bytes, 12, h[9], h[10], h[11]);
    lemma_group3_round(bytes, 16, h[12], h[13], h[14]);
    lemma_group3_round(bytes, 20, h[15], h[16], h[17]);
    lemma_group2_round(bytes, 24, h[18], h[19]);
    assert(dec_groups(bytes, 0) == Some(Seq::<u8>::empty()));
    assert(dec_groups(bytes, 1) == Some(dec_groups(bytes, 0).unwrap() + dec_group3(
        bytes,
        0,
    ).unwrap()));
    assert(dec_groups(bytes, 2) == Some(dec_groups(bytes, 1).unwrap() + dec_group3(
        bytes,
        4,
    ).unwrap()));
    assert(dec_groups(bytes, 3) == Some(dec_groups(bytes, 2).unwrap() + dec_group3(
        bytes,
        8,
    ).unwrap()));
    assert(dec_groups(bytes, 4) == Some(dec_groups(bytes, 3).unwrap() + dec_group3(
        bytes,
        12,
    ).unwrap()));
    assert(dec_groups(bytes, 5) == Some(dec_groups(bytes, 4).unwrap() + dec_group3(
        bytes,
        16,
    ).unwrap()));
    assert(dec_groups(bytes, 6) == Some(dec_groups(bytes, 5).unwrap() + dec_group3(
        bytes,
        20,
    ).unwrap()));
    assert(decode_hash(bytes).unwrap() =~= h);
}

/// One more field extends the digested fields stream at its end.
proof fn lemma_fields_bytes_snoc(fnames: Seq<Seq<char>>, ftypes: Seq<Seq<u8>>, i: int)
    requires
        fnames.len() == ftypes.len(),
        0 <= i < fnames.len(),
    ensures
        fields_bytes(fnames.take(i + 1), ftypes.take(i + 1)) == fields_bytes(
            fnames.take(i),
            ftypes.take(i),
        ) + encode_utf8(fnames[i]) + ftypes[i],
    decreases i,
{
    if i == 0 {
        assert(fnames.take(0) =~= Seq::<Seq<char>>::empty());
        assert(fnames.take(1).skip(1) =~= Seq::<Seq<char>>::empty());
        assert(ftypes.take(1).skip(1) =~= Seq::<Seq<u8>>::empty());
        assert(fnames.take(1)[0] == fnames[0]);
        assert(ftypes.take(1)[0] == ftypes[0]);
        assert(fields_bytes(Seq::<Seq<char>>::empty(), Seq::<Seq<u8>>::empty())
            == Seq::<u8>::empty());
        assert(fields_bytes(fnames.take(1), ftypes.take(1)) == encode_utf8(fnames.take(1)[0])
            + ftypes.take(1)[0] + fields_bytes(fnames.take(1).skip(1), ftypes.take(1).skip(1)));
        assert(fields_bytes(fnames.take(1), ftypes.take(1)) =~= encode_utf8(fnames[0]) + ftypes[0]);
        assert(fields_bytes(fnames.take(0), ftypes.take(0)) + encode_utf8(fnames[0]) + ftypes[0]
            =~= encode_utf8(fnames[0]) + ftypes[0]);
    } else {
        lemma_fields_bytes_snoc(fnames.skip(1), ftypes.skip(1), i - 1);
        assert(fnames.take(i + 1).skip(1) =~= fnames.skip(1).take(i));
        assert(ftypes.take(i + 1).skip(1) =~= ftypes.skip(1).take(i));
        assert(fnames.take(i).skip(1) =~= fnames.skip(1).take(i - 1));
        assert(ftypes.take(i).skip(1) =~= ftypes.skip(1).take(i - 1));
        assert(fnames.take(i + 1)[0] == fnames[0]);
        assert(ftypes.take(i + 1)[0] == ftypes[0]);
        assert(fnames.take(i)[0] == fnames[0]);
        assert(ftypes.take(i)[0] == ftypes[0]);
        assert(fnames.skip(1)[i - 1] == fnames[i]);
        assert(ftypes.skip(1)[i - 1] == ftypes[i]);
        assert(fields_bytes(fnames.take(i + 1), ftypes.take(i + 1)) == encode_utf8(fnames[0])
            + ftypes[0] + fields_bytes(fnames.skip(1).take(i), ftypes.skip(1).take(i)));
        assert(fields_bytes(fnames.take(i), ftypes.take(i)) == encode_utf8(fnames[0]) + ftypes[0]
            + fields_bytes(fnames.skip(1).take(i - 1), ftypes.skip(1).take(i - 1)));
        assert(fields_bytes(fnames.take(i + 1), ftypes.take(i + 1)) =~= fields_bytes(
            fnames.take(i),
            ftypes.take(i),
        ) + encode_utf8(fnames[i]) + ftypes[i]);
    }
}

} // verus!
