//! The binary codec and the fingerprinting scheme, exercised on concrete
//! values: round trips, exact digests, exact encodings, and malformed input.

use somedb::byte_reader::ByteReader;
use somedb::sha::Sha1;
use somedb::storable::Storable;
use somedb::type_hash::TypeHash;

fn frame(mut inner: Vec<u8>) -> Vec<u8> {
    let mut out = (inner.len() as u32).to_be_bytes().to_vec();
    out.append(&mut inner);
    out
}

fn decode_whole<T: Storable>(bytes: &[u8]) -> T {
    let mut rd = ByteReader::new(bytes);
    let block = rd.reader_for_block().expect("framed block");
    T::decoded(block).expect("well-formed encoding")
}

#[test]
fn code_roundtrip() {
    let start = TypeHash::from_str("abc");
    let end = TypeHash::decode(&start.clone().encode()).expect("own code decodes");
    assert_eq!(start, end);
}

#[test]
fn digest_of_abc_is_exact() {
    let h = TypeHash::from_str("abc");
    let expected: [u8; 20] = [
        169, 153, 62, 54, 71, 6, 129, 106, 186, 62, 37, 113, 120, 80, 194, 108, 156, 208, 216,
        157,
    ];
    assert_eq!(h.as_bytes(), &expected);
}

#[test]
fn encoded_fingerprint_is_exact() {
    let h = TypeHash::from_str("abc");
    assert_eq!(h.encode(), "qZk-NkcGgWq6PiVxeFDCbJzQ2J0=");
}

#[test]
fn decode_refuses_malformed_codes() {
    assert!(TypeHash::decode("").is_none());
    assert!(TypeHash::decode("qZk-NkcGgWq6PiVxeFDCbJzQ2J0").is_none());
    assert!(TypeHash::decode("qZk-NkcGgWq6PiVxeFDCbJzQ2J0!").is_none());
    assert!(TypeHash::decode("qZk-NkcGgWq6PiVxeFDCbJzQ2J00").is_none());
    assert!(TypeHash::decode("qZk=NkcGgWq6PiVxeFDCbJzQ2J0=").is_none());
}

#[test]
fn integers_round_trip() {
    let e = 0xDEADBEEFu32.encoded();
    assert_eq!(e, vec![0, 0, 0, 4, 0xDE, 0xAD, 0xBE, 0xEF]);
    assert_eq!(decode_whole::<u32>(&e), 0xDEADBEEF);
    assert_eq!(decode_whole::<u8>(&7u8.encoded()), 7);
    assert_eq!(decode_whole::<u16>(&65535u16.encoded()), 65535);
    assert_eq!(decode_whole::<u64>(&u64::MAX.encoded()), u64::MAX);
    assert_eq!(decode_whole::<u128>(&u128::MAX.encoded()), u128::MAX);
    assert_eq!(decode_whole::<i8>(&(-5i8).encoded()), -5);
    assert_eq!(decode_whole::<i16>(&(-300i16).encoded()), -300);
    assert_eq!(decode_whole::<i32>(&(-7i32).encoded()), -7);
    assert_eq!(decode_whole::<i64>(&i64::MIN.encoded()), i64::MIN);
    assert_eq!(decode_whole::<i128>(&i128::MIN.encoded()), i128::MIN);
    assert_eq!(decode_whole::<usize>(&usize::MAX.encoded()), usize::MAX);
    assert_eq!(decode_whole::<isize>(&isize::MIN.encoded()), isize::MIN);
}

#[test]
fn strings_round_trip() {
    let s = String::from("Hello, World! \u{00e9}\u{6f22}");
    let e = s.encoded();
    assert_eq!(decode_whole::<String>(&e), s);
    let empty = String::new();
    assert_eq!(decode_whole::<String>(&empty.encoded()), empty);
}

#[test]
fn string_decode_refuses_invalid_utf8() {
    let blob = frame(vec![0xFF, 0xFE]);
    let mut rd = ByteReader::new(blob.as_slice());
    let block = rd.reader_for_block().expect("framed block");
    assert!(<String as Storable>::decoded(block).is_err());
}

#[test]
fn vectors_round_trip() {
    let v: Vec<u32> = vec![1, 2, 3, 0xFFFF_FFFF];
    assert_eq!(decode_whole::<Vec<u32>>(&v.encoded()), v);
    let empty: Vec<u32> = vec![];
    assert_eq!(decode_whole::<Vec<u32>>(&empty.encoded()), empty);
    let nested: Vec<Vec<u32>> = vec![vec![1], vec![], vec![2, 3]];
    assert_eq!(decode_whole::<Vec<Vec<u32>>>(&nested.encoded()), nested);
}

#[test]
fn struct_encoding_is_exact() {
    let e = somedb::sample::MyStruct { id: 7, data: String::from("hi") };
    assert_eq!(
        e.encoded(),
        vec![0, 0, 0, 14, 0, 0, 0, 4, 0, 0, 0, 7, 0, 0, 0, 2, 104, 105]
    );
    let back: somedb::sample::MyStruct = decode_whole(&e.encoded());
    assert_eq!(back, e);
}

#[test]
fn reader_refuses_truncated_frames() {
    let mut rd = ByteReader::new(&[0, 0, 0]);
    assert!(rd.reader_for_block().is_none());
    let mut rd = ByteReader::new(&[0, 0, 0, 5, 1, 2]);
    assert!(rd.reader_for_block().is_none());
}

#[test]
fn fingerprints_separate_shapes() {
    let a = TypeHash::new("Point", &["x", "y"], &[u32::type_hash(), u32::type_hash()]);
    let same = TypeHash::new("Point", &["x", "y"], &[u32::type_hash(), u32::type_hash()]);
    assert_eq!(a, same);
    let other_name = TypeHash::new("Pixel", &["x", "y"], &[u32::type_hash(), u32::type_hash()]);
    assert_ne!(a, other_name);
    let other_field = TypeHash::new("Point", &["x", "z"], &[u32::type_hash(), u32::type_hash()]);
    assert_ne!(a, other_field);
    let other_order = TypeHash::new("Point", &["y", "x"], &[u32::type_hash(), u32::type_hash()]);
    assert_ne!(a, other_order);
    let other_type = TypeHash::new(
        "Point",
        &["x", "y"],
        &[u32::type_hash(), String::type_hash()],
    );
    assert_ne!(a, other_type);
}

#[test]
fn digests_match_known_vectors() {
    let empty = Sha1::new().finalize();
    assert_eq!(
        empty,
        vec![218, 57, 163, 238, 94, 107, 75, 13, 50, 85, 191, 239, 149, 96, 24, 144, 175, 216, 7, 9]
    );
    let mut long = Vec::new();
    long.resize(200, b'a');
    let multi_block = Sha1::new().update(&long).finalize();
    assert_eq!(
        multi_block,
        vec![230, 28, 255, 254, 13, 145, 149, 165, 37, 252, 108, 240, 108, 162, 215, 113, 25, 194, 74, 64]
    );
    let split = Sha1::new().update(&long[..77]).update(&long[77..]).finalize();
    assert_eq!(split, multi_block);
}
