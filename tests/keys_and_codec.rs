use grpcworker::codec::{encoded_len, read_comparable_bytes, write_comparable_bytes, CodecError};
use grpcworker::keys::{BasicPhysicalKey, BasicPhysicalKeySlice, LogicalKeySlice};
use grpcworker::util::{is_point, prefix_next, KeyRange};

fn encode(u: &[u8]) -> Vec<u8> {
    let mut out = Vec::new();
    write_comparable_bytes(&mut out, u);
    out
}

#[test]
fn prefix_next_of_empty_is_zero_byte() {
    assert_eq!(prefix_next(b""), vec![0u8]);
}

#[test]
fn prefix_next_of_all_ff_appends_zero() {
    assert_eq!(prefix_next(b"\xff\xff"), vec![0xffu8, 0xff, 0x00]);
}

#[test]
fn prefix_next_carries_over_ff() {
    assert_eq!(prefix_next(b"a\xff"), b"b\x00".to_vec());
}

#[test]
fn prefix_next_increments_last_byte() {
    assert_eq!(prefix_next(b"abc"), b"abd".to_vec());
    assert_eq!(prefix_next(b"a\xff\xff"), b"b\x00\x00".to_vec());
}

#[test]
fn prefix_next_is_greater() {
    for x in [&b""[..], b"a", b"\x00", b"a\xff", b"\xff", b"k5", b"\x01\xff\x00"] {
        let n = prefix_next(x);
        assert!(n.as_slice() > x);
    }
}

#[test]
fn is_point_checks_prefix_next() {
    assert!(is_point(&KeyRange { start: b"k".to_vec(), end: b"l".to_vec() }));
    assert!(!is_point(&KeyRange { start: b"k".to_vec(), end: b"k\x00".to_vec() }));
}

#[test]
fn memcomparable_encoding_of_short_key() {
    assert_eq!(
        encode(b"abc"),
        vec![b'a', b'b', b'c', 0, 0, 0, 0, 0, 0xff - 5]
    );
}

#[test]
fn memcomparable_encoding_of_empty_and_full_group() {
    assert_eq!(encode(b""), vec![0, 0, 0, 0, 0, 0, 0, 0, 0xf7]);
    assert_eq!(
        encode(b"12345678"),
        vec![b'1', b'2', b'3', b'4', b'5', b'6', b'7', b'8', 0xff, 0, 0, 0, 0, 0, 0, 0, 0, 0xf7]
    );
    assert_eq!(encoded_len(8), 18);
    assert_eq!(encoded_len(3), 9);
}

#[test]
fn memcomparable_round_trip() {
    for u in [&b""[..], b"x", b"12345678", b"123456789", b"\x00\x00\xff", b"a longer key over groups"] {
        let mut e = encode(u);
        let n = e.len();
        e.extend_from_slice(b"tail");
        let (v, used) = read_comparable_bytes(&e).unwrap();
        assert_eq!(v, u.to_vec());
        assert_eq!(used, n);
    }
}

#[test]
fn memcomparable_keeps_order() {
    let keys: Vec<&[u8]> = vec![b"", b"\x00", b"\x00\x00", b"a", b"a\x00", b"ab", b"abcdefgh", b"abcdefgh\x00", b"b", b"\xff"];
    for a in &keys {
        for b in &keys {
            assert_eq!(a.cmp(b), encode(a).cmp(&encode(b)));
        }
    }
}

#[test]
fn memcomparable_decode_errors() {
    assert_eq!(read_comparable_bytes(b"abc"), Err(CodecError::Truncated));
    let mut bad_marker = encode(b"abc");
    bad_marker[8] = 0x10;
    assert_eq!(read_comparable_bytes(&bad_marker), Err(CodecError::PaddingError));
    let mut bad_pad = encode(b"abc");
    bad_pad[5] = 1;
    assert_eq!(read_comparable_bytes(&bad_pad), Err(CodecError::PaddingError));
    let mut cut = encode(b"123456789");
    cut.truncate(12);
    assert_eq!(read_comparable_bytes(&cut), Err(CodecError::Truncated));
}

#[test]
fn physical_key_from_user_key_and_back() {
    let k = BasicPhysicalKey::alloc_from_user_std_slice(b"user");
    assert_eq!(k.as_physical_std_slice(), encode(b"user").as_slice());
    assert_eq!(k.as_logical_slice().alloc_to_user_vec().unwrap(), b"user".to_vec());
    assert_eq!(k.physical_len(), 9);
    assert_eq!(k.logical_len(), 9);
}

#[test]
fn timestamp_suffix_is_descending() {
    let mut k = BasicPhysicalKey::alloc_from_logical_std_slice(b"k");
    k.append_ts(1);
    assert_eq!(k.as_physical_std_slice(), &[b'k', 0xff, 0xff, 0xff, 0xff, 0xff, 0xff, 0xff, 0xfe]);
    assert_eq!(k.get_ts(), 1);
    let mut later = BasicPhysicalKey::alloc_from_logical_std_slice(b"k");
    later.append_ts(2);
    assert!(later.as_physical_std_slice() < k.as_physical_std_slice());
    k.shrink_ts();
    assert_eq!(k.as_physical_std_slice(), b"k");
}

#[test]
fn with_ts_temporarily_restores_key() {
    let mut k = BasicPhysicalKey::alloc_from_user_std_slice(b"abc");
    let before = k.as_physical_std_slice().to_vec();
    let (len, ts) = k.with_ts_temporarily(100, |held| (held.physical_len(), held.get_ts()));
    assert_eq!(len, before.len() + 8);
    assert_eq!(ts, 100);
    assert_eq!(k.as_physical_std_slice(), before.as_slice());
}

#[test]
fn slices_without_ts() {
    let mut k = BasicPhysicalKey::alloc_from_logical_std_slice(b"key");
    k.append_ts(7);
    assert_eq!(k.as_physical_slice_without_ts().as_physical_std_slice(), b"key");
    assert_eq!(k.as_logical_slice_without_ts().as_std_slice(), b"key");
    assert_eq!(k.as_physical_slice().get_ts(), 7);
    let copy = k.as_physical_slice().alloc_to_physical_key();
    assert_eq!(copy.as_physical_std_slice(), k.as_physical_std_slice());
    let s = BasicPhysicalKeySlice::from_physical_std_slice(b"");
    assert!(s.is_empty());
}

#[test]
fn reset_from_slices() {
    let mut k = BasicPhysicalKey::alloc_new();
    k.reset_from_logical_std_slice(b"xyz");
    assert_eq!(k.as_physical_std_slice(), b"xyz");
    k.reset_from_user_std_slice(b"xyz");
    assert_eq!(k.as_physical_std_slice(), encode(b"xyz").as_slice());
    k.reset_from_physical_slice(&BasicPhysicalKeySlice::from_physical_std_slice(b"pq"));
    assert_eq!(k.into_physical_vec(), b"pq".to_vec());
    let k2 = BasicPhysicalKey::copy_from_logical_vec(b"lv".to_vec());
    assert_eq!(k2.as_logical_std_slice(), b"lv");
}

#[test]
fn keys_print_as_uppercase_hex() {
    let k = BasicPhysicalKey::from_physical_vec(vec![0x0a, 0xff, 0x10]);
    assert_eq!(k.to_hex_upper(), "0AFF10");
    assert_eq!(LogicalKeySlice::from_std_slice(b"\x01\xab").to_hex_upper(), "01AB");
}
