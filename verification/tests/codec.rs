use tikv::raftstore::store::keys::{
    apply_state_key, data_end_key, data_key, decode_region_meta_key, origin_key, raft_log_key,
    raft_state_key, region_meta_max_key, region_meta_min_key, region_state_key,
    REGION_STATE_SUFFIX,
};
use tikv::storage::types::{make_key, CodecError, Key};
use tikv::util::codec::bytes::{decode_bytes, encode_bytes};
use tikv::util::codec::number::{decode_u64_at, encode_u64};
use tikv::util::codec::order::{bytes_eq, bytes_le, bytes_lt, join};

#[test]
fn test_encode_bytes_groups_of_eight() {
    assert_eq!(encode_bytes(b""), vec![0, 0, 0, 0, 0, 0, 0, 0, 0xf7]);
    assert_eq!(encode_bytes(b"A"), vec![b'A', 0, 0, 0, 0, 0, 0, 0, 0xf8]);
    assert_eq!(encode_bytes(b"12345678"), {
        let mut v = b"12345678".to_vec();
        v.push(0xff);
        v.extend_from_slice(&[0, 0, 0, 0, 0, 0, 0, 0, 0xf7]);
        v
    });
    assert_eq!(encode_bytes(b"123456789"), {
        let mut v = b"12345678".to_vec();
        v.push(0xff);
        v.extend_from_slice(&[b'9', 0, 0, 0, 0, 0, 0, 0, 0xf8]);
        v
    });
}

#[test]
fn test_decode_bytes_round_trip() {
    for len in 0..40usize {
        let raw: Vec<u8> = (0..len).map(|i| (i * 7 % 256) as u8).collect();
        let enc = encode_bytes(&raw);
        assert_eq!(enc.len(), (len / 8 + 1) * 9);
        assert_eq!(decode_bytes(&enc), Some((raw.clone(), enc.len())));
        let mut longer = enc.clone();
        longer.extend_from_slice(&[1, 2, 3, 4, 5, 6, 7, 8]);
        assert_eq!(decode_bytes(&longer), Some((raw, enc.len())));
    }
    assert_eq!(decode_bytes(b"short"), None);
    assert_eq!(decode_bytes(&[1, 2, 3, 4, 5, 6, 7, 8, 0xf0]), None);
    // padding that is not zero
    assert_eq!(decode_bytes(&[1, 0, 0, 0, 0, 0, 0, 9, 0xf8]), None);
}

#[test]
fn test_encode_bytes_keeps_order() {
    let raws: Vec<&[u8]> =
        vec![b"", b"\x00", b"A", b"A\x00", b"AAA", b"B", b"abcdefgh", b"abcdefgh\x00", b"b"];
    for a in &raws {
        for b in &raws {
            assert_eq!(bytes_lt(&encode_bytes(a), &encode_bytes(b)), a < b);
        }
    }
}

#[test]
fn test_key_append_and_truncate() {
    let key = make_key(b"x");
    assert_eq!(key.raw().unwrap(), b"x");
    let data = key.append_ts(5);
    assert_eq!(&data.encoded()[..9], &key.encoded()[..]);
    assert_eq!(&data.encoded()[9..], &[0xff, 0xff, 0xff, 0xff, 0xff, 0xff, 0xff, 0xfa]);
    assert_eq!(data.raw().unwrap(), b"x");
    assert_eq!(data.truncate_ts().unwrap(), key);
    let page = key.append_meta_index(3);
    assert_eq!(&page.encoded()[9..], &[0, 0, 0, 0, 0, 0, 0, 3]);
    assert_eq!(page.truncate_ts().unwrap(), key);
    // newer versions sort first, pages before versions
    assert!(bytes_lt(key.append_ts(9).encoded(), key.append_ts(8).encoded()));
    assert!(bytes_lt(key.append_meta_index(9).encoded(), key.append_ts(u64::MAX >> 1).encoded()));
    assert_eq!(Key::from_encoded(vec![1, 2, 3]).truncate_ts(), Err(CodecError::KeyLength));
    assert_eq!(Key::from_encoded(vec![1, 2, 3]).raw(), Err(CodecError::KeyPadding));
    assert_eq!(Key::from_raw(b"x"), key.clone());
}

#[test]
fn test_number_codec() {
    assert_eq!(encode_u64(0x0102030405060708), vec![1, 2, 3, 4, 5, 6, 7, 8]);
    assert_eq!(encode_u64(0), vec![0; 8]);
    assert_eq!(encode_u64(u64::MAX), vec![0xff; 8]);
    assert_eq!(decode_u64_at(&[9, 1, 2, 3, 4, 5, 6, 7, 8, 9], 1), 0x0102030405060708);
    for v in [0u64, 1, 255, 256, 1 << 32, u64::MAX - 1, u64::MAX] {
        assert_eq!(decode_u64_at(&encode_u64(v), 0), v);
    }
}

#[test]
fn test_byte_order() {
    assert!(bytes_lt(b"", b"a"));
    assert!(!bytes_lt(b"a", b""));
    assert!(!bytes_lt(b"a", b"a"));
    assert!(bytes_lt(b"a", b"ab"));
    assert!(bytes_lt(b"ab", b"b"));
    assert!(bytes_le(b"a", b"a"));
    assert!(bytes_le(b"a", b"b"));
    assert!(!bytes_le(b"b", b"a"));
    assert!(bytes_eq(b"abc", b"abc"));
    assert!(!bytes_eq(b"abc", b"abd"));
    assert!(!bytes_eq(b"abc", b"ab"));
    assert_eq!(join(b"ab", b"cd"), b"abcd");
}

#[test]
fn test_store_keys() {
    assert_eq!(region_state_key(1), vec![1, 3, 0, 0, 0, 0, 0, 0, 0, 1, 1]);
    assert_eq!(apply_state_key(2), vec![1, 2, 0, 0, 0, 0, 0, 0, 0, 2, 3]);
    assert_eq!(raft_state_key(2), vec![1, 2, 0, 0, 0, 0, 0, 0, 0, 2, 2]);
    assert_eq!(
        raft_log_key(2, 0x0a0b),
        vec![1, 2, 0, 0, 0, 0, 0, 0, 0, 2, 1, 0, 0, 0, 0, 0, 0, 0x0a, 0x0b]
    );
    assert_eq!(decode_region_meta_key(&region_state_key(77)), Some((77, REGION_STATE_SUFFIX)));
    assert_eq!(decode_region_meta_key(&apply_state_key(77)), None);
    assert_eq!(decode_region_meta_key(b"z"), None);
    assert!(bytes_le(&region_meta_min_key(), &region_state_key(0)));
    assert!(bytes_lt(&region_state_key(u64::MAX), &region_meta_max_key()));
    assert!(bytes_lt(&apply_state_key(u64::MAX), &region_meta_min_key()));
    assert_eq!(data_key(b"abc"), b"zabc");
    assert_eq!(origin_key(b"zabc"), Some(b"abc".to_vec()));
    assert_eq!(origin_key(b"abc"), None);
    assert_eq!(origin_key(b""), None);
    assert_eq!(data_end_key(b""), vec![b'z' + 1]);
    assert_eq!(data_end_key(b"k"), b"zk");
    assert!(bytes_lt(&region_meta_max_key(), &data_key(b"")));
}
