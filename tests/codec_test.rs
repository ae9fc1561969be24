use scoped_heed::fence::{scope_end_key, scope_start_key};
use scoped_heed::{ScopedBytesCodec, ScopedDbError};

#[test]
fn codec_layout_of_known_key() {
    let encoded = ScopedBytesCodec::encode(0x12345678, b"test_key");
    let mut expected = vec![0x12, 0x34, 0x56, 0x78, 0, 0, 0, 0, 0, 0, 0, 8];
    expected.extend_from_slice(b"test_key");
    assert_eq!(encoded, expected);
    let (id, key) = ScopedBytesCodec::decode(&encoded).unwrap();
    assert_eq!(id, 0x12345678);
    assert_eq!(key, b"test_key");
}

#[test]
fn codec_round_trip_on_edge_values() {
    for id in [0u32, 1, 255, 256, 0x0100_0000, u32::MAX] {
        for key in [&b""[..], &b"k"[..], &[0xFFu8; 40][..]] {
            let encoded = ScopedBytesCodec::encode(id, key);
            assert_eq!(encoded.len(), 12 + key.len());
            let (d, k) = ScopedBytesCodec::decode(&encoded).unwrap();
            assert_eq!(d, id);
            assert_eq!(k, key);
        }
    }
}

#[test]
fn codec_rejects_short_input() {
    assert!(matches!(ScopedBytesCodec::decode(&[0u8; 11]), Err(ScopedDbError::Encoding(_))));
    assert!(matches!(ScopedBytesCodec::decode(&[]), Err(ScopedDbError::Encoding(_))));
}

#[test]
fn codec_rejects_declared_length_past_end() {
    let mut bytes = ScopedBytesCodec::encode(7, b"abc");
    bytes.pop();
    assert!(matches!(ScopedBytesCodec::decode(&bytes), Err(ScopedDbError::Encoding(_))));
    let huge = [0u8, 0, 0, 1, 0xFF, 0xFF, 0xFF, 0xFF, 0xFF, 0xFF, 0xFF, 0xFF];
    assert!(matches!(ScopedBytesCodec::decode(&huge), Err(ScopedDbError::Encoding(_))));
}

#[test]
fn codec_ignores_trailing_bytes() {
    let mut bytes = ScopedBytesCodec::encode(9, b"ab");
    bytes.push(0x55);
    let (id, key) = ScopedBytesCodec::decode(&bytes).unwrap();
    assert_eq!((id, key), (9, &b"ab"[..]));
}

#[test]
fn encoded_keys_sort_by_scope_id_first() {
    let ids = [0u32, 1, 0xFF, 0x100, 0x0101, 0xFFFF_FFFE, u32::MAX];
    for w in ids.windows(2) {
        let a = ScopedBytesCodec::encode(w[0], &[0xFF; 20]);
        let b = ScopedBytesCodec::encode(w[1], b"");
        assert!(a < b, "{} should sort before {}", w[0], w[1]);
    }
}

#[test]
fn scope_run_bounds() {
    assert_eq!(scope_start_key(5), ScopedBytesCodec::encode(5, b""));
    assert_eq!(scope_end_key(5), Some(ScopedBytesCodec::encode(6, b"")));
    assert_eq!(scope_end_key(u32::MAX), None);
    let inside = ScopedBytesCodec::encode(0xFF, b"zzz");
    assert!(scope_start_key(0xFF) <= inside);
    assert!(inside < scope_end_key(0xFF).unwrap());
}
