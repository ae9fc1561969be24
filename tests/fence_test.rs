use scoped_heed::fence::{fence_entries, scan_is_empty_for, user_key_in_scope};
use scoped_heed::store::{slot_of, Slot};
use scoped_heed::{HeedRangeAdapter, KeyBound, Scope, ScopedBytesCodec};

fn stored(scope: &Scope, key: &[u8]) -> Vec<u8> {
    match slot_of(scope, key) {
        Slot::Default(k) => k,
        Slot::Scoped(k) => k,
    }
}

fn sorted_scan(mut entries: Vec<(Vec<u8>, Vec<u8>)>) -> Vec<(Vec<u8>, Vec<u8>)> {
    entries.sort();
    entries
}

#[test]
fn same_key_in_three_scopes_has_three_slots() {
    let scopes: Vec<Scope> = ["db0", "db1", "db2"].iter().map(|n| Scope::named(n).unwrap()).collect();
    let keys: Vec<Vec<u8>> = scopes.iter().map(|s| stored(s, b"mykey")).collect();
    assert_ne!(keys[0], keys[1]);
    assert_ne!(keys[1], keys[2]);
    assert_ne!(keys[0], keys[2]);
    assert!(matches!(slot_of(&Scope::Default, b"mykey"), Slot::Default(k) if k == b"mykey".to_vec()));
    let scan = sorted_scan(
        keys.iter().zip(["v0", "v1", "v2"]).map(|(k, v)| (k.clone(), v.as_bytes().to_vec())).collect(),
    );
    for (scope, v) in scopes.iter().zip(["v0", "v1", "v2"]) {
        let got = fence_entries(scope.hash(), &scan, &KeyBound::Unbounded, &KeyBound::Unbounded);
        assert_eq!(got, vec![(b"mykey".to_vec(), v.as_bytes().to_vec())]);
    }
}

#[test]
fn range_is_fenced_across_overlapping_key_spaces() {
    let a = Scope::named("A").unwrap();
    let b = Scope::named("B").unwrap();
    let mut entries = Vec::new();
    for i in 0..10 {
        entries.push((stored(&a, format!("key{:02}", i).as_bytes()), format!("A_{}", i).into_bytes()));
    }
    for i in 5..15 {
        entries.push((stored(&b, format!("key{:02}", i).as_bytes()), format!("B_{}", i).into_bytes()));
    }
    let scan = sorted_scan(entries);
    let lo = KeyBound::Included(b"key05".to_vec());
    let hi = KeyBound::Included(b"key08".to_vec());
    let got_a = fence_entries(a.hash(), &scan, &lo, &hi);
    assert_eq!(got_a.len(), 4);
    assert!(got_a.iter().all(|(_, v)| v.starts_with(b"A_")));
    let got_b = fence_entries(b.hash(), &scan, &lo, &hi);
    assert_eq!(got_b.len(), 4);
    assert!(got_b.iter().all(|(_, v)| v.starts_with(b"B_")));
    let open_a = fence_entries(a.hash(), &scan, &KeyBound::Excluded(b"key07".to_vec()), &KeyBound::Unbounded);
    assert_eq!(open_a.len(), 2);
}

#[test]
fn fence_rejects_ids_differing_in_high_bytes() {
    let raw = vec![
        (ScopedBytesCodec::encode(0x0000_0001, b"k"), b"low".to_vec()),
        (ScopedBytesCodec::encode(0x0100_0001, b"k"), b"high".to_vec()),
        (ScopedBytesCodec::encode(0x0000_0101, b"k"), b"mid".to_vec()),
        (vec![1, 2, 3], b"junk".to_vec()),
    ];
    let got = fence_entries(Some(0x0100_0001), &raw, &KeyBound::Unbounded, &KeyBound::Unbounded);
    assert_eq!(got, vec![(b"k".to_vec(), b"high".to_vec())]);
    assert_eq!(user_key_in_scope(Some(1), &raw[1].0), None);
    assert_eq!(user_key_in_scope(Some(1), &raw[0].0), Some(&b"k"[..]));
    assert_eq!(user_key_in_scope(None, b"plain"), Some(&b"plain"[..]));
}

#[test]
fn clearing_one_tenant_leaves_the_others() {
    let tenants: Vec<Scope> = (0..5).map(|i| Scope::named(&format!("tenant_{}", i)).unwrap()).collect();
    let mut entries = Vec::new();
    for (i, t) in tenants.iter().enumerate() {
        for j in 0..10 {
            entries.push((stored(t, format!("key_{}", j).as_bytes()), format!("v_{}_{}", i, j).into_bytes()));
        }
    }
    let cleared = tenants[2].hash();
    let remaining: Vec<(Vec<u8>, Vec<u8>)> =
        entries.into_iter().filter(|(k, _)| user_key_in_scope(cleared, k).is_none()).collect();
    for (i, t) in tenants.iter().enumerate() {
        let n = fence_entries(t.hash(), &remaining, &KeyBound::Unbounded, &KeyBound::Unbounded).len();
        assert_eq!(n, if i == 2 { 0 } else { 10 });
        assert_eq!(scan_is_empty_for(t.hash(), &remaining), i == 2);
    }
}

#[test]
fn default_scope_range_filters_plain_keys() {
    let raw = vec![
        (b"a".to_vec(), b"1".to_vec()),
        (b"b".to_vec(), b"2".to_vec()),
        (b"c".to_vec(), b"3".to_vec()),
    ];
    let got = fence_entries(None, &raw, &KeyBound::Excluded(b"a".to_vec()), &KeyBound::Excluded(b"c".to_vec()));
    assert_eq!(got, vec![(b"b".to_vec(), b"2".to_vec())]);
    assert!(!scan_is_empty_for(None, &raw));
    assert!(scan_is_empty_for(None, &Vec::new()));
}

#[test]
fn range_adapter_uses_byte_order() {
    let r = HeedRangeAdapter::new(KeyBound::Included(b"ab".to_vec()), KeyBound::Excluded(b"b".to_vec()));
    assert!(r.contains(b"ab"));
    assert!(r.contains(b"abz"));
    assert!(!r.contains(b"aa"));
    assert!(!r.contains(b"b"));
    assert!(!r.contains(b"a"));
}
