use scoped_heed::scope::Scope;
use scoped_heed::{compute_xxhash, ScopedDbError};

#[test]
fn test_scope_default() {
    let scope = Scope::Default;
    assert!(scope.is_default());
    assert_eq!(scope.name(), None);
    assert_eq!(scope.hash(), None);
}

#[test]
fn test_scope_named() {
    let scope = Scope::named("tenant").unwrap();
    assert!(!scope.is_default());
    assert_eq!(scope.name(), Some("tenant"));
    assert!(scope.hash().is_some());
}

#[test]
fn test_scope_empty_name() {
    let result = Scope::named("");
    assert!(matches!(result, Err(ScopedDbError::EmptyScopeDisallowed)));
}

#[test]
fn test_scope_from_str() {
    let scope: Scope = "tenant".into();
    assert_eq!(scope.name(), Some("tenant"));

    let default: Scope = "".into();
    assert!(default.is_default());
}

#[test]
fn test_scope_from_option_str() {
    let scope: Scope = Some("tenant").into();
    assert_eq!(scope.name(), Some("tenant"));

    let default: Scope = Option::<&str>::None.into();
    assert!(default.is_default());
}

#[test]
fn test_compute_xxhash() {
    let hash1 = compute_xxhash(b"test");
    let hash2 = compute_xxhash(b"test");
    assert_eq!(hash1, hash2);

    let hash3 = compute_xxhash(b"different");
    assert_ne!(hash1, hash3);
}

#[test]
fn named_scope_caches_the_hash_of_its_name() {
    let scope = Scope::named("db0").unwrap();
    assert_eq!(scope.hash(), Some(compute_xxhash(b"db0")));
    assert_eq!(scope, Scope::named("db0").unwrap());
    assert_ne!(scope, Scope::named("db1").unwrap());
    assert_ne!(scope, Scope::Default);
}

#[test]
fn xxhash_matches_known_digests() {
    // Reference values of xxHash32 with seed 0.
    assert_eq!(compute_xxhash(b""), 0x02CC5D05);
    assert_eq!(compute_xxhash(b"a"), 0x550D7456);
}

#[test]
fn empty_external_name_maps_to_default() {
    assert!(Scope::from_name("").is_default());
    assert!(Scope::from_option(Some("")).is_default());
    assert!(Scope::from_option(None).is_default());
    assert_eq!(Scope::from_option(Some("t")).name(), Some("t"));
}
