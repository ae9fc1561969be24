use scoped_heed::builder::{required_name, sub_database_names};
use scoped_heed::registry::{
    collision_message, lookup_in_entries, prune_selection, register_decision, scopes_from_entries,
};
use scoped_heed::{Scope, ScopeRegistry, ScopedDbError};

#[test]
fn register_decides_insert_keep_or_collision() {
    let s = Scope::named("tenant").unwrap();
    assert_eq!(register_decision(&Scope::Default, None).unwrap(), false);
    assert_eq!(register_decision(&s, None).unwrap(), true);
    assert_eq!(register_decision(&s, Some(&"tenant".to_string())).unwrap(), false);
}

#[test]
fn collision_error_names_both_scopes() {
    let id = 42;
    let n1 = Scope::Named { name: "first".to_string(), hash: id };
    let n2 = Scope::Named { name: "second".to_string(), hash: id };
    assert_eq!(register_decision(&n1, None).unwrap(), true);
    match register_decision(&n2, Some(&"first".to_string())) {
        Err(ScopedDbError::InvalidInput(msg)) => {
            assert!(msg.contains("first"));
            assert!(msg.contains("second"));
            assert_eq!(msg, "Hash collision detected between 'second' and 'first'");
        }
        other => panic!("expected a collision, got {:?}", other),
    }
    assert_eq!(collision_message("a", "b"), "Hash collision detected between 'a' and 'b'");
}

#[test]
fn listing_puts_default_first() {
    let entries = vec![(7u32, "x".to_string()), (3u32, "y".to_string())];
    let scopes = scopes_from_entries(&entries);
    assert_eq!(scopes.len(), 3);
    assert!(scopes[0].is_default());
    assert_eq!(scopes[1].name(), Some("x"));
    assert_eq!(scopes[1].hash(), Some(7));
    assert_eq!(scopes[2].name(), Some("y"));
    assert_eq!(scopes[2].hash(), Some(3));
    let only_default = scopes_from_entries(&Vec::new());
    assert_eq!(only_default.len(), 1);
    assert!(only_default[0].is_default());
}

#[test]
fn lookup_returns_first_match() {
    let entries = vec![(1u32, "a".to_string()), (2u32, "b".to_string()), (3u32, "b".to_string())];
    assert_eq!(lookup_in_entries(&entries, "b"), Some(2));
    assert_eq!(lookup_in_entries(&entries, "c"), None);
}

#[test]
fn prune_across_two_containers() {
    let entries = vec![(11u32, "t".to_string())];
    // Cleared in the first container only: still in use by the second.
    assert!(prune_selection(&entries, &vec![vec![true, false]], 2).is_empty());
    // Cleared in both: pruned.
    assert_eq!(prune_selection(&entries, &vec![vec![true, true]], 2), vec![11]);
    // No checker: nothing is pruned.
    assert!(prune_selection(&entries, &vec![vec![]], 0).is_empty());
}

#[test]
fn prune_selects_exactly_the_empty_scopes() {
    let entries = vec![(1u32, "a".to_string()), (2u32, "b".to_string()), (3u32, "c".to_string())];
    let reports = vec![vec![true], vec![false], vec![true]];
    assert_eq!(prune_selection(&entries, &reports, 1), vec![1, 3]);
}

#[test]
fn in_memory_registry_is_stable_and_lists_names() {
    let mut reg = ScopeRegistry::new();
    let a = reg.hash("alpha").unwrap();
    let b = reg.hash("beta").unwrap();
    assert_eq!(reg.hash("alpha").unwrap(), a);
    assert_eq!(reg.get_scope_name(a).map(|s| s.as_str()), Some("alpha"));
    assert_eq!(reg.get_scope_name(b).map(|s| s.as_str()), Some("beta"));
    assert_eq!(reg.get_all_scopes().len(), 2);
    let clone = reg.clone();
    assert_eq!(clone.get_all_scopes().len(), 2);
}

#[test]
fn builder_requires_a_name() {
    assert!(matches!(required_name(None), Err(ScopedDbError::InvalidInput(_))));
    assert_eq!(required_name(Some("users".to_string())).unwrap(), "users");
    let (d, s) = sub_database_names("users");
    assert_eq!(d, "users");
    assert_eq!(s, "users_scoped");
}

#[test]
fn registered_scope_is_listed_until_unregistered() {
    let s = Scope::named("t").unwrap();
    let id = s.hash().unwrap();
    let mut entries: Vec<(u32, String)> = Vec::new();
    if register_decision(&s, None).unwrap() {
        entries.push((id, "t".to_string()));
    }
    let listed = scopes_from_entries(&entries);
    assert!(listed.contains(&s));
    assert!(listed.contains(&Scope::Default));
    // Registering again changes nothing.
    assert_eq!(register_decision(&s, Some(&entries[0].1)).unwrap(), false);
    entries.retain(|(h, _)| *h != id);
    let listed = scopes_from_entries(&entries);
    assert!(!listed.contains(&s));
    assert_eq!(listed, vec![Scope::Default]);
}

#[test]
fn in_memory_registry_keeps_one_entry_per_name() {
    let mut reg = ScopeRegistry::new();
    let id = reg.hash("alpha").unwrap();
    // A second registration of the same name keeps one entry.
    assert_eq!(reg.hash("alpha").unwrap(), id);
    assert_eq!(reg.get_all_scopes().len(), 1);
    assert!(reg.get_scope_name(id.wrapping_add(1)).is_none());
}
