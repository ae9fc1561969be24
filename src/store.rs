use crate::codec::{composite_key, lemma_codec_round_trip, ScopedBytesCodec};
use crate::fence::{in_scope_run, lemma_fence_admits_own_id, lemma_scope_run_exact, user_key_of};
use crate::scope::Scope;
use vstd::prelude::*;
use vstd::slice::slice_to_vec;

verus! {

/// What a container holds: its default sub-database and its scoped
/// sub-database, each a map from stored key to value bytes.
pub type Contents = (Map<Seq<u8>, Seq<u8>>, Map<Seq<u8>, Seq<u8>>);

/// User keys that the composite layout can hold (their length fits in 8 bytes).
pub open spec fn key_fits(key: Seq<u8>) -> bool {
    key.len() < 0x1_0000_0000_0000_0000
}

/// The stored key of an entry: the user key itself in the default scope, the
/// composite key in a named scope.
pub open spec fn stored_key(scope_id: Option<u32>, key: Seq<u8>) -> Seq<u8> {
    match scope_id {
        None => key,
        Some(id) => composite_key(id, key),
    }
}

/// The sub-database that holds a scope's entries.
pub open spec fn sub_db(c: Contents, scope_id: Option<u32>) -> Map<Seq<u8>, Seq<u8>> {
    match scope_id {
        None => c.0,
        Some(_) => c.1,
    }
}

/// Every key of the scoped sub-database is the composite key of some entry.
pub open spec fn contents_wf(c: Contents) -> bool {
    forall|s: Seq<u8>|
        #![trigger c.1.contains_key(s)]
        c.1.contains_key(s) ==> exists|id: u32, k: Seq<u8>| key_fits(k) && s == composite_key(id, k)
}

/// The contents after `put(scope, key, value)`.
pub open spec fn put_model(c: Contents, scope_id: Option<u32>, key: Seq<u8>, value: Seq<u8>) -> Contents {
    match scope_id {
        None => (c.0.insert(key, value), c.1),
        Some(id) => (c.0, c.1.insert(composite_key(id, key), value)),
    }
}

/// What `get(scope, key)` returns.
pub open spec fn get_model(c: Contents, scope_id: Option<u32>, key: Seq<u8>) -> Option<Seq<u8>> {
    let m = sub_db(c, scope_id);
    let s = stored_key(scope_id, key);
    if m.contains_key(s) {
        Some(m[s])
    } else {
        None
    }
}

/// The contents after `delete(scope, key)`, and whether an entry was removed.
pub open spec fn delete_model(c: Contents, scope_id: Option<u32>, key: Seq<u8>) -> (Contents, bool) {
    let s = stored_key(scope_id, key);
    match scope_id {
        None => ((c.0.remove(s), c.1), c.0.contains_key(s)),
        Some(_) => ((c.0, c.1.remove(s)), c.1.contains_key(s)),
    }
}

/// The contents after `clear(scope)`: the default sub-database emptied, or the
/// stored keys that the named scope's fence admits removed.
pub open spec fn clear_model(c: Contents, scope_id: Option<u32>) -> Contents {
    match scope_id {
        None => (Map::empty(), c.1),
        Some(id) => (
            c.0,
            Map::new(|s: Seq<u8>| c.1.contains_key(s) && user_key_of(Some(id), s) is None, |s: Seq<u8>| c.1[s]),
        ),
    }
}

/// Whether iterating a scope yields the entry (key, value).
pub open spec fn iter_yields(c: Contents, scope_id: Option<u32>, key: Seq<u8>, value: Seq<u8>) -> bool {
    let m = sub_db(c, scope_id);
    exists|s: Seq<u8>| m.contains_key(s) && user_key_of(scope_id, s) == Some(key) && m[s] == value
}

/// Where an entry of a container is stored.
#[derive(Debug)]
pub enum Slot {
    /// Under this key in the default sub-database.
    Default(Vec<u8>),
    /// Under this composite key in the scoped sub-database.
    Scoped(Vec<u8>),
}

/// The sub-database and stored key of a scope's entry under `key`.
pub fn slot_of(scope: &Scope, key: &[u8]) -> (r: Slot)
    ensures
        match scope.id_view() {
            None => r matches Slot::Default(s) && s@ == key@,
            Some(id) => r matches Slot::Scoped(s) && s@ == composite_key(id, key@),
        },
{
    match scope {
        Scope::Default => Slot::Default(slot_to_owned(key)),
        Scope::Named { hash, .. } => Slot::Scoped(ScopedBytesCodec::encode(*hash, key)),
    }
}

fn slot_to_owned(key: &[u8]) -> (r: Vec<u8>)
    ensures
        r@ == key@,
{
    slice_to_vec(key)
}

/// Putting keeps the composite form of the scoped sub-database.
pub proof fn lemma_put_keeps_wf(c: Contents, scope_id: Option<u32>, key: Seq<u8>, value: Seq<u8>)
    requires
        contents_wf(c),
        key_fits(key),
    ensures
        contents_wf(put_model(c, scope_id, key, value)),
{
    let c2 = put_model(c, scope_id, key, value);
    assert forall|s: Seq<u8>| #![trigger c2.1.contains_key(s)] c2.1.contains_key(s) implies exists|
        id: u32,
        k: Seq<u8>,
    | key_fits(k) && s == composite_key(id, k) by {
        if let Some(id) = scope_id {
            if s == composite_key(id, key) {
            } else {
                assert(c.1.contains_key(s));
            }
        } else {
            assert(c.1.contains_key(s));
        }
    }
}

/// In well-formed contents, iterating a scope yields (key, value) exactly
/// when `get` on that key returns the value.
pub proof fn lemma_iter_agrees_with_get(c: Contents, scope_id: Option<u32>, key: Seq<u8>, value: Seq<u8>)
    requires
        contents_wf(c),
        key_fits(key),
    ensures
        iter_yields(c, scope_id, key, value) <==> get_model(c, scope_id, key) == Some(value),
{
    let m = sub_db(c, scope_id);
    let sk = stored_key(scope_id, key);
    if let Some(id) = scope_id {
        lemma_codec_round_trip(id, key);
        if iter_yields(c, scope_id, key, value) {
            let s = choose|s: Seq<u8>|
                m.contains_key(s) && user_key_of(scope_id, s) == Some(key) && m[s] == value;
            assert(c.1.contains_key(s));
            let (id2, k2) = choose|id2: u32, k2: Seq<u8>| key_fits(k2) && s == composite_key(id2, k2);
            lemma_codec_round_trip(id2, k2);
            assert(s == sk);
        }
        if get_model(c, scope_id, key) == Some(value) {
            assert(m.contains_key(sk) && user_key_of(scope_id, sk) == Some(key) && m[sk] == value);
        }
    } else {
        if get_model(c, scope_id, key) == Some(value) {
            assert(m.contains_key(sk) && user_key_of(scope_id, sk) == Some(key) && m[sk] == value);
        }
    }
}

/// Isolation: two distinct scopes (the default scope and named scopes with
/// distinct ids) that put different values under the same key each read back
/// and iterate their own value, and only their own.
pub proof fn lemma_scope_isolation(
    c: Contents,
    a: Option<u32>,
    b: Option<u32>,
    key: Seq<u8>,
    va: Seq<u8>,
    vb: Seq<u8>,
)
    requires
        contents_wf(c),
        key_fits(key),
        a != b,
        va != vb,
    ensures
        ({
            let c2 = put_model(put_model(c, a, key, va), b, key, vb);
            &&& get_model(c2, a, key) == Some(va)
            &&& get_model(c2, b, key) == Some(vb)
            &&& iter_yields(c2, a, key, va) && !iter_yields(c2, a, key, vb)
            &&& iter_yields(c2, b, key, vb) && !iter_yields(c2, b, key, va)
        }),
{
    let c1 = put_model(c, a, key, va);
    let c2 = put_model(c1, b, key, vb);
    lemma_put_keeps_wf(c, a, key, va);
    lemma_put_keeps_wf(c1, b, key, vb);
    if let (Some(x), Some(y)) = (a, b) {
        lemma_codec_round_trip(x, key);
        lemma_codec_round_trip(y, key);
        assert(composite_key(x, key) != composite_key(y, key));
    }
    assert(get_model(c2, a, key) == Some(va));
    lemma_iter_agrees_with_get(c2, a, key, va);
    lemma_iter_agrees_with_get(c2, a, key, vb);
    lemma_iter_agrees_with_get(c2, b, key, va);
    lemma_iter_agrees_with_get(c2, b, key, vb);
}

/// Clearing a scope empties it and leaves every entry of every other scope as
/// it was.
pub proof fn lemma_clear_is_local(c: Contents, cleared: Option<u32>, other: Option<u32>, key: Seq<u8>)
    requires
        key_fits(key),
    ensures
        get_model(clear_model(c, cleared), cleared, key) is None,
        other != cleared ==> get_model(clear_model(c, cleared), other, key) == get_model(c, other, key),
{
    match cleared {
        None => {},
        Some(id) => {
            lemma_fence_admits_own_id(id, key);
            if let Some(o) = other {
                lemma_fence_admits_own_id(o, key);
                assert(user_key_of(Some(id), composite_key(o, key)) == if id == o {
                    Some(key)
                } else {
                    None
                });
            }
        },
    }
}

/// The scoped sub-database after a range delete over a named scope's run.
pub open spec fn run_deleted(m: Map<Seq<u8>, Seq<u8>>, id: u32) -> Map<Seq<u8>, Seq<u8>> {
    Map::new(|s: Seq<u8>| m.contains_key(s) && !in_scope_run(id, s), |s: Seq<u8>| m[s])
}

/// On well-formed contents, one range delete over a named scope's run removes
/// exactly what clearing that scope removes.
pub proof fn lemma_range_delete_is_clear(c: Contents, id: u32)
    requires
        contents_wf(c),
    ensures
        run_deleted(c.1, id) == clear_model(c, Some(id)).1,
{
    let a = run_deleted(c.1, id);
    let b = clear_model(c, Some(id)).1;
    assert forall|s: Seq<u8>| a.contains_key(s) <==> b.contains_key(s) by {
        if c.1.contains_key(s) {
            let (d, k) = choose|d: u32, k: Seq<u8>| key_fits(k) && s == composite_key(d, k);
            lemma_scope_run_exact(id, d, k);
            lemma_codec_round_trip(d, k);
        }
    }
    assert(a =~= b);
}

/// Deleting a key that is absent removes nothing and changes nothing; deleting
/// a present key twice reports `true`, then `false`.
pub proof fn lemma_delete_idempotent(c: Contents, scope_id: Option<u32>, key: Seq<u8>)
    ensures
        get_model(c, scope_id, key) is None ==> !delete_model(c, scope_id, key).1 && delete_model(
            c,
            scope_id,
            key,
        ).0 =~= c,
        get_model(c, scope_id, key) is Some ==> delete_model(c, scope_id, key).1 && !delete_model(
            delete_model(c, scope_id, key).0,
            scope_id,
            key,
        ).1,
{
    let s = stored_key(scope_id, key);
    if get_model(c, scope_id, key) is None {
        match scope_id {
            None => assert(c.0.remove(s) =~= c.0),
            Some(_) => assert(c.1.remove(s) =~= c.1),
        }
    }
}

} // verus!
