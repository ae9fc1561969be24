use crate::codec::{
    be_bytes, composite_key, decode_composite, lemma_be_bytes_len, lemma_be_bytes_zero,
    lemma_be_value_of_bytes, lemma_codec_round_trip, lemma_lex_is_numeric, pow256, ScopedBytesCodec,
};
use crate::order::{
    in_key_range, key_in_range, lemma_lex_concat, lemma_not_below_zeros, lex_lt, zeros, KeyBound,
};
use vstd::prelude::*;
use vstd::slice::slice_to_vec;

verus! {

/// The user key that a stored key holds for a scope, or `None` where the
/// stored key belongs to no such entry. `None` as scope id stands for the
/// default scope, whose sub-database holds user keys as they are.
pub open spec fn user_key_of(scope_id: Option<u32>, stored: Seq<u8>) -> Option<Seq<u8>> {
    match scope_id {
        None => Some(stored),
        Some(id) => match decode_composite(stored) {
            Some(p) => if p.0 == id {
                Some(p.1)
            } else {
                None
            },
            None => None,
        },
    }
}

/// The entries of a scanned sub-database that belong to a scope and whose
/// user key lies in the range from `lo` to `hi`, as (user key, value), in scan
/// order.
pub open spec fn fenced(
    scope_id: Option<u32>,
    raw: Seq<(Seq<u8>, Seq<u8>)>,
    lo: KeyBound,
    hi: KeyBound,
) -> Seq<(Seq<u8>, Seq<u8>)>
    decreases raw.len(),
{
    if raw.len() == 0 {
        Seq::empty()
    } else {
        let rest = fenced(scope_id, raw.drop_last(), lo, hi);
        match user_key_of(scope_id, raw.last().0) {
            Some(k) => if in_key_range(k, &lo, &hi) {
                rest.push((k, raw.last().1))
            } else {
                rest
            },
            None => rest,
        }
    }
}

/// Every entry that a fenced scan yields lies in the requested range and comes
/// from a scanned entry of the scope itself, with that entry's value: no entry
/// of another scope passes the fence, whatever the range bounds are.
pub proof fn lemma_fenced_sound(
    scope_id: Option<u32>,
    raw: Seq<(Seq<u8>, Seq<u8>)>,
    lo: KeyBound,
    hi: KeyBound,
)
    ensures
        forall|i: int|
            0 <= i < fenced(scope_id, raw, lo, hi).len() ==> {
                let e = #[trigger] fenced(scope_id, raw, lo, hi)[i];
                &&& in_key_range(e.0, &lo, &hi)
                &&& exists|j: int|
                    0 <= j < raw.len() && user_key_of(scope_id, raw[j].0) == Some(e.0) && raw[j].1
                        == e.1
            },
    decreases raw.len(),
{
    if raw.len() > 0 {
        let prev = raw.drop_last();
        lemma_fenced_sound(scope_id, prev, lo, hi);
        let f = fenced(scope_id, raw, lo, hi);
        let fp = fenced(scope_id, prev, lo, hi);
        assert forall|i: int| 0 <= i < f.len() implies {
            let e = #[trigger] f[i];
            &&& in_key_range(e.0, &lo, &hi)
            &&& exists|j: int|
                0 <= j < raw.len() && user_key_of(scope_id, raw[j].0) == Some(e.0) && raw[j].1 == e.1
        } by {
            if i < fp.len() {
                let e = fp[i];
                let j = choose|j: int|
                    0 <= j < prev.len() && user_key_of(scope_id, prev[j].0) == Some(e.0) && prev[j].1
                        == e.1;
                assert(raw[j] == prev[j]);
            } else {
                assert(raw[raw.len() - 1] == raw.last());
            }
        }
    }
}

/// A named scope's fence admits exactly the stored keys that decode to its id.
pub proof fn lemma_fence_admits_own_id(id: u32, key: Seq<u8>)
    requires
        key.len() < 0x1_0000_0000_0000_0000,
    ensures
        forall|other: u32| #[trigger]
            user_key_of(Some(other), composite_key(id, key)) == if other == id {
                Some(key)
            } else {
                None
            },
{
    lemma_codec_round_trip(id, key);
}

/// Whether a stored key lies in a named scope's run: not before the scope's
/// start key and, unless the id is the largest, before the next id's start key.
pub open spec fn in_scope_run(id: u32, stored: Seq<u8>) -> bool {
    &&& !lex_lt(stored, composite_key(id, Seq::empty()))
    &&& (id == u32::MAX || lex_lt(stored, composite_key((id + 1) as u32, Seq::empty())))
}

/// A named scope's run of stored keys holds exactly the composite keys of
/// that scope, so the range that clearing deletes and that iteration scans
/// holds no entry of any other scope.
pub proof fn lemma_scope_run_exact(id: u32, d: u32, key: Seq<u8>)
    requires
        key.len() < 0x1_0000_0000_0000_0000,
    ensures
        in_scope_run(id, composite_key(d, key)) <==> d == id,
{
    reveal_with_fuel(pow256, 5);
    assert(pow256(4) == 0x1_0000_0000);
    let s = composite_key(d, key);
    let pd = be_bytes(d as nat, 4);
    let rd = be_bytes(key.len(), 8) + key;
    lemma_be_bytes_len(d as nat, 4);
    lemma_be_bytes_len(key.len(), 8);
    lemma_be_bytes_len(0, 8);
    lemma_be_bytes_zero(8);
    assert(s =~= pd + rd);
    lemma_not_below_zeros(rd, 8);
    lemma_be_value_of_bytes(d as nat, 4);
    let pi = be_bytes(id as nat, 4);
    lemma_be_bytes_len(id as nat, 4);
    lemma_be_value_of_bytes(id as nat, 4);
    let start = composite_key(id, Seq::empty());
    assert(start =~= pi + zeros(8));
    lemma_lex_concat(pd, rd, pi, zeros(8));
    lemma_lex_is_numeric(pd, pi);
    if id < u32::MAX {
        let n = (id + 1) as u32;
        let pe = be_bytes(n as nat, 4);
        lemma_be_bytes_len(n as nat, 4);
        lemma_be_value_of_bytes(n as nat, 4);
        let end = composite_key(n, Seq::empty());
        assert(end =~= pe + zeros(8));
        lemma_lex_concat(pd, rd, pe, zeros(8));
        lemma_lex_is_numeric(pd, pe);
    }
}

/// The byte contents of a sequence of (key, value) vectors.
pub open spec fn entries_view(v: Seq<(Vec<u8>, Vec<u8>)>) -> Seq<(Seq<u8>, Seq<u8>)> {
    v.map_values(|e: (Vec<u8>, Vec<u8>)| (e.0@, e.1@))
}

/// The first stored key of a named scope's run: the scope id with the empty
/// user key.
pub fn scope_start_key(id: u32) -> (r: Vec<u8>)
    ensures
        r@ == composite_key(id, Seq::empty()),
{
    let empty: [u8; 0] = [];
    ScopedBytesCodec::encode(id, empty.as_slice())
}

/// The exclusive end of a named scope's run of stored keys: the start of the
/// next id's run, or `None` (no upper end) for the largest id.
pub fn scope_end_key(id: u32) -> (r: Option<Vec<u8>>)
    ensures
        id < u32::MAX ==> (r matches Some(v) && v@ == composite_key((id + 1) as u32, Seq::empty())),
        id == u32::MAX ==> r is None,
{
    if id == u32::MAX {
        None
    } else {
        Some(scope_start_key(id + 1))
    }
}

/// The user key that a stored key holds for a scope: the prefix check that
/// fences every scanned entry.
pub fn user_key_in_scope<'a>(scope_id: Option<u32>, stored: &'a [u8]) -> (r: Option<&'a [u8]>)
    ensures
        r is None <==> user_key_of(scope_id, stored@) is None,
        r matches Some(k) ==> user_key_of(scope_id, stored@) == Some(k@),
{
    match scope_id {
        None => Some(stored),
        Some(id) => match ScopedBytesCodec::decode(stored) {
            Ok((d, k)) => if d == id {
                Some(k)
            } else {
                None
            },
            Err(_) => None,
        },
    }
}

/// Keeps, of a scan of a sub-database, the entries that belong to a scope and
/// whose user key lies in the range from `lo` to `hi`, with the user key in
/// place of the stored key.
pub fn fence_entries(
    scope_id: Option<u32>,
    raw: &Vec<(Vec<u8>, Vec<u8>)>,
    lo: &KeyBound,
    hi: &KeyBound,
) -> (r: Vec<(Vec<u8>, Vec<u8>)>)
    ensures
        entries_view(r@) == fenced(scope_id, entries_view(raw@), *lo, *hi),
{
    let mut out: Vec<(Vec<u8>, Vec<u8>)> = Vec::new();
    let mut i: usize = 0;
    while i < raw.len()
        invariant
            i <= raw@.len(),
            entries_view(out@) == fenced(scope_id, entries_view(raw@.take(i as int)), *lo, *hi),
        decreases raw@.len() - i,
    {
        let ghost prev = out@;
        let entry = &raw[i];
        proof {
            let t = entries_view(raw@.take(i + 1));
            assert(t.drop_last() =~= entries_view(raw@.take(i as int)));
            assert(t.last() == (entry.0@, entry.1@));
        }
        match user_key_in_scope(scope_id, entry.0.as_slice()) {
            Some(k) => {
                if key_in_range(k, lo, hi) {
                    out.push((slice_to_vec(k), slice_to_vec(entry.1.as_slice())));
                    proof {
                        assert(entries_view(out@) =~= entries_view(prev).push((k@, entry.1@)));
                    }
                }
            },
            None => {},
        }
        i = i + 1;
    }
    proof {
        assert(raw@.take(raw@.len() as int) =~= raw@);
    }
    out
}

/// Whether a scan of a sub-database holds no entry of a scope.
pub fn scan_is_empty_for(scope_id: Option<u32>, raw: &Vec<(Vec<u8>, Vec<u8>)>) -> (r: bool)
    ensures
        r == (fenced(scope_id, entries_view(raw@), KeyBound::Unbounded, KeyBound::Unbounded).len()
            == 0),
{
    let all = fence_entries(scope_id, raw, &KeyBound::Unbounded, &KeyBound::Unbounded);
    all.len() == 0
}

} // verus!
