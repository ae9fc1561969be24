use crate::error::ScopedDbError;
use crate::scope::Scope;
use vstd::prelude::*;
use vstd::string::StringExecFns;

verus! {

/// The text of the error that reports two names sharing one id.
pub open spec fn collision_text(name: Seq<char>, existing: Seq<char>) -> Seq<char> {
    "Hash collision detected between '"@ + name + "' and '"@ + existing + "'"@
}

/// Whether `part` occurs in `text`.
pub open spec fn contains_text(text: Seq<char>, part: Seq<char>) -> bool {
    exists|i: int|
        0 <= i && i + part.len() <= text.len() && #[trigger] text.subrange(i, i + part.len()) == part
}

/// The registry contents after registering `scope`, or `None` where the id is
/// already held by another name.
pub open spec fn register_spec(m: Map<u32, Seq<char>>, scope: Scope) -> Option<Map<u32, Seq<char>>> {
    match scope {
        Scope::Default => Some(m),
        Scope::Named { name, hash } => if m.contains_key(hash) {
            if m[hash] == name@ {
                Some(m)
            } else {
                None
            }
        } else {
            Some(m.insert(hash, name@))
        },
    }
}

/// The registry contents after unregistering an id.
pub open spec fn unregister_spec(m: Map<u32, Seq<char>>, id: u32) -> Map<u32, Seq<char>> {
    m.remove(id)
}

/// Whether every report in a sequence says "empty".
pub open spec fn all_empty(reports: Seq<bool>) -> bool {
    forall|j: int| 0 <= j < reports.len() ==> reports[j]
}

/// The ids that a prune removes: those of the entries that every one of the
/// `n_checkers` checkers reports empty; none at all when there is no checker.
pub open spec fn prune_spec(ids: Seq<u32>, reports: Seq<Seq<bool>>, n_checkers: nat) -> Seq<u32>
    decreases ids.len(),
{
    if ids.len() == 0 || n_checkers == 0 {
        Seq::empty()
    } else {
        let rest = prune_spec(ids.drop_last(), reports.drop_last(), n_checkers);
        if all_empty(reports.last()) {
            rest.push(ids.last())
        } else {
            rest
        }
    }
}

/// Registering a named scope and then listing the registry shows the scope
/// under its id; unregistering that id removes it again.
pub proof fn lemma_register_round_trip(m: Map<u32, Seq<char>>, scope: Scope)
    requires
        scope is Named,
        register_spec(m, scope) is Some,
    ensures
        ({
            let id = scope.id_view().unwrap();
            let m2 = register_spec(m, scope).unwrap();
            &&& m2.contains_key(id)
            &&& Some(m2[id]) == scope.name_view()
            &&& !unregister_spec(m2, id).contains_key(id)
        }),
{
}

/// Registering a second, distinct name under an id that the registry already
/// holds fails, and the error text names both scope names.
pub proof fn lemma_collision_names_both(m: Map<u32, Seq<char>>, first: Scope, second: Scope)
    requires
        first is Named,
        second is Named,
        first.id_view() == second.id_view(),
        first.name_view() != second.name_view(),
        register_spec(m, first) is Some,
    ensures
        register_spec(register_spec(m, first).unwrap(), second) is None,
        ({
            let a = second.name_view().unwrap();
            let b = first.name_view().unwrap();
            let t = collision_text(a, b);
            &&& contains_text(t, a)
            &&& contains_text(t, b)
        }),
{
    let a = second.name_view().unwrap();
    let b = first.name_view().unwrap();
    let p = "Hash collision detected between '"@;
    let q = "' and '"@;
    let t = collision_text(a, b);
    let i: int = p.len() as int;
    let j: int = (p.len() + a.len() + q.len()) as int;
    assert(t.subrange(i, i + a.len()) =~= a);
    assert(t.subrange(j, j + b.len()) =~= b);
}

/// A prune removes exactly the ids of the entries that every checker reports
/// empty, and nothing when there is no checker. (The default scope has no
/// entry, so it is never removed.)
pub proof fn lemma_prune_exact(ids: Seq<u32>, reports: Seq<Seq<bool>>, n_checkers: nat)
    requires
        ids.len() == reports.len(),
    ensures
        n_checkers == 0 ==> prune_spec(ids, reports, n_checkers).len() == 0,
        n_checkers > 0 ==> forall|id: u32|
            prune_spec(ids, reports, n_checkers).contains(id) <==> exists|i: int|
                0 <= i < ids.len() && ids[i] == id && all_empty(#[trigger] reports[i]),
    decreases ids.len(),
{
    if ids.len() > 0 && n_checkers > 0 {
        let pi = ids.drop_last();
        let pr = reports.drop_last();
        lemma_prune_exact(pi, pr, n_checkers);
        let r = prune_spec(ids, reports, n_checkers);
        let rp = prune_spec(pi, pr, n_checkers);
        assert forall|id: u32| r.contains(id) <==> exists|i: int|
            0 <= i < ids.len() && ids[i] == id && all_empty(#[trigger] reports[i]) by {
            if r.contains(id) {
                if rp.contains(id) {
                    let i = choose|i: int| 0 <= i < pi.len() && pi[i] == id && all_empty(#[trigger] pr[i]);
                    assert(ids[i] == id && reports[i] == pr[i]);
                } else {
                    let i = ids.len() - 1;
                    assert(r == rp.push(ids.last()));
                    assert(ids[i] == id && all_empty(reports[i]));
                }
            }
            if exists|i: int| 0 <= i < ids.len() && ids[i] == id && all_empty(#[trigger] reports[i]) {
                let i = choose|i: int| 0 <= i < ids.len() && ids[i] == id && all_empty(#[trigger] reports[i]);
                if i < pi.len() {
                    assert(pi[i] == id && pr[i] == reports[i]);
                    assert(rp.contains(id));
                    if all_empty(reports.last()) {
                        assert(r == rp.push(ids.last()));
                        assert(r[rp.index_of(id)] == id);
                    }
                } else {
                    assert(r == rp.push(ids.last()));
                    assert(r[r.len() - 1] == id);
                }
            }
        }
    }
}

/// Builds the message that names both colliding scope names.
pub fn collision_message(name: &str, existing: &str) -> (r: String)
    ensures
        r@ == collision_text(name@, existing@),
{
    let mut msg = String::new();
    msg.append("Hash collision detected between '");
    msg.append(name);
    msg.append("' and '");
    msg.append(existing);
    msg.append("'");
    proof {
        assert(msg@ =~= collision_text(name@, existing@));
    }
    msg
}

/// Decides what registering `scope` does, given the name that the registry
/// holds under the scope's id (if any): `Ok(true)` where the id must be
/// inserted, `Ok(false)` where nothing changes, and `InvalidInput` naming both
/// names where the id is held by another name.
pub fn register_decision(scope: &Scope, existing: Option<&String>) -> (r: Result<bool, ScopedDbError>)
    ensures
        scope is Default ==> r == Ok::<bool, ScopedDbError>(false),
        scope matches Scope::Named { name, .. } ==> match existing {
            None => r == Ok::<bool, ScopedDbError>(true),
            Some(e) => if e@ == name@ {
                r == Ok::<bool, ScopedDbError>(false)
            } else {
                r matches Err(ScopedDbError::InvalidInput(msg)) && msg@ == collision_text(name@, e@)
            },
        },
{
    match scope {
        Scope::Default => Ok(false),
        Scope::Named { name, .. } => match existing {
            None => Ok(true),
            Some(e) => {
                if name.eq(e) {
                    Ok(false)
                } else {
                    Err(ScopedDbError::InvalidInput(collision_message(name.as_str(), e.as_str())))
                }
            },
        },
    }
}

/// Lists the scopes of a registry from its stored (id, name) entries: the
/// default scope first, then one named scope per entry, in order.
pub fn scopes_from_entries(entries: &Vec<(u32, String)>) -> (r: Vec<Scope>)
    ensures
        r@.len() == entries@.len() + 1,
        r@[0] is Default,
        forall|i: int|
            0 <= i < entries@.len() ==> (#[trigger] r@[i + 1]).name_view() == Some(entries@[i].1@)
                && r@[i + 1].id_view() == Some(entries@[i].0),
{
    let mut out: Vec<Scope> = Vec::new();
    out.push(Scope::Default);
    let mut i: usize = 0;
    while i < entries.len()
        invariant
            i <= entries@.len(),
            out@.len() == i + 1,
            out@[0] is Default,
            forall|j: int|
                0 <= j < i ==> (#[trigger] out@[j + 1]).name_view() == Some(entries@[j].1@)
                    && out@[j + 1].id_view() == Some(entries@[j].0),
        decreases entries@.len() - i,
    {
        let (id, name) = &entries[i];
        out.push(Scope::Named { name: name.clone(), hash: *id });
        i = i + 1;
    }
    out
}

/// The id of the first stored entry with the given name, if any.
pub fn lookup_in_entries(entries: &Vec<(u32, String)>, name: &str) -> (r: Option<u32>)
    ensures
        r is None <==> forall|i: int| 0 <= i < entries@.len() ==> entries@[i].1@ != name@,
        r matches Some(id) ==> exists|i: int|
            0 <= i < entries@.len() && entries@[i].1@ == name@ && entries@[i].0 == id && forall|
                j: int,
            |
                0 <= j < i ==> entries@[j].1@ != name@,
{
    let target = name.to_owned();
    let mut i: usize = 0;
    while i < entries.len()
        invariant
            i <= entries@.len(),
            target@ == name@,
            forall|j: int| 0 <= j < i ==> entries@[j].1@ != name@,
        decreases entries@.len() - i,
    {
        if entries[i].1.eq(&target) {
            return Some(entries[i].0);
        }
        i = i + 1;
    }
    None
}

/// Whether every report says "empty".
pub fn reports_all_empty(reports: &Vec<bool>) -> (r: bool)
    ensures
        r == all_empty(reports@),
{
    let mut i: usize = 0;
    while i < reports.len()
        invariant
            i <= reports@.len(),
            forall|j: int| 0 <= j < i ==> reports@[j],
        decreases reports@.len() - i,
    {
        if !reports[i] {
            return false;
        }
        i = i + 1;
    }
    true
}

/// Selects the registry entries to prune: `reports[i][j]` is whether checker
/// `j` found entry `i`'s scope empty. An entry is selected when all
/// `n_checkers` checkers report it empty; with no checker nothing is.
pub fn prune_selection(entries: &Vec<(u32, String)>, reports: &Vec<Vec<bool>>, n_checkers: usize) -> (r:
    Vec<u32>)
    requires
        reports@.len() == entries@.len(),
    ensures
        r@ == prune_spec(
            entries@.map_values(|e: (u32, String)| e.0),
            reports@.map_values(|v: Vec<bool>| v@),
            n_checkers as nat,
        ),
{
    let ghost ids = entries@.map_values(|e: (u32, String)| e.0);
    let ghost reps = reports@.map_values(|v: Vec<bool>| v@);
    let mut out: Vec<u32> = Vec::new();
    if n_checkers == 0 {
        return out;
    }
    let mut i: usize = 0;
    while i < entries.len()
        invariant
            i <= entries@.len() == reports@.len(),
            n_checkers > 0,
            ids == entries@.map_values(|e: (u32, String)| e.0),
            reps == reports@.map_values(|v: Vec<bool>| v@),
            out@ == prune_spec(ids.take(i as int), reps.take(i as int), n_checkers as nat),
        decreases entries@.len() - i,
    {
        proof {
            assert(ids.take(i + 1).drop_last() =~= ids.take(i as int));
            assert(reps.take(i + 1).drop_last() =~= reps.take(i as int));
        }
        if reports_all_empty(&reports[i]) {
            out.push(entries[i].0);
        }
        i = i + 1;
    }
    proof {
        assert(ids.take(i as int) =~= ids);
        assert(reps.take(i as int) =~= reps);
    }
    out
}

} // verus!
