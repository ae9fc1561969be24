use crate::error::ScopedDbError;
use crate::registry::{collision_message, collision_text};
use std::collections::hash_map::DefaultHasher;
use std::hash::Hasher;
use vstd::prelude::*;
use vstd::std_specs::hash::DefaultHasherAdditionalSpecFns;
use vstd::string::StringSliceAdditionalSpecFns;

verus! {

/// The low 32 bits of the standard library's default hash of a name's bytes.
pub open spec fn default_hash32(bytes: Seq<u8>) -> u32 {
    (DefaultHasher::spec_finish(seq![bytes]) & 0xFFFF_FFFF) as u32
}

/// The index of the entry with the given name, if any.
pub open spec fn index_of_name(entries: Seq<(Seq<char>, u32)>, name: Seq<char>) -> Option<int> {
    if exists|i: int| 0 <= i < entries.len() && entries[i].0 == name {
        Some(choose|i: int| 0 <= i < entries.len() && entries[i].0 == name)
    } else {
        None
    }
}

/// The index of the entry with the given id, if any.
pub open spec fn index_of_id(entries: Seq<(Seq<char>, u32)>, id: u32) -> Option<int> {
    if exists|i: int| 0 <= i < entries.len() && entries[i].1 == id {
        Some(choose|i: int| 0 <= i < entries.len() && entries[i].1 == id)
    } else {
        None
    }
}

/// An in-memory map between scope names and their ids that refuses two names
/// with one id.
#[derive(Debug, Clone)]
pub struct ScopeRegistry {
    entries: Vec<(String, u32)>,
}

impl View for ScopeRegistry {
    type V = Seq<(Seq<char>, u32)>;

    closed spec fn view(&self) -> Seq<(Seq<char>, u32)> {
        self.entries@.map_values(|e: (String, u32)| (e.0@, e.1))
    }
}

impl ScopeRegistry {
    /// Names are unique and ids are unique.
    pub open spec fn wf(&self) -> bool {
        forall|i: int, j: int|
            0 <= i < self@.len() && 0 <= j < self@.len() && i != j ==> self@[i].0 != self@[j].0
                && self@[i].1 != self@[j].1
    }

    /// Creates an empty registry.
    pub fn new() -> (r: Self)
        ensures
            r@.len() == 0,
            r.wf(),
    {
        ScopeRegistry { entries: Vec::new() }
    }

    fn find_name(&self, name: &String) -> (r: Option<usize>)
        ensures
            r is None <==> index_of_name(self@, name@) is None,
            r matches Some(i) ==> i < self@.len() && self@[i as int].0 == name@,
    {
        let mut i: usize = 0;
        while i < self.entries.len()
            invariant
                i <= self@.len() == self.entries@.len(),
                forall|j: int| 0 <= j < i ==> self@[j].0 != name@,
            decreases self@.len() - i,
        {
            if self.entries[i].0.eq(name) {
                assert(self@[i as int].0 == name@);
                return Some(i);
            }
            i = i + 1;
        }
        None
    }

    fn find_id(&self, id: u32) -> (r: Option<usize>)
        ensures
            r is None <==> index_of_id(self@, id) is None,
            r matches Some(i) ==> i < self@.len() && self@[i as int].1 == id,
    {
        let mut i: usize = 0;
        while i < self.entries.len()
            invariant
                i <= self@.len() == self.entries@.len(),
                forall|j: int| 0 <= j < i ==> self@[j].1 != id,
            decreases self@.len() - i,
        {
            if self.entries[i].1 == id {
                assert(self@[i as int].1 == id);
                return Some(i);
            }
            i = i + 1;
        }
        None
    }

    /// The id of a scope name, registering it on first use: the low 32 bits of
    /// the default hash of its bytes. Fails with `InvalidInput`, naming both
    /// names, where another registered name already has that id.
    pub fn hash(&mut self, scope: &str) -> (r: Result<u32, ScopedDbError>)
        requires
            old(self).wf(),
        ensures
            final(self).wf(),
            match index_of_name(old(self)@, scope@) {
                Some(i) => r == Ok::<u32, ScopedDbError>(old(self)@[i].1) && final(self)@ == old(self)@,
                None => {
                    let h = default_hash32(scope.spec_bytes());
                    match index_of_id(old(self)@, h) {
                        Some(j) => final(self)@ == old(self)@ && (r matches Err(
                            ScopedDbError::InvalidInput(msg),
                        ) && msg@ == collision_text(scope@, old(self)@[j].0)),
                        None => r == Ok::<u32, ScopedDbError>(h) && final(self)@ == old(self)@.push(
                            (scope@, h),
                        ),
                    }
                },
            },
    {
        let owned = scope.to_owned();
        match self.find_name(&owned) {
            Some(i) => {
                proof {
                    let k = index_of_name(old(self)@, scope@).unwrap();
                    assert(old(self)@[k].0 == old(self)@[i as int].0);
                }
                return Ok(self.entries[i].1);
            },
            None => {},
        }
        let mut hasher = DefaultHasher::new();
        hasher.write(scope.as_bytes());
        let full_hash = hasher.finish();
        let hash = (full_hash & 0xFFFF_FFFF) as u32;
        proof {
            assert(hasher@ =~= seq![scope.spec_bytes()]);
        }
        match self.find_id(hash) {
            Some(j) => {
                proof {
                    let k = index_of_id(old(self)@, hash).unwrap();
                    assert(old(self)@[k].1 == old(self)@[j as int].1);
                }
                let msg = collision_message(scope, self.entries[j].0.as_str());
                Err(ScopedDbError::InvalidInput(msg))
            },
            None => {
                self.entries.push((owned, hash));
                proof {
                    assert(self@ =~= old(self)@.push((scope@, hash)));
                }
                Ok(hash)
            },
        }
    }

    /// The registered (name, id) pairs, in order of registration.
    pub fn get_all_scopes(&self) -> (r: &Vec<(String, u32)>)
        ensures
            r@.map_values(|e: (String, u32)| (e.0@, e.1)) == self@,
    {
        &self.entries
    }

    /// The name registered under an id, if any.
    pub fn get_scope_name(&self, hash: u32) -> (r: Option<&String>)
        ensures
            r is None <==> index_of_id(self@, hash) is None,
            r matches Some(n) ==> exists|i: int| 0 <= i < self@.len() && self@[i] == (n@, hash),
    {
        match self.find_id(hash) {
            Some(j) => {
                proof {
                    assert(self@[j as int] == (self.entries@[j as int].0@, hash));
                }
                Some(&self.entries[j].0)
            },
            None => None,
        }
    }
}

} // verus!
