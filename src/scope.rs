use crate::error::ScopedDbError;
use std::hash::Hasher;
use vstd::prelude::*;
use vstd::utf8::encode_utf8;

verus! {

/// The 32-bit xxHash (seed 0) of a byte sequence.
pub uninterp spec fn xxhash32_of(data: Seq<u8>) -> u32;

/// Relies on twox_hash::XxHash32 with seed 0: the 32-bit digest of `data`,
/// which `finish` returns widened to `u64`.
#[verifier::external_body]
pub fn compute_xxhash(data: &[u8]) -> (r: u32)
    ensures
        r == xxhash32_of(data@),
{
    let mut hasher = twox_hash::XxHash32::with_seed(0);
    hasher.write(data);
    hasher.finish() as u32
}

/// A scope: the unnamed default scope, or a named scope with its cached id.
///
/// Two scopes are equal when they have the same variant and the same name; the
/// cached id is a function of the name.
#[derive(Debug, Clone, Hash)]
pub enum Scope {
    /// The default (unnamed) scope.
    Default,
    /// A named scope with its precomputed 32-bit id.
    Named { name: String, hash: u32 },
}

/// The id that a scope name maps to: the hash of its UTF-8 bytes.
pub open spec fn scope_id_of(name: Seq<char>) -> u32 {
    xxhash32_of(encode_utf8(name))
}

impl Scope {
    /// A scope is well formed when it is the default scope, or a named scope
    /// with a non-empty name whose id is the hash of that name.
    pub open spec fn wf(&self) -> bool {
        match self {
            Scope::Default => true,
            Scope::Named { name, hash } => name@.len() > 0 && *hash == scope_id_of(name@),
        }
    }

    /// The name of a named scope, as characters.
    pub open spec fn name_view(&self) -> Option<Seq<char>> {
        match self {
            Scope::Default => None,
            Scope::Named { name, .. } => Some(name@),
        }
    }

    /// The id of a named scope.
    pub open spec fn id_view(&self) -> Option<u32> {
        match self {
            Scope::Default => None,
            Scope::Named { hash, .. } => Some(*hash),
        }
    }

    /// Creates a named scope, caching the hash of its name.
    pub fn named(name: &str) -> (r: Result<Scope, ScopedDbError>)
        ensures
            name@.len() == 0 <==> r is Err,
            r is Err ==> r matches Err(ScopedDbError::EmptyScopeDisallowed),
            r matches Ok(s) ==> s.name_view() == Some(name@) && s.id_view() == Some(
                scope_id_of(name@),
            ),
            r matches Ok(s) ==> s.wf(),
    {
        if name.is_empty() {
            return Err(ScopedDbError::EmptyScopeDisallowed);
        }
        let hash = compute_xxhash(name.as_bytes());
        Ok(Scope::Named { name: name.to_owned(), hash })
    }

    /// The name of a named scope; `None` for the default scope.
    pub fn name(&self) -> (r: Option<&str>)
        ensures
            r is None <==> self is Default,
            r matches Some(n) ==> Some(n@) == self.name_view(),
    {
        match self {
            Scope::Default => None,
            Scope::Named { name, .. } => Some(name.as_str()),
        }
    }

    /// The cached id of a named scope; `None` for the default scope.
    pub fn hash(&self) -> (r: Option<u32>)
        ensures
            r == self.id_view(),
    {
        match self {
            Scope::Default => None,
            Scope::Named { hash, .. } => Some(*hash),
        }
    }

    /// Whether this is the default scope.
    pub fn is_default(&self) -> (r: bool)
        ensures
            r == (self is Default),
    {
        match self {
            Scope::Default => true,
            Scope::Named { .. } => false,
        }
    }

    /// The scope that a piece of external text stands for: the default scope
    /// for empty text, the named scope otherwise.
    pub fn from_name(name: &str) -> (r: Scope)
        ensures
            name@.len() == 0 ==> r is Default,
            name@.len() > 0 ==> r.name_view() == Some(name@) && r.id_view() == Some(
                scope_id_of(name@),
            ),
            r.wf(),
    {
        if name.is_empty() {
            Scope::Default
        } else {
            match Scope::named(name) {
                Ok(scope) => scope,
                Err(_) => Scope::Default,
            }
        }
    }

    /// The scope that an optional name stands for: `None` and the empty name
    /// give the default scope.
    pub fn from_option(name: Option<&str>) -> (r: Scope)
        ensures
            match name {
                None => r is Default,
                Some(n) => n@.len() == 0 ==> r is Default,
            },
            name matches Some(n) ==> n@.len() > 0 ==> r.name_view() == Some(n@) && r.id_view()
                == Some(scope_id_of(n@)),
            r.wf(),
    {
        match name {
            Some(n) => Scope::from_name(n),
            None => Scope::Default,
        }
    }
}

impl PartialEq for Scope {
    fn eq(&self, other: &Scope) -> (r: bool)
        ensures
            r == (self.name_view() == other.name_view()),
    {
        match (self, other) {
            (Scope::Default, Scope::Default) => true,
            (Scope::Named { name: a, .. }, Scope::Named { name: b, .. }) => a.eq(b),
            _ => false,
        }
    }
}

impl vstd::std_specs::cmp::PartialEqSpecImpl for Scope {
    open spec fn obeys_eq_spec() -> bool {
        true
    }

    open spec fn eq_spec(&self, other: &Scope) -> bool {
        self.name_view() == other.name_view()
    }
}

impl Eq for Scope {

}

impl<'a> From<&'a str> for Scope {
    fn from(name: &'a str) -> Scope {
        Scope::from_name(name)
    }
}

impl<'a> vstd::std_specs::convert::FromSpecImpl<&'a str> for Scope {
    open spec fn obeys_from_spec() -> bool {
        false
    }

    open spec fn from_spec(v: &'a str) -> Scope {
        Scope::Default
    }
}

impl<'a> From<Option<&'a str>> for Scope {
    fn from(name: Option<&'a str>) -> Scope {
        Scope::from_option(name)
    }
}

impl<'a> vstd::std_specs::convert::FromSpecImpl<Option<&'a str>> for Scope {
    open spec fn obeys_from_spec() -> bool {
        false
    }

    open spec fn from_spec(v: Option<&'a str>) -> Scope {
        Scope::Default
    }
}

} // verus!
