use crate::error::ScopedDbError;
use vstd::prelude::*;
use vstd::string::StringExecFns;

verus! {

/// The name of the sub-database that holds the scope registry.
pub const GLOBAL_METADATA_DB_NAME: &'static str = "__global_scope_metadata";

/// The name of a container's scoped sub-database: its own name followed by
/// `_scoped`.
pub open spec fn scoped_name_of(name: Seq<char>) -> Seq<char> {
    name + "_scoped"@
}

/// The name that a container is created under; a missing name is refused.
pub fn required_name(name: Option<String>) -> (r: Result<String, ScopedDbError>)
    ensures
        name is None <==> r is Err,
        r is Err ==> r matches Err(ScopedDbError::InvalidInput(_)),
        name matches Some(n) ==> r matches Ok(m) && m@ == n@,
{
    match name {
        Some(n) => Ok(n),
        None => Err(ScopedDbError::InvalidInput("Database name is required".to_string())),
    }
}

/// The names of a container's two sub-databases: the default one, named as
/// the container, and the scoped one.
pub fn sub_database_names(name: &str) -> (r: (String, String))
    ensures
        r.0@ == name@,
        r.1@ == scoped_name_of(name@),
{
    let default_name = name.to_owned();
    let mut scoped_name = name.to_owned();
    scoped_name.append("_scoped");
    (default_name, scoped_name)
}

} // verus!
