//! Redis-style logical partitioning ("scopes") of an ordered key-value store.
//!
//! A scope is either the default scope, whose entries live in a container's
//! default sub-database under their own keys, or a named scope with a 32-bit
//! id, whose entries live in the container's scoped sub-database under a
//! composite key `[id: 4 bytes BE][key length: 8 bytes BE][key]`. Because the
//! id comes first and is big-endian, every named scope occupies one contiguous
//! run of stored keys.
//!
//! Modules:
//! - `scope`: scope values and their cached ids;
//! - `codec`: the composite key layout;
//! - `order`: lexicographic byte order and user key ranges;
//! - `fence`: a scope's run of stored keys and the fence applied to scans;
//! - `store`: what a container holds, and the isolation laws of its operations;
//! - `registry`: the scope registry's decisions and the pruning selection;
//! - `scope_registry`: an in-memory name/id registry;
//! - `builder`: container and sub-database naming;
//! - `error`: the error type.
pub mod builder;
pub mod codec;
pub mod error;
pub mod fence;
pub mod order;
pub mod registry;
pub mod scope;
pub mod scope_registry;
pub mod store;

pub use codec::{ScopedBytesCodec, ScopedKey};
pub use error::ScopedDbError;
pub use order::{get_key_default, HeedRangeAdapter, KeyBound};
pub use scope::{compute_xxhash, Scope};
pub use scope_registry::ScopeRegistry;
