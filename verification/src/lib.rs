//! A verified relationship-consistency engine for a social graph of named
//! channels.
//!
//! Channels are connected by two symmetric relation kinds, follow/followed
//! and ban/banned-from.  Every relation is stored redundantly, as identifier
//! lists on both endpoint records, and the engine keeps the two halves of
//! each edge mutually correct: paired mutation is idempotent-detecting, and
//! deleting a channel first unwinds every edge that references it so that no
//! dangling identifier survives.
//!
//! The transport layer (HTTP, TLS, configuration) is an external
//! collaborator and lives outside this crate.

use vstd::prelude::*;

pub mod channel;
pub mod edge_ops;
pub mod laws;
pub mod operations;
pub mod relations;
pub mod store;

verus! {

/// Connection settings for a store-backed deployment.  Carried through by
/// the transport layer; the engine itself never interprets them.
#[derive(Debug)]
pub struct DataBaseConfig {
    pub address: String,
    pub username: String,
    pub password: String,
    pub namespace: String,
    pub database: String,
}

impl Clone for DataBaseConfig {
    fn clone(&self) -> (r: Self)
        ensures
            r == *self,
    {
        DataBaseConfig {
            address: self.address.clone(),
            username: self.username.clone(),
            password: self.password.clone(),
            namespace: self.namespace.clone(),
            database: self.database.clone(),
        }
    }
}

} // verus!
