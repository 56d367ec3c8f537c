//! Storage parameters for creating or opening a database.

use vstd::prelude::*;

verus! {

/// The caller-facing description of storage parameters. Built once and handed
/// to [`crate::SplinterDB::db_create`] or [`crate::SplinterDB::db_open`],
/// which copy it into the handle; the handle owns its configuration for its
/// whole lifetime.
#[derive(Clone, Copy, Debug, PartialEq, Eq, Structural)]
pub struct DBConfig {
    pub cache_size_bytes: usize,
    pub disk_size_bytes: usize,
    pub max_key_size: usize,
    pub max_value_size: usize,
}

} // verus!
