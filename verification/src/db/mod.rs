//! Rows that the database stores: statistics rows with a validity range,
//! commit identities, and pull-request data.

pub mod store;
pub mod pr_store;
pub mod commit_store;
