//! Verified core of the gest task and artifact tracker.

pub mod primitives;
pub mod text;
pub mod search_query;
pub mod search;
pub mod orchestration;
pub mod resolve;
pub mod fs;
pub mod meta;
pub mod model;
pub mod store;
pub mod purge;
pub mod delete;
pub mod transaction;
pub mod iteration_repo;
pub mod watcher;
pub mod web;
pub mod search_sql;
pub mod update_sql;
pub mod relationships;
