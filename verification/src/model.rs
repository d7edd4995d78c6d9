//! Records, filters and patches of the domain model, and how stored rows
//! are read into records.

pub mod artifact;
pub mod fields;
pub mod iteration;
pub mod note;
pub mod project;
pub mod sync_digest;
pub mod task;
pub mod transaction;
