//! Primitive value types used across the domain model.

pub mod entity_type;
pub mod id;
pub mod iteration_status;

/// The kind of domain entity a value refers to.
pub use entity_type::Primitive as EntityType;
/// 128-bit identifier shared by every domain model.
pub use id::Primitive as Id;
/// Lifecycle status tracked on each iteration.
pub use iteration_status::Primitive as IterationStatus;
pub mod priority;

/// Relative importance assigned to a task.
pub use priority::Primitive as Priority;
pub mod task_status;

/// Lifecycle status tracked on each task.
pub use task_status::Primitive as TaskStatus;
