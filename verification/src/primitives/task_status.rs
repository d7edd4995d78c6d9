//! The lifecycle status of a task.

use vstd::prelude::*;

verus! {

/// The lifecycle status of a task.
#[derive(Clone, Copy, Debug, PartialEq, Eq, Structural, Hash)]
pub enum Primitive {
    Open,
    InProgress,
    Done,
    Cancelled,
}

/// The name a status is stored under.
pub open spec fn status_name(s: Primitive) -> Seq<char> {
    match s {
        Primitive::Open => "open"@,
        Primitive::InProgress => "in-progress"@,
        Primitive::Done => "done"@,
        Primitive::Cancelled => "cancelled"@,
    }
}

impl Primitive {
    /// Whether the status is terminal: done or cancelled.
    pub open spec fn spec_is_terminal(self) -> bool {
        self is Done || self is Cancelled
    }

    /// Whether this status represents a terminal (final) state.
    pub fn is_terminal(self) -> (r: bool)
        ensures
            r == self.spec_is_terminal(),
    {
        match self {
            Primitive::Open => false,
            Primitive::InProgress => false,
            Primitive::Done => true,
            Primitive::Cancelled => true,
        }
    }

    /// The name this status is stored under.
    pub fn as_str(self) -> (r: &'static str)
        ensures
            r@ == status_name(self),
    {
        match self {
            Primitive::Open => "open",
            Primitive::InProgress => "in-progress",
            Primitive::Done => "done",
            Primitive::Cancelled => "cancelled",
        }
    }
}

} // verus!
