//! The kinds of top-level entity.

use vstd::prelude::*;

verus! {

/// The domain entity kind a value refers to.
#[derive(Clone, Copy, Debug, PartialEq, Eq, Structural)]
pub enum Primitive {
    Artifact,
    Iteration,
    Task,
}

/// The lowercase name of an entity kind.
pub open spec fn kind_name(k: Primitive) -> Seq<char> {
    match k {
        Primitive::Artifact => "artifact"@,
        Primitive::Iteration => "iteration"@,
        Primitive::Task => "task"@,
    }
}

impl Primitive {
    /// The lowercase name of this kind.
    pub fn as_str(self) -> (r: &'static str)
        ensures
            r@ == kind_name(self),
    {
        match self {
            Primitive::Artifact => "artifact",
            Primitive::Iteration => "iteration",
            Primitive::Task => "task",
        }
    }
}

} // verus!
