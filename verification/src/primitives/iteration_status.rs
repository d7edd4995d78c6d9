//! The lifecycle status of an iteration.

use vstd::prelude::*;
use vstd::string::StringExecFns;

use crate::text::{chars_of, lower, push_all, same_str, string_of, to_lowercase};

verus! {

/// The lifecycle status of an iteration.
#[derive(Clone, Copy, Debug, PartialEq, Eq, Structural, Hash)]
pub enum Primitive {
    Active,
    Cancelled,
    Completed,
}

/// The lowercase name of a status.
pub open spec fn status_name(s: Primitive) -> Seq<char> {
    match s {
        Primitive::Active => "active"@,
        Primitive::Cancelled => "cancelled"@,
        Primitive::Completed => "completed"@,
    }
}

/// What parsing an already lowercased name yields.
pub open spec fn spec_from_lowercase(s: Seq<char>) -> Result<Primitive, Seq<char>> {
    if s == "active"@ {
        Ok(Primitive::Active)
    } else if s == "cancelled"@ {
        Ok(Primitive::Cancelled)
    } else if s == "completed"@ {
        Ok(Primitive::Completed)
    } else {
        Err("invalid iteration status: "@ + s)
    }
}

impl Primitive {
    /// Whether the status is terminal: cancelled or completed.
    pub open spec fn spec_is_terminal(self) -> bool {
        self is Cancelled || self is Completed
    }

    /// Whether this status represents a terminal (final) state.
    pub fn is_terminal(self) -> (r: bool)
        ensures
            r == self.spec_is_terminal(),
    {
        match self {
            Primitive::Active => false,
            Primitive::Cancelled => true,
            Primitive::Completed => true,
        }
    }

    /// The lowercase name of the status.
    pub fn as_str(self) -> (r: &'static str)
        ensures
            r@ == status_name(self),
    {
        match self {
            Primitive::Active => "active",
            Primitive::Cancelled => "cancelled",
            Primitive::Completed => "completed",
        }
    }

    /// Formats the status as its lowercase name.
    pub fn to_string(self) -> (r: String)
        ensures
            r@ == status_name(self),
    {
        String::from_str(self.as_str())
    }

    /// Parses an already lowercased status name.
    pub fn from_lowercase(s: &str) -> (r: Result<Self, String>)
        ensures
            match r {
                Ok(v) => spec_from_lowercase(s@) == Ok::<Primitive, Seq<char>>(v),
                Err(e) => spec_from_lowercase(s@) == Err::<Primitive, Seq<char>>(e@),
            },
    {
        if same_str(s, "active") {
            Ok(Primitive::Active)
        } else if same_str(s, "cancelled") {
            Ok(Primitive::Cancelled)
        } else if same_str(s, "completed") {
            Ok(Primitive::Completed)
        } else {
            let mut msg = chars_of("invalid iteration status: ");
            let rest = chars_of(s);
            push_all(&mut msg, &rest);
            Err(string_of(&msg))
        }
    }

    /// Parses a status name case-insensitively.
    pub fn parse(s: &str) -> (r: Result<Self, String>)
        ensures
            match r {
                Ok(v) => spec_from_lowercase(lower(s@)) == Ok::<Primitive, Seq<char>>(v),
                Err(e) => spec_from_lowercase(lower(s@)) == Err::<Primitive, Seq<char>>(e@),
            },
    {
        let lower = to_lowercase(s);
        Self::from_lowercase(lower.as_str())
    }
}

impl Default for Primitive {
    fn default() -> (r: Self)
        ensures
            r == Primitive::Active,
    {
        Primitive::Active
    }
}

/// Every status survives a round trip through its name.
pub proof fn law_name_round_trip(s: Primitive)
    ensures
        spec_from_lowercase(status_name(s)) == Ok::<Primitive, Seq<char>>(s),
{
    reveal_strlit("active");
    reveal_strlit("cancelled");
    reveal_strlit("completed");
    assert("active"@.len() != "cancelled"@.len());
    assert("active"@.len() != "completed"@.len());
    assert("cancelled"@[1] != "completed"@[1]);
}

impl std::str::FromStr for Primitive {
    type Err = String;

    /// Parses case-insensitively, as `parse` does.
    fn from_str(s: &str) -> (r: Result<Self, String>)
        ensures
            match r {
                Ok(v) => spec_from_lowercase(lower(s@)) == Ok::<Primitive, Seq<char>>(v),
                Err(e) => spec_from_lowercase(lower(s@)) == Err::<Primitive, Seq<char>>(e@),
            },
    {
        Self::parse(s)
    }
}

} // verus!
