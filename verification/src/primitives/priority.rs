//! Relative importance assigned to a task.

use vstd::prelude::*;
use vstd::string::StringExecFns;

use crate::text::{chars_of, decimal, decimal_chars, lower, push_all, same_str, string_of, to_lowercase};

verus! {

/// Relative importance assigned to a task, declared in rank order so that
/// the derived ordering matches the rank.
#[derive(Clone, Copy, Debug, PartialEq, Eq, Structural, Hash, PartialOrd, Ord)]
pub enum Primitive {
    /// Must be addressed immediately; blocks other work.
    Critical,
    /// Important but not a blocker.
    High,
    /// Default importance for most work.
    Medium,
    /// Should be done eventually.
    Low,
    /// Nice to have; defer if needed.
    Lowest,
}

/// The numeric rank of a priority: 0 for critical up to 4 for lowest.
pub open spec fn rank(p: Primitive) -> u8 {
    match p {
        Primitive::Critical => 0,
        Primitive::High => 1,
        Primitive::Medium => 2,
        Primitive::Low => 3,
        Primitive::Lowest => 4,
    }
}

/// The lowercase label of a priority.
pub open spec fn label(p: Primitive) -> Seq<char> {
    match p {
        Primitive::Critical => "critical"@,
        Primitive::High => "high"@,
        Primitive::Medium => "medium"@,
        Primitive::Low => "low"@,
        Primitive::Lowest => "lowest"@,
    }
}

/// What parsing an already lowercased label yields.
pub open spec fn spec_from_lowercase(s: Seq<char>) -> Result<Primitive, Seq<char>> {
    if s == "critical"@ {
        Ok(Primitive::Critical)
    } else if s == "high"@ {
        Ok(Primitive::High)
    } else if s == "low"@ {
        Ok(Primitive::Low)
    } else if s == "lowest"@ {
        Ok(Primitive::Lowest)
    } else if s == "medium"@ {
        Ok(Primitive::Medium)
    } else {
        Err("invalid priority: "@ + s)
    }
}

/// What converting a rank back to a priority yields.
pub open spec fn spec_from_rank(v: u8) -> Result<Primitive, Seq<char>> {
    if v == 0 {
        Ok(Primitive::Critical)
    } else if v == 1 {
        Ok(Primitive::High)
    } else if v == 2 {
        Ok(Primitive::Medium)
    } else if v == 3 {
        Ok(Primitive::Low)
    } else if v == 4 {
        Ok(Primitive::Lowest)
    } else {
        Err("invalid priority value: "@ + decimal(v as nat))
    }
}

impl Primitive {
    /// All priority variants in rank order, from highest to lowest.
    pub fn all() -> (r: Vec<Primitive>)
        ensures
            r@ == seq![
                Primitive::Critical,
                Primitive::High,
                Primitive::Medium,
                Primitive::Low,
                Primitive::Lowest,
            ],
    {
        vec![
            Primitive::Critical,
            Primitive::High,
            Primitive::Medium,
            Primitive::Low,
            Primitive::Lowest,
        ]
    }

    /// The numeric rank of this priority.
    pub fn rank(self) -> (r: u8)
        ensures
            r == rank(self),
    {
        match self {
            Primitive::Critical => 0,
            Primitive::High => 1,
            Primitive::Medium => 2,
            Primitive::Low => 3,
            Primitive::Lowest => 4,
        }
    }

    /// The lowercase label of this priority.
    pub fn as_str(self) -> (r: &'static str)
        ensures
            r@ == label(self),
    {
        match self {
            Primitive::Critical => "critical",
            Primitive::High => "high",
            Primitive::Medium => "medium",
            Primitive::Low => "low",
            Primitive::Lowest => "lowest",
        }
    }

    /// Formats the priority as its lowercase label.
    pub fn to_string(self) -> (r: String)
        ensures
            r@ == label(self),
    {
        String::from_str(self.as_str())
    }

    /// Parses an already lowercased label.
    pub fn from_lowercase(s: &str) -> (r: Result<Self, String>)
        ensures
            match r {
                Ok(v) => spec_from_lowercase(s@) == Ok::<Primitive, Seq<char>>(v),
                Err(e) => spec_from_lowercase(s@) == Err::<Primitive, Seq<char>>(e@),
            },
    {
        if same_str(s, "critical") {
            Ok(Primitive::Critical)
        } else if same_str(s, "high") {
            Ok(Primitive::High)
        } else if same_str(s, "low") {
            Ok(Primitive::Low)
        } else if same_str(s, "lowest") {
            Ok(Primitive::Lowest)
        } else if same_str(s, "medium") {
            Ok(Primitive::Medium)
        } else {
            let mut msg = chars_of("invalid priority: ");
            let rest = chars_of(s);
            push_all(&mut msg, &rest);
            Err(string_of(&msg))
        }
    }

    /// Parses a label case-insensitively.
    pub fn parse(s: &str) -> (r: Result<Self, String>)
        ensures
            match r {
                Ok(v) => spec_from_lowercase(lower(s@)) == Ok::<Primitive, Seq<char>>(v),
                Err(e) => spec_from_lowercase(lower(s@)) == Err::<Primitive, Seq<char>>(e@),
            },
    {
        let lower = to_lowercase(s);
        Self::from_lowercase(lower.as_str())
    }

    /// Converts a rank back into a priority.
    pub fn try_from(value: u8) -> (r: Result<Self, String>)
        ensures
            match r {
                Ok(v) => spec_from_rank(value) == Ok::<Primitive, Seq<char>>(v),
                Err(e) => spec_from_rank(value) == Err::<Primitive, Seq<char>>(e@),
            },
    {
        if value == 0 {
            Ok(Primitive::Critical)
        } else if value == 1 {
            Ok(Primitive::High)
        } else if value == 2 {
            Ok(Primitive::Medium)
        } else if value == 3 {
            Ok(Primitive::Low)
        } else if value == 4 {
            Ok(Primitive::Lowest)
        } else {
            let mut msg = chars_of("invalid priority value: ");
            let digits = decimal_chars(value as usize);
            push_all(&mut msg, &digits);
            Err(string_of(&msg))
        }
    }
}

impl From<Primitive> for u8 {
    fn from(value: Primitive) -> (r: u8) {
        value.rank()
    }
}

impl vstd::std_specs::convert::FromSpecImpl<Primitive> for u8 {
    open spec fn obeys_from_spec() -> bool {
        true
    }

    open spec fn from_spec(v: Primitive) -> u8 {
        rank(v)
    }
}

/// Every priority survives a round trip through its label.
pub proof fn law_label_round_trip(p: Primitive)
    ensures
        spec_from_lowercase(label(p)) == Ok::<Primitive, Seq<char>>(p),
{
    reveal_strlit("critical");
    reveal_strlit("high");
    reveal_strlit("medium");
    reveal_strlit("low");
    reveal_strlit("lowest");
    // lengths 8, 4, 6, 3, 6
    assert("critical"@.len() == 8 && "high"@.len() == 4 && "medium"@.len() == 6);
    assert("low"@.len() == 3 && "lowest"@.len() == 6);
    assert("medium"@[0] != "lowest"@[0]);
}

/// Every priority survives a round trip through its rank.
pub proof fn law_rank_round_trip(p: Primitive)
    ensures
        spec_from_rank(rank(p)) == Ok::<Primitive, Seq<char>>(p),
{
}

/// The rank order is the declaration order of the variants.
pub proof fn law_rank_injective(p: Primitive, q: Primitive)
    ensures
        rank(p) == rank(q) <==> p == q,
{
}

impl std::str::FromStr for Primitive {
    type Err = String;

    /// Parses case-insensitively, as `parse` does.
    fn from_str(s: &str) -> (r: Result<Self, String>)
        ensures
            match r {
                Ok(v) => spec_from_lowercase(lower(s@)) == Ok::<Primitive, Seq<char>>(v),
                Err(e) => spec_from_lowercase(lower(s@)) == Err::<Primitive, Seq<char>>(e@),
            },
    {
        Self::parse(s)
    }
}

} // verus!
