//! Prefix matching over the file stems of the on-disk entity directories,
//! and the generation of ids whose short form collides with no entity.

use vstd::prelude::*;
use vstd::string::{StringExecFns, StringSliceAdditionalSpecFns};

use crate::primitives::id::{spec_decode, spec_validate_prefix};
use crate::primitives::Id;
use crate::text::{chars_of, push_all, string_of, strs};

verus! {

/// Result of scanning a directory for file stems matching a given prefix.
///
/// Only the first two matches are retained—enough to distinguish between
/// "not found", "unique", and "ambiguous".
#[derive(Debug, PartialEq, Eq)]
pub enum PrefixMatch {
    /// Two or more files matched (carries the first two for diagnostics).
    Ambiguous(String, String),
    /// No files matched the prefix.
    Absent,
    /// Exactly one file matched.
    Unique(String),
}

/// Whether `s` starts with `prefix`.
pub open spec fn starts_with(s: Seq<char>, prefix: Seq<char>) -> bool {
    prefix.len() <= s.len() && s.take(prefix.len() as int) == prefix
}

/// The stems that start with `prefix`, in order.
pub open spec fn matching(stems: Seq<Seq<char>>, prefix: Seq<char>) -> Seq<Seq<char>>
    decreases stems.len(),
{
    if stems.len() == 0 {
        Seq::empty()
    } else {
        let prev = matching(stems.drop_last(), prefix);
        if starts_with(stems.last(), prefix) {
            prev.push(stems.last())
        } else {
            prev
        }
    }
}

/// What scanning for `prefix` reports: none, the unique match, or the first two.
pub open spec fn spec_scan(stems: Seq<Seq<char>>, prefix: Seq<char>) -> (nat, Seq<char>, Seq<char>) {
    let m = matching(stems, prefix);
    if m.len() == 0 {
        (0, Seq::empty(), Seq::empty())
    } else if m.len() == 1 {
        (1, m[0], Seq::empty())
    } else {
        (2, m[0], m[1])
    }
}

impl PrefixMatch {
    /// The number of matches kept (0, 1, or 2) and the stems kept.
    pub open spec fn view_triple(&self) -> (nat, Seq<char>, Seq<char>) {
        match self {
            PrefixMatch::Absent => (0, Seq::empty(), Seq::empty()),
            PrefixMatch::Unique(a) => (1, a@, Seq::empty()),
            PrefixMatch::Ambiguous(a, b) => (2, a@, b@),
        }
    }
}

/// Whether `s` starts with `prefix`.
pub fn has_prefix(s: &str, prefix: &str) -> (r: bool)
    ensures
        r == starts_with(s@, prefix@),
{
    let a = chars_of(s);
    let b = chars_of(prefix);
    if b.len() > a.len() {
        return false;
    }
    let mut i: usize = 0;
    while i < b.len()
        invariant
            0 <= i <= b.len() <= a.len(),
            a@ == s@,
            b@ == prefix@,
            forall|k: int| 0 <= k < i ==> a@[k] == b@[k],
        decreases b.len() - i,
    {
        if a[i] != b[i] {
            assert(a@.take(b.len() as int)[i as int] == a@[i as int]);
            assert(a@.take(b.len() as int) != b@);
            return false;
        }
        i = i + 1;
    }
    assert(a@.take(b.len() as int) =~= b@);
    true
}

/// Check whether any stem starts with `prefix`.
pub fn has_prefix_match(stems: &Vec<String>, prefix: &str) -> (r: bool)
    ensures
        r == (matching(strs(stems@), prefix@).len() > 0),
{
    let ghost sv = strs(stems@);
    let mut i: usize = 0;
    while i < stems.len()
        invariant
            0 <= i <= stems.len(),
            sv == strs(stems@),
            matching(sv.take(i as int), prefix@).len() == 0,
        decreases stems.len() - i,
    {
        assert(sv.take(i + 1).drop_last() =~= sv.take(i as int));
        if has_prefix(stems[i].as_str(), prefix) {
            assert(matching(sv, prefix@).len() > 0) by {
                lemma_matching_prefix(sv, prefix@, i + 1);
            }
            return true;
        }
        i = i + 1;
    }
    assert(sv.take(stems.len() as int) =~= sv);
    false
}

/// The matches of a prefix of the stems are a prefix of the matches.
proof fn lemma_matching_prefix(s: Seq<Seq<char>>, prefix: Seq<char>, n: int)
    requires
        0 <= n <= s.len(),
    ensures
        matching(s.take(n), prefix).len() <= matching(s, prefix).len(),
        matching(s, prefix).take(matching(s.take(n), prefix).len() as int) == matching(s.take(n), prefix),
    decreases s.len() - n,
{
    if n < s.len() {
        lemma_matching_prefix(s, prefix, n + 1);
        assert(s.take(n + 1).drop_last() =~= s.take(n));
        let a = matching(s.take(n), prefix);
        let b = matching(s.take(n + 1), prefix);
        let c = matching(s, prefix);
        assert(c.take(a.len() as int) =~= b.take(a.len() as int));
        assert(b.take(a.len() as int) =~= a);
    } else {
        assert(s.take(n) =~= s);
        assert(matching(s, prefix).take(matching(s, prefix).len() as int) =~= matching(s, prefix));
    }
}

/// Scan `stems` for ones starting with `prefix`, stopping as soon as two
/// matches are found.
pub fn collect_prefix_matches(stems: &Vec<String>, prefix: &str) -> (r: PrefixMatch)
    ensures
        r.view_triple() == spec_scan(strs(stems@), prefix@),
{
    let ghost sv = strs(stems@);
    let mut first: Option<String> = None;
    let mut i: usize = 0;
    while i < stems.len()
        invariant
            0 <= i <= stems.len(),
            sv == strs(stems@),
            match first {
                None => matching(sv.take(i as int), prefix@).len() == 0,
                Some(f) => matching(sv.take(i as int), prefix@) == seq![f@],
            },
        decreases stems.len() - i,
    {
        assert(sv.take(i + 1).drop_last() =~= sv.take(i as int));
        assert(sv.take(i + 1).last() == stems@[i as int]@);
        if has_prefix(stems[i].as_str(), prefix) {
            match first {
                None => {
                    first = Some(stems[i].clone());
                    assert(matching(sv.take(i + 1), prefix@) =~= seq![stems@[i as int]@]);
                },
                Some(f) => {
                    proof {
                        lemma_matching_prefix(sv, prefix@, i + 1);
                        let m = matching(sv.take(i + 1), prefix@);
                        assert(m =~= seq![f@, stems@[i as int]@]);
                        assert(matching(sv, prefix@).take(2) == m);
                        assert(matching(sv, prefix@)[0] == f@);
                        assert(matching(sv, prefix@)[1] == stems@[i as int]@);
                    }
                    return PrefixMatch::Ambiguous(f, stems[i].clone());
                },
            }
        }
        i = i + 1;
    }
    assert(sv.take(stems.len() as int) =~= sv);
    match first {
        Some(s) => PrefixMatch::Unique(s),
        None => PrefixMatch::Absent,
    }
}

/// The error for an ambiguous prefix, naming the first two matches.
pub open spec fn ambiguous_message(prefix: Seq<char>, a: Seq<char>, b: Seq<char>) -> Seq<char> {
    "Ambiguous ID prefix '"@ + prefix + "', matches: "@ + a + ", "@ + b
}

/// The error when nothing matched.
pub open spec fn not_found_message(hint: Seq<char>, prefix: Seq<char>, include_secondary: bool) -> Seq<char> {
    hint + " not found: '"@ + prefix + "'"@ + if include_secondary {
        Seq::empty()
    } else {
        " (try --all)"@
    }
}

/// What one directory's scan decides: `None` when nothing matched.
pub open spec fn spec_decide(stems: Seq<Seq<char>>, prefix: Seq<char>) -> Option<Result<Seq<u8>, Seq<char>>> {
    let m = spec_scan(stems, prefix);
    if m.0 == 0 {
        None
    } else if m.0 == 1 {
        Some(spec_decode(vstd::utf8::encode_utf8(m.1)))
    } else {
        Some(Err(ambiguous_message(prefix, m.1, m.2)))
    }
}

/// What resolving a prefix against the stems of a primary and (optionally
/// consulted) secondary directory yields.
pub open spec fn spec_resolve_in_dirs(
    primary: Seq<Seq<char>>,
    secondary: Option<Seq<Seq<char>>>,
    prefix: &str,
    include_secondary: bool,
    hint: Seq<char>,
) -> Result<Seq<u8>, Seq<char>> {
    match spec_validate_prefix(prefix@, prefix.spec_bytes()) {
        Err(e) => Err(e),
        Ok(_) => match spec_decide(primary, prefix@) {
            Some(r) => r,
            None => {
                let fallback = if include_secondary {
                    match secondary {
                        Some(sec) => spec_decide(sec, prefix@),
                        None => None,
                    }
                } else {
                    None
                };
                match fallback {
                    Some(r) => r,
                    None => Err(not_found_message(hint, prefix@, include_secondary)),
                }
            },
        },
    }
}

/// Decide one directory's scan.
fn decide(stems: &Vec<String>, prefix: &str) -> (r: Option<Result<Id, String>>)
    ensures
        match r {
            None => spec_decide(strs(stems@), prefix@) is None,
            Some(Ok(id)) => spec_decide(strs(stems@), prefix@) == Some(Ok::<Seq<u8>, Seq<char>>(id@)),
            Some(Err(e)) => spec_decide(strs(stems@), prefix@) == Some(Err::<Seq<u8>, Seq<char>>(e@)),
        },
{
    match collect_prefix_matches(stems, prefix) {
        PrefixMatch::Unique(id) => Some(Id::parse_str(id.as_str())),
        PrefixMatch::Ambiguous(a, b) => {
            let mut msg = chars_of("Ambiguous ID prefix '");
            let p = chars_of(prefix);
            push_all(&mut msg, &p);
            let mid = chars_of("', matches: ");
            push_all(&mut msg, &mid);
            let ac = chars_of(a.as_str());
            push_all(&mut msg, &ac);
            let sep = chars_of(", ");
            push_all(&mut msg, &sep);
            let bc = chars_of(b.as_str());
            push_all(&mut msg, &bc);
            Some(Err(string_of(&msg)))
        },
        PrefixMatch::Absent => None,
    }
}

/// Resolve an ID prefix to a unique [`Id`] from the file stems of a primary
/// directory, falling back to a secondary directory when
/// `include_secondary` is set and the primary holds no match.
pub fn resolve_id(
    primary: &Vec<String>,
    secondary: Option<&Vec<String>>,
    prefix: &str,
    include_secondary: bool,
    hint: &str,
) -> (r: Result<Id, String>)
    ensures
        match r {
            Ok(id) => spec_resolve_in_dirs(
                strs(primary@),
                match secondary {
                    Some(s) => Some(strs(s@)),
                    None => None,
                },
                prefix,
                include_secondary,
                hint@,
            ) == Ok::<Seq<u8>, Seq<char>>(id@),
            Err(e) => spec_resolve_in_dirs(
                strs(primary@),
                match secondary {
                    Some(s) => Some(strs(s@)),
                    None => None,
                },
                prefix,
                include_secondary,
                hint@,
            ) == Err::<Seq<u8>, Seq<char>>(e@),
        },
{
    match Id::validate_prefix(prefix) {
        Err(e) => return Err(e),
        Ok(_) => {},
    }
    match decide(primary, prefix) {
        Some(r) => return r,
        None => {},
    }
    if include_secondary {
        match secondary {
            Some(sec) => match decide(sec, prefix) {
                Some(r) => return r,
                None => {},
            },
            None => {},
        }
    }
    let mut msg = chars_of(hint);
    let mid = chars_of(" not found: '");
    push_all(&mut msg, &mid);
    let p = chars_of(prefix);
    push_all(&mut msg, &p);
    let q = chars_of("'");
    push_all(&mut msg, &q);
    if !include_secondary {
        let tail = chars_of(" (try --all)");
        push_all(&mut msg, &tail);
    } else {
        assert(msg@ + Seq::<char>::empty() =~= msg@);
    }
    Err(string_of(&msg))
}

/// Maximum number of ID generation attempts before giving up.
pub const MAX_ID_ATTEMPTS: usize = 100;

/// Whether no stem of any directory starts with `short`.
pub open spec fn collision_free(dirs: Seq<Seq<Seq<char>>>, short: Seq<char>) -> bool {
    forall|d: int| 0 <= d < dirs.len() ==> matching(#[trigger] dirs[d], short).len() == 0
}

/// Whether an id's short form starts no stem of any directory.
pub open spec fn unused(dirs: Seq<Seq<Seq<char>>>, id: Id) -> bool {
    collision_free(dirs, id.encoded().take(8))
}

/// Whether `r` is the first of `draws` that is unused, or none when every
/// draw collides.
pub open spec fn is_first_unused(dirs: Seq<Seq<Seq<char>>>, draws: Seq<Id>, r: Option<Id>) -> bool {
    match r {
        Some(id) => exists|i: int|
            0 <= i < draws.len() && draws[i] == id && unused(dirs, id) && forall|j: int|
                0 <= j < i ==> !unused(dirs, #[trigger] draws[j]),
        None => forall|j: int| 0 <= j < draws.len() ==> !unused(dirs, #[trigger] draws[j]),
    }
}

/// Whether an id's short form starts some stem of some directory.
fn collides(dirs: &Vec<Vec<String>>, id: &Id) -> (r: bool)
    ensures
        r == !unused(dirs@.map_values(|d: Vec<String>| strs(d@)), *id),
{
    let ghost dv = dirs@.map_values(|d: Vec<String>| strs(d@));
    let short = id.short();
    let mut d: usize = 0;
    while d < dirs.len()
        invariant
            0 <= d <= dirs.len(),
            dv == dirs@.map_values(|d: Vec<String>| strs(d@)),
            short@ == id.encoded().take(8),
            forall|k: int| 0 <= k < d ==> matching(#[trigger] dv[k], short@).len() == 0,
        decreases dirs.len() - d,
    {
        assert(dv[d as int] == strs(dirs@[d as int]@));
        if has_prefix_match(&dirs[d], short.as_str()) {
            return true;
        }
        d = d + 1;
    }
    false
}

/// The first of the drawn ids whose short form starts no stem in any of the
/// directories; `None` when every draw collides.
pub fn first_unused(dirs: &Vec<Vec<String>>, draws: &Vec<Id>) -> (r: Option<Id>)
    ensures
        is_first_unused(dirs@.map_values(|d: Vec<String>| strs(d@)), draws@, r),
{
    let ghost dv = dirs@.map_values(|d: Vec<String>| strs(d@));
    let mut i: usize = 0;
    while i < draws.len()
        invariant
            0 <= i <= draws.len(),
            dv == dirs@.map_values(|d: Vec<String>| strs(d@)),
            forall|j: int| 0 <= j < i ==> !unused(dv, #[trigger] draws@[j]),
        decreases draws.len() - i,
    {
        if !collides(dirs, &draws[i]) {
            let id = draws[i];
            assert(draws@[i as int] == id);
            return Some(id);
        }
        i = i + 1;
    }
    None
}

/// Generate a new [`Id`] that does not collide (by short prefix) with any
/// existing entity: no stem in any of the given directories may start with
/// its 8-character short form. Draws [`MAX_ID_ATTEMPTS`] random ids and
/// takes the first unused one; gives up when every draw collides.
pub fn next_id(dirs: &Vec<Vec<String>>) -> (r: Result<Id, String>)
    ensures
        exists|draws: Seq<Id>|
            #![trigger draws.len()]
            draws.len() == MAX_ID_ATTEMPTS && is_first_unused(
                dirs@.map_values(|d: Vec<String>| strs(d@)),
                draws,
                match r {
                    Ok(id) => Some(id),
                    Err(_) => None,
                },
            ),
        r matches Err(e) ==> e@ == "failed to generate a unique ID after 100 attempts"@,
{
    let mut draws: Vec<Id> = Vec::new();
    let mut attempt: usize = 0;
    while attempt < MAX_ID_ATTEMPTS
        invariant
            0 <= attempt <= MAX_ID_ATTEMPTS,
            draws.len() == attempt,
        decreases MAX_ID_ATTEMPTS - attempt,
    {
        draws.push(Id::new());
        attempt = attempt + 1;
    }
    let found = first_unused(dirs, &draws);
    let r = match found {
        Some(id) => Ok(id),
        None => Err(string_of(&chars_of("failed to generate a unique ID after 100 attempts"))),
    };
    assert(draws@.len() == MAX_ID_ATTEMPTS);
    r
}

} // verus!
