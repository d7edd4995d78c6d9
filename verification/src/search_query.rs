//! Parsed representation of a search query string with structured filters.
//!
//! Filter syntax:
//! - `is:<type>` — filter by entity type (artifact, iteration, task)
//! - `tag:<name>` — filter by tag
//! - `status:<status>` — filter by status
//! - `type:<kind>` — filter by artifact kind
//! - `-<filter>` — negate any filter (e.g. `-tag:wip`)
//!
//! Same filter types OR-combine; different filter types AND-combine.
//! Exclude filters AND-combine (exclude any match).
//! Unknown prefixes are treated as free text.

use vstd::prelude::*;

use crate::text::{chars_of, is_space, is_space_char, lower, same_str, string_of, subvec, to_lowercase};

verus! {

/// The kind of a structured filter.
#[derive(Clone, Copy, Debug, PartialEq, Eq, Structural)]
pub enum FilterKind {
    Is,
    Status,
    Tag,
    Type,
}

/// A single filter extracted from the query.
#[derive(Clone, Debug, PartialEq, Eq)]
pub enum Filter {
    Is(String),
    Status(String),
    Tag(String),
    Type(String),
}

impl View for Filter {
    type V = (FilterKind, Seq<char>);

    open spec fn view(&self) -> (FilterKind, Seq<char>) {
        match self {
            Filter::Is(v) => (FilterKind::Is, v@),
            Filter::Status(v) => (FilterKind::Status, v@),
            Filter::Tag(v) => (FilterKind::Tag, v@),
            Filter::Type(v) => (FilterKind::Type, v@),
        }
    }
}

/// How one whitespace-separated token of a query is read.
pub enum TokenClass {
    /// An included filter.
    Include((FilterKind, Seq<char>)),
    /// A negated filter.
    Exclude((FilterKind, Seq<char>)),
    /// Free text.
    Text,
}

/// Scans `s` left to right: the finished tokens and the token in progress.
pub open spec fn scan(s: Seq<char>) -> (Seq<Seq<char>>, Seq<char>)
    decreases s.len(),
{
    if s.len() == 0 {
        (Seq::empty(), Seq::empty())
    } else {
        let prev = scan(s.drop_last());
        let c = s.last();
        if is_space(c) {
            if prev.1.len() > 0 {
                (prev.0.push(prev.1), Seq::empty())
            } else {
                (prev.0, Seq::empty())
            }
        } else {
            (prev.0, prev.1.push(c))
        }
    }
}

/// The maximal runs of non-whitespace characters of `s`, in order
/// (what `str::split_whitespace` yields).
pub open spec fn split_whitespace(s: Seq<char>) -> Seq<Seq<char>> {
    let r = scan(s);
    if r.1.len() > 0 {
        r.0.push(r.1)
    } else {
        r.0
    }
}

/// `i` is the position of the first `:` in `s`.
pub open spec fn first_colon(s: Seq<char>, i: int) -> bool {
    &&& 0 <= i < s.len()
    &&& s[i] == ':'
    &&& forall|k: int| 0 <= k < i ==> #[trigger] s[k] != ':'
}

/// Whether `s` contains a `:`.
pub open spec fn has_colon(s: Seq<char>) -> bool {
    exists|i: int| 0 <= i < s.len() && #[trigger] s[i] == ':'
}

/// The filter kind that a lowercased prefix names, if any.
pub open spec fn prefix_kind(p: Seq<char>) -> Option<FilterKind> {
    if p == "is"@ {
        Some(FilterKind::Is)
    } else if p == "status"@ {
        Some(FilterKind::Status)
    } else if p == "tag"@ {
        Some(FilterKind::Tag)
    } else if p == "type"@ {
        Some(FilterKind::Type)
    } else {
        None
    }
}

/// The filter that a token body (without any leading `-`) stands for:
/// a known prefix (case-insensitive), a `:`, and a non-empty value.
pub open spec fn filter_of(body: Seq<char>) -> Option<(FilterKind, Seq<char>)> {
    if has_colon(body) {
        let i = choose|i: int| first_colon(body, i);
        let prefix = body.take(i);
        let value = body.skip(i + 1);
        match prefix_kind(lower(prefix)) {
            Some(k) => if value.len() > 0 {
                Some((k, lower(value)))
            } else {
                None
            },
            None => None,
        }
    } else {
        None
    }
}

/// How a token is read.
pub open spec fn classify(tok: Seq<char>) -> TokenClass {
    if tok.len() > 0 && tok[0] == '-' {
        let rest = tok.drop_first();
        if rest.len() == 0 || !has_colon(rest) {
            TokenClass::Text
        } else {
            match filter_of(rest) {
                Some(f) => TokenClass::Exclude(f),
                None => TokenClass::Text,
            }
        }
    } else {
        match filter_of(tok) {
            Some(f) => TokenClass::Include(f),
            None => TokenClass::Text,
        }
    }
}

/// The inclusion filters of a token sequence, in order.
pub open spec fn includes(toks: Seq<Seq<char>>) -> Seq<(FilterKind, Seq<char>)>
    decreases toks.len(),
{
    if toks.len() == 0 {
        Seq::empty()
    } else {
        let prev = includes(toks.drop_last());
        match classify(toks.last()) {
            TokenClass::Include(f) => prev.push(f),
            _ => prev,
        }
    }
}

/// The exclude filters of a token sequence, in order.
pub open spec fn excludes(toks: Seq<Seq<char>>) -> Seq<(FilterKind, Seq<char>)>
    decreases toks.len(),
{
    if toks.len() == 0 {
        Seq::empty()
    } else {
        let prev = excludes(toks.drop_last());
        match classify(toks.last()) {
            TokenClass::Exclude(f) => prev.push(f),
            _ => prev,
        }
    }
}

/// The free-text tokens of a token sequence, in order.
pub open spec fn texts(toks: Seq<Seq<char>>) -> Seq<Seq<char>>
    decreases toks.len(),
{
    if toks.len() == 0 {
        Seq::empty()
    } else {
        let prev = texts(toks.drop_last());
        match classify(toks.last()) {
            TokenClass::Text => prev.push(toks.last()),
            _ => prev,
        }
    }
}

/// The result of parsing a search query string.
#[derive(Debug, PartialEq, Eq)]
pub struct ParsedQuery {
    pub exclude: Vec<Filter>,
    pub included: Vec<Filter>,
    pub text: Vec<String>,
}

impl ParsedQuery {
    /// The included filters as values.
    pub open spec fn include_view(&self) -> Seq<(FilterKind, Seq<char>)> {
        self.included@.map_values(|f: Filter| f@)
    }

    /// The exclude filters as values.
    pub open spec fn exclude_view(&self) -> Seq<(FilterKind, Seq<char>)> {
        self.exclude@.map_values(|f: Filter| f@)
    }

    /// The free-text tokens as values.
    pub open spec fn text_view(&self) -> Seq<Seq<char>> {
        self.text@.map_values(|t: String| t@)
    }

    /// Returns `true` when the query has no filters and no text.
    pub fn is_empty(&self) -> (r: bool)
        ensures
            r == (self.text@.len() == 0 && self.included@.len() == 0 && self.exclude@.len() == 0),
    {
        self.text.is_empty() && self.included.is_empty() && self.exclude.is_empty()
    }
}

impl Default for ParsedQuery {
    fn default() -> (r: Self)
        ensures
            r.exclude@.len() == 0,
            r.included@.len() == 0,
            r.text@.len() == 0,
    {
        ParsedQuery { exclude: Vec::new(), included: Vec::new(), text: Vec::new() }
    }
}

/// The character sequences held by a sequence of character vectors.
pub open spec fn views(v: Seq<Vec<char>>) -> Seq<Seq<char>> {
    v.map_values(|x: Vec<char>| x@)
}

/// Splits `s` into its whitespace-separated tokens.
pub fn tokens(s: &str) -> (r: Vec<Vec<char>>)
    ensures
        views(r@) == split_whitespace(s@),
{
    let cs = chars_of(s);
    let mut toks: Vec<Vec<char>> = Vec::new();
    let mut cur: Vec<char> = Vec::new();
    let mut i: usize = 0;
    while i < cs.len()
        invariant
            0 <= i <= cs.len(),
            cs@ == s@,
            views(toks@) == scan(s@.take(i as int)).0,
            cur@ == scan(s@.take(i as int)).1,
        decreases cs.len() - i,
    {
        let c = cs[i];
        proof {
            assert(s@.take(i + 1).drop_last() =~= s@.take(i as int));
            assert(s@.take(i + 1).last() == c);
        }
        if is_space_char(c) {
            if cur.len() > 0 {
                let ghost old_toks = views(toks@);
                let t = cur;
                toks.push(t);
                cur = Vec::new();
                assert(views(toks@) =~= old_toks.push(t@));
            } else {
                cur = Vec::new();
                assert(cur@ =~= Seq::<char>::empty());
            }
        } else {
            cur.push(c);
        }
        i = i + 1;
    }
    assert(s@.take(cs.len() as int) =~= s@);
    if cur.len() > 0 {
        let ghost old_toks = views(toks@);
        let t = cur;
        toks.push(t);
        assert(views(toks@) =~= old_toks.push(t@));
    }
    toks
}


/// Finds the first `:` in `v`.
fn find_colon(v: &Vec<char>) -> (r: Option<usize>)
    ensures
        match r {
            Some(i) => first_colon(v@, i as int) && has_colon(v@),
            None => !has_colon(v@),
        },
{
    let mut i: usize = 0;
    while i < v.len()
        invariant
            0 <= i <= v.len(),
            forall|k: int| 0 <= k < i ==> #[trigger] v@[k] != ':',
        decreases v.len() - i,
    {
        if v[i] == ':' {
            return Some(i);
        }
        i = i + 1;
    }
    None
}

/// The filter a token body stands for, if it is a known filter.
fn filter_for(body: &Vec<char>) -> (r: Option<Filter>)
    ensures
        match r {
            Some(f) => filter_of(body@) == Some(f@),
            None => filter_of(body@) is None,
        },
{
    let i = match find_colon(body) {
        Some(i) => i,
        None => return None,
    };
    proof {
        let j = choose|j: int| first_colon(body@, j);
        assert(first_colon(body@, j));
        if j < i {
            assert(body@[j] != ':');
        } else if j > i {
            assert(body@[i as int] != ':');
        }
    }
    assert(i < body.len());
    let prefix = subvec(body, 0, i);
    let value = subvec(body, i + 1, body.len());
    assert(prefix@ =~= body@.take(i as int));
    assert(value@ =~= body@.skip(i + 1));
    let prefix_str = string_of(&prefix);
    let lower = to_lowercase(prefix_str.as_str());
    if value.len() == 0 {
        return None;
    }
    let value_str = string_of(&value);
    if same_str(lower.as_str(), "is") {
        Some(Filter::Is(to_lowercase(value_str.as_str())))
    } else if same_str(lower.as_str(), "status") {
        Some(Filter::Status(to_lowercase(value_str.as_str())))
    } else if same_str(lower.as_str(), "tag") {
        Some(Filter::Tag(to_lowercase(value_str.as_str())))
    } else if same_str(lower.as_str(), "type") {
        Some(Filter::Type(to_lowercase(value_str.as_str())))
    } else {
        None
    }
}

/// Parse a search query string into a [`ParsedQuery`].
///
/// The query is split at whitespace. A token `prefix:value` with a known
/// prefix (`is`, `status`, `tag`, `type`, any case) and a non-empty value is a filter
/// whose value is lowercased; a leading `-` negates it. Every other token,
/// including a bare `-` and `-` without a `:`, is free text, kept as written.
pub fn parse(query: &str) -> (r: ParsedQuery)
    ensures
        r.include_view() == includes(split_whitespace(query@)),
        r.exclude_view() == excludes(split_whitespace(query@)),
        r.text_view() == texts(split_whitespace(query@)),
{
    let toks = tokens(query);
    let ghost all = split_whitespace(query@);
    let mut included: Vec<Filter> = Vec::new();
    let mut exclude: Vec<Filter> = Vec::new();
    let mut text: Vec<String> = Vec::new();
    let mut k: usize = 0;
    while k < toks.len()
        invariant
            0 <= k <= toks.len(),
            views(toks@) == all,
            included@.map_values(|f: Filter| f@) == includes(all.take(k as int)),
            exclude@.map_values(|f: Filter| f@) == excludes(all.take(k as int)),
            text@.map_values(|t: String| t@) == texts(all.take(k as int)),
        decreases toks.len() - k,
    {
        let tok = &toks[k];
        let ghost t = tok@;
        let ghost old_in = included@;
        let ghost old_ex = exclude@;
        let ghost old_tx = text@;
        proof {
            assert(all.take(k + 1).drop_last() =~= all.take(k as int));
            assert(all[k as int] == t);
            assert(all.take(k + 1).last() == t);
        }
        if tok.len() > 0 && tok[0] == '-' {
            let rest = subvec(tok, 1, tok.len());
            assert(rest@ =~= t.drop_first());
            let colon = find_colon(&rest);
            if rest.len() == 0 || colon.is_none() {
                text.push(string_of(tok));
            } else {
                match filter_for(&rest) {
                    Some(f) => exclude.push(f),
                    None => text.push(string_of(tok)),
                }
            }
        } else {
            match filter_for(tok) {
                Some(f) => included.push(f),
                None => text.push(string_of(tok)),
            }
        }
        proof {
            assert(included@.map_values(|f: Filter| f@) =~= includes(all.take(k + 1)));
            assert(exclude@.map_values(|f: Filter| f@) =~= excludes(all.take(k + 1)));
            assert(text@.map_values(|t: String| t@) =~= texts(all.take(k + 1)));
        }
        k = k + 1;
    }
    assert(all.take(toks.len() as int) =~= all);
    ParsedQuery { exclude, included, text }
}


/// Whether `t` holds no whitespace.
pub open spec fn no_space(t: Seq<char>) -> bool {
    forall|m: int| 0 <= m < t.len() ==> !is_space(#[trigger] t[m])
}

/// Whether `t` is a word: non-empty and free of whitespace.
pub open spec fn is_word(t: Seq<char>) -> bool {
    t.len() > 0 && no_space(t)
}

/// Every token of a scan is a word, and the token in progress holds no
/// whitespace.
proof fn lemma_scan_tokens(s: Seq<char>)
    ensures
        forall|j: int| 0 <= j < scan(s).0.len() ==> is_word(#[trigger] scan(s).0[j]),
        no_space(scan(s).1),
    decreases s.len(),
{
    if s.len() > 0 {
        let p = scan(s.drop_last());
        lemma_scan_tokens(s.drop_last());
        let c = s.last();
        if is_space(c) {
            if p.1.len() > 0 {
                assert forall|j: int| 0 <= j < scan(s).0.len() implies is_word(
                    #[trigger] scan(s).0[j],
                ) by {
                    if j < p.0.len() {
                        assert(scan(s).0[j] == p.0[j]);
                    } else {
                        assert(scan(s).0[j] == p.1);
                    }
                }
            }
        } else {
            assert forall|m: int| 0 <= m < scan(s).1.len() implies !is_space(
                #[trigger] scan(s).1[m],
            ) by {
                if m < p.1.len() {
                    assert(scan(s).1[m] == p.1[m]);
                }
            }
        }
    }
}

/// Every token that `split_whitespace` yields is a word: non-empty and
/// free of whitespace.
pub proof fn law_tokens_are_words(s: Seq<char>)
    ensures
        forall|j: int| 0 <= j < split_whitespace(s).len() ==> is_word(#[trigger] split_whitespace(s)[j]),
{
    lemma_scan_tokens(s);
    let r = scan(s);
    assert forall|j: int| 0 <= j < split_whitespace(s).len() implies is_word(
        #[trigger] split_whitespace(s)[j],
    ) by {
        if j < r.0.len() {
            assert(split_whitespace(s)[j] == r.0[j]);
        }
    }
}

/// Every token of the query lands in exactly one of the three lists: the
/// inclusion filters, the exclude filters, or the free text.
pub proof fn law_tokens_partition(toks: Seq<Seq<char>>)
    ensures
        includes(toks).len() + excludes(toks).len() + texts(toks).len() == toks.len(),
    decreases toks.len(),
{
    if toks.len() > 0 {
        law_tokens_partition(toks.drop_last());
    }
}

/// A query of whitespace only parses to nothing at all.
pub proof fn law_blank_query_is_empty(s: Seq<char>)
    requires
        forall|i: int| 0 <= i < s.len() ==> is_space(#[trigger] s[i]),
    ensures
        split_whitespace(s).len() == 0,
        includes(split_whitespace(s)).len() == 0,
        excludes(split_whitespace(s)).len() == 0,
        texts(split_whitespace(s)).len() == 0,
    decreases s.len(),
{
    lemma_blank_scan(s);
}

proof fn lemma_blank_scan(s: Seq<char>)
    requires
        forall|i: int| 0 <= i < s.len() ==> is_space(#[trigger] s[i]),
    ensures
        scan(s).0.len() == 0,
        scan(s).1.len() == 0,
    decreases s.len(),
{
    if s.len() > 0 {
        assert(is_space(s[s.len() - 1]));
        lemma_blank_scan(s.drop_last());
    }
}

} // verus!
