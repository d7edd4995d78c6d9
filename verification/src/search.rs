//! Case-insensitive matching of entities against a parsed search query.

use vstd::prelude::*;
use vstd::string::StringSliceAdditionalSpecFns;
use vstd::utf8::encode_utf8;

use crate::primitives::Id;
use crate::search_query::{excludes, includes, parse, split_whitespace, texts, Filter, FilterKind, ParsedQuery};
use crate::text::{
    char_lower, char_to_lowercase, chars_of, eq_chars, join_strings, join_with, lower, same_str, strs,
    to_lowercase,
};

verus! {

/// Whether some filter in `fs` has kind `k`.
pub open spec fn has_kind(fs: Seq<(FilterKind, Seq<char>)>, k: FilterKind) -> bool {
    exists|i: int| 0 <= i < fs.len() && (#[trigger] fs[i]).0 == k
}

/// Whether `fs` holds the filter `(k, v)`.
pub open spec fn has_filter(fs: Seq<(FilterKind, Seq<char>)>, k: FilterKind, v: Seq<char>) -> bool {
    exists|i: int| 0 <= i < fs.len() && #[trigger] fs[i] == (k, v)
}

/// Whether some tag filter in `fs` equals the lowercase form of some tag.
pub open spec fn tag_hit(fs: Seq<(FilterKind, Seq<char>)>, tags: Seq<Seq<char>>) -> bool {
    exists|i: int, j: int|
        0 <= i < fs.len() && 0 <= j < tags.len() && (#[trigger] fs[i]).0 == FilterKind::Tag
            && fs[i].1 == lower(#[trigger] tags[j])
}

/// Whether an entity type is wanted: listed by an `is:` inclusion filter when
/// there is any, and not listed by an `is:` exclude filter.
pub open spec fn spec_wants(q: ParsedQuery, entity: Seq<char>) -> bool {
    wants(q.include_view(), q.exclude_view(), entity)
}

/// `spec_wants` over the filter values.
pub open spec fn wants(inc: Seq<(FilterKind, Seq<char>)>, exc: Seq<(FilterKind, Seq<char>)>, entity: Seq<char>) -> bool {
    &&& (!has_kind(inc, FilterKind::Is) || has_filter(inc, FilterKind::Is, entity))
    &&& !has_filter(exc, FilterKind::Is, entity)
}

/// Whether the tags pass the tag filters: some inclusion filter matches when
/// there is any, and no exclude filter matches.
pub open spec fn spec_tags_match(q: ParsedQuery, tags: Seq<Seq<char>>) -> bool {
    tags_match(q.include_view(), q.exclude_view(), tags)
}

/// `spec_tags_match` over the filter values.
pub open spec fn tags_match(inc: Seq<(FilterKind, Seq<char>)>, exc: Seq<(FilterKind, Seq<char>)>, tags: Seq<Seq<char>>) -> bool {
    &&& (!has_kind(inc, FilterKind::Tag) || tag_hit(inc, tags))
    &&& !tag_hit(exc, tags)
}

/// Whether a status passes the status filters, compared in lowercase.
pub open spec fn spec_status_matches(q: ParsedQuery, status: Seq<char>) -> bool {
    status_matches(q.include_view(), q.exclude_view(), status)
}

/// `spec_status_matches` over the filter values.
pub open spec fn status_matches(inc: Seq<(FilterKind, Seq<char>)>, exc: Seq<(FilterKind, Seq<char>)>, status: Seq<char>) -> bool {
    &&& (!has_kind(inc, FilterKind::Status) || has_filter(inc, FilterKind::Status, lower(status)))
    &&& !has_filter(exc, FilterKind::Status, lower(status))
}

/// Whether `needle` occurs in `hay` at character position `p`, comparing
/// the lowercase forms of corresponding characters.
pub open spec fn matches_at(hay: Seq<char>, needle: Seq<char>, p: int) -> bool {
    &&& 0 <= p
    &&& p + needle.len() <= hay.len()
    &&& forall|k: int| 0 <= k < needle.len() ==> char_lower(#[trigger] hay[p + k]) == char_lower(needle[k])
}

/// Case-insensitive containment: an empty needle is always contained; a
/// haystack with fewer UTF-8 bytes than the needle never contains it;
/// otherwise some position of the haystack starts a match.
pub open spec fn spec_contains_ignore_case(hay: Seq<char>, needle: Seq<char>) -> bool {
    if needle.len() == 0 {
        true
    } else if encode_utf8(hay).len() < encode_utf8(needle).len() {
        false
    } else {
        exists|p: int| matches_at(hay, needle, p)
    }
}

/// Whether `needle` occurs in `hay` at position `p`.
fn match_at(hay: &Vec<char>, needle: &Vec<char>, p: usize) -> (r: bool)
    requires
        p <= hay.len(),
    ensures
        r == matches_at(hay@, needle@, p as int),
{
    if needle.len() > hay.len() - p {
        return false;
    }
    let mut k: usize = 0;
    while k < needle.len()
        invariant
            0 <= k <= needle.len(),
            p + needle.len() <= hay.len(),
            forall|j: int| 0 <= j < k ==> char_lower(#[trigger] hay@[p + j]) == char_lower(needle@[j]),
        decreases needle.len() - k,
    {
        let a = char_to_lowercase(hay[p + k]);
        let b = char_to_lowercase(needle[k]);
        if !eq_chars(&a, &b) {
            assert(!(char_lower(hay@[p + k as int]) == char_lower(needle@[k as int])));
            return false;
        }
        k = k + 1;
    }
    true
}

/// Check whether `haystack` contains `needle` case-insensitively, comparing
/// the lowercase forms of the characters one by one.
pub fn contains_ignore_case(haystack: &str, needle: &str) -> (r: bool)
    ensures
        r == spec_contains_ignore_case(haystack@, needle@),
{
    let n = chars_of(needle);
    if n.len() == 0 {
        return true;
    }
    if haystack.as_bytes().len() < needle.as_bytes().len() {
        return false;
    }
    let h = chars_of(haystack);
    let mut p: usize = 0;
    while p < h.len()
        invariant
            0 <= p <= h.len(),
            h@ == haystack@,
            n@ == needle@,
            n@.len() > 0,
            haystack.spec_bytes().len() >= needle.spec_bytes().len(),
            forall|q: int| 0 <= q < p ==> !matches_at(h@, n@, q),
        decreases h.len() - p,
    {
        if match_at(&h, &n, p) {
            assert(matches_at(haystack@, needle@, p as int));
            return true;
        }
        p = p + 1;
    }
    assert forall|q: int| !matches_at(h@, n@, q) by {
        if q >= h@.len() {
            assert(q + n@.len() > h@.len());
        }
    }
    false
}

/// Whether `fs` holds a filter of kind `k`.
pub(crate) fn any_kind(fs: &Vec<Filter>, k: FilterKind) -> (r: bool)
    ensures
        r == has_kind(fs@.map_values(|f: Filter| f@), k),
{
    let ghost v = fs@.map_values(|f: Filter| f@);
    let mut i: usize = 0;
    while i < fs.len()
        invariant
            0 <= i <= fs.len(),
            v == fs@.map_values(|f: Filter| f@),
            forall|j: int| 0 <= j < i ==> (#[trigger] v[j]).0 != k,
        decreases fs.len() - i,
    {
        let kind = match &fs[i] {
            Filter::Is(_) => FilterKind::Is,
            Filter::Status(_) => FilterKind::Status,
            Filter::Tag(_) => FilterKind::Tag,
            Filter::Type(_) => FilterKind::Type,
        };
        assert(v[i as int] == fs@[i as int]@);
        if kind == k {
            return true;
        }
        i = i + 1;
    }
    false
}

/// Whether `fs` holds the filter of kind `k` with value `value`.
fn any_filter(fs: &Vec<Filter>, k: FilterKind, value: &str) -> (r: bool)
    ensures
        r == has_filter(fs@.map_values(|f: Filter| f@), k, value@),
{
    let ghost v = fs@.map_values(|f: Filter| f@);
    let mut i: usize = 0;
    while i < fs.len()
        invariant
            0 <= i <= fs.len(),
            v == fs@.map_values(|f: Filter| f@),
            forall|j: int| 0 <= j < i ==> #[trigger] v[j] != (k, value@),
        decreases fs.len() - i,
    {
        assert(v[i as int] == fs@[i as int]@);
        let hit = match &fs[i] {
            Filter::Is(s) => k == FilterKind::Is && same_str(s.as_str(), value),
            Filter::Status(s) => k == FilterKind::Status && same_str(s.as_str(), value),
            Filter::Tag(s) => k == FilterKind::Tag && same_str(s.as_str(), value),
            Filter::Type(s) => k == FilterKind::Type && same_str(s.as_str(), value),
        };
        if hit {
            return true;
        }
        i = i + 1;
    }
    false
}

/// Determine whether a given entity type should be included based on `is:` filters.
///
/// - No `is:` inclusion filters → every type (unless excluded).
/// - `is:` inclusion filters present → only the listed types.
/// - `is:` exclude filters → exclude listed types.
pub fn wants_entity_type(parsed: &ParsedQuery, entity: &str) -> (r: bool)
    ensures
        r == spec_wants(*parsed, entity@),
{
    let has_is_include = any_kind(&parsed.included, FilterKind::Is);
    if has_is_include && !any_filter(&parsed.included, FilterKind::Is, entity) {
        return false;
    }
    !any_filter(&parsed.exclude, FilterKind::Is, entity)
}

/// Whether some tag filter in `fs` equals the lowercase form of one of `tags`.
fn any_tag_hit(fs: &Vec<Filter>, tags: &Vec<String>) -> (r: bool)
    ensures
        r == tag_hit(fs@.map_values(|f: Filter| f@), tags@.map_values(|t: String| t@)),
{
    let ghost v = fs@.map_values(|f: Filter| f@);
    let ghost tv = tags@.map_values(|t: String| t@);
    let mut i: usize = 0;
    while i < fs.len()
        invariant
            0 <= i <= fs.len(),
            v == fs@.map_values(|f: Filter| f@),
            tv == tags@.map_values(|t: String| t@),
            forall|a: int, b: int|
                0 <= a < i && 0 <= b < tv.len() ==> !((#[trigger] v[a]).0 == FilterKind::Tag && v[a].1
                    == lower(#[trigger] tv[b])),
        decreases fs.len() - i,
    {
        assert(v[i as int] == fs@[i as int]@);
        if let Filter::Tag(value) = &fs[i] {
            let mut j: usize = 0;
            while j < tags.len()
                invariant
                    0 <= j <= tags.len(),
                    0 <= i < fs.len(),
                    v == fs@.map_values(|f: Filter| f@),
                    tv == tags@.map_values(|t: String| t@),
                    v[i as int] == (FilterKind::Tag, value@),
                    forall|b: int| 0 <= b < j ==> v[i as int].1 != lower(#[trigger] tv[b]),
                decreases tags.len() - j,
            {
                let lowered = to_lowercase(tags[j].as_str());
                assert(tv[j as int] == tags@[j as int]@);
                if same_str(lowered.as_str(), value.as_str()) {
                    assert(v[i as int].0 == FilterKind::Tag && v[i as int].1 == lower(tv[j as int]));
                    return true;
                }
                j = j + 1;
            }
        }
        i = i + 1;
    }
    false
}

/// Check tag filters (inclusions OR-combine, exclude rejects any match), comparing
/// the filter values with the lowercase forms of the tags.
pub fn matches_tag_filters(parsed: &ParsedQuery, tags: &Vec<String>) -> (r: bool)
    ensures
        r == spec_tags_match(*parsed, tags@.map_values(|t: String| t@)),
{
    if any_kind(&parsed.included, FilterKind::Tag) && !any_tag_hit(&parsed.included, tags) {
        return false;
    }
    !any_tag_hit(&parsed.exclude, tags)
}

/// Whether an artifact kind passes the `type:` filters: with inclusions, the
/// lowercased kind must be one of them; no exclusion may name it. An artifact
/// without a kind passes only when there is no inclusion.
pub open spec fn kind_matches(
    inc: Seq<(FilterKind, Seq<char>)>,
    exc: Seq<(FilterKind, Seq<char>)>,
    kind: Option<Seq<char>>,
) -> bool {
    match kind {
        Some(k) => (!has_kind(inc, FilterKind::Type) || has_filter(inc, FilterKind::Type, lower(k)))
            && !has_filter(exc, FilterKind::Type, lower(k)),
        None => !has_kind(inc, FilterKind::Type),
    }
}

/// Check `type:` filters against an artifact's kind (inclusions OR-combine,
/// an exclusion rejects a match), comparing the lowercase form of the kind.
pub fn matches_kind_filters(parsed: &ParsedQuery, kind: Option<&str>) -> (r: bool)
    ensures
        r == kind_matches(parsed.include_view(), parsed.exclude_view(), opt_str(kind)),
{
    match kind {
        Some(k) => {
            let lowered = to_lowercase(k);
            if any_kind(&parsed.included, FilterKind::Type) && !any_filter(
                &parsed.included,
                FilterKind::Type,
                lowered.as_str(),
            ) {
                return false;
            }
            !any_filter(&parsed.exclude, FilterKind::Type, lowered.as_str())
        },
        None => !any_kind(&parsed.included, FilterKind::Type),
    }
}

/// Check status filters (inclusions OR-combine, exclude rejects any match),
/// comparing the filter values with the lowercase form of the status.
pub fn matches_status_filters(parsed: &ParsedQuery, status: &str) -> (r: bool)
    ensures
        r == spec_status_matches(*parsed, status@),
{
    let lowered = to_lowercase(status);
    if any_kind(&parsed.included, FilterKind::Status) && !any_filter(
        &parsed.included,
        FilterKind::Status,
        lowered.as_str(),
    ) {
        return false;
    }
    !any_filter(&parsed.exclude, FilterKind::Status, lowered.as_str())
}


/// Whether some string of `tags` contains `needle` case-insensitively.
pub open spec fn spec_any_contains(tags: Seq<String>, needle: Seq<char>) -> bool {
    exists|i: int| 0 <= i < tags.len() && spec_contains_ignore_case((#[trigger] tags[i])@, needle)
}

fn any_contains(tags: &Vec<String>, needle: &str) -> (r: bool)
    ensures
        r == spec_any_contains(tags@, needle@),
{
    let mut i: usize = 0;
    while i < tags.len()
        invariant
            0 <= i <= tags.len(),
            forall|j: int| 0 <= j < i ==> !spec_contains_ignore_case((#[trigger] tags@[j])@, needle@),
        decreases tags.len() - i,
    {
        if contains_ignore_case(tags[i].as_str(), needle) {
            return true;
        }
        i = i + 1;
    }
    false
}

/// Whether serialized metadata, present only when the metadata is not
/// empty, contains `needle`.
pub open spec fn spec_metadata_contains(metadata_text: Option<Seq<char>>, needle: Seq<char>) -> bool {
    match metadata_text {
        Some(m) => spec_contains_ignore_case(m, needle),
        None => false,
    }
}

/// The view of an optional string slice.
pub open spec fn opt_str(o: Option<&str>) -> Option<Seq<char>> {
    match o {
        Some(m) => Some(m@),
        None => None,
    }
}

fn metadata_contains(metadata_text: Option<&str>, needle: &str) -> (r: bool)
    ensures
        r == spec_metadata_contains(opt_str(metadata_text), needle@),
{
    match metadata_text {
        Some(m) => contains_ignore_case(m, needle),
        None => false,
    }
}

/// Whether a task matches the free text of a query: the text is empty, or
/// it occurs (ignoring case) in the title, the description, a tag, the
/// status, or the serialized metadata (`None` when the metadata is empty).
pub fn matches_text(
    title: &str,
    description: &str,
    tags: &Vec<String>,
    status: &str,
    metadata_text: Option<&str>,
    text_lower: &str,
) -> (r: bool)
    ensures
        r == (text_lower@.len() == 0 || spec_contains_ignore_case(title@, text_lower@)
            || spec_contains_ignore_case(description@, text_lower@) || spec_any_contains(
            tags@,
            text_lower@,
        ) || spec_contains_ignore_case(status@, text_lower@) || spec_metadata_contains(
            opt_str(metadata_text),
            text_lower@,
        )),
{
    if text_lower.is_empty() {
        return true;
    }
    contains_ignore_case(title, text_lower) || contains_ignore_case(description, text_lower)
        || any_contains(tags, text_lower) || contains_ignore_case(status, text_lower)
        || metadata_contains(metadata_text, text_lower)
}

/// Whether an artifact matches the free text of a query: the text is empty,
/// or it occurs (ignoring case) in the title, the body, a tag, the kind
/// (empty when absent), or the serialized metadata.
pub fn matches_text_artifact(
    title: &str,
    body: &str,
    tags: &Vec<String>,
    kind: Option<&str>,
    metadata_text: Option<&str>,
    text_lower: &str,
) -> (r: bool)
    ensures
        r == (text_lower@.len() == 0 || spec_contains_ignore_case(title@, text_lower@)
            || spec_contains_ignore_case(body@, text_lower@) || spec_any_contains(tags@, text_lower@)
            || spec_contains_ignore_case(
            match kind {
                Some(k) => k@,
                None => Seq::<char>::empty(),
            },
            text_lower@,
        ) || spec_metadata_contains(opt_str(metadata_text), text_lower@)),
{
    if text_lower.is_empty() {
        return true;
    }
    let kind_str = match kind {
        Some(k) => k,
        None => "",
    };
    proof {
        reveal_strlit("");
    }
    contains_ignore_case(title, text_lower) || contains_ignore_case(body, text_lower)
        || any_contains(tags, text_lower) || contains_ignore_case(kind_str, text_lower)
        || metadata_contains(metadata_text, text_lower)
}

/// Whether an iteration matches the free text of a query: the text is
/// empty, or it occurs (ignoring case) in the title, the description, a
/// tag, or the serialized metadata.
pub fn matches_text_iteration(
    title: &str,
    description: &str,
    tags: &Vec<String>,
    metadata_text: Option<&str>,
    text_lower: &str,
) -> (r: bool)
    ensures
        r == (text_lower@.len() == 0 || spec_contains_ignore_case(title@, text_lower@)
            || spec_contains_ignore_case(description@, text_lower@) || spec_any_contains(
            tags@,
            text_lower@,
        ) || spec_metadata_contains(opt_str(metadata_text), text_lower@)),
{
    if text_lower.is_empty() {
        return true;
    }
    contains_ignore_case(title, text_lower) || contains_ignore_case(description, text_lower)
        || any_contains(tags, text_lower) || metadata_contains(metadata_text, text_lower)
}

/// A task as a search reads it.
#[derive(Debug)]
pub struct SearchTask {
    pub id: Id,
    pub title: String,
    pub description: String,
    pub tags: Vec<String>,
    /// The status name.
    pub status: String,
    /// The serialized metadata, absent when the metadata is empty.
    pub metadata_text: Option<String>,
}

/// An artifact as a search reads it.
#[derive(Debug)]
pub struct SearchArtifact {
    pub id: Id,
    pub title: String,
    pub body: String,
    pub tags: Vec<String>,
    pub kind: Option<String>,
    /// The serialized metadata, absent when the metadata is empty.
    pub metadata_text: Option<String>,
}

/// An iteration as a search reads it.
#[derive(Debug)]
pub struct SearchIteration {
    pub id: Id,
    pub title: String,
    pub description: String,
    pub tags: Vec<String>,
    /// The status name.
    pub status: String,
    /// The serialized metadata, absent when the metadata is empty.
    pub metadata_text: Option<String>,
}

/// What a search found, by entity type.
#[derive(Debug)]
pub struct SearchResults {
    pub artifacts: Vec<SearchArtifact>,
    pub iterations: Vec<SearchIteration>,
    pub tasks: Vec<SearchTask>,
}

/// The view of an optional string.
pub open spec fn opt_string(o: Option<String>) -> Option<Seq<char>> {
    match o {
        Some(m) => Some(m@),
        None => None,
    }
}

/// The free text of a query, joined by spaces and lowercased.
pub open spec fn query_text(q: Seq<char>) -> Seq<char> {
    lower(join_with(texts(split_whitespace(q)), " "@))
}

/// Whether a task is a hit for query `q`; a `type:` inclusion filter
/// excludes every task, since tasks have no kind.
pub open spec fn task_hit(q: Seq<char>) -> spec_fn(SearchTask) -> bool {
    |t: SearchTask| {
        let inc = includes(split_whitespace(q));
        let exc = excludes(split_whitespace(q));
        let tl = query_text(q);
        &&& tags_match(inc, exc, strs(t.tags@))
        &&& status_matches(inc, exc, t.status@)
        &&& !has_kind(inc, FilterKind::Type)
        &&& (tl.len() == 0 || spec_contains_ignore_case(t.title@, tl) || spec_contains_ignore_case(
            t.description@,
            tl,
        ) || spec_any_contains(t.tags@, tl) || spec_contains_ignore_case(t.status@, tl)
            || spec_metadata_contains(opt_string(t.metadata_text), tl))
    }
}

/// Whether an artifact is a hit for query `q`: its kind must pass the
/// `type:` filters, and a `status:` inclusion filter excludes every
/// artifact, since artifacts have no status.
pub open spec fn artifact_hit(q: Seq<char>) -> spec_fn(SearchArtifact) -> bool {
    |a: SearchArtifact| {
        let inc = includes(split_whitespace(q));
        let exc = excludes(split_whitespace(q));
        let tl = query_text(q);
        &&& tags_match(inc, exc, strs(a.tags@))
        &&& !has_kind(inc, FilterKind::Status)
        &&& kind_matches(inc, exc, opt_string(a.kind))
        &&& (tl.len() == 0 || spec_contains_ignore_case(a.title@, tl) || spec_contains_ignore_case(a.body@, tl)
            || spec_any_contains(a.tags@, tl) || spec_contains_ignore_case(
            match opt_string(a.kind) {
                Some(k) => k,
                None => Seq::<char>::empty(),
            },
            tl,
        ) || spec_metadata_contains(opt_string(a.metadata_text), tl))
    }
}

/// Whether an iteration is a hit for query `q`; a `type:` inclusion filter
/// excludes every iteration, since iterations have no kind.
pub open spec fn iteration_hit(q: Seq<char>) -> spec_fn(SearchIteration) -> bool {
    |it: SearchIteration| {
        let inc = includes(split_whitespace(q));
        let exc = excludes(split_whitespace(q));
        let tl = query_text(q);
        &&& tags_match(inc, exc, strs(it.tags@))
        &&& status_matches(inc, exc, it.status@)
        &&& !has_kind(inc, FilterKind::Type)
        &&& (tl.len() == 0 || spec_contains_ignore_case(it.title@, tl) || spec_contains_ignore_case(
            it.description@,
            tl,
        ) || spec_any_contains(it.tags@, tl) || spec_metadata_contains(opt_string(it.metadata_text), tl))
    }
}

/// Which entity types a query searches: tasks, artifacts, iterations.
pub fn search_scope(query: &str) -> (r: (bool, bool, bool))
    ensures
        r.0 == wants(includes(split_whitespace(query@)), excludes(split_whitespace(query@)), "task"@),
        r.1 == wants(includes(split_whitespace(query@)), excludes(split_whitespace(query@)), "artifact"@),
        r.2 == wants(includes(split_whitespace(query@)), excludes(split_whitespace(query@)), "iteration"@),
{
    let parsed = parse(query);
    (
        wants_entity_type(&parsed, "task"),
        wants_entity_type(&parsed, "artifact"),
        wants_entity_type(&parsed, "iteration"),
    )
}

/// The view of an optional string as a slice.
fn opt_as_str(o: &Option<String>) -> (r: Option<&str>)
    ensures
        opt_str(r) == opt_string(*o),
{
    match o {
        Some(s) => Some(s.as_str()),
        None => None,
    }
}

/// Searches the given tasks, artifacts and iterations case-insensitively
/// with the query syntax of `parse`: `is:` scopes the entity types, `tag:`
/// and `status:` filter, `type:` filters artifacts by kind (a leading `-`
/// negates), and the free text must
/// occur in a searched field. An entity type the query does not want yields
/// nothing.
pub fn search(query: &str, tasks: Vec<SearchTask>, artifacts: Vec<SearchArtifact>, iterations: Vec<SearchIteration>) -> (r: SearchResults)
    ensures
        r.tasks@ == if wants(includes(split_whitespace(query@)), excludes(split_whitespace(query@)), "task"@) {
            tasks@.filter(task_hit(query@))
        } else {
            Seq::empty()
        },
        r.artifacts@ == if wants(includes(split_whitespace(query@)), excludes(split_whitespace(query@)), "artifact"@) {
            artifacts@.filter(artifact_hit(query@))
        } else {
            Seq::empty()
        },
        r.iterations@ == if wants(includes(split_whitespace(query@)), excludes(split_whitespace(query@)), "iteration"@) {
            iterations@.filter(iteration_hit(query@))
        } else {
            Seq::empty()
        },
{
    let parsed = parse(query);
    let joined = join_strings(&parsed.text, " ");
    let text_lower = to_lowercase(joined.as_str());
    proof {
        reveal_strlit(" ");
        assert(parsed.text_view() == strs(parsed.text@));
    }
    let ghost tl = query_text(query@);
    assert(text_lower@ == tl);
    let mut found_tasks: Vec<SearchTask> = Vec::new();
    if wants_entity_type(&parsed, "task") {
        let ghost f = task_hit(query@);
        let ghost all = tasks@;
        let mut rest = tasks;
        let ghost mut taken: int = 0;
        let type_included = any_kind(&parsed.included, FilterKind::Type);
        assert(rest@ =~= all.skip(0));
        assert(all.take(0) =~= Seq::<SearchTask>::empty());
        while rest.len() > 0
            invariant
                0 <= taken <= all.len(),
                rest@ == all.skip(taken),
                f == task_hit(query@),
                text_lower@ == query_text(query@),
                parsed.include_view() == includes(split_whitespace(query@)),
                parsed.exclude_view() == excludes(split_whitespace(query@)),
                type_included == has_kind(parsed.include_view(), FilterKind::Type),
                found_tasks@ == all.take(taken).filter(f),
            decreases rest.len(),
        {
            let t = rest.remove(0);
            proof {
                assert(t == all[taken]);
                assert(all.take(taken + 1) =~= all.take(taken).push(t));
                assert(rest@ =~= all.skip(taken + 1));
                all.take(taken).lemma_filter_push(t, f);
            }
            let hit = matches_tag_filters(&parsed, &t.tags) && matches_status_filters(&parsed, t.status.as_str())
                && !type_included && matches_text(
                t.title.as_str(),
                t.description.as_str(),
                &t.tags,
                t.status.as_str(),
                opt_as_str(&t.metadata_text),
                text_lower.as_str(),
            );
            if hit {
                found_tasks.push(t);
            }
            proof {
                taken = taken + 1;
            }
        }
        assert(all.take(taken) =~= all);
    }
    let mut found_artifacts: Vec<SearchArtifact> = Vec::new();
    if wants_entity_type(&parsed, "artifact") {
        let ghost f = artifact_hit(query@);
        let ghost all = artifacts@;
        let mut rest = artifacts;
        let ghost mut taken: int = 0;
        let status_included = any_kind(&parsed.included, FilterKind::Status);
        assert(rest@ =~= all.skip(0));
        assert(all.take(0) =~= Seq::<SearchArtifact>::empty());
        while rest.len() > 0
            invariant
                0 <= taken <= all.len(),
                rest@ == all.skip(taken),
                f == artifact_hit(query@),
                text_lower@ == query_text(query@),
                parsed.include_view() == includes(split_whitespace(query@)),
                parsed.exclude_view() == excludes(split_whitespace(query@)),
                status_included == has_kind(parsed.include_view(), FilterKind::Status),
                found_artifacts@ == all.take(taken).filter(f),
            decreases rest.len(),
        {
            let a = rest.remove(0);
            proof {
                assert(a == all[taken]);
                assert(all.take(taken + 1) =~= all.take(taken).push(a));
                assert(rest@ =~= all.skip(taken + 1));
                all.take(taken).lemma_filter_push(a, f);
            }
            let hit = matches_tag_filters(&parsed, &a.tags) && !status_included && matches_kind_filters(
                &parsed,
                opt_as_str(&a.kind),
            ) && matches_text_artifact(
                a.title.as_str(),
                a.body.as_str(),
                &a.tags,
                opt_as_str(&a.kind),
                opt_as_str(&a.metadata_text),
                text_lower.as_str(),
            );
            if hit {
                found_artifacts.push(a);
            }
            proof {
                taken = taken + 1;
            }
        }
        assert(all.take(taken) =~= all);
    }
    let mut found_iterations: Vec<SearchIteration> = Vec::new();
    if wants_entity_type(&parsed, "iteration") {
        let ghost f = iteration_hit(query@);
        let ghost all = iterations@;
        let mut rest = iterations;
        let ghost mut taken: int = 0;
        let type_included = any_kind(&parsed.included, FilterKind::Type);
        assert(rest@ =~= all.skip(0));
        assert(all.take(0) =~= Seq::<SearchIteration>::empty());
        while rest.len() > 0
            invariant
                0 <= taken <= all.len(),
                rest@ == all.skip(taken),
                f == iteration_hit(query@),
                text_lower@ == query_text(query@),
                parsed.include_view() == includes(split_whitespace(query@)),
                parsed.exclude_view() == excludes(split_whitespace(query@)),
                type_included == has_kind(parsed.include_view(), FilterKind::Type),
                found_iterations@ == all.take(taken).filter(f),
            decreases rest.len(),
        {
            let it = rest.remove(0);
            proof {
                assert(it == all[taken]);
                assert(all.take(taken + 1) =~= all.take(taken).push(it));
                assert(rest@ =~= all.skip(taken + 1));
                all.take(taken).lemma_filter_push(it, f);
            }
            let hit = matches_tag_filters(&parsed, &it.tags) && matches_status_filters(
                &parsed,
                it.status.as_str(),
            ) && !type_included && matches_text_iteration(
                it.title.as_str(),
                it.description.as_str(),
                &it.tags,
                opt_as_str(&it.metadata_text),
                text_lower.as_str(),
            );
            if hit {
                found_iterations.push(it);
            }
            proof {
                taken = taken + 1;
            }
        }
        assert(all.take(taken) =~= all);
    }
    SearchResults { artifacts: found_artifacts, iterations: found_iterations, tasks: found_tasks }
}

/// Whether a status passes the status filters of a query: with `status:`
/// inclusions its lowercase form is one of their values, and no `-status:`
/// value equals it.
pub open spec fn passes_status(q: Seq<char>, status: Seq<char>) -> bool {
    let inc = includes(split_whitespace(q));
    let exc = excludes(split_whitespace(q));
    &&& (exists|i: int| 0 <= i < inc.len() && (#[trigger] inc[i]).0 == FilterKind::Status) ==> exists|i: int|
        0 <= i < inc.len() && #[trigger] inc[i] == (FilterKind::Status, lower(status))
    &&& forall|i: int| 0 <= i < exc.len() ==> #[trigger] exc[i] != (FilterKind::Status, lower(status))
}

/// Whether tags pass the tag filters of a query: with `tag:` inclusions the
/// lowercase form of some tag is one of their values, and no `-tag:` value
/// equals the lowercase form of any tag.
pub open spec fn passes_tags(q: Seq<char>, tags: Seq<Seq<char>>) -> bool {
    let inc = includes(split_whitespace(q));
    let exc = excludes(split_whitespace(q));
    &&& (exists|i: int| 0 <= i < inc.len() && (#[trigger] inc[i]).0 == FilterKind::Tag) ==> exists|i: int, j: int|
        0 <= i < inc.len() && 0 <= j < tags.len() && #[trigger] inc[i] == (FilterKind::Tag, lower(#[trigger] tags[j]))
    &&& forall|i: int, j: int|
        0 <= i < exc.len() && 0 <= j < tags.len() ==> #[trigger] exc[i] != (FilterKind::Tag, lower(#[trigger] tags[j]))
}

/// Whether a query holds a `type:` inclusion.
pub open spec fn asks_type(q: Seq<char>) -> bool {
    exists|i: int|
        0 <= i < includes(split_whitespace(q)).len() && (#[trigger] includes(split_whitespace(q))[i]).0
            == FilterKind::Type
}

/// What every search hit satisfies: each task and each iteration passes the
/// status and tag filters and is found only without a `type:` inclusion;
/// each artifact passes the tag filters and is found only without a
/// `status:` inclusion, its lowercased kind being one of the `type:`
/// inclusions when there are any and named by no `-type:` value.
pub proof fn law_search_hits_pass_filters(
    q: Seq<char>,
    tasks: Seq<SearchTask>,
    artifacts: Seq<SearchArtifact>,
    iterations: Seq<SearchIteration>,
)
    ensures
        forall|k: int|
            0 <= k < tasks.filter(task_hit(q)).len() ==> passes_status(q, (#[trigger] tasks.filter(task_hit(q))[k]).status@)
                && passes_tags(q, strs(tasks.filter(task_hit(q))[k].tags@)) && !asks_type(q),
        forall|k: int|
            0 <= k < iterations.filter(iteration_hit(q)).len() ==> passes_status(
                q,
                (#[trigger] iterations.filter(iteration_hit(q))[k]).status@,
            ) && passes_tags(q, strs(iterations.filter(iteration_hit(q))[k].tags@)) && !asks_type(q),
        forall|k: int|
            0 <= k < artifacts.filter(artifact_hit(q)).len() ==> passes_tags(
                q,
                strs((#[trigger] artifacts.filter(artifact_hit(q))[k]).tags@),
            ) && !(exists|i: int|
                0 <= i < includes(split_whitespace(q)).len() && (#[trigger] includes(split_whitespace(q))[i]).0
                    == FilterKind::Status) && (artifacts.filter(artifact_hit(q))[k].kind matches Some(kd) ==> (
            asks_type(q) ==> exists|i: int|
                0 <= i < includes(split_whitespace(q)).len() && #[trigger] includes(split_whitespace(q))[i] == (
                    FilterKind::Type,
                    lower(kd@),
                )) && forall|i: int|
                0 <= i < excludes(split_whitespace(q)).len() ==> #[trigger] excludes(split_whitespace(q))[i] != (
                    FilterKind::Type,
                    lower(kd@),
                )) && (artifacts.filter(artifact_hit(q))[k].kind is None ==> !asks_type(q)),
{
    tasks.filter_lemma(task_hit(q));
    iterations.filter_lemma(iteration_hit(q));
    artifacts.filter_lemma(artifact_hit(q));
}

/// The free text of a query, as the search compares it: the text tokens
/// joined by single spaces, in lowercase.
pub open spec fn free_text(q: Seq<char>) -> Seq<char> {
    lower(join_with(texts(split_whitespace(q)), " "@))
}

/// What a search keeps: a task or an iteration that passes the status and
/// tag filters of a query without a `type:` inclusion, and whose fields
/// contain the free text (or the query has none), is among the hits; for a
/// task the fields are its title, description, tags, status and metadata,
/// for an iteration its title, description, tags and metadata. An artifact
/// is kept on the same terms when the query holds no `status:` inclusion
/// and its kind passes the `type:` filters, its fields being its title,
/// body, tags, kind and metadata.
pub proof fn law_search_keeps_matching_entities(q: Seq<char>, tasks: Seq<SearchTask>, iterations: Seq<SearchIteration>, artifacts: Seq<SearchArtifact>)
    ensures
        forall|i: int|
            0 <= i < tasks.len() && passes_status(q, (#[trigger] tasks[i]).status@) && passes_tags(q, strs(tasks[i].tags@))
                && !asks_type(q) && (free_text(q).len() == 0 || spec_contains_ignore_case(tasks[i].title@, free_text(q))
                || spec_contains_ignore_case(tasks[i].description@, free_text(q)) || spec_any_contains(
                tasks[i].tags@,
                free_text(q),
            ) || spec_contains_ignore_case(tasks[i].status@, free_text(q)) || spec_metadata_contains(
                opt_string(tasks[i].metadata_text),
                free_text(q),
            )) ==> tasks.filter(task_hit(q)).contains(tasks[i]),
        forall|i: int|
            0 <= i < iterations.len() && passes_status(q, (#[trigger] iterations[i]).status@) && passes_tags(
                q,
                strs(iterations[i].tags@),
            ) && !asks_type(q) && (free_text(q).len() == 0 || spec_contains_ignore_case(
                iterations[i].title@,
                free_text(q),
            ) || spec_contains_ignore_case(iterations[i].description@, free_text(q)) || spec_any_contains(
                iterations[i].tags@,
                free_text(q),
            ) || spec_metadata_contains(opt_string(iterations[i].metadata_text), free_text(q)))
                ==> iterations.filter(iteration_hit(q)).contains(iterations[i]),
        forall|i: int|
            0 <= i < artifacts.len() && passes_tags(q, strs((#[trigger] artifacts[i]).tags@)) && !(exists|j: int|
                0 <= j < includes(split_whitespace(q)).len() && (#[trigger] includes(split_whitespace(q))[j]).0
                    == FilterKind::Status) && (match artifacts[i].kind {
                Some(kd) => (asks_type(q) ==> exists|j: int|
                    0 <= j < includes(split_whitespace(q)).len() && #[trigger] includes(split_whitespace(q))[j] == (
                        FilterKind::Type,
                        lower(kd@),
                    )) && forall|j: int|
                    0 <= j < excludes(split_whitespace(q)).len() ==> #[trigger] excludes(split_whitespace(q))[j] != (
                        FilterKind::Type,
                        lower(kd@),
                    ),
                None => !asks_type(q),
            }) && (free_text(q).len() == 0 || spec_contains_ignore_case(artifacts[i].title@, free_text(q))
                || spec_contains_ignore_case(artifacts[i].body@, free_text(q)) || spec_any_contains(
                artifacts[i].tags@,
                free_text(q),
            ) || spec_contains_ignore_case(
                match artifacts[i].kind {
                    Some(kd) => kd@,
                    None => Seq::<char>::empty(),
                },
                free_text(q),
            ) || spec_metadata_contains(opt_string(artifacts[i].metadata_text), free_text(q)))
                ==> artifacts.filter(artifact_hit(q)).contains(artifacts[i]),
{
    tasks.filter_lemma(task_hit(q));
    iterations.filter_lemma(iteration_hit(q));
    artifacts.filter_lemma(artifact_hit(q));
}

/// Which entity types a query searches: a type is searched when the query
/// has no `is:` inclusion or one naming it, and no `-is:` naming it.
pub proof fn law_search_scopes_entity_types(q: Seq<char>, entity: Seq<char>)
    ensures
        wants(includes(split_whitespace(q)), excludes(split_whitespace(q)), entity) <==> ((forall|i: int|
            0 <= i < includes(split_whitespace(q)).len() ==> (#[trigger] includes(split_whitespace(q))[i]).0
                != FilterKind::Is) || (exists|i: int|
            0 <= i < includes(split_whitespace(q)).len() && #[trigger] includes(split_whitespace(q))[i] == (
                FilterKind::Is,
                entity,
            ))) && (forall|i: int|
            0 <= i < excludes(split_whitespace(q)).len() ==> #[trigger] excludes(split_whitespace(q))[i] != (
                FilterKind::Is,
                entity,
            )),
{
}

} // verus!
