//! What the web views decide: reading submitted forms, turning them into
//! edits, choosing the rows of a list view, and how links are shown.

use vstd::prelude::*;

use crate::iteration_repo::{cut_at_eight_ok, lemma_prefix_bytes_grow, short_task_id, spec_short_id};
use crate::primitives::TaskStatus;
use vstd::utf8::encode_utf8;
use crate::search::SearchResults;
use crate::store::{concat, opt_view};
use crate::text::{
    all_digits, chars_of, decimal, decimal_chars, digits_value, join_strings, join_with, parse_i64, same_str, split_char, split_on, string_of, strs,
    subvec, trim_str, trimmed, unsigned_part,
};

verus! {

broadcast use vstd::seq_lib::group_seq_properties;

/// Query parameters of the task list.
#[derive(Debug)]
pub struct TaskListParams {
    pub status: Option<String>,
}

/// Query parameters of the artifact list.
#[derive(Debug)]
pub struct ArtifactListParams {
    pub status: Option<String>,
}

/// Query parameters of the iteration list.
#[derive(Debug)]
pub struct IterationListParams {
    pub status: Option<String>,
}

/// Query parameters of the search views.
#[derive(Debug)]
pub struct SearchParams {
    pub q: String,
}

/// Request body of the Markdown preview.
#[derive(Debug)]
pub struct RenderMarkdownBody {
    pub body: String,
}

/// One search hit as the JSON API returns it.
#[derive(Debug)]
pub struct ApiSearchResult {
    /// `task`, `artifact` or `iteration`.
    pub kind: String,
    pub id: String,
    pub short_id: String,
    pub title: String,
}

/// The fields of the task create and edit forms.
#[derive(Debug)]
pub struct TaskFormData {
    pub title: String,
    pub description: String,
    pub tags: String,
    pub priority: String,
    pub link_rels: Vec<String>,
    pub link_refs: Vec<String>,
}

/// The fields of the artifact create and edit forms.
#[derive(Debug)]
pub struct ArtifactFormData {
    pub title: String,
    pub kind: String,
    pub tags: String,
    pub body: String,
}

/// What `form_urlencoded::parse` yields for a body: its name-value pairs,
/// percent-decoded, in order.
pub uninterp spec fn url_form_pairs(body: Seq<u8>) -> Seq<(Seq<char>, Seq<char>)>;

/// The views of name-value pairs.
pub open spec fn pair_views(p: Seq<(String, String)>) -> Seq<(Seq<char>, Seq<char>)> {
    p.map_values(|kv: (String, String)| (kv.0@, kv.1@))
}

/// Calls `form_urlencoded::parse` and collects the decoded pairs.
#[verifier::external_body]
fn form_pairs(body: &[u8]) -> (r: Vec<(String, String)>)
    ensures
        pair_views(r@) == url_form_pairs(body@),
{
    form_urlencoded::parse(body).map(|(k, v)| (k.into_owned(), v.into_owned())).collect()
}

/// The value of the last pair with name `k`, or the empty text.
pub open spec fn last_value(pairs: Seq<(Seq<char>, Seq<char>)>, k: Seq<char>) -> Seq<char>
    decreases pairs.len(),
{
    if pairs.len() == 0 {
        Seq::empty()
    } else if pairs.last().0 == k {
        pairs.last().1
    } else {
        last_value(pairs.drop_last(), k)
    }
}

/// The values of all pairs with name `k`, in order.
pub open spec fn all_values(pairs: Seq<(Seq<char>, Seq<char>)>, k: Seq<char>) -> Seq<Seq<char>>
    decreases pairs.len(),
{
    if pairs.len() == 0 {
        Seq::empty()
    } else if pairs.last().0 == k {
        all_values(pairs.drop_last(), k).push(pairs.last().1)
    } else {
        all_values(pairs.drop_last(), k)
    }
}

/// The task form held by a list of name-value pairs: single fields take
/// their last value, `link_rel[]` and `link_ref[]` collect every value, and
/// other names are ignored.
pub open spec fn is_task_form(f: TaskFormData, pairs: Seq<(Seq<char>, Seq<char>)>) -> bool {
    &&& f.title@ == last_value(pairs, "title"@)
    &&& f.description@ == last_value(pairs, "description"@)
    &&& f.tags@ == last_value(pairs, "tags"@)
    &&& f.priority@ == last_value(pairs, "priority"@)
    &&& strs(f.link_rels@) == all_values(pairs, "link_rel[]"@)
    &&& strs(f.link_refs@) == all_values(pairs, "link_ref[]"@)
}

impl TaskFormData {
    /// Reads the task form from name-value pairs.
    pub fn from_pairs(pairs: Vec<(String, String)>) -> (r: Self)
        ensures
            is_task_form(r, pair_views(pairs@)),
    {
        let ghost all = pair_views(pairs@);
        let mut title = String::new();
        let mut description = String::new();
        let mut tags = String::new();
        let mut priority = String::new();
        let mut link_rels: Vec<String> = Vec::new();
        let mut link_refs: Vec<String> = Vec::new();
        let mut rest = pairs;
        let ghost mut taken: int = 0;
        proof {
            reveal_strlit("title");
            reveal_strlit("description");
            reveal_strlit("tags");
            reveal_strlit("priority");
            reveal_strlit("link_rel[]");
            reveal_strlit("link_ref[]");
        }
        assert(pair_views(rest@) =~= all.skip(0));
        assert(all.take(0) =~= Seq::<(Seq<char>, Seq<char>)>::empty());
        while rest.len() > 0
            invariant
                0 <= taken <= all.len(),
                pair_views(rest@) == all.skip(taken),
                title@ == last_value(all.take(taken), "title"@),
                description@ == last_value(all.take(taken), "description"@),
                tags@ == last_value(all.take(taken), "tags"@),
                priority@ == last_value(all.take(taken), "priority"@),
                strs(link_rels@) == all_values(all.take(taken), "link_rel[]"@),
                strs(link_refs@) == all_values(all.take(taken), "link_ref[]"@),
            decreases rest.len(),
        {
            let ghost before = rest@;
            let (k, v) = rest.remove(0);
            proof {
                assert(pair_views(before).len() == all.len() - taken);
                assert(pair_views(rest@) =~= pair_views(before).skip(1));
                assert(all.skip(taken + 1) =~= all.skip(taken).skip(1));
                assert(pair_views(before)[0] == (k@, v@));
                assert(all.skip(taken)[0] == all[taken]);
                assert(all.take(taken + 1).drop_last() =~= all.take(taken));
                reveal_strlit("title");
                reveal_strlit("description");
                reveal_strlit("tags");
                reveal_strlit("priority");
                reveal_strlit("link_rel[]");
                reveal_strlit("link_ref[]");
                assert("link_rel[]"@[7] != "link_ref[]"@[7]);
                assert("title"@.len() != "description"@.len());
                assert("title"@.len() != "tags"@.len());
                assert("title"@.len() != "priority"@.len());
                assert("description"@.len() != "tags"@.len());
                assert("description"@.len() != "priority"@.len());
                assert("tags"@.len() != "priority"@.len());
                assert("link_rel[]"@.len() != "title"@.len());
                assert("link_rel[]"@.len() != "tags"@.len());
                assert("link_rel[]"@.len() != "priority"@.len());
                assert("link_rel[]"@.len() != "description"@.len());
            }
            let ghost rels0 = link_rels@;
            let ghost refs0 = link_refs@;
            if same_str(k.as_str(), "title") {
                title = v;
            } else if same_str(k.as_str(), "description") {
                description = v;
            } else if same_str(k.as_str(), "tags") {
                tags = v;
            } else if same_str(k.as_str(), "priority") {
                priority = v;
            } else if same_str(k.as_str(), "link_rel[]") {
                link_rels.push(v);
                assert(strs(link_rels@) =~= strs(rels0).push(v@));
            } else if same_str(k.as_str(), "link_ref[]") {
                link_refs.push(v);
                assert(strs(link_refs@) =~= strs(refs0).push(v@));
            }
            proof {
                taken = taken + 1;
            }
        }
        assert(all.take(taken) =~= all);
        TaskFormData { title, description, tags, priority, link_rels, link_refs }
    }

    /// Reads the task form from a URL-encoded body, where `link_rel[]` and
    /// `link_ref[]` may repeat.
    pub fn from_bytes(bytes: &[u8]) -> (r: Self)
        ensures
            is_task_form(r, url_form_pairs(bytes@)),
    {
        TaskFormData::from_pairs(form_pairs(bytes))
    }
}

/// Whether a string is empty.
fn is_blank(s: &String) -> (r: bool)
    ensures
        r == (s@.len() == 0),
{
    chars_of(s.as_str()).len() == 0
}

/// The tags of a comma-separated list: each piece trimmed, empty ones dropped.
pub open spec fn tag_list(s: Seq<char>) -> Seq<Seq<char>> {
    split_on(s, ',').map_values(|p: Seq<char>| trimmed(p)).filter(|t: Seq<char>| t.len() > 0)
}

/// Splits a comma-separated tag list.
pub fn split_tags(s: &str) -> (r: Vec<String>)
    ensures
        strs(r@) == tag_list(s@),
{
    let parts = split_char(s, ',');
    let ghost ps = strs(parts@).map_values(|p: Seq<char>| trimmed(p));
    let ghost f = |t: Seq<char>| t.len() > 0;
    let mut out: Vec<String> = Vec::new();
    let mut i: usize = 0;
    while i < parts.len()
        invariant
            0 <= i <= parts.len(),
            ps == strs(parts@).map_values(|p: Seq<char>| trimmed(p)),
            f == (|t: Seq<char>| t.len() > 0),
            strs(out@) == ps.take(i as int).filter(f),
        decreases parts.len() - i,
    {
        let t = trim_str(parts[i].as_str());
        proof {
            assert(ps[i as int] == t@);
            assert(ps.take(i + 1) =~= ps.take(i as int).push(t@));
            ps.take(i as int).lemma_filter_push(t@, f);
        }
        let ghost before = out@;
        if !is_blank(&t) {
            out.push(t);
            assert(strs(out@) =~= strs(before).push(out@.last()@));
        }
        i = i + 1;
    }
    assert(ps.take(parts.len() as int) =~= ps);
    out
}

/// What `str::parse::<u8>` gives: an optional `+`, then one or more ASCII
/// digits with a value up to 255.
pub open spec fn spec_parse_u8(s: Seq<char>) -> Option<u8> {
    let d = after_plus(s);
    if d.len() > 0 && all_digits(d) && digits_value(d) <= 255 {
        Some(digits_value(d) as u8)
    } else {
        None
    }
}

/// The text after an optional leading `+`.
pub open spec fn after_plus(s: Seq<char>) -> Seq<char> {
    if s.len() > 0 && s[0] == '+' {
        s.drop_first()
    } else {
        s
    }
}

/// Parses a decimal `u8`.
pub fn parse_u8(s: &str) -> (r: Option<u8>)
    ensures
        r == spec_parse_u8(s@),
{
    let cs = chars_of(s);
    if cs.len() > 0 && cs[0] == '-' {
        return None;
    }
    assert(unsigned_part(s@) == after_plus(s@));
    match parse_i64(s) {
        Some(v) => if 0 <= v && v <= 255 {
            Some(v as u8)
        } else {
            None
        },
        None => None,
    }
}

/// A task edit read from its form.
#[derive(Debug)]
pub struct TaskEdit {
    pub title: String,
    pub description: String,
    pub tags: Vec<String>,
    pub priority: Option<u8>,
}

/// The error for a form without a title.
pub open spec fn title_required() -> Seq<char> {
    "Title is required"@
}

/// Turns a submitted task form into an edit: the title is trimmed and must
/// not be empty; tags are split on commas; a blank priority is none, and one
/// that does not parse as a `u8` is dropped.
pub fn task_edit(form: &TaskFormData) -> (r: Result<TaskEdit, String>)
    ensures
        trimmed(form.title@).len() == 0 <==> r is Err,
        r matches Err(e) ==> e@ == title_required(),
        r matches Ok(t) ==> t.title@ == trimmed(form.title@) && t.description@ == form.description@ && strs(
            t.tags@,
        ) == tag_list(form.tags@) && t.priority == (if trimmed(form.priority@).len() == 0 {
            None
        } else {
            spec_parse_u8(trimmed(form.priority@))
        }),
{
    let title = trim_str(form.title.as_str());
    if is_blank(&title) {
        return Err("Title is required".to_string());
    }
    let tags = split_tags(form.tags.as_str());
    let p = trim_str(form.priority.as_str());
    let priority = if is_blank(&p) {
        None
    } else {
        parse_u8(p.as_str())
    };
    Ok(TaskEdit { title, description: form.description.clone(), tags, priority })
}

/// An artifact edit read from its form.
#[derive(Debug)]
pub struct ArtifactEdit {
    pub title: String,
    pub kind: Option<String>,
    pub tags: Vec<String>,
    pub body: String,
}

/// Turns a submitted artifact form into an edit: the title is trimmed and
/// must not be empty; a blank kind is none; tags are split on commas.
pub fn artifact_edit(form: &ArtifactFormData) -> (r: Result<ArtifactEdit, String>)
    ensures
        trimmed(form.title@).len() == 0 <==> r is Err,
        r matches Err(e) ==> e@ == "Title is required."@,
        r matches Ok(a) ==> a.title@ == trimmed(form.title@) && opt_view(a.kind) == (if trimmed(form.kind@).len() == 0 {
            None
        } else {
            Some(trimmed(form.kind@))
        }) && strs(a.tags@) == tag_list(form.tags@) && a.body@ == form.body@,
{
    let title = trim_str(form.title.as_str());
    if is_blank(&title) {
        return Err("Title is required.".to_string());
    }
    let k = trim_str(form.kind.as_str());
    let kind = if is_blank(&k) {
        None
    } else {
        Some(k)
    };
    let tags = split_tags(form.tags.as_str());
    Ok(ArtifactEdit { title, kind, tags, body: form.body.clone() })
}

/// The rows and counts of the task list view.
#[derive(Debug)]
pub struct TaskListSelection {
    pub current_status: TaskStatus,
    pub open_count: usize,
    pub in_progress_count: usize,
    pub done_count: usize,
    pub cancelled_count: usize,
    /// Positions of the tasks shown, in order.
    pub shown: Vec<usize>,
}

/// The status a task list shows for its `status` parameter.
pub open spec fn list_status(param: Option<Seq<char>>) -> TaskStatus {
    match param {
        Some(p) => if p == "in_progress"@ {
            TaskStatus::InProgress
        } else if p == "done"@ {
            TaskStatus::Done
        } else if p == "cancelled"@ {
            TaskStatus::Cancelled
        } else {
            TaskStatus::Open
        },
        None => TaskStatus::Open,
    }
}

/// How many of the statuses equal `s`.
pub open spec fn count_of(statuses: Seq<TaskStatus>, s: TaskStatus) -> nat {
    statuses.filter(is_status(s)).len()
}

/// Whether a status equals `s`.
pub open spec fn is_status(s: TaskStatus) -> spec_fn(TaskStatus) -> bool {
    |x: TaskStatus| x == s
}

/// Positions `0..n` whose status equals `s`, in order.
pub open spec fn positions_of(statuses: Seq<TaskStatus>, s: TaskStatus) -> Seq<usize>
    decreases statuses.len(),
{
    if statuses.len() == 0 {
        Seq::empty()
    } else if statuses.last() == s {
        positions_of(statuses.drop_last(), s).push((statuses.len() - 1) as usize)
    } else {
        positions_of(statuses.drop_last(), s)
    }
}

/// Chooses the tasks of the list view: the status named by the parameter
/// (`in_progress`, `done`, `cancelled`, else open), with a count per status.
pub fn task_list_selection(statuses: &Vec<TaskStatus>, param: Option<&str>) -> (r: TaskListSelection)
    ensures
        r.current_status == list_status(match param {
            Some(p) => Some(p@),
            None => None,
        }),
        r.open_count == count_of(statuses@, TaskStatus::Open),
        r.in_progress_count == count_of(statuses@, TaskStatus::InProgress),
        r.done_count == count_of(statuses@, TaskStatus::Done),
        r.cancelled_count == count_of(statuses@, TaskStatus::Cancelled),
        r.shown@ == positions_of(statuses@, r.current_status),
        r.open_count + r.in_progress_count + r.done_count + r.cancelled_count == statuses.len(),
{
    proof {
        reveal_strlit("in_progress");
        reveal_strlit("done");
        reveal_strlit("cancelled");
    }
    let current = match param {
        Some(p) => if same_str(p, "in_progress") {
            TaskStatus::InProgress
        } else if same_str(p, "done") {
            TaskStatus::Done
        } else if same_str(p, "cancelled") {
            TaskStatus::Cancelled
        } else {
            TaskStatus::Open
        },
        None => TaskStatus::Open,
    };
    let mut open: usize = 0;
    let mut in_progress: usize = 0;
    let mut done: usize = 0;
    let mut cancelled: usize = 0;
    let mut shown: Vec<usize> = Vec::new();
    let mut i: usize = 0;
    while i < statuses.len()
        invariant
            0 <= i <= statuses.len(),
            open == count_of(statuses@.take(i as int), TaskStatus::Open),
            in_progress == count_of(statuses@.take(i as int), TaskStatus::InProgress),
            done == count_of(statuses@.take(i as int), TaskStatus::Done),
            cancelled == count_of(statuses@.take(i as int), TaskStatus::Cancelled),
            open + in_progress + done + cancelled == i,
            shown@ == positions_of(statuses@.take(i as int), current),
        decreases statuses.len() - i,
    {
        let s = statuses[i];
        proof {
            let t = statuses@.take(i as int);
            assert(statuses@.take(i + 1) =~= t.push(s));
            assert(t.push(s).drop_last() =~= t);
            t.lemma_filter_push(s, is_status(TaskStatus::Open));
            t.lemma_filter_push(s, is_status(TaskStatus::InProgress));
            t.lemma_filter_push(s, is_status(TaskStatus::Done));
            t.lemma_filter_push(s, is_status(TaskStatus::Cancelled));
        }
        match s {
            TaskStatus::Open => open = open + 1,
            TaskStatus::InProgress => in_progress = in_progress + 1,
            TaskStatus::Done => done = done + 1,
            TaskStatus::Cancelled => cancelled = cancelled + 1,
        }
        if s == current {
            shown.push(i);
        }
        i = i + 1;
    }
    assert(statuses@.take(statuses.len() as int) =~= statuses@);
    TaskListSelection {
        current_status: current,
        open_count: open,
        in_progress_count: in_progress,
        done_count: done,
        cancelled_count: cancelled,
        shown,
    }
}

/// The positions of status `s` are exactly the tasks with that status, in
/// increasing order.
proof fn lemma_positions(statuses: Seq<TaskStatus>, s: TaskStatus)
    requires
        statuses.len() <= usize::MAX,
    ensures
        forall|k: int|
            0 <= k < positions_of(statuses, s).len() ==> (#[trigger] positions_of(statuses, s)[k]) < statuses.len()
                && statuses[positions_of(statuses, s)[k] as int] == s,
        forall|i: int| 0 <= i < statuses.len() && statuses[i] == s ==> positions_of(statuses, s).contains(i as usize),
        forall|k: int, m: int|
            0 <= k < m < positions_of(statuses, s).len() ==> positions_of(statuses, s)[k] < positions_of(statuses, s)[m],
    decreases statuses.len(),
{
    if statuses.len() > 0 {
        let init = statuses.drop_last();
        lemma_positions(init, s);
        let pi = positions_of(init, s);
        let pf = positions_of(statuses, s);
        assert forall|i: int| 0 <= i < statuses.len() && statuses[i] == s implies pf.contains(i as usize) by {
            if i < statuses.len() - 1 {
                assert(init[i] == statuses[i]);
                let k = choose|k: int| 0 <= k < pi.len() && pi[k] == i as usize;
                if statuses.last() == s {
                    assert(pf[k] == pi[k]);
                }
            } else {
                assert(pf[pf.len() - 1] == i as usize);
            }
        }
        assert forall|k: int| 0 <= k < pf.len() implies (#[trigger] pf[k]) < statuses.len() && statuses[pf[k] as int]
            == s by {
            if k < pi.len() {
                assert(pf[k] == pi[k]);
                assert(init[pi[k] as int] == statuses[pi[k] as int]);
            } else {
                assert(statuses.last() == s);
                assert(pf[k] == (statuses.len() - 1) as usize);
            }
        }
        assert forall|k: int, m: int| 0 <= k < m < pf.len() implies pf[k] < pf[m] by {
            if m < pi.len() {
                assert(pf[k] == pi[k] && pf[m] == pi[m]);
            } else {
                assert(pf[k] == pi[k]);
                assert(pi[k] < init.len());
                assert(pf[m] == (statuses.len() - 1) as usize);
            }
        }
    }
}

/// The task list shows the status its parameter names: `in_progress`,
/// `done` and `cancelled` each choose their own status, and any other
/// parameter, or none, chooses open tasks. The positions shown are exactly
/// the tasks that have the chosen status, in increasing order.
pub proof fn law_list_shows_chosen_status(statuses: Seq<TaskStatus>, param: Option<Seq<char>>)
    requires
        statuses.len() <= usize::MAX,
    ensures
        list_status(Some("in_progress"@)) == TaskStatus::InProgress,
        list_status(Some("done"@)) == TaskStatus::Done,
        list_status(Some("cancelled"@)) == TaskStatus::Cancelled,
        list_status(None) == TaskStatus::Open,
        (param matches Some(p) && p != "in_progress"@ && p != "done"@ && p != "cancelled"@) ==> list_status(param)
            == TaskStatus::Open,
        forall|k: int|
            0 <= k < positions_of(statuses, list_status(param)).len() ==> (#[trigger] positions_of(
                statuses,
                list_status(param),
            )[k]) < statuses.len() && statuses[positions_of(statuses, list_status(param))[k] as int] == list_status(
                param,
            ),
        forall|i: int|
            0 <= i < statuses.len() && statuses[i] == list_status(param) ==> positions_of(
                statuses,
                list_status(param),
            ).contains(i as usize),
        forall|k: int, m: int|
            0 <= k < m < positions_of(statuses, list_status(param)).len() ==> positions_of(
                statuses,
                list_status(param),
            )[k] < positions_of(statuses, list_status(param))[m],
{
    reveal_strlit("in_progress");
    reveal_strlit("done");
    reveal_strlit("cancelled");
    assert("in_progress"@.len() == 11 && "done"@.len() == 4 && "cancelled"@.len() == 9);
    lemma_positions(statuses, list_status(param));
}

/// The rows and counts of the artifact list view.
#[derive(Debug)]
pub struct ArtifactListSelection {
    /// The status shown: the parameter, `open` when there is none.
    pub current_status: String,
    pub open_count: usize,
    pub archived_count: usize,
    /// Positions of the artifacts shown, in order.
    pub shown: Vec<usize>,
}

/// How many of the flags equal `b`.
pub open spec fn count_flag(flags: Seq<bool>, b: bool) -> nat {
    flags.filter(is_flag(b)).len()
}

/// Whether a flag equals `b`.
pub open spec fn is_flag(b: bool) -> spec_fn(bool) -> bool {
    |x: bool| x == b
}

/// Positions whose flag equals `b`, in order.
pub open spec fn flag_positions(flags: Seq<bool>, b: bool) -> Seq<usize>
    decreases flags.len(),
{
    if flags.len() == 0 {
        Seq::empty()
    } else if flags.last() == b {
        flag_positions(flags.drop_last(), b).push((flags.len() - 1) as usize)
    } else {
        flag_positions(flags.drop_last(), b)
    }
}

/// Chooses the artifacts of the list view from whether each is archived:
/// the archived ones for the status `archived`, else the open ones, with a
/// count of each.
pub fn artifact_list_selection(archived: &Vec<bool>, param: Option<&str>) -> (r: ArtifactListSelection)
    ensures
        r.current_status@ == match param {
            Some(p) => p@,
            None => "open"@,
        },
        r.open_count == count_flag(archived@, false),
        r.archived_count == count_flag(archived@, true),
        r.shown@ == flag_positions(archived@, r.current_status@ == "archived"@),
{
    let current = match param {
        Some(p) => p.to_string(),
        None => "open".to_string(),
    };
    let want = same_str(current.as_str(), "archived");
    let mut open: usize = 0;
    let mut arch: usize = 0;
    let mut shown: Vec<usize> = Vec::new();
    let mut i: usize = 0;
    while i < archived.len()
        invariant
            0 <= i <= archived.len(),
            open == count_flag(archived@.take(i as int), false),
            arch == count_flag(archived@.take(i as int), true),
            open + arch == i,
            shown@ == flag_positions(archived@.take(i as int), want),
        decreases archived.len() - i,
    {
        let a = archived[i];
        proof {
            let t = archived@.take(i as int);
            assert(archived@.take(i + 1) =~= t.push(a));
            assert(t.push(a).drop_last() =~= t);
            t.lemma_filter_push(a, is_flag(false));
            t.lemma_filter_push(a, is_flag(true));
        }
        if a {
            arch = arch + 1;
        } else {
            open = open + 1;
        }
        if a == want {
            shown.push(i);
        }
        i = i + 1;
    }
    assert(archived@.take(archived.len() as int) =~= archived@);
    ArtifactListSelection { current_status: current, open_count: open, archived_count: arch, shown }
}

/// The HTML that pulldown-cmark renders for a Markdown text with tables,
/// strikethrough and task lists enabled.
pub uninterp spec fn gfm_html(markdown: Seq<char>) -> Seq<char>;

/// Renders Markdown to HTML with pulldown-cmark: `Parser::new_ext` with the
/// tables, strikethrough and task-list extensions, written out by
/// `html::push_html` into an empty string. Nothing is claimed of the HTML
/// but that it is the rendering of the input, named by `gfm_html`.
#[verifier::external_body]
fn render_markdown(input: &str) -> (r: String)
    ensures
        r@ == gfm_html(input@),
{
    let mut opts = pulldown_cmark::Options::empty();
    opts.insert(pulldown_cmark::Options::ENABLE_TABLES);
    opts.insert(pulldown_cmark::Options::ENABLE_STRIKETHROUGH);
    opts.insert(pulldown_cmark::Options::ENABLE_TASKLISTS);
    let parser = pulldown_cmark::Parser::new_ext(input, opts);
    let mut html_output = String::new();
    pulldown_cmark::html::push_html(&mut html_output, parser);
    html_output
}

/// The response of the Markdown preview endpoint: the posted body rendered
/// as HTML.
pub fn api_render_markdown(payload: &RenderMarkdownBody) -> (r: String)
    ensures
        r@ == gfm_html(payload.body@),
{
    render_markdown(payload.body.as_str())
}

/// What the task page shows besides the task itself.
#[derive(Debug)]
pub struct TaskDetailView {
    /// Whether some task blocks this one.
    pub is_blocked: bool,
    /// The description rendered as HTML.
    pub description_html: String,
    /// The task's links, each as shown.
    pub display_links: Vec<DisplayLink>,
}

/// The task page's view of a task: blocked when some task blocks it, its
/// description rendered from Markdown, and each `(rel, ref)` link shown.
pub fn task_detail_view(description: &str, blocked_by: &Vec<String>, links: &Vec<(String, String)>) -> (r:
    TaskDetailView)
    requires
        forall|i: int| 0 <= i < links.len() ==> link_cut_ok(#[trigger] links@[i].1@),
    ensures
        r.is_blocked == (blocked_by.len() > 0),
        r.description_html@ == gfm_html(description@),
        r.display_links.len() == links.len(),
        forall|i: int|
            0 <= i < links.len() ==> displays(#[trigger] r.display_links@[i], links@[i].0@, links@[i].1@),
{
    let description_html = render_markdown(description);
    let mut shown: Vec<DisplayLink> = Vec::new();
    let mut i: usize = 0;
    while i < links.len()
        invariant
            0 <= i <= links.len(),
            shown.len() == i,
            forall|k: int| 0 <= k < links.len() ==> link_cut_ok(#[trigger] links@[k].1@),
            forall|j: int| 0 <= j < i ==> displays(#[trigger] shown@[j], links@[j].0@, links@[j].1@),
        decreases links.len() - i,
    {
        let d = display_link(links[i].0.as_str(), links[i].1.as_str());
        shown.push(d);
        i = i + 1;
    }
    TaskDetailView { is_blocked: blocked_by.len() > 0, description_html, display_links: shown }
}

/// The figures shown on the dashboard.
#[derive(Debug)]
pub struct DashboardCounts {
    pub task_count: usize,
    pub artifact_count: usize,
    pub iteration_count: usize,
    pub open_count: usize,
    pub in_progress_count: usize,
    pub done_count: usize,
    pub cancelled_count: usize,
}

/// The dashboard's figures: every task counted by status, beside the number
/// of artifacts and of iterations.
pub fn dashboard_counts(statuses: &Vec<TaskStatus>, artifact_count: usize, iteration_count: usize) -> (r:
    DashboardCounts)
    ensures
        r.task_count == statuses.len(),
        r.artifact_count == artifact_count,
        r.iteration_count == iteration_count,
        r.open_count == count_of(statuses@, TaskStatus::Open),
        r.in_progress_count == count_of(statuses@, TaskStatus::InProgress),
        r.done_count == count_of(statuses@, TaskStatus::Done),
        r.cancelled_count == count_of(statuses@, TaskStatus::Cancelled),
        r.open_count + r.in_progress_count + r.done_count + r.cancelled_count == r.task_count,
{
    let sel = task_list_selection(statuses, None);
    DashboardCounts {
        task_count: statuses.len(),
        artifact_count,
        iteration_count,
        open_count: sel.open_count,
        in_progress_count: sel.in_progress_count,
        done_count: sel.done_count,
        cancelled_count: sel.cancelled_count,
    }
}

/// An event as the task page shows it, rendered ahead of time.
#[derive(Debug)]
pub struct DisplayEvent {
    pub author: String,
    pub avatar_url: String,
    pub created_at: String,
    pub description: String,
    pub is_agent: bool,
}

/// A note as the task page shows it, rendered ahead of time.
#[derive(Debug)]
pub struct DisplayNote {
    pub author: String,
    pub avatar_url: String,
    pub body_html: String,
    pub created_at: String,
    pub id_short: String,
    pub is_agent: bool,
}

/// An entry of a task's timeline, which merges its events and notes.
#[derive(Debug)]
pub enum TimelineEntry {
    Event(DisplayEvent),
    Note(DisplayNote),
}

/// How a link of a task is shown.
#[derive(Debug)]
pub struct DisplayLink {
    pub rel: String,
    pub href: Option<String>,
    pub display_text: String,
}

/// The entity directory a reference starts with, if any.
pub open spec fn internal_prefix(r: Seq<char>) -> Option<Seq<char>> {
    if r.len() >= 6 && r.take(6) == "tasks/"@ {
        Some("tasks/"@)
    } else if r.len() >= 10 && r.take(10) == "artifacts/"@ {
        Some("artifacts/"@)
    } else if r.len() >= 11 && r.take(11) == "iterations/"@ {
        Some("iterations/"@)
    } else {
        None
    }
}

/// Whether `s` starts with `p`.
fn starts_with(s: &str, p: &str) -> (r: bool)
    ensures
        r == (s@.len() >= p@.len() && s@.take(p@.len() as int) == p@),
{
    let cs = chars_of(s);
    let ps = chars_of(p);
    if cs.len() < ps.len() {
        return false;
    }
    let head = subvec(&cs, 0, ps.len());
    assert(head@ =~= s@.take(p@.len() as int));
    crate::text::eq_chars(&head, &ps)
}

/// Whether an internal reference's id can be cut at eight bytes: it is
/// shorter, or its eighth byte ends a character. Anything else is no
/// internal reference.
pub open spec fn link_cut_ok(ref_: Seq<char>) -> bool {
    internal_prefix(ref_) matches Some(p) ==> cut_at_eight_ok(ref_.skip(p.len() as int))
}

/// Whether `r` shows the link `(rel, ref_)`: an internal reference links to
/// its page with the first eight bytes of its id as text; a web address
/// links to itself; anything else is plain text.
pub open spec fn displays(r: DisplayLink, rel: Seq<char>, ref_: Seq<char>) -> bool {
    &&& r.rel@ == rel
    &&& internal_prefix(ref_) matches Some(p) ==> (r.href matches Some(h) && h@ == seq!['/'] + ref_
        && r.display_text@ == spec_short_id(ref_.skip(p.len() as int)))
    &&& internal_prefix(ref_) is None && ref_.len() >= 4 && ref_.take(4) == "http"@ ==> (r.href matches Some(h)
        && h@ == ref_ && r.display_text@ == ref_)
    &&& internal_prefix(ref_) is None && !(ref_.len() >= 4 && ref_.take(4) == "http"@) ==> r.href is None
        && r.display_text@ == ref_
}

/// Shows a task link: an internal reference links to its page with the
/// first eight bytes of its id as text; a web address links to
/// itself; anything else is plain text.
pub fn display_link(rel: &str, ref_: &str) -> (r: DisplayLink)
    requires
        link_cut_ok(ref_@),
    ensures
        displays(r, rel@, ref_@),
{
    proof {
        reveal_strlit("tasks/");
        reveal_strlit("artifacts/");
        reveal_strlit("iterations/");
        reveal_strlit("http");
    }
    let plen: usize = if starts_with(ref_, "tasks/") {
        6
    } else if starts_with(ref_, "artifacts/") {
        10
    } else if starts_with(ref_, "iterations/") {
        11
    } else {
        0
    };
    if plen > 0 {
        let cs = chars_of(ref_);
        let rest = subvec(&cs, plen, cs.len());
        assert(rest@ =~= ref_@.skip(plen as int));
        let id_part = string_of(&rest);
        let shown = short_task_id(id_part.as_str());
        let href = concat("/", ref_);
        proof {
            reveal_strlit("/");
            assert(href@ =~= seq!['/'] + ref_@);
        }
        DisplayLink { rel: rel.to_string(), href: Some(href), display_text: shown }
    } else if starts_with(ref_, "http") {
        DisplayLink { rel: rel.to_string(), href: Some(ref_.to_string()), display_text: ref_.to_string() }
    } else {
        DisplayLink { rel: rel.to_string(), href: None, display_text: ref_.to_string() }
    }
}

/// What the eight-byte cut of an id keeps: a prefix of the id, the whole id
/// when it has at most eight bytes, else exactly eight bytes of it.
proof fn lemma_short_id(s: Seq<char>)
    requires
        cut_at_eight_ok(s),
    ensures
        spec_short_id(s).len() <= s.len(),
        s.take(spec_short_id(s).len() as int) == spec_short_id(s),
        encode_utf8(s).len() <= 8 ==> spec_short_id(s) == s,
        encode_utf8(s).len() >= 8 ==> encode_utf8(spec_short_id(s)).len() == 8,
{
    if encode_utf8(s).len() >= 8 {
        let k = choose|k: int| 0 <= k <= s.len() && encode_utf8(#[trigger] s.take(k)).len() == 8;
        assert(s.take(k).len() == k);
        assert(s.take(k).take(k) =~= s.take(k));
        if encode_utf8(s).len() == 8 && k < s.len() {
            lemma_prefix_bytes_grow(s, k, s.len() as int);
            assert(s.take(s.len() as int) =~= s);
        }
        if encode_utf8(s).len() == 8 {
            assert(s.take(s.len() as int) =~= s);
        }
    } else {
        assert(s.take(s.len() as int) =~= s);
    }
}

/// How a link is shown, by the start of its reference: one beginning with
/// `tasks/`, `artifacts/` or `iterations/` links to `/` and the reference,
/// its text cut from the id after that prefix (a prefix of the id, the whole
/// id when it has at most eight bytes, else eight bytes of it); any other
/// beginning with `http` links to itself and shows itself; anything else is
/// plain text without a link. The relationship is kept as given.
pub proof fn law_links_shown_by_reference(r: DisplayLink, rel: Seq<char>, ref_: Seq<char>, p: Seq<char>)
    requires
        displays(r, rel, ref_),
        link_cut_ok(ref_),
    ensures
        r.rel@ == rel,
        (p == "tasks/"@ || p == "artifacts/"@ || p == "iterations/"@) && ref_.len() >= p.len() && ref_.take(
            p.len() as int,
        ) == p ==> ({
            let id = ref_.skip(p.len() as int);
            &&& r.href matches Some(h) && h@ == seq!['/'] + ref_
            &&& r.display_text@.len() <= id.len()
            &&& id.take(r.display_text@.len() as int) == r.display_text@
            &&& encode_utf8(id).len() <= 8 ==> r.display_text@ == id
            &&& encode_utf8(id).len() >= 8 ==> encode_utf8(r.display_text@).len() == 8
        }),
        !(ref_.len() >= 6 && ref_.take(6) == "tasks/"@) && !(ref_.len() >= 10 && ref_.take(10) == "artifacts/"@)
            && !(ref_.len() >= 11 && ref_.take(11) == "iterations/"@) ==> ({
            &&& ref_.len() >= 4 && ref_.take(4) == "http"@ ==> (r.href matches Some(h) && h@ == ref_)
            &&& !(ref_.len() >= 4 && ref_.take(4) == "http"@) ==> r.href is None
            &&& r.display_text@ == ref_
        }),
{
    reveal_strlit("tasks/");
    reveal_strlit("artifacts/");
    reveal_strlit("iterations/");
    if (p == "tasks/"@ || p == "artifacts/"@ || p == "iterations/"@) && ref_.len() >= p.len() && ref_.take(
        p.len() as int,
    ) == p {
        if p == "tasks/"@ {
            assert(internal_prefix(ref_) == Some("tasks/"@));
        } else if p == "artifacts/"@ {
            assert(ref_.take(10)[0] == ref_[0]);
            assert(ref_[0] == 'a');
            assert(!(ref_.take(6) == "tasks/"@)) by {
                assert(ref_.take(6)[0] == ref_[0]);
            }
            assert(internal_prefix(ref_) == Some("artifacts/"@));
        } else {
            assert(ref_.take(11)[0] == ref_[0]);
            assert(ref_[0] == 'i');
            assert(!(ref_.take(6) == "tasks/"@)) by {
                assert(ref_.take(6)[0] == ref_[0]);
            }
            assert(!(ref_.take(10) == "artifacts/"@)) by {
                assert(ref_.take(10)[0] == ref_[0]);
            }
            assert(internal_prefix(ref_) == Some("iterations/"@));
        }
        lemma_short_id(ref_.skip(p.len() as int));
    }
}

/// The JSON API view of search results: tasks, then artifacts, then
/// iterations, each with its kind, id, short id and title.
pub fn api_search_results(results: &SearchResults) -> (r: Vec<ApiSearchResult>)
    ensures
        r@.len() == results.tasks@.len() + results.artifacts@.len() + results.iterations@.len(),
        forall|i: int|
            0 <= i < results.tasks@.len() ==> (#[trigger] r@[i]).kind@ == "task"@ && r@[i].id@
                == results.tasks@[i].id.encoded() && r@[i].short_id@ == results.tasks@[i].id.encoded().take(8)
                && r@[i].title@ == results.tasks@[i].title@,
        forall|i: int|
            0 <= i < results.artifacts@.len() ==> (#[trigger] r@[results.tasks@.len() + i]).kind@ == "artifact"@
                && r@[results.tasks@.len() + i].id@ == results.artifacts@[i].id.encoded() && r@[results.tasks@.len()
                + i].short_id@ == results.artifacts@[i].id.encoded().take(8) && r@[results.tasks@.len() + i].title@
                == results.artifacts@[i].title@,
        forall|i: int|
            0 <= i < results.iterations@.len() ==> (#[trigger] r@[results.tasks@.len() + results.artifacts@.len()
                + i]).kind@ == "iteration"@ && r@[results.tasks@.len() + results.artifacts@.len() + i].id@
                == results.iterations@[i].id.encoded() && r@[results.tasks@.len() + results.artifacts@.len()
                + i].short_id@ == results.iterations@[i].id.encoded().take(8) && r@[results.tasks@.len()
                + results.artifacts@.len() + i].title@ == results.iterations@[i].title@,
{
    let mut out: Vec<ApiSearchResult> = Vec::new();
    let mut i: usize = 0;
    while i < results.tasks.len()
        invariant
            0 <= i <= results.tasks.len(),
            out@.len() == i,
            forall|j: int|
                0 <= j < i ==> (#[trigger] out@[j]).kind@ == "task"@ && out@[j].id@ == results.tasks@[j].id.encoded()
                    && out@[j].short_id@ == results.tasks@[j].id.encoded().take(8) && out@[j].title@
                    == results.tasks@[j].title@,
        decreases results.tasks.len() - i,
    {
        let t = &results.tasks[i];
        out.push(
            ApiSearchResult {
                kind: "task".to_string(),
                id: t.id.to_string(),
                short_id: t.id.short(),
                title: t.title.clone(),
            },
        );
        i = i + 1;
    }
    let n1 = out.len();
    let mut i: usize = 0;
    while i < results.artifacts.len()
        invariant
            0 <= i <= results.artifacts.len(),
            n1 == results.tasks@.len(),
            out@.len() == n1 + i,
            forall|j: int|
                0 <= j < n1 ==> (#[trigger] out@[j]).kind@ == "task"@ && out@[j].id@ == results.tasks@[j].id.encoded()
                    && out@[j].short_id@ == results.tasks@[j].id.encoded().take(8) && out@[j].title@
                    == results.tasks@[j].title@,
            forall|j: int|
                0 <= j < i ==> (#[trigger] out@[n1 + j]).kind@ == "artifact"@ && out@[n1 + j].id@
                    == results.artifacts@[j].id.encoded() && out@[n1 + j].short_id@ == results.artifacts@[j].id.encoded().take(
                    8,
                ) && out@[n1 + j].title@ == results.artifacts@[j].title@,
        decreases results.artifacts.len() - i,
    {
        let a = &results.artifacts[i];
        out.push(
            ApiSearchResult {
                kind: "artifact".to_string(),
                id: a.id.to_string(),
                short_id: a.id.short(),
                title: a.title.clone(),
            },
        );
        i = i + 1;
    }
    let n2 = out.len();
    let mut i: usize = 0;
    while i < results.iterations.len()
        invariant
            0 <= i <= results.iterations.len(),
            n1 == results.tasks@.len(),
            n2 == n1 + results.artifacts@.len(),
            out@.len() == n2 + i,
            forall|j: int|
                0 <= j < n1 ==> (#[trigger] out@[j]).kind@ == "task"@ && out@[j].id@ == results.tasks@[j].id.encoded()
                    && out@[j].short_id@ == results.tasks@[j].id.encoded().take(8) && out@[j].title@
                    == results.tasks@[j].title@,
            forall|j: int|
                0 <= j < results.artifacts@.len() ==> (#[trigger] out@[n1 + j]).kind@ == "artifact"@ && out@[n1
                    + j].id@ == results.artifacts@[j].id.encoded() && out@[n1 + j].short_id@
                    == results.artifacts@[j].id.encoded().take(8) && out@[n1 + j].title@
                    == results.artifacts@[j].title@,
            forall|j: int|
                0 <= j < i ==> (#[trigger] out@[n2 + j]).kind@ == "iteration"@ && out@[n2 + j].id@
                    == results.iterations@[j].id.encoded() && out@[n2 + j].short_id@
                    == results.iterations@[j].id.encoded().take(8) && out@[n2 + j].title@
                    == results.iterations@[j].title@,
        decreases results.iterations.len() - i,
    {
        let it = &results.iterations[i];
        out.push(
            ApiSearchResult {
                kind: "iteration".to_string(),
                id: it.id.to_string(),
                short_id: it.id.short(),
                title: it.title.clone(),
            },
        );
        i = i + 1;
    }
    out
}

/// Positions of the tasks with status `s`.
fn positions_with(statuses: &Vec<TaskStatus>, s: TaskStatus) -> (r: Vec<usize>)
    ensures
        r@ == positions_of(statuses@, s),
{
    let mut out: Vec<usize> = Vec::new();
    let mut i: usize = 0;
    while i < statuses.len()
        invariant
            0 <= i <= statuses.len(),
            out@ == positions_of(statuses@.take(i as int), s),
        decreases statuses.len() - i,
    {
        proof {
            let t = statuses@.take(i as int);
            assert(statuses@.take(i + 1) =~= t.push(statuses@[i as int]));
            assert(t.push(statuses@[i as int]).drop_last() =~= t);
        }
        if statuses[i] == s {
            out.push(i);
        }
        i = i + 1;
    }
    assert(statuses@.take(statuses.len() as int) =~= statuses@);
    out
}

/// The columns of an iteration's board.
#[derive(Debug)]
pub struct BoardColumns {
    pub open: Vec<usize>,
    pub in_progress: Vec<usize>,
    pub done: Vec<usize>,
    pub cancelled: Vec<usize>,
}

/// Sorts an iteration's tasks into board columns by status, keeping their
/// order; each column holds task positions.
pub fn iteration_board_columns(statuses: &Vec<TaskStatus>) -> (r: BoardColumns)
    ensures
        r.open@ == positions_of(statuses@, TaskStatus::Open),
        r.in_progress@ == positions_of(statuses@, TaskStatus::InProgress),
        r.done@ == positions_of(statuses@, TaskStatus::Done),
        r.cancelled@ == positions_of(statuses@, TaskStatus::Cancelled),
{
    BoardColumns {
        open: positions_with(statuses, TaskStatus::Open),
        in_progress: positions_with(statuses, TaskStatus::InProgress),
        done: positions_with(statuses, TaskStatus::Done),
        cancelled: positions_with(statuses, TaskStatus::Cancelled),
    }
}

/// A phase of an iteration with the positions of its tasks.
#[derive(Debug)]
pub struct PhaseGroup {
    pub number: u16,
    pub tasks: Vec<usize>,
}

/// The phase of a task: its phase, or 0 when it has none.
pub open spec fn phase_number(p: Option<u16>) -> u16 {
    match p {
        Some(n) => n,
        None => 0,
    }
}

/// Positions of the tasks in phase `n`, in order.
pub open spec fn in_phase(phases: Seq<Option<u16>>, n: u16) -> Seq<usize>
    decreases phases.len(),
{
    if phases.len() == 0 {
        Seq::empty()
    } else if phase_number(phases.last()) == n {
        in_phase(phases.drop_last(), n).push((phases.len() - 1) as usize)
    } else {
        in_phase(phases.drop_last(), n)
    }
}

/// Whether some task is in phase `n`.
pub open spec fn has_phase(phases: Seq<Option<u16>>, n: u16) -> bool {
    exists|i: int| 0 <= i < phases.len() && phase_number(#[trigger] phases[i]) == n
}

/// Positions of the tasks in phase `n`.
fn tasks_in_phase(phases: &Vec<Option<u16>>, n: u16) -> (r: Vec<usize>)
    ensures
        r@ == in_phase(phases@, n),
{
    let mut out: Vec<usize> = Vec::new();
    let mut i: usize = 0;
    while i < phases.len()
        invariant
            0 <= i <= phases.len(),
            out@ == in_phase(phases@.take(i as int), n),
        decreases phases.len() - i,
    {
        proof {
            let t = phases@.take(i as int);
            assert(phases@.take(i + 1) =~= t.push(phases@[i as int]));
            assert(t.push(phases@[i as int]).drop_last() =~= t);
        }
        let p = match phases[i] {
            Some(x) => x,
            None => 0,
        };
        if p == n {
            out.push(i);
        }
        i = i + 1;
    }
    assert(phases@.take(phases.len() as int) =~= phases@);
    out
}

/// Groups an iteration's tasks by phase, phases in increasing order, each
/// with the positions of its tasks in order (a task without a phase is in
/// phase 0).
pub fn phase_groups(phases: &Vec<Option<u16>>) -> (r: Vec<PhaseGroup>)
    ensures
        forall|a: int, b: int| 0 <= a < b < r@.len() ==> r@[a].number < r@[b].number,
        forall|a: int| 0 <= a < r@.len() ==> has_phase(phases@, #[trigger] r@[a].number),
        forall|n: u16| has_phase(phases@, n) ==> exists|a: int| 0 <= a < r@.len() && (#[trigger] r@[a]).number == n,
        forall|a: int| 0 <= a < r@.len() ==> (#[trigger] r@[a]).tasks@ == in_phase(phases@, r@[a].number),
{
    let mut numbers: Vec<u16> = Vec::new();
    let mut i: usize = 0;
    while i < phases.len()
        invariant
            0 <= i <= phases.len(),
            forall|a: int, b: int| 0 <= a < b < numbers@.len() ==> numbers@[a] < numbers@[b],
            forall|a: int| 0 <= a < numbers@.len() ==> has_phase(phases@, #[trigger] numbers@[a]),
            forall|j: int|
                0 <= j < i ==> exists|a: int| 0 <= a < numbers@.len() && numbers@[a] == phase_number(#[trigger] phases@[j]),
        decreases phases.len() - i,
    {
        let p = match phases[i] {
            Some(x) => x,
            None => 0,
        };
        assert(phase_number(phases@[i as int]) == p);
        let mut k: usize = 0;
        while k < numbers.len() && numbers[k] < p
            invariant
                0 <= k <= numbers.len(),
                forall|a: int| 0 <= a < k ==> numbers@[a] < p,
            decreases numbers.len() - k,
        {
            k = k + 1;
        }
        if k < numbers.len() && numbers[k] == p {
            assert(numbers@[k as int] == p);
        } else {
            let ghost old_numbers = numbers@;
            numbers.insert(k, p);
            proof {
                assert(numbers@ =~= old_numbers.insert(k as int, p));
                assert forall|a: int, b: int| 0 <= a < b < numbers@.len() implies numbers@[a] < numbers@[b] by {
                    if b == k {
                        assert(numbers@[a] == old_numbers[a]);
                    } else if a == k {
                        assert(numbers@[b] == old_numbers[b - 1]);
                        assert(old_numbers[k as int] > p || old_numbers[k as int] >= p);
                        if b - 1 > k {
                            assert(old_numbers[k as int] < old_numbers[b - 1]);
                        }
                    } else if a < k && b > k {
                        assert(numbers@[a] == old_numbers[a]);
                        assert(numbers@[b] == old_numbers[b - 1]);
                    } else if b < k {
                        assert(numbers@[a] == old_numbers[a]);
                        assert(numbers@[b] == old_numbers[b]);
                    } else {
                        assert(numbers@[a] == old_numbers[a - 1]);
                        assert(numbers@[b] == old_numbers[b - 1]);
                    }
                }
                assert forall|a: int| 0 <= a < numbers@.len() implies has_phase(phases@, #[trigger] numbers@[a]) by {
                    if a < k {
                        assert(numbers@[a] == old_numbers[a]);
                    } else if a > k {
                        assert(numbers@[a] == old_numbers[a - 1]);
                    } else {
                        assert(phase_number(phases@[i as int]) == p);
                    }
                }
                assert forall|j: int| 0 <= j < i implies exists|a: int|
                    0 <= a < numbers@.len() && numbers@[a] == phase_number(#[trigger] phases@[j]) by {
                    let a0 = choose|a: int| 0 <= a < old_numbers.len() && old_numbers[a] == phase_number(phases@[j]);
                    if a0 < k {
                        assert(numbers@[a0] == old_numbers[a0]);
                    } else {
                        assert(numbers@[a0 + 1] == old_numbers[a0]);
                    }
                }
                assert(numbers@[k as int] == p);
            }
        }
        i = i + 1;
    }
    let mut out: Vec<PhaseGroup> = Vec::new();
    let mut g: usize = 0;
    while g < numbers.len()
        invariant
            0 <= g <= numbers.len(),
            out@.len() == g,
            forall|a: int| 0 <= a < g ==> (#[trigger] out@[a]).number == numbers@[a],
            forall|a: int| 0 <= a < g ==> (#[trigger] out@[a]).tasks@ == in_phase(phases@, out@[a].number),
        decreases numbers.len() - g,
    {
        let n = numbers[g];
        out.push(PhaseGroup { number: n, tasks: tasks_in_phase(phases, n) });
        g = g + 1;
    }
    proof {
        assert forall|n: u16| has_phase(phases@, n) implies exists|a: int|
            0 <= a < out@.len() && (#[trigger] out@[a]).number == n by {
            let j = choose|j: int| 0 <= j < phases@.len() && phase_number(#[trigger] phases@[j]) == n;
            let a = choose|a: int| 0 <= a < numbers@.len() && numbers@[a] == phase_number(phases@[j]);
            assert(out@[a].number == n);
        }
    }
    out
}

/// The text fields an edit form starts from: the tags joined by `", "`,
/// and the priority in decimal (empty when there is none).
pub fn task_form_fields(tags: &Vec<String>, priority: Option<u8>) -> (r: (String, String))
    ensures
        r.0@ == join_with(strs(tags@), ", "@),
        r.1@ == match priority {
            Some(p) => decimal(p as nat),
            None => Seq::<char>::empty(),
        },
{
    let joined = join_strings(tags, ", ");
    let p = match priority {
        Some(v) => string_of(&decimal_chars(v as usize)),
        None => String::new(),
    };
    (joined, p)
}

/// The text fields an artifact's edit form starts from: the tags joined by
/// `", "`, and the kind (empty when there is none).
pub fn artifact_form_fields(tags: &Vec<String>, kind: &Option<String>) -> (r: (String, String))
    ensures
        r.0@ == join_with(strs(tags@), ", "@),
        r.1@ == match opt_view(*kind) {
            Some(k) => k,
            None => Seq::<char>::empty(),
        },
{
    let joined = join_strings(tags, ", ");
    let k = match kind {
        Some(k) => k.clone(),
        None => String::new(),
    };
    (joined, k)
}

} // verus!
