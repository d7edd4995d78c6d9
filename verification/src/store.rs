//! Decisions of the file-backed entity store: where an entity's file is,
//! how a file moves between the active and resolved directories, and which
//! records a listing or lookup yields. Reading and writing the files
//! happens around these functions; they take what was found on disk.

use vstd::prelude::*;

use crate::fs::{resolve_id, spec_resolve_in_dirs};
use crate::model::iteration::Filter as IterationFilter;
use crate::model::note::Note;
use crate::primitives::{Id, IterationStatus};
use crate::primitives::iteration_status::status_name;
use crate::primitives::id::spec_decode;
use crate::text::{chars_of, push_all, same_str, string_of, strs, subvec};

verus! {

broadcast use vstd::seq_lib::group_seq_properties;

/// `rel` appended to `base` the way `Path::join` does on Unix: an absolute
/// `rel` replaces `base`, and a separator is added unless `base` is empty or
/// already ends in one.
pub open spec fn joined(base: Seq<char>, rel: Seq<char>) -> Seq<char> {
    if rel.len() > 0 && rel[0] == '/' {
        rel
    } else if base.len() == 0 || base.last() == '/' {
        base + rel
    } else {
        base + seq!['/'] + rel
    }
}

/// Joins a relative path onto a base path.
pub fn join_path(base: &str, rel: &str) -> (r: String)
    ensures
        r@ == joined(base@, rel@),
{
    let b = chars_of(base);
    let t = chars_of(rel);
    if t.len() > 0 && t[0] == '/' {
        return string_of(&t);
    }
    let mut out = b;
    if out.len() > 0 && out[out.len() - 1] != '/' {
        out.push('/');
    }
    push_all(&mut out, &t);
    string_of(&out)
}

/// Concatenation of two strings.
pub fn concat(a: &str, b: &str) -> (r: String)
    ensures
        r@ == a@ + b@,
{
    let mut out = chars_of(a);
    let t = chars_of(b);
    push_all(&mut out, &t);
    string_of(&out)
}

/// The file name of an entity: its encoded id and an extension.
pub open spec fn entity_file(id: Id, ext: Seq<char>) -> Seq<char> {
    id.encoded() + seq!['.'] + ext
}

/// The file of an entity under `dir`, inside the subdirectory `sub` if given.
pub open spec fn entity_path(dir: Seq<char>, sub: Option<Seq<char>>, id: Id, ext: Seq<char>) -> Seq<char> {
    match sub {
        Some(s) => joined(dir, s + seq!['/'] + entity_file(id, ext)),
        None => joined(dir, entity_file(id, ext)),
    }
}

/// Builds the path of an entity's file.
pub fn entity_file_path(dir: &str, sub: Option<&str>, id: &Id, ext: &str) -> (r: String)
    ensures
        r@ == entity_path(dir@, match sub {
            Some(s) => Some(s@),
            None => None,
        }, *id, ext@),
{
    let mut name = chars_of(id.to_string().as_str());
    name.push('.');
    let e = chars_of(ext);
    push_all(&mut name, &e);
    let rel = match sub {
        Some(s) => {
            let mut r = chars_of(s);
            r.push('/');
            push_all(&mut r, &name);
            r
        },
        None => name,
    };
    let rel_s = string_of(&rel);
    join_path(dir, rel_s.as_str())
}

/// The path an artifact is read from: the archived file if only that one
/// exists, else the active file.
pub fn artifact_path(artifact_dir: &str, id: &Id, active_exists: bool, archived_exists: bool) -> (r: String)
    ensures
        r@ == if archived_exists && !active_exists {
            entity_path(artifact_dir@, Some("archive"@), *id, "md"@)
        } else {
            entity_path(artifact_dir@, None, *id, "md"@)
        },
{
    if archived_exists && !active_exists {
        entity_file_path(artifact_dir, Some("archive"), id, "md")
    } else {
        entity_file_path(artifact_dir, None, id, "md")
    }
}

/// An iteration counts as resolved when its file is in the resolved
/// directory and not in the active one.
pub fn is_iteration_resolved(resolved_exists: bool, active_exists: bool) -> (r: bool)
    ensures
        r == (resolved_exists && !active_exists),
{
    resolved_exists && !active_exists
}

/// How an updated entity is written back.
#[derive(Debug)]
pub enum EntityWrite {
    /// Write the content to `dest` and remove `cleanup`.
    Move { dest: String, cleanup: String },
    /// Rewrite the file where it is.
    InPlace,
}

/// How to persist an entity after an update: a newly terminal entity moves
/// into `resolved/`, one that is no longer terminal moves back out, and any
/// other is rewritten in place.
pub fn persist_entity_update(entity_dir: &str, id: &Id, is_terminal: bool, was_resolved: bool) -> (r: EntityWrite)
    ensures
        is_terminal && !was_resolved ==> (r matches EntityWrite::Move { dest, cleanup } && dest@ == entity_path(
            entity_dir@,
            Some("resolved"@),
            *id,
            "toml"@,
        ) && cleanup@ == entity_path(entity_dir@, None, *id, "toml"@)),
        !is_terminal && was_resolved ==> (r matches EntityWrite::Move { dest, cleanup } && dest@ == entity_path(
            entity_dir@,
            None,
            *id,
            "toml"@,
        ) && cleanup@ == entity_path(entity_dir@, Some("resolved"@), *id, "toml"@)),
        is_terminal == was_resolved ==> r is InPlace,
{
    if is_terminal && !was_resolved {
        EntityWrite::Move {
            dest: entity_file_path(entity_dir, Some("resolved"), id, "toml"),
            cleanup: entity_file_path(entity_dir, None, id, "toml"),
        }
    } else if !is_terminal && was_resolved {
        EntityWrite::Move {
            dest: entity_file_path(entity_dir, None, id, "toml"),
            cleanup: entity_file_path(entity_dir, Some("resolved"), id, "toml"),
        }
    } else {
        EntityWrite::InPlace
    }
}

/// The error for an entity that is in neither of its directories.
pub open spec fn not_found_error(label: Seq<char>, id: Id) -> Seq<char> {
    label + " not found: '"@ + id.encoded() + "'"@
}

/// Which file to read an entity from: the active one if it exists, else
/// the secondary one if that exists, else a not-found error.
pub fn read_entity_path(
    active: String,
    secondary: String,
    active_exists: bool,
    secondary_exists: bool,
    entity_label: &str,
    id: &Id,
) -> (r: Result<String, String>)
    ensures
        active_exists ==> r == Ok::<String, String>(active),
        !active_exists && secondary_exists ==> r == Ok::<String, String>(secondary),
        !active_exists && !secondary_exists ==> (r matches Err(e) && e@ == not_found_error(entity_label@, *id)),
{
    if active_exists {
        Ok(active)
    } else if secondary_exists {
        Ok(secondary)
    } else {
        let a = concat(entity_label, " not found: '");
        let b = concat(a.as_str(), id.to_string().as_str());
        Err(concat(b.as_str(), "'"))
    }
}

/// The file to read an artifact from, checking the active directory before
/// the archive.
pub fn read_artifact(artifact_dir: &str, id: &Id, active_exists: bool, archived_exists: bool) -> (r: Result<String, String>)
    ensures
        active_exists ==> (r matches Ok(p) && p@ == entity_path(artifact_dir@, None, *id, "md"@)),
        !active_exists && archived_exists ==> (r matches Ok(p) && p@ == entity_path(
            artifact_dir@,
            Some("archive"@),
            *id,
            "md"@,
        )),
        !active_exists && !archived_exists ==> (r matches Err(e) && e@ == not_found_error("Artifact"@, *id)),
{
    let active = entity_file_path(artifact_dir, None, id, "md");
    let archived = entity_file_path(artifact_dir, Some("archive"), id, "md");
    read_entity_path(active, archived, active_exists, archived_exists, "Artifact", id)
}

/// Resolves an artifact id prefix against the file stems of the artifact
/// directory and (when `show_all`) its archive.
pub fn resolve_artifact_id(active_stems: &Vec<String>, archived_stems: &Vec<String>, prefix: &str, show_all: bool) -> (r: Result<Id, String>)
    ensures
        match r {
            Ok(id) => spec_resolve_in_dirs(strs(active_stems@), Some(strs(archived_stems@)), prefix, show_all, "Artifact"@)
                == Ok::<Seq<u8>, Seq<char>>(id@),
            Err(e) => spec_resolve_in_dirs(strs(active_stems@), Some(strs(archived_stems@)), prefix, show_all, "Artifact"@)
                == Err::<Seq<u8>, Seq<char>>(e@),
        },
{
    resolve_id(active_stems, Some(archived_stems), prefix, show_all, "Artifact")
}

/// Resolves an iteration id prefix against the file stems of the iteration
/// directory and (when `include_resolved`) its resolved subdirectory.
pub fn resolve_iteration_id(active_stems: &Vec<String>, resolved_stems: &Vec<String>, prefix: &str, include_resolved: bool) -> (r: Result<Id, String>)
    ensures
        match r {
            Ok(id) => spec_resolve_in_dirs(strs(active_stems@), Some(strs(resolved_stems@)), prefix, include_resolved, "Iteration"@)
                == Ok::<Seq<u8>, Seq<char>>(id@),
            Err(e) => spec_resolve_in_dirs(strs(active_stems@), Some(strs(resolved_stems@)), prefix, include_resolved, "Iteration"@)
                == Err::<Seq<u8>, Seq<char>>(e@),
        },
{
    resolve_id(active_stems, Some(resolved_stems), prefix, include_resolved, "Iteration")
}

/// The `.gest` directory of a project root, when it is a directory.
pub fn find_gest_dir(root: &str, candidate_is_dir: bool) -> (r: Option<String>)
    ensures
        candidate_is_dir ==> (r matches Some(p) && p@ == joined(root@, ".gest"@)),
        !candidate_is_dir ==> r is None,
{
    if candidate_is_dir {
        Some(join_path(root, ".gest"))
    } else {
        None
    }
}

/// A task reference of an iteration with its `tasks/` prefix, if any, taken off.
pub open spec fn strip_tasks(r: Seq<char>) -> Seq<char> {
    if r.len() >= 6 && r.take(6) == "tasks/"@ {
        r.skip(6)
    } else {
        r
    }
}

/// The id a task reference names, when it names one.
pub open spec fn task_ref_id(r: Seq<char>) -> Option<Seq<u8>> {
    match spec_decode(vstd::utf8::encode_utf8(strip_tasks(r))) {
        Ok(b) => Some(b),
        Err(_) => None,
    }
}

/// The views of a sequence of ids.
pub open spec fn id_views(ids: Seq<Id>) -> Seq<Seq<u8>> {
    ids.map_values(|i: Id| i@)
}

/// The ids of the tasks an iteration references, in order; a reference that
/// does not name an id is skipped.
pub fn read_iteration_tasks(task_refs: &Vec<String>) -> (r: Vec<Id>)
    ensures
        id_views(r@) == strs(task_refs@).filter_map(|x: Seq<char>| task_ref_id(x)),
{
    proof {
        reveal_strlit("tasks/");
    }
    let prefix = chars_of("tasks/");
    let mut out: Vec<Id> = Vec::new();
    let mut i: usize = 0;
    while i < task_refs.len()
        invariant
            0 <= i <= task_refs.len(),
            prefix@ == "tasks/"@,
            prefix@.len() == 6,
            id_views(out@) == strs(task_refs@).take(i as int).filter_map(|x: Seq<char>| task_ref_id(x)),
        decreases task_refs.len() - i,
    {
        let cs = chars_of(task_refs[i].as_str());
        let ghost r = task_refs@[i as int]@;
        let mut starts = cs.len() >= 6;
        let mut k: usize = 0;
        while starts && k < 6
            invariant
                0 <= k <= 6,
                cs@ == r,
                prefix@.len() == 6,
                starts ==> cs.len() >= 6,
                starts ==> forall|j: int| 0 <= j < k ==> cs@[j] == prefix@[j],
                !starts ==> !(r.len() >= 6 && r.take(6) == prefix@),
            decreases 6 - k,
        {
            if cs[k] != prefix[k] {
                assert(r.take(6)[k as int] != prefix@[k as int]);
                starts = false;
            }
            k = k + 1;
        }
        if starts {
            assert(r.take(6) =~= prefix@);
        }
        let rest = if starts {
            subvec(&cs, 6, cs.len())
        } else {
            subvec(&cs, 0, cs.len())
        };
        let t = string_of(&rest);
        assert(t@ =~= strip_tasks(r));
        proof {
            strs(task_refs@).lemma_filter_map_take_succ(|x: Seq<char>| task_ref_id(x), i as int);
            assert(strs(task_refs@)[i as int] == r);
        }
        let ghost before = out@;
        match Id::parse_str(t.as_str()) {
            Ok(id) => {
                out.push(id);
                assert(id_views(out@) =~= id_views(before) + seq![id@]);
            },
            Err(_) => {},
        }
        i = i + 1;
    }
    assert(strs(task_refs@).take(task_refs.len() as int) =~= strs(task_refs@));
    out
}

/// Notes created at time `t`.
pub open spec fn at_time(t: i64) -> spec_fn(Note) -> bool {
    |n: Note| n.created_at == t
}

/// The notes are in order of creation time.
pub open spec fn by_time(s: Seq<Note>) -> bool {
    forall|i: int, j: int| 0 <= i < j < s.len() ==> s[i].created_at <= s[j].created_at
}

/// `out` is `notes` sorted by creation time, notes created at the same time
/// keeping their order (a stable sort).
pub open spec fn stable_by_time(notes: Seq<Note>, out: Seq<Note>) -> bool {
    &&& by_time(out)
    &&& forall|t: i64| #[trigger] out.filter(at_time(t)) == notes.filter(at_time(t))
}

/// The notes of a task ordered by creation time, oldest first, notes created
/// at the same time keeping their order.
pub fn list_notes(notes: Vec<Note>) -> (r: Vec<Note>)
    ensures
        stable_by_time(notes@, r@),
        r@.to_multiset() == notes@.to_multiset(),
{
    let ghost all = notes@;
    let mut rest = notes;
    let mut out: Vec<Note> = Vec::new();
    let ghost mut taken: int = 0;
    assert(rest@ =~= all.skip(0));
    assert(all.take(0) =~= Seq::<Note>::empty());
    while rest.len() > 0
        invariant
            0 <= taken <= all.len(),
            rest@ == all.skip(taken),
            by_time(out@),
            forall|t: i64| #[trigger] out@.filter(at_time(t)) == all.take(taken).filter(at_time(t)),
            out@.to_multiset() == all.take(taken).to_multiset(),
        decreases rest.len(),
    {
        let e = rest.remove(0);
        proof {
            assert(e == all[taken]);
            assert(all.take(taken + 1) =~= all.take(taken).push(e));
            assert(rest@ =~= all.skip(taken + 1));
        }
        let mut p: usize = 0;
        while p < out.len() && out[p].created_at <= e.created_at
            invariant
                0 <= p <= out.len(),
                forall|j: int| 0 <= j < p ==> out@[j].created_at <= e.created_at,
            decreases out.len() - p,
        {
            p = p + 1;
        }
        let ghost o = out@;
        proof {
            assert forall|j: int| p <= j < o.len() implies o[j].created_at > e.created_at by {
                if p < o.len() {
                    assert(o[p as int].created_at > e.created_at);
                    if j > p {
                        assert(o[p as int].created_at <= o[j].created_at);
                    }
                }
            }
        }
        out.insert(p, e);
        proof {
            let a = o.take(p as int);
            let b = o.skip(p as int);
            assert(o =~= a + b);
            assert(out@ =~= a + seq![e] + b);
            assert forall|t: i64| #[trigger] out@.filter(at_time(t)) == all.take(taken + 1).filter(at_time(t)) by {
                Seq::filter_distributes_over_add(a, b, at_time(t));
                Seq::filter_distributes_over_add(a + seq![e], b, at_time(t));
                Seq::filter_distributes_over_add(a, seq![e], at_time(t));
                all.take(taken).lemma_filter_push(e, at_time(t));
                assert(seq![e].filter(at_time(t)) =~= if e.created_at == t {
                    seq![e]
                } else {
                    Seq::<Note>::empty()
                }) by {
                    reveal_with_fuel(Seq::filter, 2);
                    assert(seq![e].drop_last() =~= Seq::<Note>::empty());
                }
                if e.created_at == t {
                    assert(b.filter(at_time(t)) =~= Seq::<Note>::empty()) by {
                        b.lemma_all_neg_filter_empty(at_time(t));
                    }
                }
            }
            assert(by_time(out@)) by {
                assert forall|i: int, j: int| 0 <= i < j < out@.len() implies out@[i].created_at <= out@[j].created_at by {
                    if i < p && j > p {
                        assert(out@[i] == o[i]);
                        assert(out@[j] == o[j - 1]);
                    }
                }
            }
            vstd::seq_lib::lemma_multiset_commutative(a, seq![e] + b);
            vstd::seq_lib::lemma_multiset_commutative(seq![e], b);
            vstd::seq_lib::lemma_multiset_commutative(a, b);
            assert(a + seq![e] + b =~= a + (seq![e] + b));
            assert(o.push(e) =~= (a + b) + seq![e]);
            vstd::seq_lib::lemma_multiset_commutative(a + b, seq![e]);
            assert(out@.to_multiset() == o.push(e).to_multiset());
            taken = taken + 1;
        }
    }
    assert(all.take(taken) =~= all);
    out
}

/// The error for a note that a task does not have.
pub open spec fn note_not_found(note_id: Id, task_id: Id) -> Seq<char> {
    "Note "@ + note_id.encoded() + " not found on task "@ + task_id.encoded()
}

/// The first note of a task with the given id.
pub fn read_note(notes: Vec<Note>, task_id: &Id, note_id: &Id) -> (r: Result<Note, String>)
    ensures
        match r {
            Ok(n) => exists|i: int|
                0 <= i < notes@.len() && notes@[i] == n && n.id@ == note_id@ && forall|j: int|
                    0 <= j < i ==> (#[trigger] notes@[j]).id@ != note_id@,
            Err(e) => e@ == note_not_found(*note_id, *task_id) && forall|j: int|
                0 <= j < notes@.len() ==> (#[trigger] notes@[j]).id@ != note_id@,
        },
{
    let ghost all = notes@;
    let mut rest = notes;
    let ghost mut taken: int = 0;
    assert(rest@ =~= all.skip(0));
    while rest.len() > 0
        invariant
            0 <= taken <= all.len(),
            rest@ == all.skip(taken),
            all == notes@,
            forall|j: int| 0 <= j < taken ==> (#[trigger] all[j]).id@ != note_id@,
        decreases rest.len(),
    {
        let n = rest.remove(0);
        assert(n == all[taken]);
        if n.id == *note_id {
            assert(notes@[taken] == n);
            return Ok(n);
        }
        proof {
            assert(rest@ =~= all.skip(taken + 1));
            taken = taken + 1;
        }
    }
    let a = concat("Note ", note_id.to_string().as_str());
    let b = concat(a.as_str(), " not found on task ");
    Err(concat(b.as_str(), task_id.to_string().as_str()))
}

/// What an artifact listing reads of each artifact.
#[derive(Debug)]
pub struct ArtifactEntry {
    pub id: Id,
    pub title: String,
    pub kind: Option<String>,
    pub tags: Vec<String>,
}

/// Criteria for listing artifacts from their files.
#[derive(Debug)]
pub struct ArtifactFilter {
    pub show_all: bool,
    pub only_archived: bool,
    pub kind: Option<String>,
    pub tag: Option<String>,
}

/// The view of an optional string.
pub open spec fn opt_view(o: Option<String>) -> Option<Seq<char>> {
    match o {
        Some(s) => Some(s@),
        None => None,
    }
}

/// Whether an artifact meets the kind and tag criteria.
pub open spec fn keeps_artifact(kind: Option<Seq<char>>, tag: Option<Seq<char>>) -> spec_fn(ArtifactEntry) -> bool {
    |a: ArtifactEntry|
        (match kind {
            Some(k) => opt_view(a.kind) == Some(k),
            None => true,
        }) && (match tag {
            Some(t) => strs(a.tags@).contains(t),
            None => true,
        })
}

/// Which directories an artifact listing reads: the active one unless only
/// archived artifacts are wanted, and the archive when all or only archived
/// ones are.
pub fn artifact_dirs(filter: &ArtifactFilter) -> (r: (bool, bool))
    ensures
        r.0 == !filter.only_archived,
        r.1 == (filter.show_all || filter.only_archived),
{
    (!filter.only_archived, filter.show_all || filter.only_archived)
}

/// Whether some string of `v` equals `x`.
fn contains_str(v: &Vec<String>, x: &str) -> (r: bool)
    ensures
        r == strs(v@).contains(x@),
{
    let mut i: usize = 0;
    while i < v.len()
        invariant
            0 <= i <= v.len(),
            forall|j: int| 0 <= j < i ==> v@[j]@ != x@,
        decreases v.len() - i,
    {
        if same_str(v[i].as_str(), x) {
            assert(strs(v@)[i as int] == x@);
            return true;
        }
        i = i + 1;
    }
    proof {
        if strs(v@).contains(x@) {
            let j = choose|j: int| 0 <= j < strs(v@).len() && strs(v@)[j] == x@;
            assert(v@[j]@ == x@);
        }
    }
    false
}

/// The artifacts that meet the filter's kind and tag criteria, in order.
pub fn list_artifacts(entries: Vec<ArtifactEntry>, filter: &ArtifactFilter) -> (r: Vec<ArtifactEntry>)
    ensures
        r@ == entries@.filter(keeps_artifact(opt_view(filter.kind), opt_view(filter.tag))),
{
    let ghost f = keeps_artifact(opt_view(filter.kind), opt_view(filter.tag));
    let ghost all = entries@;
    let mut rest = entries;
    let mut out: Vec<ArtifactEntry> = Vec::new();
    let ghost mut taken: int = 0;
    assert(rest@ =~= all.skip(0));
    assert(all.take(0) =~= Seq::<ArtifactEntry>::empty());
    while rest.len() > 0
        invariant
            0 <= taken <= all.len(),
            rest@ == all.skip(taken),
            f == keeps_artifact(opt_view(filter.kind), opt_view(filter.tag)),
            out@ == all.take(taken).filter(f),
        decreases rest.len(),
    {
        let a = rest.remove(0);
        proof {
            assert(a == all[taken]);
            assert(all.take(taken + 1) =~= all.take(taken).push(a));
            assert(rest@ =~= all.skip(taken + 1));
            all.take(taken).lemma_filter_push(a, f);
        }
        let kind_ok = match &filter.kind {
            Some(k) => match &a.kind {
                Some(ak) => same_str(ak.as_str(), k.as_str()),
                None => false,
            },
            None => true,
        };
        let tag_ok = match &filter.tag {
            Some(t) => contains_str(&a.tags, t.as_str()),
            None => true,
        };
        if kind_ok && tag_ok {
            out.push(a);
        }
        proof {
            taken = taken + 1;
        }
    }
    assert(all.take(taken) =~= all);
    out
}

/// An iteration as a listing reads it from its file.
#[derive(Debug)]
pub struct IterationEntry {
    pub id: Id,
    pub title: String,
    pub status: IterationStatus,
    pub tags: Vec<String>,
}

/// Whether an iteration meets the status and tag criteria.
pub open spec fn keeps_iteration(status: Option<IterationStatus>, tag: Option<Seq<char>>) -> spec_fn(IterationEntry) -> bool {
    |it: IterationEntry|
        (match status {
            Some(s) => it.status == s,
            None => true,
        }) && (match tag {
            Some(t) => strs(it.tags@).contains(t),
            None => true,
        })
}

/// Which directories an iteration listing reads: always the active one, and
/// the resolved one only when all iterations are wanted.
pub fn iteration_dirs(filter: &IterationFilter) -> (r: (bool, bool))
    ensures
        r.0,
        r.1 == filter.all,
{
    (true, filter.all)
}

/// The iterations that meet the filter's status and tag criteria, in order.
/// (Whether resolved iterations are read at all is the filter's `all`.)
pub fn list_iterations(entries: Vec<IterationEntry>, filter: &IterationFilter) -> (r: Vec<IterationEntry>)
    ensures
        r@ == entries@.filter(keeps_iteration(filter.status, opt_view(filter.tag))),
{
    let ghost f = keeps_iteration(filter.status, opt_view(filter.tag));
    let ghost all = entries@;
    let mut rest = entries;
    let mut out: Vec<IterationEntry> = Vec::new();
    let ghost mut taken: int = 0;
    assert(rest@ =~= all.skip(0));
    assert(all.take(0) =~= Seq::<IterationEntry>::empty());
    while rest.len() > 0
        invariant
            0 <= taken <= all.len(),
            rest@ == all.skip(taken),
            f == keeps_iteration(filter.status, opt_view(filter.tag)),
            out@ == all.take(taken).filter(f),
        decreases rest.len(),
    {
        let it = rest.remove(0);
        proof {
            assert(it == all[taken]);
            assert(all.take(taken + 1) =~= all.take(taken).push(it));
            assert(rest@ =~= all.skip(taken + 1));
            all.take(taken).lemma_filter_push(it, f);
        }
        let status_ok = match filter.status {
            Some(s) => it.status == s,
            None => true,
        };
        let tag_ok = match &filter.tag {
            Some(t) => contains_str(&it.tags, t.as_str()),
            None => true,
        };
        if status_ok && tag_ok {
            out.push(it);
        }
        proof {
            taken = taken + 1;
        }
    }
    assert(all.take(taken) =~= all);
    out
}

/// Whether `p` occurs in `s` at position `i`.
pub open spec fn occurs_at(s: Seq<char>, p: Seq<char>, i: int) -> bool {
    0 <= i && i + p.len() <= s.len() && s.subrange(i, i + p.len()) == p
}

/// `i` is the first position where `p` occurs in `s`.
pub open spec fn first_at(s: Seq<char>, p: Seq<char>, i: int) -> bool {
    occurs_at(s, p, i) && forall|j: int| 0 <= j < i ==> !#[trigger] occurs_at(s, p, j)
}

/// The delimiter line around frontmatter.
pub open spec fn fence() -> Seq<char> {
    "---\n"@
}

/// The closing delimiter as searched for: a newline, then the fence.
pub open spec fn closing() -> Seq<char> {
    "\n---\n"@
}

/// The text of an artifact file: the frontmatter between fences, then, when
/// the body is not empty, a blank line and the body.
pub open spec fn spec_join_frontmatter(yaml: Seq<char>, body: Seq<char>) -> Seq<char> {
    fence() + yaml + fence() + if body.len() == 0 {
        Seq::<char>::empty()
    } else {
        seq!['\n'] + body
    }
}

/// The error for a file that does not start with a fence.
pub open spec fn missing_opening() -> Seq<char> {
    "Artifact file missing opening frontmatter delimiter"@
}

/// The error for frontmatter that is never closed.
pub open spec fn missing_closing() -> Seq<char> {
    "Artifact file missing closing frontmatter delimiter"@
}

/// What splitting an artifact file yields: the frontmatter up to (not
/// including) the newline of the first closing fence, and the rest after
/// that fence with one leading newline taken off.
pub open spec fn spec_split_frontmatter(content: Seq<char>) -> Result<(Seq<char>, Seq<char>), Seq<char>> {
    if !(content.len() >= 4 && content.take(4) == fence()) {
        Err(missing_opening())
    } else {
        let rest = content.skip(4);
        if exists|i: int| first_at(rest, closing(), i) {
            let i = choose|i: int| first_at(rest, closing(), i);
            let after = rest.skip(i + 5);
            let body = if after.len() > 0 && after[0] == '\n' {
                after.skip(1)
            } else {
                after
            };
            Ok((rest.take(i), body))
        } else {
            Err(missing_closing())
        }
    }
}

/// Builds the text of an artifact file from its serialized frontmatter and body.
pub fn join_frontmatter(yaml: &str, body: &str) -> (r: String)
    ensures
        r@ == spec_join_frontmatter(yaml@, body@),
{
    let mut out = chars_of("---\n");
    let y = chars_of(yaml);
    push_all(&mut out, &y);
    let f = chars_of("---\n");
    push_all(&mut out, &f);
    let b = chars_of(body);
    if b.len() > 0 {
        out.push('\n');
        push_all(&mut out, &b);
    }
    proof {
        reveal_strlit("---\n");
    }
    string_of(&out)
}

/// Whether `p` occurs in `cs` at position `i`.
fn occurs_at_exec(cs: &Vec<char>, p: &Vec<char>, i: usize) -> (r: bool)
    ensures
        r == occurs_at(cs@, p@, i as int),
{
    if i > cs.len() || p.len() > cs.len() - i {
        return false;
    }
    let mut k: usize = 0;
    while k < p.len()
        invariant
            0 <= k <= p.len(),
            i + p.len() <= cs.len(),
            forall|j: int| 0 <= j < k ==> cs@[i + j] == p@[j],
        decreases p.len() - k,
    {
        if cs[i + k] != p[k] {
            assert(cs@.subrange(i as int, i + p.len())[k as int] != p@[k as int]);
            return false;
        }
        k = k + 1;
    }
    assert(cs@.subrange(i as int, i + p.len()) =~= p@);
    true
}

/// Splits an artifact file into its frontmatter and its body.
pub fn split_frontmatter(content: &str) -> (r: Result<(String, String), String>)
    ensures
        match r {
            Ok((yaml, body)) => spec_split_frontmatter(content@) == Ok::<(Seq<char>, Seq<char>), Seq<char>>((yaml@, body@)),
            Err(e) => spec_split_frontmatter(content@) == Err::<(Seq<char>, Seq<char>), Seq<char>>(e@),
        },
{
    proof {
        reveal_strlit("---\n");
        reveal_strlit("\n---\n");
    }
    let cs = chars_of(content);
    let open_fence = chars_of("---\n");
    if !(cs.len() >= 4 && occurs_at_exec(&cs, &open_fence, 0)) {
        proof {
            if cs@.len() >= 4 {
                assert(cs@.subrange(0, 4) =~= cs@.take(4));
            }
        }
        return Err("Artifact file missing opening frontmatter delimiter".to_string());
    }
    assert(cs@.subrange(0, 4) =~= cs@.take(4));
    let rest = subvec(&cs, 4, cs.len());
    let ghost rs = rest@;
    assert(rs =~= content@.skip(4));
    let close = chars_of("\n---\n");
    let mut i: usize = 0;
    while i < rest.len() && !occurs_at_exec(&rest, &close, i)
        invariant
            0 <= i <= rest.len(),
            rest@ == rs,
            close@ == closing(),
            forall|j: int| 0 <= j < i ==> !#[trigger] occurs_at(rs, closing(), j),
        decreases rest.len() - i,
    {
        i = i + 1;
    }
    if i >= rest.len() {
        proof {
            if exists|k: int| first_at(rs, closing(), k) {
                let k = choose|k: int| first_at(rs, closing(), k);
                assert(occurs_at(rs, closing(), k));
            }
        }
        return Err("Artifact file missing closing frontmatter delimiter".to_string());
    }
    proof {
        assert(first_at(rs, closing(), i as int));
        let k = choose|k: int| first_at(rs, closing(), k);
        if k < i {
            assert(!occurs_at(rs, closing(), k));
        } else if k > i {
            assert(!occurs_at(rs, closing(), i as int));
        }
        assert(k == i);
    }
    let yaml = subvec(&rest, 0, i);
    assert(yaml@ =~= rs.take(i as int));
    let after = subvec(&rest, i + 5, rest.len());
    let body = if after.len() > 0 && after[0] == '\n' {
        subvec(&after, 1, after.len())
    } else {
        subvec(&after, 0, after.len())
    };
    proof {
        assert(after@ =~= rs.skip(i + 5));
        if after@.len() > 0 && after@[0] == '\n' {
            assert(body@ =~= after@.skip(1));
        } else {
            assert(body@ =~= after@);
        }
    }
    Ok((string_of(&yaml), string_of(&body)))
}

/// Splitting an artifact file built from frontmatter and a body gives them
/// back, the frontmatter without its final newline, when the frontmatter
/// ends in a newline and holds no line of its own that is a fence.
pub proof fn law_split_join_frontmatter(y: Seq<char>, body: Seq<char>)
    requires
        first_at(y + closing(), closing(), y.len() as int),
    ensures
        spec_split_frontmatter(spec_join_frontmatter(y + seq!['\n'], body)) == Ok::<
            (Seq<char>, Seq<char>),
            Seq<char>,
        >((y, body)),
{
    reveal_strlit("---\n");
    reveal_strlit("\n---\n");
    let c = spec_join_frontmatter(y + seq!['\n'], body);
    let tail = if body.len() == 0 {
        Seq::<char>::empty()
    } else {
        seq!['\n'] + body
    };
    assert(c.take(4) =~= fence());
    let rest = c.skip(4);
    assert(rest =~= (y + closing()) + tail);
    let i = y.len() as int;
    assert forall|j: int| 0 <= j <= i implies #[trigger] occurs_at(rest, closing(), j) == occurs_at(
        y + closing(),
        closing(),
        j,
    ) by {
        if occurs_at(y + closing(), closing(), j) || occurs_at(rest, closing(), j) {
            assert(rest.subrange(j, j + 5) =~= (y + closing()).subrange(j, j + 5));
        }
    }
    assert(first_at(rest, closing(), i));
    let k = choose|k: int| first_at(rest, closing(), k);
    if k < i {
        assert(!occurs_at(rest, closing(), k));
    } else if k > i {
        assert(!occurs_at(rest, closing(), i));
    }
    assert(rest.take(i) =~= y);
    assert(rest.skip(i + 5) =~= tail);
    if body.len() > 0 {
        assert(tail.skip(1) =~= body);
    }
}

/// A task reference added to an iteration's references unless it is there already.
pub open spec fn with_task_ref(refs: Seq<Seq<char>>, t: Seq<char>) -> Seq<Seq<char>> {
    if refs.contains(t) {
        refs
    } else {
        refs.push(t)
    }
}

/// Adds a task reference to an iteration's references unless it is there
/// already; returns whether it was added.
pub fn add_task_ref(refs: &mut Vec<String>, task_ref: &str) -> (r: bool)
    ensures
        r == !strs(old(refs)@).contains(task_ref@),
        strs(final(refs)@) == with_task_ref(strs(old(refs)@), task_ref@),
{
    let mut i: usize = 0;
    while i < refs.len()
        invariant
            0 <= i <= refs.len(),
            forall|j: int| 0 <= j < i ==> refs@[j]@ != task_ref@,
        decreases refs.len() - i,
    {
        if same_str(refs[i].as_str(), task_ref) {
            assert(strs(refs@)[i as int] == task_ref@);
            return false;
        }
        i = i + 1;
    }
    proof {
        if strs(refs@).contains(task_ref@) {
            let j = choose|j: int| 0 <= j < strs(refs@).len() && strs(refs@)[j] == task_ref@;
            assert(refs@[j]@ == task_ref@);
        }
    }
    let ghost before = refs@;
    refs.push(task_ref.to_string());
    assert(strs(refs@) =~= strs(before).push(task_ref@));
    true
}

/// Whether a reference differs from `t`.
pub open spec fn not_ref(t: Seq<char>) -> spec_fn(Seq<char>) -> bool {
    |x: Seq<char>| x != t
}

/// Removes every occurrence of a task reference from an iteration's references.
pub fn remove_task_refs(refs: &Vec<String>, task_ref: &str) -> (r: Vec<String>)
    ensures
        strs(r@) == strs(refs@).filter(not_ref(task_ref@)),
{
    let ghost f = not_ref(task_ref@);
    let mut out: Vec<String> = Vec::new();
    let mut i: usize = 0;
    while i < refs.len()
        invariant
            0 <= i <= refs.len(),
            f == not_ref(task_ref@),
            strs(out@) == strs(refs@).take(i as int).filter(f),
        decreases refs.len() - i,
    {
        proof {
            assert(strs(refs@).take(i + 1) =~= strs(refs@).take(i as int).push(refs@[i as int]@));
            strs(refs@).take(i as int).lemma_filter_push(refs@[i as int]@, f);
        }
        if !same_str(refs[i].as_str(), task_ref) {
            let ghost before = out@;
            out.push(refs[i].clone());
            assert(strs(out@) =~= strs(before).push(refs@[i as int]@));
        }
        i = i + 1;
    }
    assert(strs(refs@).take(refs.len() as int) =~= strs(refs@));
    out
}

/// Adding a task reference twice is adding it once, and removing a
/// reference after adding it leaves no occurrence of it.
pub proof fn law_task_refs(refs: Seq<Seq<char>>, t: Seq<char>)
    ensures
        with_task_ref(with_task_ref(refs, t), t) == with_task_ref(refs, t),
        with_task_ref(refs, t).contains(t),
        !with_task_ref(refs, t).filter(not_ref(t)).contains(t),
{
    let once = with_task_ref(refs, t);
    if !refs.contains(t) {
        assert(once[refs.len() as int] == t);
    }
    if once.filter(not_ref(t)).contains(t) {
        once.lemma_filter_contains_rev(not_ref(t), t);
        let k = choose|k: int| 0 <= k < once.filter(not_ref(t)).len() && once.filter(not_ref(t))[k] == t;
        once.lemma_filter_pred(not_ref(t), k);
    }
}

/// How `completed_at` changes when an iteration is updated.
#[derive(Clone, Copy, Debug, PartialEq, Eq, Structural)]
pub enum CompletedChange {
    /// Set to the update time.
    Stamp,
    /// Cleared.
    Clear,
    /// Left as it was.
    Keep,
}

/// What updating an iteration decides.
#[derive(Debug)]
pub struct IterationUpdate {
    /// The iteration's status after the update.
    pub status: IterationStatus,
    /// The status change to record in the iteration's events, if any.
    pub status_event: Option<(String, String)>,
    pub completed: CompletedChange,
    /// Whether the iteration ends up terminal.
    pub is_terminal: bool,
}

/// Decides an iteration update: a status change is recorded (from the old
/// name to the new) when there is an author and the status differs; an
/// iteration that becomes terminal gets a completion time, and one that
/// leaves the resolved state loses it.
pub fn iteration_update(current: IterationStatus, new_status: Option<IterationStatus>, has_author: bool, was_resolved: bool) -> (r: IterationUpdate)
    ensures
        r.status == match new_status {
            Some(s) => s,
            None => current,
        },
        r.is_terminal == r.status.spec_is_terminal(),
        match r.status_event {
            Some((from, to)) => has_author && (new_status matches Some(s) && s != current && from@ == status_name(
                current,
            ) && to@ == status_name(s)),
            None => !has_author || !(new_status matches Some(s) && s != current),
        },
        r.completed == if r.is_terminal && !was_resolved {
            CompletedChange::Stamp
        } else if !r.is_terminal && was_resolved {
            CompletedChange::Clear
        } else {
            CompletedChange::Keep
        },
{
    let status_event = match new_status {
        Some(s) => if has_author && s != current {
            Some((current.to_string(), s.to_string()))
        } else {
            None
        },
        None => None,
    };
    let status = match new_status {
        Some(s) => s,
        None => current,
    };
    let is_terminal = status.is_terminal();
    let completed = if is_terminal && !was_resolved {
        CompletedChange::Stamp
    } else if !is_terminal && was_resolved {
        CompletedChange::Clear
    } else {
        CompletedChange::Keep
    };
    IterationUpdate { status, status_event, completed, is_terminal }
}

/// Whether an iteration's file is in `resolved/` after a write, given
/// whether it was before: a move takes it across, an in-place write leaves it.
pub open spec fn resolved_after(w: EntityWrite, was_resolved: bool) -> bool {
    match w {
        EntityWrite::Move { .. } => !was_resolved,
        EntityWrite::InPlace => was_resolved,
    }
}

/// An updated iteration ends up resolved exactly when its new status is
/// terminal. For an iteration whose file is in exactly one of its
/// directories, updated as `iteration_update` decides and written back as
/// `persist_entity_update` decides: the write leaves it in `resolved/` (its
/// destination being the resolved path) exactly when the status is terminal,
/// its completion time is stamped exactly when the write moves it into
/// `resolved/`, and cleared exactly when the write moves it out.
pub proof fn law_update_resolves_on_terminal_status(
    dir: Seq<char>,
    id: Id,
    resolved_exists: bool,
    active_exists: bool,
    u: IterationUpdate,
    w: EntityWrite,
)
    requires
        resolved_exists != active_exists,
        u.completed == if u.is_terminal && !(resolved_exists && !active_exists) {
            CompletedChange::Stamp
        } else if !u.is_terminal && (resolved_exists && !active_exists) {
            CompletedChange::Clear
        } else {
            CompletedChange::Keep
        },
        u.is_terminal && !(resolved_exists && !active_exists) ==> (w matches EntityWrite::Move { dest, cleanup }
            && dest@ == entity_path(dir, Some("resolved"@), id, "toml"@) && cleanup@ == entity_path(
            dir,
            None,
            id,
            "toml"@,
        )),
        !u.is_terminal && (resolved_exists && !active_exists) ==> (w matches EntityWrite::Move { dest, cleanup }
            && dest@ == entity_path(dir, None, id, "toml"@) && cleanup@ == entity_path(
            dir,
            Some("resolved"@),
            id,
            "toml"@,
        )),
        u.is_terminal == (resolved_exists && !active_exists) ==> w is InPlace,
    ensures
        resolved_after(w, resolved_exists && !active_exists) == u.is_terminal,
        u.is_terminal ==> (w is InPlace || (w matches EntityWrite::Move { dest, .. } && dest@ == entity_path(
            dir,
            Some("resolved"@),
            id,
            "toml"@,
        ))),
        (u.completed == CompletedChange::Stamp) <==> (w is Move && u.is_terminal),
        (u.completed == CompletedChange::Clear) <==> (w is Move && !u.is_terminal),
{
}

/// How resolving an iteration writes it back: its file moves into
/// `resolved/` and the active file is removed.
pub fn resolve_iteration_write(iteration_dir: &str, id: &Id) -> (r: EntityWrite)
    ensures
        r matches EntityWrite::Move { dest, cleanup } && dest@ == entity_path(
            iteration_dir@,
            Some("resolved"@),
            *id,
            "toml"@,
        ) && cleanup@ == entity_path(iteration_dir@, None, *id, "toml"@),
{
    EntityWrite::Move {
        dest: entity_file_path(iteration_dir, Some("resolved"), id, "toml"),
        cleanup: entity_file_path(iteration_dir, None, id, "toml"),
    }
}

/// Whether the file at `path` exists once `w` has been carried out, given
/// whether it existed before: a move's destination exists and its cleanup
/// path does not; any other path is as it was.
pub open spec fn exists_after(w: EntityWrite, path: Seq<char>, existed: bool) -> bool {
    match w {
        EntityWrite::Move { dest, cleanup } => if path == dest@ {
            true
        } else if path == cleanup@ {
            false
        } else {
            existed
        },
        EntityWrite::InPlace => existed,
    }
}

/// The resolved and the active file of an entity are different paths.
proof fn lemma_resolved_path_differs(dir: Seq<char>, id: Id, ext: Seq<char>)
    ensures
        entity_path(dir, Some("resolved"@), id, ext) != entity_path(dir, None, id, ext),
{
    reveal_strlit("resolved");
    crate::primitives::id::lemma_encoded_chars(id@);
    Id::lemma_len(id);
    let f = entity_file(id, ext);
    let nested = "resolved"@ + seq!['/'] + f;
    assert(f[0] == id.encoded()[0]);
    assert(crate::primitives::id::is_id_char(id.encoded()[0]));
    assert(nested[0] == 'r');
    assert(nested.len() == f.len() + 9);
    assert(f.len() > 0 && f[0] != '/');
    assert(joined(dir, nested).len() == joined(dir, f).len() + 9);
}

/// Resolving an iteration leaves it resolved: once the write that
/// `resolve_iteration_write` decides has been carried out, the resolved file
/// exists and the active one does not, whatever existed before.
pub proof fn law_resolved_after_resolving(
    dir: Seq<char>,
    id: Id,
    w: EntityWrite,
    resolved_existed: bool,
    active_existed: bool,
)
    requires
        w matches EntityWrite::Move { dest, cleanup } && dest@ == entity_path(dir, Some("resolved"@), id, "toml"@)
            && cleanup@ == entity_path(dir, None, id, "toml"@),
    ensures
        exists_after(w, entity_path(dir, Some("resolved"@), id, "toml"@), resolved_existed) && !exists_after(
            w,
            entity_path(dir, None, id, "toml"@),
            active_existed,
        ),
{
    lemma_resolved_path_differs(dir, id, "toml"@);
}

} // verus!
