//! What a purge finds: terminal tasks and iterations, archived artifacts and
//! projects, dangling relationships and orphan tombstone files, tallied from
//! the rows a query returns.

use vstd::prelude::*;

use crate::primitives::Id;
use crate::primitives::id::spec_decode;
use crate::text::{chars_of, contains_str, mentions, same_str, string_of, strs, subvec};

verus! {

/// Which projects a purge looks at.
#[derive(Debug)]
pub enum Scope {
    /// Every project.
    AllProjects,
    /// A single project.
    Project(Id),
}

/// Terminal tasks grouped by status.
#[derive(Debug)]
pub struct TerminalTasks {
    /// Number of tasks in the `cancelled` state.
    pub cancelled: usize,
    /// Number of tasks in the `done` state.
    pub done: usize,
    /// Ids of all terminal tasks.
    pub ids: Vec<Id>,
}

impl TerminalTasks {
    /// Total number of terminal tasks.
    pub fn total(&self) -> (r: usize)
        requires
            self.cancelled + self.done <= usize::MAX,
        ensures
            r == self.cancelled + self.done,
    {
        self.cancelled + self.done
    }
}

/// Terminal iterations grouped by status.
#[derive(Debug)]
pub struct TerminalIterations {
    /// Number of iterations in the `cancelled` state.
    pub cancelled: usize,
    /// Number of iterations in the `completed` state.
    pub completed: usize,
    /// Ids of all terminal iterations.
    pub ids: Vec<Id>,
}

impl TerminalIterations {
    /// Total number of terminal iterations.
    pub fn total(&self) -> (r: usize)
        requires
            self.cancelled + self.completed <= usize::MAX,
        ensures
            r == self.cancelled + self.completed,
    {
        self.cancelled + self.completed
    }
}

/// Archived artifacts.
#[derive(Debug)]
pub struct ArchivedArtifacts {
    /// Number of archived artifacts.
    pub count: usize,
    /// Ids of all archived artifacts.
    pub ids: Vec<Id>,
}

/// Archived projects.
#[derive(Debug)]
pub struct ArchivedProjects {
    /// Number of archived projects.
    pub count: usize,
    /// Ids of all archived projects.
    pub ids: Vec<Id>,
}

/// Relationship rows whose source or target no longer resolves to a live entity.
#[derive(Debug)]
pub struct DanglingRelationships {
    /// Number of dangling relationship rows.
    pub count: usize,
    /// Ids of all dangling relationship rows.
    pub ids: Vec<Id>,
}

/// On-disk tombstone files with no matching row.
#[derive(Debug)]
pub struct OrphanTombstones {
    /// Number of orphan tombstone files.
    pub count: usize,
    /// Paths of all orphan tombstone files.
    pub paths: Vec<String>,
}

/// How many rows have the given status.
pub open spec fn count_status(rows: Seq<(String, String)>, status: Seq<char>) -> nat
    decreases rows.len(),
{
    if rows.len() == 0 {
        0
    } else {
        count_status(rows.drop_last(), status) + if rows.last().1@ == status {
            1nat
        } else {
            0nat
        }
    }
}

/// Every row's id text decodes to an id; `ids` are those ids in order.
pub open spec fn ids_decoded(rows: Seq<(String, String)>, ids: Seq<Id>) -> bool {
    &&& ids.len() == rows.len()
    &&& forall|i: int|
        0 <= i < rows.len() ==> spec_decode(vstd::utf8::encode_utf8(#[trigger] rows[i].0@)) == Ok::<
            Seq<u8>,
            Seq<char>,
        >(ids[i]@)
}

/// Whether some row's id text does not decode to an id.
pub open spec fn some_bad_id(rows: Seq<(String, String)>) -> bool {
    exists|i: int| 0 <= i < rows.len() && spec_decode(vstd::utf8::encode_utf8(#[trigger] rows[i].0@)) is Err
}

/// Tallies `(id, status)` rows by two statuses, collecting every row's id.
/// Fails on the first id that does not parse.
fn tally(rows: &Vec<(String, String)>, first: &str, second: &str) -> (r: Result<(usize, usize, Vec<Id>), String>)
    requires
        first@ != second@,
    ensures
        r is Ok <==> !some_bad_id(rows@),
        r matches Ok(t) ==> t.0 == count_status(rows@, first@) && t.1 == count_status(rows@, second@)
            && ids_decoded(rows@, t.2@),
{
    let mut a: usize = 0;
    let mut b: usize = 0;
    let mut ids: Vec<Id> = Vec::new();
    let mut i: usize = 0;
    while i < rows.len()
        invariant
            0 <= i <= rows.len(),
            a == count_status(rows@.take(i as int), first@),
            b == count_status(rows@.take(i as int), second@),
            a + b <= i,
            first@ != second@,
            ids_decoded(rows@.take(i as int), ids@),
        decreases rows.len() - i,
    {
        assert(rows@.take(i + 1).drop_last() =~= rows@.take(i as int));
        let id = match Id::parse_str(rows[i].0.as_str()) {
            Ok(id) => id,
            Err(e) => {
                assert(spec_decode(vstd::utf8::encode_utf8(rows@[i as int].0@)) is Err);
                return Err(e);
            },
        };
        if same_str(rows[i].1.as_str(), first) {
            a = a + 1;
        } else if same_str(rows[i].1.as_str(), second) {
            b = b + 1;
        }
        ids.push(id);
        proof {
            assert forall|k: int| 0 <= k < i + 1 implies spec_decode(
                vstd::utf8::encode_utf8(#[trigger] rows@.take(i + 1)[k].0@),
            ) == Ok::<Seq<u8>, Seq<char>>(ids@[k]@) by {
                if k < i {
                    assert(rows@.take(i + 1)[k] == rows@.take(i as int)[k]);
                }
            }
        }
        i = i + 1;
    }
    assert(rows@.take(rows.len() as int) =~= rows@);
    Ok((a, b, ids))
}

/// The statement that selects the `(id, status)` rows of terminal tasks in
/// a scope, and its parameters: only rows whose status is `done` or
/// `cancelled` are selected, so every row that `terminal_tasks_from_rows`
/// tallies is counted once (`law_terminal_tasks_total`).
pub fn terminal_tasks_query(scope: &Scope) -> (r: (&'static str, Vec<String>))
    ensures
        match scope {
            Scope::AllProjects => r.0@ == "SELECT id, status FROM tasks WHERE status IN ('done', 'cancelled')"@
                && r.1@.len() == 0,
            Scope::Project(pid) => r.0@
                == "SELECT id, status FROM tasks WHERE project_id = ?1 AND status IN ('done', 'cancelled')"@
                && r.1@.len() == 1 && r.1@[0]@ == pid.encoded(),
        },
{
    match scope {
        Scope::AllProjects => ("SELECT id, status FROM tasks WHERE status IN ('done', 'cancelled')", Vec::new()),
        Scope::Project(pid) => {
            let mut params: Vec<String> = Vec::new();
            params.push(pid.to_string());
            ("SELECT id, status FROM tasks WHERE project_id = ?1 AND status IN ('done', 'cancelled')", params)
        },
    }
}

/// The statement that selects the `(id, status)` rows of terminal
/// iterations in a scope, and its parameters: only rows whose status is
/// `completed` or `cancelled` are selected, so every row that
/// `terminal_iterations_from_rows` tallies is counted once
/// (`law_terminal_iterations_total`).
pub fn terminal_iterations_query(scope: &Scope) -> (r: (&'static str, Vec<String>))
    ensures
        match scope {
            Scope::AllProjects => r.0@
                == "SELECT id, status FROM iterations WHERE status IN ('completed', 'cancelled')"@ && r.1@.len()
                == 0,
            Scope::Project(pid) => r.0@
                == "SELECT id, status FROM iterations WHERE project_id = ?1 AND status IN ('completed', 'cancelled')"@
                && r.1@.len() == 1 && r.1@[0]@ == pid.encoded(),
        },
{
    match scope {
        Scope::AllProjects => (
            "SELECT id, status FROM iterations WHERE status IN ('completed', 'cancelled')",
            Vec::new(),
        ),
        Scope::Project(pid) => {
            let mut params: Vec<String> = Vec::new();
            params.push(pid.to_string());
            (
                "SELECT id, status FROM iterations WHERE project_id = ?1 AND status IN ('completed', 'cancelled')",
                params,
            )
        },
    }
}

/// Tallies terminal task rows `(id, status)` by status.
pub fn terminal_tasks_from_rows(rows: &Vec<(String, String)>) -> (r: Result<TerminalTasks, String>)
    ensures
        r is Ok <==> !some_bad_id(rows@),
        r matches Ok(t) ==> t.cancelled == count_status(rows@, "cancelled"@) && t.done == count_status(
            rows@,
            "done"@,
        ) && ids_decoded(rows@, t.ids@),
{
    proof {
        reveal_strlit("cancelled");
        reveal_strlit("done");
        assert("cancelled"@.len() != "done"@.len());
    }
    match tally(rows, "cancelled", "done") {
        Ok((c, d, ids)) => Ok(TerminalTasks { cancelled: c, done: d, ids }),
        Err(e) => Err(e),
    }
}

/// Tallies terminal iteration rows `(id, status)` by status.
pub fn terminal_iterations_from_rows(rows: &Vec<(String, String)>) -> (r: Result<TerminalIterations, String>)
    ensures
        r is Ok <==> !some_bad_id(rows@),
        r matches Ok(t) ==> t.cancelled == count_status(rows@, "cancelled"@) && t.completed == count_status(
            rows@,
            "completed"@,
        ) && ids_decoded(rows@, t.ids@),
{
    proof {
        reveal_strlit("cancelled");
        reveal_strlit("completed");
        assert("cancelled"@[1] != "completed"@[1]);
    }
    match tally(rows, "cancelled", "completed") {
        Ok((c, d, ids)) => Ok(TerminalIterations { cancelled: c, completed: d, ids }),
        Err(e) => Err(e),
    }
}

/// Whether every row's status is one of the two.
pub open spec fn all_either(rows: Seq<(String, String)>, first: Seq<char>, second: Seq<char>) -> bool {
    forall|i: int| 0 <= i < rows.len() ==> (#[trigger] rows[i]).1@ == first || rows[i].1@ == second
}

/// Rows that each have one of two distinct statuses split between them.
proof fn lemma_count_split(rows: Seq<(String, String)>, first: Seq<char>, second: Seq<char>)
    requires
        first != second,
        all_either(rows, first, second),
    ensures
        count_status(rows, first) + count_status(rows, second) == rows.len(),
    decreases rows.len(),
{
    if rows.len() > 0 {
        let init = rows.drop_last();
        assert forall|i: int| 0 <= i < init.len() implies (#[trigger] init[i]).1@ == first || init[i].1@ == second by {
            assert(init[i] == rows[i]);
        }
        lemma_count_split(init, first, second);
        assert(rows[rows.len() - 1] == rows.last());
    }
}

/// Every row that `terminal_tasks_query` selects is done or cancelled; for
/// such rows every row is counted exactly once: the total is the number of ids.
pub proof fn law_terminal_tasks_total(rows: Seq<(String, String)>, t: TerminalTasks)
    requires
        all_either(rows, "cancelled"@, "done"@),
        t.cancelled == count_status(rows, "cancelled"@),
        t.done == count_status(rows, "done"@),
        ids_decoded(rows, t.ids@),
    ensures
        t.cancelled + t.done == t.ids.len(),
{
    reveal_strlit("cancelled");
    reveal_strlit("done");
    assert("cancelled"@.len() != "done"@.len());
    lemma_count_split(rows, "cancelled"@, "done"@);
}

/// Every row that `terminal_iterations_query` selects is completed or
/// cancelled; for such rows every row is counted exactly once: the total is
/// the number of ids.
pub proof fn law_terminal_iterations_total(rows: Seq<(String, String)>, t: TerminalIterations)
    requires
        all_either(rows, "cancelled"@, "completed"@),
        t.cancelled == count_status(rows, "cancelled"@),
        t.completed == count_status(rows, "completed"@),
        ids_decoded(rows, t.ids@),
    ensures
        t.cancelled + t.completed == t.ids.len(),
{
    reveal_strlit("cancelled");
    reveal_strlit("completed");
    assert("cancelled"@[1] != "completed"@[1]);
    lemma_count_split(rows, "cancelled"@, "completed"@);
}

/// Every row's text decodes to an id; `ids` are those ids in order.
pub open spec fn row_ids(rows: Seq<String>, ids: Seq<Id>) -> bool {
    &&& ids.len() == rows.len()
    &&& forall|i: int|
        0 <= i < rows.len() ==> spec_decode(vstd::utf8::encode_utf8(#[trigger] rows[i]@)) == Ok::<
            Seq<u8>,
            Seq<char>,
        >(ids[i]@)
}

/// Whether row `i` is the first whose text does not decode to an id, failing
/// with error `e`.
pub open spec fn first_bad_row(rows: Seq<String>, i: int, e: Seq<char>) -> bool {
    &&& 0 <= i < rows.len()
    &&& spec_decode(vstd::utf8::encode_utf8(rows[i]@)) == Err::<Seq<u8>, Seq<char>>(e)
    &&& forall|j: int| 0 <= j < i ==> spec_decode(vstd::utf8::encode_utf8(#[trigger] rows[j]@)) is Ok
}

/// Whether `e` is the error of the first row that does not decode to an id.
pub open spec fn fails_on_bad_row(rows: Seq<String>, e: Seq<char>) -> bool {
    exists|i: int| #[trigger] first_bad_row(rows, i, e)
}

/// Whether some row's text does not decode to an id.
pub open spec fn some_bad_row(rows: Seq<String>) -> bool {
    exists|i: int| 0 <= i < rows.len() && spec_decode(vstd::utf8::encode_utf8(#[trigger] rows[i]@)) is Err
}

/// Parses every row's id in order; fails with the error of the first row
/// that does not parse.
fn decode_rows(rows: &Vec<String>) -> (r: Result<Vec<Id>, String>)
    ensures
        r is Ok <==> !some_bad_row(rows@),
        r matches Ok(ids) ==> row_ids(rows@, ids@),
        r matches Err(e) ==> fails_on_bad_row(rows@, e@),
{
    let mut ids: Vec<Id> = Vec::new();
    let mut i: usize = 0;
    while i < rows.len()
        invariant
            0 <= i <= rows.len(),
            row_ids(rows@.take(i as int), ids@),
        decreases rows.len() - i,
    {
        let id = match Id::parse_str(rows[i].as_str()) {
            Ok(id) => id,
            Err(e) => {
                proof {
                    assert forall|j: int| 0 <= j < i implies spec_decode(
                        vstd::utf8::encode_utf8(#[trigger] rows@[j]@),
                    ) is Ok by {
                        assert(rows@.take(i as int)[j] == rows@[j]);
                    }
                    assert(first_bad_row(rows@, i as int, e@));
                    assert(fails_on_bad_row(rows@, e@));
                }
                return Err(e);
            },
        };
        ids.push(id);
        proof {
            assert forall|k: int| 0 <= k < i + 1 implies spec_decode(
                vstd::utf8::encode_utf8(#[trigger] rows@.take(i + 1)[k]@),
            ) == Ok::<Seq<u8>, Seq<char>>(ids@[k]@) by {
                if k < i {
                    assert(rows@.take(i + 1)[k] == rows@.take(i as int)[k]);
                }
            }
        }
        i = i + 1;
    }
    assert(rows@.take(rows.len() as int) =~= rows@);
    proof {
        if some_bad_row(rows@) {
            let j = choose|j: int| 0 <= j < rows@.len() && spec_decode(vstd::utf8::encode_utf8(#[trigger] rows@[j]@)) is Err;
            assert(spec_decode(vstd::utf8::encode_utf8(rows@[j]@)) is Ok);
        }
    }
    Ok(ids)
}

/// Collects archived artifact rows (one id per row).
pub fn archived_artifacts_from_rows(rows: &Vec<String>) -> (r: Result<ArchivedArtifacts, String>)
    ensures
        r is Ok <==> !some_bad_row(rows@),
        r matches Ok(a) ==> a.count == rows.len() && row_ids(rows@, a.ids@),
        r matches Err(e) ==> fails_on_bad_row(rows@, e@),
{
    match decode_rows(rows) {
        Ok(ids) => Ok(ArchivedArtifacts { count: ids.len(), ids }),
        Err(e) => Err(e),
    }
}

/// Collects archived project rows (one id per row).
pub fn archived_projects_from_rows(rows: &Vec<String>) -> (r: Result<ArchivedProjects, String>)
    ensures
        r is Ok <==> !some_bad_row(rows@),
        r matches Ok(a) ==> a.count == rows.len() && row_ids(rows@, a.ids@),
        r matches Err(e) ==> fails_on_bad_row(rows@, e@),
{
    match decode_rows(rows) {
        Ok(ids) => Ok(ArchivedProjects { count: ids.len(), ids }),
        Err(e) => Err(e),
    }
}

/// Collects dangling relationship rows (one id per row).
pub fn dangling_relationships_from_rows(rows: &Vec<String>) -> (r: Result<DanglingRelationships, String>)
    ensures
        r is Ok <==> !some_bad_row(rows@),
        r matches Ok(a) ==> a.count == rows.len() && row_ids(rows@, a.ids@),
        r matches Err(e) ==> fails_on_bad_row(rows@, e@),
{
    match decode_rows(rows) {
        Ok(ids) => Ok(DanglingRelationships { count: ids.len(), ids }),
        Err(e) => Err(e),
    }
}

/// Whether a project lies in the scope of a purge.
pub open spec fn in_scope(scope: Scope, project: Id) -> bool {
    match scope {
        Scope::AllProjects => true,
        Scope::Project(p) => p@ == project@,
    }
}

/// The directories of the projects in scope, in order.
pub open spec fn scoped_dirs(scope: Scope, dirs: Seq<(Id, String)>) -> Seq<Seq<char>>
    decreases dirs.len(),
{
    if dirs.len() == 0 {
        Seq::empty()
    } else if in_scope(scope, dirs.last().0) {
        scoped_dirs(scope, dirs.drop_last()).push(dirs.last().1@)
    } else {
        scoped_dirs(scope, dirs.drop_last())
    }
}

/// The `.gest` directories a tombstone scan visits: every one for all
/// projects, else only those of the chosen project.
pub fn scope_dirs(scope: &Scope, dirs: &Vec<(Id, String)>) -> (r: Vec<String>)
    ensures
        strs(r@) == scoped_dirs(*scope, dirs@),
{
    let mut out: Vec<String> = Vec::new();
    let mut i: usize = 0;
    while i < dirs.len()
        invariant
            0 <= i <= dirs.len(),
            strs(out@) == scoped_dirs(*scope, dirs@.take(i as int)),
        decreases dirs.len() - i,
    {
        let keep = match scope {
            Scope::AllProjects => true,
            Scope::Project(p) => *p == dirs[i].0,
        };
        proof {
            assert(dirs@.take(i + 1).drop_last() =~= dirs@.take(i as int));
        }
        if keep {
            let ghost before = out@;
            out.push(dirs[i].1.clone());
            assert(strs(out@) =~= strs(before).push(dirs@[i as int].1@));
        }
        i = i + 1;
    }
    assert(dirs@.take(dirs.len() as int) =~= dirs@);
    out
}

/// Position of the last `.` in `s`.
pub open spec fn last_dot(s: Seq<char>) -> Option<int>
    decreases s.len(),
{
    if s.len() == 0 {
        None
    } else if s.last() == '.' {
        Some(s.len() - 1)
    } else {
        last_dot(s.drop_last())
    }
}

/// Where a file name splits into stem and extension: at its last dot, unless
/// that dot starts the name or the name is `..`.
pub open spec fn extension_dot(name: Seq<char>) -> Option<int> {
    if name == ".."@ {
        None
    } else {
        match last_dot(name) {
            Some(k) => if k > 0 {
                Some(k)
            } else {
                None
            },
            None => None,
        }
    }
}

/// The extension of a file name (`Path::extension`).
pub open spec fn file_extension(name: Seq<char>) -> Option<Seq<char>> {
    match extension_dot(name) {
        Some(k) => Some(name.skip(k + 1)),
        None => None,
    }
}

/// The stem of a file name (`Path::file_stem`).
pub open spec fn file_stem(name: Seq<char>) -> Seq<char> {
    match extension_dot(name) {
        Some(k) => name.take(k),
        None => name,
    }
}

/// Position of the last `.` in `s`.
fn find_last_dot(s: &Vec<char>) -> (r: Option<usize>)
    ensures
        match r {
            Some(k) => last_dot(s@) == Some(k as int) && k < s.len(),
            None => last_dot(s@) is None,
        },
{
    let mut j: usize = s.len();
    assert(s@.take(j as int) =~= s@);
    while j > 0
        invariant
            j <= s.len(),
            last_dot(s@) == last_dot(s@.take(j as int)),
        decreases j,
    {
        assert(s@.take(j as int).drop_last() =~= s@.take(j - 1));
        if s[j - 1] == '.' {
            return Some(j - 1);
        }
        j = j - 1;
    }
    None
}

/// Splits a file name into its stem and its extension, as a path does.
pub fn split_file_name(name: &str) -> (r: (String, Option<String>))
    ensures
        r.0@ == file_stem(name@),
        match r.1 {
            Some(e) => file_extension(name@) == Some(e@),
            None => file_extension(name@) is None,
        },
{
    let cs = chars_of(name);
    if same_str(name, "..") {
        return (string_of(&cs), None);
    }
    match find_last_dot(&cs) {
        Some(k) => if k > 0 {
            let stem = subvec(&cs, 0, k);
            let ext = subvec(&cs, k + 1, cs.len());
            assert(stem@ =~= name@.take(k as int));
            assert(ext@ =~= name@.skip(k + 1));
            (string_of(&stem), Some(string_of(&ext)))
        } else {
            (string_of(&cs), None)
        },
        None => (string_of(&cs), None),
    }
}

/// The id a file stands for as a tombstone: the file has the given
/// extension, its text mentions `deleted_at`, and its stem is an id.
pub open spec fn tombstone_of(name: Seq<char>, extension: Seq<char>, raw: Seq<char>) -> Option<Seq<u8>> {
    if file_extension(name) == Some(extension) && mentions(raw, "deleted_at"@) {
        match spec_decode(vstd::utf8::encode_utf8(file_stem(name))) {
            Ok(b) => Some(b),
            Err(_) => None,
        }
    } else {
        None
    }
}

/// The id of a tombstone file, if the file is one.
fn tombstone_id(file_name: &str, extension: &str, raw: &str) -> (r: Option<Id>)
    ensures
        match r {
            Some(id) => tombstone_of(file_name@, extension@, raw@) == Some(id@),
            None => tombstone_of(file_name@, extension@, raw@) is None,
        },
{
    let (stem, ext) = split_file_name(file_name);
    let ext_ok = match &ext {
        Some(e) => same_str(e.as_str(), extension),
        None => false,
    };
    if !ext_ok || !contains_str(raw, "deleted_at") {
        return None;
    }
    match Id::parse_str(stem.as_str()) {
        Ok(id) => Some(id),
        Err(_) => None,
    }
}

/// Whether a file sits in the notes directory and so is never a task or
/// iteration tombstone.
pub open spec fn in_notes_dir(parent_name: Option<Seq<char>>, notes_dir: Seq<char>) -> bool {
    parent_name == Some(notes_dir)
}

/// The id a task or iteration file stands for as a tombstone: a `.yaml` file
/// outside the notes directory whose text mentions `deleted_at` and whose
/// stem is an id.
pub fn yaml_tombstone_id(file_name: &str, parent_name: Option<&str>, notes_dir: &str, raw: &str) -> (r: Option<Id>)
    ensures
        ({
            let parent = match parent_name {
                Some(p) => Some(p@),
                None => None,
            };
            match r {
                Some(id) => !in_notes_dir(parent, notes_dir@) && tombstone_of(file_name@, "yaml"@, raw@)
                    == Some(id@),
                None => in_notes_dir(parent, notes_dir@) || tombstone_of(file_name@, "yaml"@, raw@) is None,
            }
        }),
{
    let skip = match parent_name {
        Some(p) => same_str(p, notes_dir),
        None => false,
    };
    if skip {
        return None;
    }
    tombstone_id(file_name, "yaml", raw)
}

/// The id an artifact file stands for as a tombstone: a `.md` file whose text
/// mentions `deleted_at` and whose stem is an id.
pub fn artifact_tombstone_id(file_name: &str, raw: &str) -> (r: Option<Id>)
    ensures
        match r {
            Some(id) => tombstone_of(file_name@, "md"@, raw@) == Some(id@),
            None => tombstone_of(file_name@, "md"@, raw@) is None,
        },
{
    tombstone_id(file_name, "md", raw)
}

impl OrphanTombstones {
    /// Records a tombstone file: it is an orphan only when its entity has no
    /// row left.
    pub fn record(&mut self, path: String, row_exists: bool)
        requires
            !row_exists ==> old(self).count < usize::MAX,
        ensures
            row_exists ==> final(self).count == old(self).count && final(self).paths@ == old(self).paths@,
            !row_exists ==> final(self).count == old(self).count + 1 && final(self).paths@ == old(
                self,
            ).paths@.push(path),
    {
        if !row_exists {
            self.paths.push(path);
            self.count = self.count + 1;
        }
    }
}

} // verus!
