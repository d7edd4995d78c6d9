//! Metadata trees addressed by dot-delimited key paths.

use vstd::prelude::*;

use crate::text::{
    chars_of, float_text, is_float_text, lemma_split_append, lemma_split_nonempty, lemma_split_plain, string_of, parse_i64, same_str, spec_parse_i64, split_char,
    split_on, strs,
};

verus! {

/// A metadata value: a scalar, a list, or a table of keyed values.
#[derive(Debug, PartialEq)]
pub enum Meta {
    Null,
    Bool(bool),
    Integer(i64),
    /// A floating-point number, held by the text it was written as.
    Float(String),
    Text(String),
    /// Any other scalar (such as a date), held by its text.
    Other(String),
    List(Vec<Meta>),
    Table(Vec<(String, Meta)>),
}

/// The position of the first entry with key `k`.
pub open spec fn key_index(entries: Seq<(String, Meta)>, k: Seq<char>, i: int) -> bool {
    &&& 0 <= i < entries.len()
    &&& entries[i].0@ == k
    &&& forall|j: int| 0 <= j < i ==> (#[trigger] entries[j]).0@ != k
}

/// The value under key `k`, if any.
pub open spec fn lookup(entries: Seq<(String, Meta)>, k: Seq<char>) -> Option<Meta> {
    if exists|i: int| key_index(entries, k, i) {
        Some(entries[choose|i: int| key_index(entries, k, i)].1)
    } else {
        None
    }
}

/// The value at a path of keys below `m`.
pub open spec fn get_path(m: Meta, path: Seq<Seq<char>>) -> Option<Meta>
    decreases path.len(),
{
    if path.len() == 0 {
        Some(m)
    } else {
        match m {
            Meta::Table(entries) => match lookup(entries@, path[0]) {
                Some(child) => get_path(child, path.drop_first()),
                None => None,
            },
            _ => None,
        }
    }
}


/// Whether `p` and `q` differ at some position that both have.
pub open spec fn diverge(p: Seq<Seq<char>>, q: Seq<Seq<char>>) -> bool {
    exists|j: int| 0 <= j < p.len() && j < q.len() && p[j] != q[j]
}

/// Find the first entry with key `k`.
fn find_key(entries: &Vec<(String, Meta)>, k: &str) -> (r: Option<usize>)
    ensures
        match r {
            Some(i) => key_index(entries@, k@, i as int),
            None => forall|j: int| 0 <= j < entries@.len() ==> (#[trigger] entries@[j]).0@ != k@,
        },
{
    let mut i: usize = 0;
    while i < entries.len()
        invariant
            0 <= i <= entries.len(),
            forall|j: int| 0 <= j < i ==> (#[trigger] entries@[j]).0@ != k@,
        decreases entries.len() - i,
    {
        if same_str(entries[i].0.as_str(), k) {
            return Some(i);
        }
        i = i + 1;
    }
    None
}

proof fn lemma_key_index_unique(entries: Seq<(String, Meta)>, k: Seq<char>, i: int)
    requires
        key_index(entries, k, i),
    ensures
        lookup(entries, k) == Some(entries[i].1),
{
    let j = choose|j: int| key_index(entries, k, j);
    assert(key_index(entries, k, j));
    if j < i {
        assert(entries[j].0@ != k);
    } else if j > i {
        assert(entries[i].0@ != k);
    }
}

proof fn lemma_lookup_absent(entries: Seq<(String, Meta)>, k: Seq<char>)
    requires
        forall|j: int| 0 <= j < entries.len() ==> (#[trigger] entries[j]).0@ != k,
    ensures
        lookup(entries, k) is None,
{
    if exists|i: int| key_index(entries, k, i) {
        let i = choose|i: int| key_index(entries, k, i);
        assert(entries[i].0@ == k);
    }
}

/// An entry with key `k` means there is a first one.
proof fn lemma_first_key(entries: Seq<(String, Meta)>, k: Seq<char>, j: int)
    requires
        0 <= j < entries.len(),
        entries[j].0@ == k,
    ensures
        exists|i: int| key_index(entries, k, i),
    decreases j,
{
    if forall|n: int| 0 <= n < j ==> (#[trigger] entries[n]).0@ != k {
        assert(key_index(entries, k, j));
    } else {
        let n = choose|n: int| 0 <= n < j && (#[trigger] entries[n]).0@ == k;
        lemma_first_key(entries, k, n);
    }
}

/// No first entry with key `k` means no entry with key `k` at all.
proof fn lemma_lookup_absent_iff(entries: Seq<(String, Meta)>, k: Seq<char>)
    requires
        !(exists|i: int| key_index(entries, k, i)),
    ensures
        forall|j: int| 0 <= j < entries.len() ==> (#[trigger] entries[j]).0@ != k,
        lookup(entries, k) is None,
{
    assert forall|j: int| 0 <= j < entries.len() implies (#[trigger] entries[j]).0@ != k by {
        if entries[j].0@ == k {
            lemma_first_key(entries, k, j);
        }
    }
}

/// Replacing the value of the first entry with key `k` (keeping the key)
/// changes what `k` looks up to and nothing else.
proof fn lemma_lookup_update(entries: Seq<(String, Meta)>, i: int, key: String, v: Meta, q: Seq<char>)
    requires
        key_index(entries, key@, i),
    ensures
        lookup(entries.update(i, (key, v)), q) == if q == key@ {
            Some(v)
        } else {
            lookup(entries, q)
        },
{
    let e2 = entries.update(i, (key, v));
    if q == key@ {
        assert(key_index(e2, q, i));
        lemma_key_index_unique(e2, q, i);
    } else {
        if exists|m: int| key_index(entries, q, m) {
            let m = choose|m: int| key_index(entries, q, m);
            assert(key_index(entries, q, m));
            assert(m != i);
            assert(key_index(e2, q, m));
            lemma_key_index_unique(e2, q, m);
            lemma_key_index_unique(entries, q, m);
        } else {
            assert forall|j: int| 0 <= j < e2.len() implies (#[trigger] e2[j]).0@ != q by {
                if e2[j].0@ == q {
                    assert(entries[j].0@ == q);
                    lemma_first_key(entries, q, j);
                }
            }
            lemma_lookup_absent(e2, q);
            lemma_lookup_absent_iff(entries, q);
        }
    }
}


/// Appending an entry under a key that no entry has makes the key look up
/// to the new value and changes nothing else.
proof fn lemma_lookup_push(entries: Seq<(String, Meta)>, key: String, v: Meta, q: Seq<char>)
    requires
        forall|j: int| 0 <= j < entries.len() ==> (#[trigger] entries[j]).0@ != key@,
    ensures
        lookup(entries.push((key, v)), q) == if q == key@ {
            Some(v)
        } else {
            lookup(entries, q)
        },
{
    let e2 = entries.push((key, v));
    if q == key@ {
        assert(key_index(e2, q, entries.len() as int));
        lemma_key_index_unique(e2, q, entries.len() as int);
    } else if exists|m: int| key_index(entries, q, m) {
        let m = choose|m: int| key_index(entries, q, m);
        assert(key_index(e2, q, m));
        lemma_key_index_unique(e2, q, m);
        lemma_key_index_unique(entries, q, m);
    } else {
        lemma_lookup_absent_iff(entries, q);
        assert forall|j: int| 0 <= j < e2.len() implies (#[trigger] e2[j]).0@ != q by {
            if j < entries.len() {
                assert(e2[j] == entries[j]);
            }
        }
        lemma_lookup_absent(e2, q);
    }
}

/// A path into a table goes through the entry of its first key.
proof fn lemma_get_table(entries: Vec<(String, Meta)>, q: Seq<Seq<char>>)
    requires
        q.len() > 0,
    ensures
        get_path(Meta::Table(entries), q) == match lookup(entries@, q[0]) {
            Some(child) => get_path(child, q.drop_first()),
            None => None,
        },
{
}

/// Insert a key-value pair, replacing the value of an existing entry with
/// that key (in place) or appending a new entry.
pub fn insert_key(entries: Vec<(String, Meta)>, key: String, value: Meta) -> (r: Vec<(String, Meta)>)
    ensures
        forall|q: Seq<char>| #[trigger] lookup(r@, q) == if q == key@ {
            Some(value)
        } else {
            lookup(entries@, q)
        },
{
    let mut entries = entries;
    let ghost old_entries = entries@;
    match find_key(&entries, key.as_str()) {
        Some(j) => {
            let ghost k0 = entries@[j as int].0;
            let (k, _old) = entries.remove(j);
            entries.insert(j, (k, value));
            proof {
                assert(entries@ =~= old_entries.update(j as int, (k0, value)));
                assert forall|q: Seq<char>| #[trigger] lookup(entries@, q) == if q == key@ {
                    Some(value)
                } else {
                    lookup(old_entries, q)
                } by {
                    lemma_lookup_update(old_entries, j as int, k0, value, q);
                }
            }
            entries
        },
        None => {
            let ghost kv = key@;
            entries.push((key, value));
            proof {
                assert forall|q: Seq<char>| #[trigger] lookup(entries@, q) == if q == kv {
                    Some(value)
                } else {
                    lookup(old_entries, q)
                } by {
                    lemma_lookup_push(old_entries, entries@.last().0, value, q);
                }
            }
            entries
        },
    }
}

/// The path of segments from position `i` on.
pub open spec fn path_from(segs: Seq<String>, i: int) -> Seq<Seq<char>> {
    strs(segs).skip(i)
}

/// Recursively descend into (or create) nested tables and insert the value
/// at the final segment; a non-table met on the way is replaced by a table.
pub fn set_nested(entries: Vec<(String, Meta)>, segs: &Vec<String>, i: usize, value: Meta) -> (r: Vec<(String, Meta)>)
    requires
        i < segs.len(),
    ensures
        get_path(Meta::Table(r), path_from(segs@, i as int)) == Some(value),
        forall|q: Seq<Seq<char>>|
            diverge(path_from(segs@, i as int), q) ==> #[trigger] get_path(Meta::Table(r), q) == get_path(
                Meta::Table(entries),
                q,
            ),
    decreases segs.len() - i,
{
    let ghost p = path_from(segs@, i as int);
    let ghost old_entries = entries;
    assert(p[0] == segs@[i as int]@);
    let key = segs[i].clone();
    if i + 1 == segs.len() {
        let r = insert_key(entries, key, value);
        proof {
            assert(p.drop_first().len() == 0);
            lemma_get_table(r, p);
            assert forall|q: Seq<Seq<char>>|
                diverge(p, q) implies #[trigger] get_path(Meta::Table(r), q) == get_path(
                    Meta::Table(old_entries),
                    q,
                ) by {
                let j = choose|j: int| 0 <= j < p.len() && j < q.len() && p[j] != q[j];
                assert(j == 0);
                lemma_get_table(r, q);
                lemma_get_table(old_entries, q);
                assert(lookup(r@, q[0]) == lookup(old_entries@, q[0]));
            }
        }
        return r;
    }
    let mut entries = entries;
    let ghost p_rest = path_from(segs@, i + 1);
    assert(p_rest =~= p.drop_first());
    match find_key(&entries, key.as_str()) {
        Some(j) => {
            let ghost k0 = entries@[j as int].0;
            let ghost child0 = entries@[j as int].1;
            let (k, child) = entries.remove(j);
            let inner: Vec<(String, Meta)> = match child {
                Meta::Table(t) => t,
                _ => Vec::new(),
            };
            let ghost inner0 = inner;
            let new_inner = set_nested(inner, segs, i + 1, value);
            let ghost new_child = Meta::Table(new_inner);
            entries.insert(j, (k, Meta::Table(new_inner)));
            proof {
                assert(entries@ =~= old_entries@.update(j as int, (k0, new_child)));
                assert(lookup(old_entries@, p[0]) == Some(child0)) by {
                    lemma_key_index_unique(old_entries@, p[0], j as int);
                }
                lemma_lookup_update(old_entries@, j as int, k0, new_child, p[0]);
                lemma_get_table(entries, p);
                assert forall|q: Seq<Seq<char>>|
                    diverge(p, q) implies #[trigger] get_path(Meta::Table(entries), q) == get_path(
                        Meta::Table(old_entries),
                        q,
                    ) by {
                    lemma_get_table(entries, q);
                    lemma_get_table(old_entries, q);
                    lemma_lookup_update(old_entries@, j as int, k0, new_child, q[0]);
                    if q[0] == p[0] {
                        let jj = choose|jj: int| 0 <= jj < p.len() && jj < q.len() && p[jj] != q[jj];
                        assert(jj >= 1);
                        assert(diverge(p_rest, q.drop_first())) by {
                            assert(p_rest[jj - 1] == p[jj]);
                            assert(q.drop_first()[jj - 1] == q[jj]);
                        }
                        assert(get_path(new_child, q.drop_first()) == get_path(Meta::Table(inner0), q.drop_first()));
                        lemma_get_table(inner0, q.drop_first());
                        if !(child0 is Table) {
                            assert(inner0@.len() == 0);
                            lemma_lookup_absent(inner0@, q.drop_first()[0]);
                        }
                    }
                }
            }
            entries
        },
        None => {
            let e: Vec<(String, Meta)> = Vec::new();
            let ghost empty = e;
            let new_inner = set_nested(e, segs, i + 1, value);
            let ghost new_child = Meta::Table(new_inner);
            let ghost kv = key@;
            entries.push((key, Meta::Table(new_inner)));
            proof {
                lemma_lookup_push(old_entries@, entries@.last().0, new_child, p[0]);
                lemma_get_table(entries, p);
                assert forall|q: Seq<Seq<char>>|
                    diverge(p, q) implies #[trigger] get_path(Meta::Table(entries), q) == get_path(
                        Meta::Table(old_entries),
                        q,
                    ) by {
                    lemma_get_table(entries, q);
                    lemma_get_table(old_entries, q);
                    lemma_lookup_push(old_entries@, entries@.last().0, new_child, q[0]);
                    if q[0] == p[0] {
                        let jj = choose|jj: int| 0 <= jj < p.len() && jj < q.len() && p[jj] != q[jj];
                        assert(jj >= 1);
                        assert(diverge(p_rest, q.drop_first())) by {
                            assert(p_rest[jj - 1] == p[jj]);
                            assert(q.drop_first()[jj - 1] == q[jj]);
                        }
                        lemma_get_table(empty, q.drop_first());
                        lemma_lookup_absent(empty@, q.drop_first()[0]);
                        lemma_lookup_absent(old_entries@, q[0]);
                    }
                }
            }
            entries
        },
    }
}

/// The most segments a key path may have.
pub const MAX_DEPTH: usize = 32;

/// The document formats whose scalars are read from text.
#[derive(Clone, Copy, Debug, PartialEq, Eq, Structural)]
pub enum MetaFormat {
    Toml,
    Yaml,
}

/// The kind of scalar a piece of text reads as.
#[derive(Clone, Copy, Debug, PartialEq, Eq, Structural)]
pub enum Scalar {
    Null,
    Bool(bool),
    Integer(i64),
    Float,
    Text,
}

/// `s` spells the word `w` exactly.
pub open spec fn is_word(s: Seq<char>, w: Seq<char>) -> bool {
    s == w
}

/// How a TOML or YAML document reads a scalar from text: an `i64` if it
/// parses as one, else a float if it parses as one, else `true` / `false`
/// (and, in YAML, `null`), else a string.
pub open spec fn scalar_kind(format: MetaFormat, s: Seq<char>) -> Scalar {
    if spec_parse_i64(s) is Some {
        Scalar::Integer(spec_parse_i64(s).unwrap())
    } else if is_float_text(s) {
        Scalar::Float
    } else if s == seq!['t', 'r', 'u', 'e'] {
        Scalar::Bool(true)
    } else if s == seq!['f', 'a', 'l', 's', 'e'] {
        Scalar::Bool(false)
    } else if format == MetaFormat::Yaml && s == seq!['n', 'u', 'l', 'l'] {
        Scalar::Null
    } else {
        Scalar::Text
    }
}

/// How a JSON document reads a scalar from text: `true` / `false`, else an
/// `i64`, else a float if the text reads as a finite one, else a string.
/// `finite` is whether the text, read as a float, is finite.
pub open spec fn json_scalar_kind(s: Seq<char>, finite: bool) -> Scalar {
    if s == seq!['t', 'r', 'u', 'e'] {
        Scalar::Bool(true)
    } else if s == seq!['f', 'a', 'l', 's', 'e'] {
        Scalar::Bool(false)
    } else if spec_parse_i64(s) is Some {
        Scalar::Integer(spec_parse_i64(s).unwrap())
    } else if is_float_text(s) && finite {
        Scalar::Float
    } else {
        Scalar::Text
    }
}

/// `m` is the value of kind `k` read from the text `s`.
pub open spec fn is_scalar(m: Meta, k: Scalar, s: Seq<char>) -> bool {
    match k {
        Scalar::Null => m is Null,
        Scalar::Bool(b) => m == Meta::Bool(b),
        Scalar::Integer(n) => m == Meta::Integer(n),
        Scalar::Float => m matches Meta::Float(t) && t@ == s,
        Scalar::Text => m matches Meta::Text(t) && t@ == s,
    }
}

/// Whether `s` spells the given word.
fn is_literal(s: &str, w: &str) -> (r: bool)
    ensures
        r == (s@ == w@),
{
    same_str(s, w)
}

/// Builds the value of kind `k` read from `s`.
fn scalar_value(k: Scalar, s: &str) -> (r: Meta)
    ensures
        is_scalar(r, k, s@),
{
    match k {
        Scalar::Null => Meta::Null,
        Scalar::Bool(b) => Meta::Bool(b),
        Scalar::Integer(n) => Meta::Integer(n),
        Scalar::Float => Meta::Float(s.to_string()),
        Scalar::Text => Meta::Text(s.to_string()),
    }
}

/// Reads a scalar from text the way the given document format does.
pub fn parse_scalar(format: MetaFormat, s: &str) -> (r: Meta)
    ensures
        is_scalar(r, scalar_kind(format, s@), s@),
{
    proof {
        reveal_strlit("true");
        reveal_strlit("false");
        reveal_strlit("null");
        assert("true"@ =~= seq!['t', 'r', 'u', 'e']);
        assert("false"@ =~= seq!['f', 'a', 'l', 's', 'e']);
        assert("null"@ =~= seq!['n', 'u', 'l', 'l']);
    }
    let k = if let Some(n) = parse_i64(s) {
        Scalar::Integer(n)
    } else if float_text(s) {
        Scalar::Float
    } else if is_literal(s, "true") {
        Scalar::Bool(true)
    } else if is_literal(s, "false") {
        Scalar::Bool(false)
    } else if format == MetaFormat::Yaml && is_literal(s, "null") {
        Scalar::Null
    } else {
        Scalar::Text
    };
    scalar_value(k, s)
}

/// Reads a scalar from text the way a JSON document does; `finite` says
/// whether the text, read as a float, is finite.
pub fn parse_json_scalar(s: &str, finite: bool) -> (r: Meta)
    ensures
        is_scalar(r, json_scalar_kind(s@, finite), s@),
{
    proof {
        reveal_strlit("true");
        reveal_strlit("false");
        assert("true"@ =~= seq!['t', 'r', 'u', 'e']);
        assert("false"@ =~= seq!['f', 'a', 'l', 's', 'e']);
    }
    let k = if is_literal(s, "true") {
        Scalar::Bool(true)
    } else if is_literal(s, "false") {
        Scalar::Bool(false)
    } else if let Some(n) = parse_i64(s) {
        Scalar::Integer(n)
    } else if finite && float_text(s) {
        Scalar::Float
    } else {
        Scalar::Text
    };
    scalar_value(k, s)
}

/// The segments of a dot-delimited key path.
pub open spec fn dot_path(path: Seq<char>) -> Seq<Seq<char>> {
    split_on(path, '.')
}

/// One step down a path: the value under a table's key.
proof fn lemma_get_step(m: Meta, p: Seq<Seq<char>>, i: int)
    requires
        0 <= i < p.len(),
        m is Table,
    ensures
        get_path(m, p.skip(i)) == match lookup(m->Table_0@, p[i]) {
            Some(child) => get_path(child, p.skip(i + 1)),
            None => None,
        },
{
    assert(p.skip(i).drop_first() =~= p.skip(i + 1));
}

/// Walks a dot-delimited path through nested tables, returning the value at
/// its end.
pub fn resolve_dot_path<'a>(root: &'a Meta, path: &str) -> (r: Option<&'a Meta>)
    ensures
        r is Some <==> get_path(*root, dot_path(path@)) is Some,
        r is Some ==> get_path(*root, dot_path(path@)) == Some(*r.unwrap()),
{
    let segs = split_char(path, '.');
    let ghost p = dot_path(path@);
    let mut cur: &Meta = root;
    let mut i: usize = 0;
    assert(p.skip(0) =~= p);
    while i < segs.len()
        invariant
            0 <= i <= segs.len(),
            strs(segs@) == p,
            p == dot_path(path@),
            get_path(*root, p) == get_path(*cur, p.skip(i as int)),
        decreases segs.len() - i,
    {
        assert(strs(segs@)[i as int] == segs@[i as int]@);
        match cur {
            Meta::Table(entries) => {
                proof {
                    lemma_get_step(*cur, p, i as int);
                }
                match find_key(entries, segs[i].as_str()) {
                    Some(j) => {
                        proof {
                            lemma_key_index_unique(entries@, p[i as int], j as int);
                        }
                        cur = &entries[j].1;
                    },
                    None => {
                        proof {
                            lemma_lookup_absent(entries@, p[i as int]);
                            assert(get_path(*root, p) is None);
                        }
                        return None;
                    },
                }
            },
            _ => {
                assert(p.skip(i as int).len() > 0);
                assert(get_path(*root, p) is None);
                return None;
            },
        }
        i = i + 1;
    }
    assert(p.skip(i as int).len() == 0);
    Some(cur)
}

/// Walks a dot-delimited path through nested objects, returning the value at
/// its end (the same walk as `resolve_dot_path`).
pub fn resolve_path<'a>(root: &'a Meta, path: &str) -> (r: Option<&'a Meta>)
    ensures
        match r {
            Some(v) => get_path(*root, dot_path(path@)) == Some(*v),
            None => get_path(*root, dot_path(path@)) is None,
        },
{
    resolve_dot_path(root, path)
}

/// Appending an entry changes only what an absent key looks up to.
proof fn lemma_lookup_append(s: Seq<(String, Meta)>, e: (String, Meta), q: Seq<char>)
    ensures
        lookup(s.push(e), q) == match lookup(s, q) {
            Some(v) => Some(v),
            None => if e.0@ == q {
                Some(e.1)
            } else {
                None
            },
        },
{
    let s2 = s.push(e);
    if exists|i: int| key_index(s, q, i) {
        let i = choose|i: int| key_index(s, q, i);
        assert(key_index(s2, q, i));
        lemma_key_index_unique(s2, q, i);
        lemma_key_index_unique(s, q, i);
    } else {
        lemma_lookup_absent_iff(s, q);
        if e.0@ == q {
            assert(key_index(s2, q, s.len() as int));
            lemma_key_index_unique(s2, q, s.len() as int);
        } else {
            assert forall|j: int| 0 <= j < s2.len() implies (#[trigger] s2[j]).0@ != q by {
                if j < s.len() {
                    assert(s2[j] == s[j]);
                }
            }
            lemma_lookup_absent(s2, q);
        }
    }
}

/// Removes every entry with key `k`.
fn remove_key(entries: Vec<(String, Meta)>, k: &str) -> (r: Vec<(String, Meta)>)
    ensures
        forall|q: Seq<char>| #[trigger] lookup(r@, q) == if q == k@ {
            None
        } else {
            lookup(entries@, q)
        },
{
    let ghost all = entries@;
    let mut rest = entries;
    let mut out: Vec<(String, Meta)> = Vec::new();
    let ghost mut taken: int = 0;
    assert(all.take(0) =~= Seq::<(String, Meta)>::empty());
    assert(rest@ =~= all.skip(0));
    while rest.len() > 0
        invariant
            0 <= taken <= all.len(),
            rest@ == all.skip(taken),
            forall|q: Seq<char>| #[trigger] lookup(out@, q) == if q == k@ {
                None
            } else {
                lookup(all.take(taken), q)
            },
        decreases rest.len(),
    {
        let e = rest.remove(0);
        proof {
            assert(e == all[taken]);
            assert(all.take(taken + 1) =~= all.take(taken).push(e));
            assert(rest@ =~= all.skip(taken + 1));
        }
        let ghost before = out@;
        if !same_str(e.0.as_str(), k) {
            out.push(e);
        }
        proof {
            assert forall|q: Seq<char>| #[trigger] lookup(out@, q) == if q == k@ {
                None
            } else {
                lookup(all.take(taken + 1), q)
            } by {
                lemma_lookup_append(all.take(taken), e, q);
                if e.0@ != k@ {
                    lemma_lookup_append(before, e, q);
                }
            }
            taken = taken + 1;
        }
    }
    assert(all.take(taken) =~= all);
    out
}

/// Removes the value at the end of the path from position `i` on, where one
/// is there.
fn unset_nested(entries: Vec<(String, Meta)>, segs: &Vec<String>, i: usize) -> (r: Vec<(String, Meta)>)
    requires
        i < segs.len(),
        get_path(Meta::Table(entries), path_from(segs@, i as int)) is Some,
    ensures
        get_path(Meta::Table(r), path_from(segs@, i as int)) is None,
        forall|q: Seq<Seq<char>>|
            diverge(path_from(segs@, i as int), q) ==> #[trigger] get_path(Meta::Table(r), q) == get_path(
                Meta::Table(entries),
                q,
            ),
    decreases segs.len() - i,
{
    let ghost p = path_from(segs@, i as int);
    let ghost old_entries = entries;
    assert(p[0] == segs@[i as int]@);
    proof {
        lemma_get_table(old_entries, p);
    }
    if i + 1 == segs.len() {
        let r = remove_key(entries, segs[i].as_str());
        proof {
            lemma_get_table(r, p);
            assert forall|q: Seq<Seq<char>>|
                diverge(p, q) implies #[trigger] get_path(Meta::Table(r), q) == get_path(
                    Meta::Table(old_entries),
                    q,
                ) by {
                let j = choose|j: int| 0 <= j < p.len() && j < q.len() && p[j] != q[j];
                assert(j == 0);
                lemma_get_table(r, q);
                lemma_get_table(old_entries, q);
            }
        }
        return r;
    }
    let mut entries = entries;
    let ghost p_rest = path_from(segs@, i + 1);
    assert(p_rest =~= p.drop_first());
    let j = match find_key(&entries, segs[i].as_str()) {
        Some(j) => j,
        None => {
            proof {
                lemma_lookup_absent(old_entries@, p[0]);
            }
            return entries;
        },
    };
    proof {
        lemma_key_index_unique(old_entries@, p[0], j as int);
    }
    let ghost k0 = entries@[j as int].0;
    let (k, child) = entries.remove(j);
    let inner = match child {
        Meta::Table(t) => t,
        _ => {
            return entries;
        },
    };
    let ghost inner0 = inner;
    let new_inner = unset_nested(inner, segs, i + 1);
    let ghost new_child = Meta::Table(new_inner);
    entries.insert(j, (k, Meta::Table(new_inner)));
    proof {
        assert(entries@ =~= old_entries@.update(j as int, (k0, new_child)));
        lemma_lookup_update(old_entries@, j as int, k0, new_child, p[0]);
        lemma_get_table(entries, p);
        assert forall|q: Seq<Seq<char>>|
            diverge(p, q) implies #[trigger] get_path(Meta::Table(entries), q) == get_path(
                Meta::Table(old_entries),
                q,
            ) by {
            lemma_get_table(entries, q);
            lemma_get_table(old_entries, q);
            lemma_lookup_update(old_entries@, j as int, k0, new_child, q[0]);
            if q[0] == p[0] {
                let jj = choose|jj: int| 0 <= jj < p.len() && jj < q.len() && p[jj] != q[jj];
                assert(jj >= 1);
                assert(diverge(p_rest, q.drop_first())) by {
                    assert(p_rest[jj - 1] == p[jj]);
                    assert(q.drop_first()[jj - 1] == q[jj]);
                }
            }
        }
    }
    entries
}

/// The error for a key path with too many segments.
pub open spec fn depth_error() -> Seq<char> {
    "key path exceeds maximum depth of 32 segments"@
}

/// Inserts `value`, read as a scalar of the given format, at a dot-delimited
/// path, creating intermediate tables as needed (and replacing a non-table
/// met on the way). A path of more than `MAX_DEPTH` segments is refused and
/// the table is left as it was.
pub fn set_dot_path(table: &mut Vec<(String, Meta)>, path: &str, value: &str, format: MetaFormat) -> (r: Result<(), String>)
    ensures
        r is Ok <==> dot_path(path@).len() <= MAX_DEPTH,
        r is Err ==> final(table)@ == old(table)@ && r->Err_0@ == depth_error(),
        r is Ok ==> (get_path(Meta::Table(*final(table)), dot_path(path@)) matches Some(v) && is_scalar(
            v,
            scalar_kind(format, value@),
            value@,
        )),
        r is Ok ==> forall|q: Seq<Seq<char>>|
            diverge(dot_path(path@), q) ==> #[trigger] get_path(Meta::Table(*final(table)), q) == get_path(
                Meta::Table(*old(table)),
                q,
            ),
{
    let segs = split_char(path, '.');
    proof {
        lemma_split_nonempty(path@, '.');
    }
    if segs.len() > MAX_DEPTH {
        return Err("key path exceeds maximum depth of 32 segments".to_string());
    }
    let parsed = parse_scalar(format, value);
    let mut t: Vec<(String, Meta)> = Vec::new();
    std::mem::swap(&mut t, table);
    assert(path_from(segs@, 0) =~= dot_path(path@));
    *table = set_nested(t, &segs, 0, parsed);
    Ok(())
}

/// Inserts `value` at a dot-delimited path below an object, creating
/// intermediate objects as needed. Returns `false`, leaving `root` as it
/// was, if the path has more than `MAX_DEPTH` segments or `root` is not an
/// object.
pub fn set_path(root: &mut Meta, path: &str, value: Meta) -> (r: bool)
    ensures
        r == ((*old(root)) is Table && dot_path(path@).len() <= MAX_DEPTH),
        !r ==> *final(root) == *old(root),
        r ==> get_path(*final(root), dot_path(path@)) == Some(value),
        r ==> forall|q: Seq<Seq<char>>|
            diverge(dot_path(path@), q) ==> #[trigger] get_path(*final(root), q) == get_path(*old(root), q),
{
    let segs = split_char(path, '.');
    proof {
        lemma_split_nonempty(path@, '.');
    }
    if segs.len() > MAX_DEPTH {
        return false;
    }
    let mut m = Meta::Null;
    std::mem::swap(&mut m, root);
    match m {
        Meta::Table(entries) => {
            assert(path_from(segs@, 0) =~= dot_path(path@));
            *root = Meta::Table(set_nested(entries, &segs, 0, value));
            true
        },
        other => {
            *root = other;
            false
        },
    }
}

/// Removes the value at a dot-delimited path. Returns whether there was one.
pub fn unset_path(root: &mut Meta, path: &str) -> (r: bool)
    ensures
        r == get_path(*old(root), dot_path(path@)) is Some,
        !r ==> *final(root) == *old(root),
        r ==> get_path(*final(root), dot_path(path@)) is None,
        r ==> forall|q: Seq<Seq<char>>|
            diverge(dot_path(path@), q) ==> #[trigger] get_path(*final(root), q) == get_path(*old(root), q),
{
    if resolve_dot_path(root, path).is_none() {
        return false;
    }
    let segs = split_char(path, '.');
    proof {
        lemma_split_nonempty(path@, '.');
    }
    assert(path_from(segs@, 0) =~= dot_path(path@));
    let mut m = Meta::Null;
    std::mem::swap(&mut m, root);
    match m {
        Meta::Table(entries) => {
            *root = Meta::Table(unset_nested(entries, &segs, 0));
            true
        },
        other => {
            *root = other;
            true
        },
    }
}

/// The path of a key below a prefix: the key alone at the top, else
/// prefix, a dot, and the key.
pub open spec fn child_path(prefix: Seq<char>, key: Seq<char>) -> Seq<char> {
    if prefix.len() == 0 {
        key
    } else {
        prefix + seq!['.'] + key
    }
}

/// The leaves of a table's entries with their dot paths, in entry order,
/// nested tables walked in place.
pub open spec fn flat_entries(entries: Seq<(String, Meta)>, prefix: Seq<char>) -> Seq<(Seq<char>, Meta)>
    decreases entries, 0int,
{
    if entries.len() == 0 {
        Seq::empty()
    } else {
        flat_entries(entries.drop_last(), prefix) + flat_one(entries.last(), prefix)
    }
}

/// The leaves below one entry.
pub open spec fn flat_one(e: (String, Meta), prefix: Seq<char>) -> Seq<(Seq<char>, Meta)>
    decreases e, 1int,
{
    match e.1 {
        Meta::Table(inner) => {
            proof {
                assert(decreases_to!(e => e.1));
            }
            flat_entries(inner@, child_path(prefix, e.0@))
        },
        _ => seq![(child_path(prefix, e.0@), e.1)],
    }
}

/// The views of flattened pairs.
pub open spec fn flat_view<'a>(v: Seq<(String, &'a Meta)>) -> Seq<(Seq<char>, Meta)> {
    v.map_values(|p: (String, &'a Meta)| (p.0@, *p.1))
}

/// Builds the path of a key below a prefix.
fn child_path_exec(prefix: &str, key: &str) -> (r: String)
    ensures
        r@ == child_path(prefix@, key@),
{
    let mut out = chars_of(prefix);
    if out.len() > 0 {
        out.push('.');
    }
    let k = chars_of(key);
    crate::text::push_all(&mut out, &k);
    string_of(&out)
}

/// Appends the leaves of `entries`, with their dot paths below `prefix`.
fn flatten_entries<'a>(entries: &'a Vec<(String, Meta)>, prefix: &str, out: &mut Vec<(String, &'a Meta)>)
    ensures
        flat_view(final(out)@) == flat_view(old(out)@) + flat_entries(entries@, prefix@),
    decreases entries@, 0int,
{
    let ghost start = flat_view(out@);
    let mut i: usize = 0;
    assert(entries@.take(0) =~= Seq::<(String, Meta)>::empty());
    while i < entries.len()
        invariant
            0 <= i <= entries.len(),
            flat_view(out@) == start + flat_entries(entries@.take(i as int), prefix@),
        decreases entries.len() - i,
    {
        let e = &entries[i];
        proof {
            assert(entries@.take(i + 1).drop_last() =~= entries@.take(i as int));
            assert(entries@.take(i + 1).last() == entries@[i as int]);
        }
        let path = child_path_exec(prefix, e.0.as_str());
        let ghost mid = flat_view(out@);
        let ghost done = flat_entries(entries@.take(i as int), prefix@);
        match &e.1 {
            Meta::Table(inner) => {
                proof {
                    assert(decreases_to!(entries@ => entries@[i as int]));
                    assert(decreases_to!(entries@[i as int] => entries@[i as int].1));
                }
                flatten_entries(inner, path.as_str(), out);
                proof {
                    assert(flat_one(entries@[i as int], prefix@) == flat_entries(inner@, path@));
                    assert(flat_view(out@) =~= start + (done + flat_one(entries@[i as int], prefix@)));
                }
            },
            other => {
                let ghost before = out@;
                out.push((path, other));
                proof {
                    assert(flat_view(out@) =~= flat_view(before).push((path@, *other)));
                    assert(flat_one(entries@[i as int], prefix@) == seq![(path@, *other)]);
                    assert(flat_view(out@) =~= start + (done + flat_one(entries@[i as int], prefix@)));
                }
            },
        }
        i = i + 1;
    }
    assert(entries@.take(entries.len() as int) =~= entries@);
}

/// The leaves of a metadata value with their dot paths: for a table, each
/// non-table value with the keys leading to it joined by dots; for any other
/// value, the value itself under the empty path.
pub fn flatten_dot_paths<'a>(root: &'a Meta) -> (r: Vec<(String, &'a Meta)>)
    ensures
        flat_view(r@) == match *root {
            Meta::Table(entries) => flat_entries(entries@, Seq::empty()),
            _ => seq![(Seq::<char>::empty(), *root)],
        },
{
    let mut out: Vec<(String, &'a Meta)> = Vec::new();
    match root {
        Meta::Table(entries) => {
            proof {
                reveal_strlit("");
                assert(""@ =~= Seq::<char>::empty());
            }
            assert(flat_view(out@) =~= Seq::<(Seq<char>, Meta)>::empty());
            flatten_entries(entries, "", &mut out);
            assert(Seq::<(Seq<char>, Meta)>::empty() + flat_entries(entries@, Seq::empty()) =~= flat_entries(
                entries@,
                Seq::empty(),
            ));
            assert(flat_view(out@) =~= flat_entries(entries@, Seq::empty()));
        },
        other => {
            out.push((String::new(), other));
            assert(flat_view(out@) =~= seq![(Seq::<char>::empty(), *root)]);
        },
    }
    out
}

/// A key that can stand in a dot path: non-empty and free of dots.
pub open spec fn plain_key(k: Seq<char>) -> bool {
    k.len() > 0 && !k.contains('.')
}

/// Whether every key of the entries, at every depth, is a plain key and no
/// two entries of one table share a key.
pub open spec fn keyed_entries(entries: Seq<(String, Meta)>) -> bool
    decreases entries, 0int,
{
    if entries.len() == 0 {
        true
    } else {
        &&& keyed_entries(entries.drop_last())
        &&& keyed_one(entries.last())
        &&& forall|j: int| 0 <= j < entries.len() - 1 ==> (#[trigger] entries[j]).0@ != entries.last().0@
    }
}

/// Whether an entry's key is plain and, for a nested table, its entries are
/// keyed the same way.
pub open spec fn keyed_one(e: (String, Meta)) -> bool
    decreases e, 1int,
{
    &&& plain_key(e.0@)
    &&& match e.1 {
        Meta::Table(inner) => {
            proof {
                assert(decreases_to!(e => e.1));
            }
            keyed_entries(inner@)
        },
        _ => true,
    }
}

/// Every entry of keyed entries is keyed, and no two share a key.
proof fn lemma_keyed(entries: Seq<(String, Meta)>)
    requires
        keyed_entries(entries),
    ensures
        forall|i: int| 0 <= i < entries.len() ==> keyed_one(#[trigger] entries[i]),
        forall|i: int, j: int|
            0 <= i < entries.len() && 0 <= j < entries.len() && i != j ==> (#[trigger] entries[i]).0@ != (
            #[trigger] entries[j]).0@,
    decreases entries.len(),
{
    if entries.len() > 0 {
        let init = entries.drop_last();
        lemma_keyed(init);
        assert forall|i: int| 0 <= i < entries.len() implies keyed_one(#[trigger] entries[i]) by {
            if i < entries.len() - 1 {
                assert(entries[i] == init[i]);
            }
        }
        assert forall|i: int, j: int|
            0 <= i < entries.len() && 0 <= j < entries.len() && i != j implies (#[trigger] entries[i]).0@ != (
            #[trigger] entries[j]).0@ by {
            if i < entries.len() - 1 && j < entries.len() - 1 {
                assert(entries[i] == init[i]);
                assert(entries[j] == init[j]);
            }
        }
    }
}

/// Extending a path by one key looks that key up in the table at the path.
proof fn lemma_get_push(m: Meta, p: Seq<Seq<char>>, k: Seq<char>)
    ensures
        get_path(m, p.push(k)) == match get_path(m, p) {
            Some(Meta::Table(t)) => lookup(t@, k),
            _ => None,
        },
    decreases p.len(),
{
    if p.len() == 0 {
        assert(p.push(k) =~= seq![k]);
        assert(seq![k].drop_first() =~= Seq::<Seq<char>>::empty());
        assert(get_path(m, p) == Some(m));
        match m {
            Meta::Table(entries) => match lookup(entries@, k) {
                Some(child) => {
                    assert(get_path(child, Seq::<Seq<char>>::empty()) == Some(child));
                },
                None => {},
            },
            _ => {},
        }
    } else {
        assert(p.push(k).drop_first() =~= p.drop_first().push(k));
        assert(p.push(k)[0] == p[0]);
        match m {
            Meta::Table(entries) => match lookup(entries@, p[0]) {
                Some(child) => lemma_get_push(child, p.drop_first(), k),
                None => {},
            },
            _ => {},
        }
    }
}

/// Whether `prefix` is the dot path text of the key path `path`.
pub open spec fn prefix_of(path: Seq<Seq<char>>, prefix: Seq<char>) -> bool {
    if path.len() == 0 {
        prefix.len() == 0
    } else {
        prefix.len() > 0 && dot_path(prefix) == path
    }
}

/// The dot path text of a child is its parent's extended by the key.
proof fn lemma_prefix_child(path: Seq<Seq<char>>, prefix: Seq<char>, k: Seq<char>)
    requires
        prefix_of(path, prefix),
        plain_key(k),
    ensures
        prefix_of(path.push(k), child_path(prefix, k)),
{
    if path.len() == 0 {
        lemma_split_plain(k, '.');
        assert(path.push(k) =~= seq![k]);
    } else {
        lemma_split_append(prefix, k, '.');
    }
}

/// The leaves of the first `n` entries of the table at `path` read back at
/// their dot paths.
proof fn lemma_read_back(root: Meta, path: Seq<Seq<char>>, full: Seq<(String, Meta)>, n: int, prefix: Seq<char>)
    requires
        0 <= n <= full.len(),
        get_path(root, path) matches Some(Meta::Table(t)) && t@ == full,
        keyed_entries(full),
        prefix_of(path, prefix),
    ensures
        forall|k: int|
            0 <= k < flat_entries(full.take(n), prefix).len() ==> get_path(
                root,
                dot_path(#[trigger] flat_entries(full.take(n), prefix)[k].0),
            ) == Some(flat_entries(full.take(n), prefix)[k].1),
    decreases full, n,
{
    if n > 0 {
        lemma_read_back(root, path, full, n - 1, prefix);
        let e = full[n - 1];
        assert(full.take(n).drop_last() =~= full.take(n - 1));
        assert(full.take(n).last() == e);
        lemma_keyed(full);
        let key = e.0@;
        assert(keyed_one(full[n - 1]));
        assert(key_index(full, key, n - 1));
        lemma_key_index_unique(full, key, n - 1);
        lemma_get_push(root, path, key);
        lemma_prefix_child(path, prefix, key);
        let cp = child_path(prefix, key);
        let a = flat_entries(full.take(n - 1), prefix);
        let b = flat_one(e, prefix);
        assert(flat_entries(full.take(n), prefix) == a + b);
        match e.1 {
            Meta::Table(inner) => {
                assert(decreases_to!(full => full[n - 1]));
                assert(decreases_to!(full[n - 1] => full[n - 1].1));
                assert(decreases_to!(full => inner@));
                lemma_read_back(root, path.push(key), inner@, inner@.len() as int, cp);
                assert(inner@.take(inner@.len() as int) =~= inner@);
                assert(b == flat_entries(inner@, cp));
            },
            _ => {
                assert(b == seq![(cp, e.1)]);
            },
        }
        assert forall|k: int| 0 <= k < (a + b).len() implies get_path(root, dot_path(#[trigger] (a + b)[k].0)) == Some(
            (a + b)[k].1,
        ) by {
            if k < a.len() {
                assert((a + b)[k] == a[k]);
            } else {
                assert((a + b)[k] == b[k - a.len()]);
            }
        }
    }
}

/// Every leaf that flattening reports reads back at its dot path: in a table
/// whose keys, at every depth, are non-empty, free of dots and distinct
/// within their table, resolving a reported path gives the reported value.
pub proof fn law_flatten_reads_back(root: Meta)
    requires
        root matches Meta::Table(entries) && keyed_entries(entries@),
    ensures
        forall|k: int|
            0 <= k < flat_entries(root->Table_0@, Seq::empty()).len() ==> get_path(
                root,
                dot_path(#[trigger] flat_entries(root->Table_0@, Seq::empty())[k].0),
            ) == Some(flat_entries(root->Table_0@, Seq::empty())[k].1),
{
    let full = root->Table_0@;
    assert(get_path(root, Seq::empty()) == Some(root));
    lemma_read_back(root, Seq::empty(), full, full.len() as int, Seq::empty());
    assert(full.take(full.len() as int) =~= full);
}

} // verus!
