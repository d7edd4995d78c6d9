use gest::meta::{
    flatten_dot_paths, parse_json_scalar, parse_scalar, resolve_dot_path, resolve_path, set_dot_path, set_path, unset_path, Meta,
    MetaFormat,
};

fn text(s: &str) -> Meta {
    Meta::Text(s.to_string())
}

fn obj(entries: Vec<(&str, Meta)>) -> Meta {
    Meta::Table(entries.into_iter().map(|(k, v)| (k.to_string(), v)).collect())
}

fn table(entries: Vec<(&str, Meta)>) -> Vec<(String, Meta)> {
    entries.into_iter().map(|(k, v)| (k.to_string(), v)).collect()
}

/// Whether two tables hold the same keys with the same values, in any order.
fn same_table(a: &Meta, b: &Meta) -> bool {
    match (a, b) {
        (Meta::Table(x), Meta::Table(y)) => {
            x.len() == y.len()
                && x.iter().all(|(k, v)| y.iter().any(|(k2, v2)| k == k2 && same_table(v, v2)))
        }
        _ => a == b,
    }
}

// ── JSON documents: parse_scalar ─────────────────────────────────────────

#[test]
fn meta_it_falls_back_to_string() {
    assert_eq!(parse_json_scalar("hello", false), text("hello"));
}

#[test]
fn meta_it_parses_booleans() {
    assert_eq!(parse_json_scalar("true", false), Meta::Bool(true));
    assert_eq!(parse_json_scalar("false", false), Meta::Bool(false));
}

#[test]
fn meta_it_parses_floats() {
    assert_eq!(parse_json_scalar("3.14", true), Meta::Float("3.14".to_string()));
}

#[test]
fn meta_it_parses_integers() {
    assert_eq!(parse_json_scalar("42", true), Meta::Integer(42));
}

#[test]
fn json_scalar_keeps_non_finite_floats_as_text() {
    assert_eq!(parse_json_scalar("inf", false), text("inf"));
    assert_eq!(parse_json_scalar("1e999", false), text("1e999"));
    assert_eq!(parse_json_scalar("-7", true), Meta::Integer(-7));
    assert_eq!(parse_json_scalar("9223372036854775808", true), Meta::Float("9223372036854775808".to_string()));
}

// ── JSON documents: resolve_path ─────────────────────────────────────────

#[test]
fn meta_it_resolves_nested_key() {
    let value = obj(vec![("outer", obj(vec![("nested", text("deep"))]))]);
    assert_eq!(resolve_path(&value, "outer.nested"), Some(&text("deep")));
}

#[test]
fn meta_it_resolves_top_level_key() {
    let value = obj(vec![("key", text("value"))]);
    assert_eq!(resolve_path(&value, "key"), Some(&text("value")));
}

#[test]
fn meta_it_returns_none_for_missing_key() {
    let value = obj(vec![]);
    assert_eq!(resolve_path(&value, "missing"), None);
}

#[test]
fn it_returns_none_when_path_descends_into_scalar() {
    let value = obj(vec![("leaf", text("x"))]);
    assert_eq!(resolve_path(&value, "leaf.deeper"), None);
}

// ── JSON documents: set_path ─────────────────────────────────────────────

#[test]
fn it_creates_intermediate_objects() {
    let mut value = obj(vec![]);
    assert!(set_path(&mut value, "a.b.c", Meta::Integer(1)));
    assert_eq!(value, obj(vec![("a", obj(vec![("b", obj(vec![("c", Meta::Integer(1))]))]))]));
}

#[test]
fn it_overwrites_existing_scalar_with_object() {
    let mut value = obj(vec![("a", text("scalar"))]);
    assert!(set_path(&mut value, "a.b", Meta::Integer(2)));
    assert_eq!(value, obj(vec![("a", obj(vec![("b", Meta::Integer(2))]))]));
}

#[test]
fn it_rejects_non_object_root() {
    let mut value = text("scalar");
    assert!(!set_path(&mut value, "a", Meta::Integer(1)));
    assert_eq!(value, text("scalar"));
}

#[test]
fn it_rejects_paths_exceeding_max_depth() {
    let mut value = obj(vec![]);
    let path = (0..33).map(|i| format!("k{i}")).collect::<Vec<_>>().join(".");
    assert!(!set_path(&mut value, &path, Meta::Integer(1)));
    assert_eq!(value, obj(vec![]));
}

#[test]
fn it_sets_top_level_key() {
    let mut value = obj(vec![]);
    assert!(set_path(&mut value, "k", text("v")));
    assert_eq!(value, obj(vec![("k", text("v"))]));
}

#[test]
fn set_path_keeps_siblings_and_reads_back() {
    let mut value = obj(vec![("a", obj(vec![("x", Meta::Integer(1))])), ("b", Meta::Bool(true))]);
    assert!(set_path(&mut value, "a.y", text("new")));
    assert_eq!(resolve_path(&value, "a.y"), Some(&text("new")));
    assert_eq!(resolve_path(&value, "a.x"), Some(&Meta::Integer(1)));
    assert_eq!(resolve_path(&value, "b"), Some(&Meta::Bool(true)));
    let path = (0..32).map(|i| format!("k{i}")).collect::<Vec<_>>().join(".");
    assert!(set_path(&mut value, &path, Meta::Null));
    assert_eq!(resolve_path(&value, &path), Some(&Meta::Null));
}

// ── JSON documents: unset_path ───────────────────────────────────────────

#[test]
fn it_removes_nested_key() {
    let mut value = obj(vec![(
        "a",
        obj(vec![("b", obj(vec![("c", Meta::Integer(1))])), ("d", Meta::Integer(2))]),
    )]);
    assert!(unset_path(&mut value, "a.b.c"));
    assert_eq!(value, obj(vec![("a", obj(vec![("b", obj(vec![])), ("d", Meta::Integer(2))]))]));
}

#[test]
fn it_returns_false_when_intermediate_missing() {
    let mut value = obj(vec![("a", Meta::Integer(1))]);
    assert!(!unset_path(&mut value, "b.c"));
}

#[test]
fn it_returns_false_when_key_missing() {
    let mut value = obj(vec![]);
    assert!(!unset_path(&mut value, "missing"));
}

#[test]
fn it_removes_top_level_key() {
    let mut value = obj(vec![("a", Meta::Integer(1)), ("b", Meta::Integer(2))]);
    assert!(unset_path(&mut value, "a"));
    assert_eq!(value, obj(vec![("b", Meta::Integer(2))]));
}

/// Shows a scalar leaf the way the metadata commands print it.
fn shown(m: &Meta) -> String {
    match m {
        Meta::Text(s) => s.clone(),
        Meta::Integer(n) => n.to_string(),
        Meta::Bool(b) => b.to_string(),
        Meta::Null => "null".to_string(),
        Meta::Float(t) | Meta::Other(t) => t.clone(),
        _ => unreachable!(),
    }
}

#[test]
fn it_flattens_nested_objects() {
    let value = obj(vec![
        ("a", Meta::Integer(1)),
        ("b", obj(vec![("c", text("x")), ("d", obj(vec![("e", Meta::Bool(true))]))])),
    ]);
    let mut pairs: Vec<(String, String)> = flatten_dot_paths(&value).into_iter().map(|(p, v)| (p, shown(v))).collect();
    pairs.sort();
    assert_eq!(
        pairs,
        vec![
            ("a".to_string(), "1".to_string()),
            ("b.c".to_string(), "x".to_string()),
            ("b.d.e".to_string(), "true".to_string()),
        ]
    );
}

#[test]
fn it_round_trips_with_set_path() {
    let value = obj(vec![("outer", obj(vec![("inner", text("deep"))])), ("flat", Meta::Integer(7))]);
    let pairs = flatten_dot_paths(&value);
    let mut rebuilt = obj(vec![]);
    for (path, leaf) in &pairs {
        let raw = shown(leaf);
        let finite = raw.parse::<f64>().map(|x| x.is_finite()).unwrap_or(false);
        assert!(set_path(&mut rebuilt, path, parse_json_scalar(&raw, finite)));
    }
    assert!(same_table(&rebuilt, &value));
}

#[test]
fn flattening_a_scalar_gives_the_empty_path() {
    let value = text("alone");
    let pairs = flatten_dot_paths(&value);
    assert_eq!(pairs.len(), 1);
    assert_eq!(pairs[0].0, "");
    assert_eq!(pairs[0].1, &text("alone"));
}

// ── TOML and YAML documents: resolve_dot_path ────────────────────────────

#[test]
fn meta_value_it_resolves_nested_key() {
    let root = obj(vec![("outer", obj(vec![("nested", text("deep"))]))]);
    assert_eq!(resolve_dot_path(&root, "outer.nested"), Some(&text("deep")));
}

#[test]
fn meta_value_it_resolves_top_level_key() {
    let root = obj(vec![("key", text("value"))]);
    assert_eq!(resolve_dot_path(&root, "key"), Some(&text("value")));
}

#[test]
fn meta_value_it_returns_none_for_missing_key() {
    let root = obj(vec![]);
    assert_eq!(resolve_dot_path(&root, "missing"), None);
}

#[test]
fn artifact_meta_it_resolves_nested_key() {
    let root = obj(vec![("outer", obj(vec![("nested", text("deep"))]))]);
    assert_eq!(resolve_dot_path(&root, "outer.nested"), Some(&text("deep")));
}

#[test]
fn artifact_meta_it_resolves_top_level_key() {
    let root = obj(vec![("key", text("value"))]);
    assert_eq!(resolve_dot_path(&root, "key"), Some(&text("value")));
}

#[test]
fn artifact_meta_it_returns_none_for_missing_key() {
    let root = obj(vec![]);
    assert_eq!(resolve_dot_path(&root, "missing"), None);
}

// ── TOML and YAML documents: parse_scalar ────────────────────────────────

#[test]
fn meta_value_it_falls_back_to_string() {
    assert_eq!(parse_scalar(MetaFormat::Toml, "hello"), text("hello"));
    assert_eq!(parse_scalar(MetaFormat::Yaml, "hello"), text("hello"));
}

#[test]
fn meta_value_it_parses_booleans() {
    assert_eq!(parse_scalar(MetaFormat::Toml, "true"), Meta::Bool(true));
    assert_eq!(parse_scalar(MetaFormat::Toml, "false"), Meta::Bool(false));
    assert_eq!(parse_scalar(MetaFormat::Yaml, "true"), Meta::Bool(true));
    assert_eq!(parse_scalar(MetaFormat::Yaml, "false"), Meta::Bool(false));
}

#[test]
fn meta_value_it_parses_floats() {
    assert_eq!(parse_scalar(MetaFormat::Toml, "3.14"), Meta::Float("3.14".to_string()));
}

#[test]
fn meta_value_it_parses_integers() {
    assert_eq!(parse_scalar(MetaFormat::Toml, "42"), Meta::Integer(42));
    assert_eq!(parse_scalar(MetaFormat::Yaml, "42"), Meta::Integer(42));
}

#[test]
fn artifact_meta_it_falls_back_to_string() {
    assert_eq!(parse_scalar(MetaFormat::Yaml, "hello"), text("hello"));
}

#[test]
fn artifact_meta_it_parses_booleans() {
    assert_eq!(parse_scalar(MetaFormat::Yaml, "true"), Meta::Bool(true));
    assert_eq!(parse_scalar(MetaFormat::Yaml, "false"), Meta::Bool(false));
}

#[test]
fn artifact_meta_it_parses_integers() {
    assert_eq!(parse_scalar(MetaFormat::Yaml, "42"), Meta::Integer(42));
}

#[test]
fn scalars_follow_the_float_grammar() {
    for f in ["1.", ".5", "1e5", "+2.5E-3", "inf", "-Infinity", "NaN", "1_0".replace('_', ".").as_str()] {
        assert!(matches!(parse_scalar(MetaFormat::Toml, f), Meta::Float(_)), "{f}");
    }
    for t in [".", "e5", "1e", "1.2.3", "0x10", " 1", "infinit", "--1"] {
        assert_eq!(parse_scalar(MetaFormat::Toml, t), text(t), "{t}");
    }
    assert_eq!(parse_scalar(MetaFormat::Yaml, "null"), Meta::Null);
    assert_eq!(parse_scalar(MetaFormat::Toml, "null"), text("null"));
    assert_eq!(parse_scalar(MetaFormat::Toml, "+17"), Meta::Integer(17));
    assert_eq!(parse_scalar(MetaFormat::Toml, "-9223372036854775808"), Meta::Integer(i64::MIN));
}

// ── set_dot_path ─────────────────────────────────────────────────────────

#[test]
fn set_dot_path_reads_back_the_parsed_value() {
    let mut t = table(vec![("keep", text("x"))]);
    assert!(set_dot_path(&mut t, "a.b", "12", MetaFormat::Toml).is_ok());
    let root = Meta::Table(t);
    assert_eq!(resolve_dot_path(&root, "a.b"), Some(&Meta::Integer(12)));
    assert_eq!(resolve_dot_path(&root, "keep"), Some(&text("x")));
    let mut t = match root {
        Meta::Table(t) => t,
        _ => unreachable!(),
    };
    assert!(set_dot_path(&mut t, "keep", "yes", MetaFormat::Yaml).is_ok());
    assert_eq!(resolve_dot_path(&Meta::Table(t), "keep"), Some(&text("yes")));
}

#[test]
fn set_dot_path_refuses_deep_paths() {
    let mut t = table(vec![]);
    let path = (0..33).map(|i| format!("k{i}")).collect::<Vec<_>>().join(".");
    assert_eq!(
        set_dot_path(&mut t, &path, "1", MetaFormat::Toml).unwrap_err(),
        "key path exceeds maximum depth of 32 segments"
    );
    assert!(t.is_empty());
}

#[test]
fn every_flattened_leaf_resolves_at_its_path() {
    let t = |s: &str| Meta::Text(s.to_string());
    let root = Meta::Table(vec![
        ("a".to_string(), Meta::Integer(1)),
        (
            "b".to_string(),
            Meta::Table(vec![
                ("c".to_string(), t("x")),
                ("d".to_string(), Meta::Table(vec![("e".to_string(), Meta::Bool(true))])),
            ]),
        ),
        ("f".to_string(), Meta::List(vec![Meta::Null])),
    ]);
    let flat = flatten_dot_paths(&root);
    let paths: Vec<&str> = flat.iter().map(|(p, _)| p.as_str()).collect();
    assert_eq!(paths, vec!["a", "b.c", "b.d.e", "f"]);
    for (path, value) in &flat {
        assert_eq!(resolve_path(&root, path), Some(*value));
    }
}
