use mvn_flatten::artifact::Artifact;
use std::collections::hash_map::DefaultHasher;
use std::hash::{Hash, Hasher};
use mvn_flatten::report::{filter_for_report, render_csv, report_entries};

fn art(g: &str, a: &str, v: &str, scope: &str, children: Vec<Artifact>) -> Artifact {
    Artifact {
        group_id: g.to_string(),
        artifact_id: a.to_string(),
        version: v.to_string(),
        scope: scope.to_string(),
        children,
        latest_version: None,
    }
}

fn coords(list: &[Artifact]) -> Vec<String> {
    list.iter()
        .map(|a| format!("{}:{}:{}", a.group_id, a.artifact_id, a.version))
        .collect()
}

fn sample_tree() -> Artifact {
    art(
        "com.acme",
        "app",
        "1.0",
        "compile",
        vec![
            art(
                "b",
                "y",
                "1",
                "compile",
                vec![art("a", "x", "2", "runtime", vec![art("a", "x", "1", "test", vec![])])],
            ),
            art("a", "x", "1", "compile", vec![]),
            art("a", "x", "2", "compile", vec![]),
        ],
    )
}

#[test]
fn flatten_sorts_by_coordinate() {
    let root = art(
        "root",
        "r",
        "0",
        "compile",
        vec![
            art("b", "y", "1", "compile", vec![]),
            art("a", "x", "2", "compile", vec![]),
            art("a", "x", "1", "compile", vec![]),
        ],
    );
    assert_eq!(coords(&root.flatten()), vec!["a:x:1", "a:x:2", "b:y:1"]);
}

#[test]
fn flatten_keeps_one_entry_per_coordinate() {
    let flat = sample_tree().flatten();
    assert_eq!(coords(&flat), vec!["a:x:1", "a:x:2", "b:y:1"]);
    assert!(flat.iter().all(|a| a.children.is_empty()));
}

#[test]
fn flatten_first_occurrence_gives_the_entry() {
    let flat = sample_tree().flatten();
    // b:y:1 is visited first, then a:x:2 (runtime) below it, then a:x:1 (test).
    assert_eq!(flat[0].scope, "test");
    assert_eq!(flat[1].scope, "runtime");
    assert_eq!(flat[2].scope, "compile");
}

#[test]
fn flatten_twice_gives_the_same_list() {
    let first = sample_tree().flatten();
    let second = sample_tree().flatten();
    assert_eq!(first.len(), second.len());
    for (x, y) in first.iter().zip(second.iter()) {
        assert!(x == y);
        assert_eq!(x.scope, y.scope);
        assert_eq!(x.latest_version, y.latest_version);
    }
}

#[test]
fn flatten_without_children_is_empty() {
    let root = art("com.acme", "app", "1.0", "compile", vec![]);
    assert!(root.flatten().is_empty());
}

#[test]
fn flatten_leaves_out_the_root() {
    let root = art("r", "r", "1", "compile", vec![art("r", "r", "1", "compile", vec![]), art("s", "s", "1", "compile", vec![])]);
    assert_eq!(coords(&root.flatten()), vec!["r:r:1", "s:s:1"]);
}

#[test]
fn flatten_orders_prefix_before_longer_text() {
    let root = art(
        "root",
        "r",
        "0",
        "compile",
        vec![
            art("org.a", "lib", "1.10", "compile", vec![]),
            art("org", "lib", "1.2", "compile", vec![]),
            art("org.a", "lib", "1.1", "compile", vec![]),
        ],
    );
    assert_eq!(coords(&root.flatten()), vec!["org:lib:1.2", "org.a:lib:1.1", "org.a:lib:1.10"]);
}

#[test]
fn belongs_to_namespace() {
    let a = art("com.acme.lib", "x", "1", "compile", vec![]);
    assert!(a.belongs_to("com.acme"));
    let b = art("com.acmex", "x", "1", "compile", vec![]);
    assert!(!b.belongs_to("com.acme"));
    let c = art("com.acme", "x", "1", "compile", vec![]);
    assert!(c.belongs_to("com.acme"));
    let d = art("com", "x", "1", "compile", vec![]);
    assert!(!d.belongs_to("com.acme"));
    let e = art("org.acme", "x", "1", "compile", vec![]);
    assert!(!e.belongs_to("com.acme"));
}

#[test]
fn is_runtime_scopes() {
    assert!(art("g", "a", "1", "compile", vec![]).is_runtime());
    assert!(art("g", "a", "1", "runtime", vec![]).is_runtime());
    assert!(!art("g", "a", "1", "test", vec![]).is_runtime());
    assert!(!art("g", "a", "1", "provided", vec![]).is_runtime());
}

#[test]
fn identity_ignores_scope_and_latest_version() {
    let mut a = art("g", "a", "1", "compile", vec![]);
    let b = art("g", "a", "1", "test", vec![]);
    a.latest_version = Some("2".to_string());
    assert!(a == b);
    assert_eq!(a.compare(&b), std::cmp::Ordering::Equal);
    let c = art("g", "a", "2", "compile", vec![]);
    assert!(a != c);
    assert!(a < c);
    assert_eq!(c.compare(&a), std::cmp::Ordering::Greater);
}

#[test]
fn filter_removes_own_namespace() {
    let flat = vec![
        art("com.acme.util", "u", "1", "compile", vec![]),
        art("com.lib", "foo", "1.0", "compile", vec![]),
    ];
    let kept = filter_for_report(flat, "com.acme");
    assert_eq!(coords(&kept), vec!["com.lib:foo:1.0"]);
}

#[test]
fn filter_removes_non_runtime_scopes() {
    let flat = vec![
        art("a", "t", "1", "test", vec![]),
        art("b", "c", "1", "compile", vec![]),
        art("c", "p", "1", "provided", vec![]),
        art("d", "r", "1", "runtime", vec![]),
    ];
    let kept = filter_for_report(flat, "com.acme");
    assert_eq!(coords(&kept), vec!["b:c:1", "d:r:1"]);
}

#[test]
fn csv_rows_in_order() {
    let mut a = art("g1", "a1", "1", "compile", vec![]);
    a.latest_version = Some("3.0".to_string());
    let b = art("g0", "a0", "2", "compile", vec![]);
    assert_eq!(render_csv(&vec![a, b]), "g1,a1,1,3.0\ng0,a0,2,\n");
    assert_eq!(render_csv(&vec![]), "");
}

#[test]
fn end_to_end_without_lookup() {
    let root = art(
        "com.acme",
        "app",
        "1",
        "compile",
        vec![
            art("com.lib", "foo", "1.0", "compile", vec![]),
            art("com.acme.sub", "bar", "2.0", "compile", vec![]),
            art("com.lib", "foo", "1.0", "test", vec![]),
        ],
    );
    let entries = report_entries(root);
    assert_eq!(render_csv(&entries), "com.lib,foo,1.0,\n");
}

fn hash_of(a: &Artifact) -> u64 {
    let mut h = DefaultHasher::new();
    a.hash(&mut h);
    h.finish()
}

#[test]
fn equal_artifacts_hash_alike() {
    let a = art("g", "a", "1", "compile", vec![art("x", "y", "1", "test", vec![])]);
    let b = art("g", "a", "1", "test", vec![]);
    assert_eq!(hash_of(&a), hash_of(&b));
}
