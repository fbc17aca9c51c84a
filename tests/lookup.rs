use mvn_flatten::artifact::Artifact;
use mvn_flatten::enrich::{
    latest_version_in, search_params, search_query, Doc, EnrichStep, Enrichment, Envelope,
    SearchResponse, DEFAULT_PAUSE_MILLIS,
};
use mvn_flatten::maven::{parse_flag, Dependency, MavenTreeParser};
use mvn_flatten::text::compare_str;
use std::cmp::Ordering;

fn art(g: &str, a: &str, v: &str) -> Artifact {
    Artifact {
        group_id: g.to_string(),
        artifact_id: a.to_string(),
        version: v.to_string(),
        scope: "compile".to_string(),
        children: vec![],
        latest_version: None,
    }
}

fn envelope(versions: &[&str]) -> Envelope {
    Envelope {
        response: SearchResponse {
            docs: versions
                .iter()
                .map(|v| Doc {
                    id: "g:a".to_string(),
                    g: "g".to_string(),
                    a: "a".to_string(),
                    latest_version: v.to_string(),
                })
                .collect(),
        },
    }
}

/// Runs a lookup pass against canned responses; `None` stands for a failed
/// request, which stops the pass.
fn run(artifacts: &mut Vec<Artifact>, responses: Vec<Option<Envelope>>) -> Result<Vec<String>, usize> {
    let mut pass = Enrichment::new(artifacts.len(), 0);
    let mut log = Vec::new();
    let mut responses = responses.into_iter();
    loop {
        match pass.next_step() {
            EnrichStep::Pause(ms) => {
                log.push(format!("pause {}", ms));
                pass.paused();
            }
            EnrichStep::Fetch(i) => {
                log.push(format!("fetch {}", i));
                match responses.next().flatten() {
                    Some(e) => pass.record(latest_version_in(&e)),
                    None => return Err(i),
                }
            }
            EnrichStep::Done => {
                pass.apply(artifacts);
                return Ok(log);
            }
        }
    }
}

#[test]
fn query_names_group_and_artifact() {
    let a = art("com.lib", "foo", "1.0");
    assert_eq!(search_query(&a), "g:com.lib AND a:foo");
    let p = search_params(&a);
    assert_eq!(p.len(), 3);
    assert_eq!(p[0], ("q".to_string(), "g:com.lib AND a:foo".to_string()));
    assert_eq!(p[1], ("rows".to_string(), "1".to_string()));
    assert_eq!(p[2], ("wt".to_string(), "json".to_string()));
}

#[test]
fn response_without_docs_gives_no_version() {
    assert_eq!(latest_version_in(&envelope(&[])), None);
    assert_eq!(latest_version_in(&envelope(&["2.3.0"])), Some("2.3.0".to_string()));
    assert_eq!(latest_version_in(&envelope(&["2.3.0", "1.0"])), Some("2.3.0".to_string()));
}

#[test]
fn lookup_sets_found_versions_only() {
    let mut list = vec![art("x", "x", "1"), art("y", "y", "1")];
    let log = run(&mut list, vec![Some(envelope(&[])), Some(envelope(&["2.3.0"]))]).unwrap();
    assert_eq!(list[0].latest_version, None);
    assert_eq!(list[1].latest_version, Some("2.3.0".to_string()));
    assert_eq!(log, vec!["fetch 0", "pause 0", "fetch 1"]);
}

#[test]
fn lookup_pauses_between_requests_only() {
    let mut list = vec![art("x", "x", "1"), art("y", "y", "1"), art("z", "z", "1")];
    let mut pass = Enrichment::new(list.len(), DEFAULT_PAUSE_MILLIS);
    assert!(matches!(pass.next_step(), EnrichStep::Fetch(0)));
    pass.record(None);
    assert!(matches!(pass.next_step(), EnrichStep::Pause(1000)));
    pass.paused();
    assert!(matches!(pass.next_step(), EnrichStep::Fetch(1)));
    pass.record(Some("1.1".to_string()));
    assert!(matches!(pass.next_step(), EnrichStep::Pause(1000)));
    pass.paused();
    assert!(matches!(pass.next_step(), EnrichStep::Fetch(2)));
    pass.record(None);
    assert!(matches!(pass.next_step(), EnrichStep::Done));
    pass.apply(&mut list);
    assert_eq!(list[1].latest_version, Some("1.1".to_string()));
}

#[test]
fn lookup_of_empty_list_is_done_at_once() {
    let mut list: Vec<Artifact> = vec![];
    assert_eq!(run(&mut list, vec![]).unwrap(), Vec::<String>::new());
}

#[test]
fn failed_request_leaves_artifacts_unchanged() {
    let mut list = vec![art("x", "x", "1"), art("y", "y", "1"), art("z", "z", "1")];
    let r = run(&mut list, vec![Some(envelope(&["9.9"])), None, Some(envelope(&["1.0"]))]);
    assert_eq!(r, Err(1));
    assert!(list.iter().all(|a| a.latest_version.is_none()));
}

#[test]
fn flags_read_true_and_false_only() {
    assert_eq!(parse_flag("true"), Some(true));
    assert_eq!(parse_flag("false"), Some(false));
    assert_eq!(parse_flag("True"), None);
    assert_eq!(parse_flag(""), None);
}

#[test]
fn dependency_tree_converts_node_for_node() {
    let leaf = Dependency {
        group_id: "g2".to_string(),
        artifact_id: "a2".to_string(),
        version: "2".to_string(),
        artifact_type: "jar".to_string(),
        scope: "runtime".to_string(),
        classifier: "".to_string(),
        optional: false,
        children: vec![],
    };
    let root = Dependency {
        group_id: "g1".to_string(),
        artifact_id: "a1".to_string(),
        version: "1".to_string(),
        artifact_type: "jar".to_string(),
        scope: "compile".to_string(),
        classifier: "".to_string(),
        optional: true,
        children: vec![leaf],
    };
    let tree = MavenTreeParser::new().tree_of(&root);
    assert_eq!(tree.group_id, "g1");
    assert_eq!(tree.children.len(), 1);
    assert_eq!(tree.children[0].artifact_id, "a2");
    assert_eq!(tree.children[0].scope, "runtime");
    assert_eq!(tree.children[0].latest_version, None);
}

#[test]
fn strings_compare_character_by_character() {
    assert_eq!(compare_str("abc", "abd"), Ordering::Less);
    assert_eq!(compare_str("ab", "abc"), Ordering::Less);
    assert_eq!(compare_str("b", "abc"), Ordering::Greater);
    assert_eq!(compare_str("", ""), Ordering::Equal);
}
