use cce_engine::cochange::{changed_with_edges, CoChangeEdge, MAX_COCHANGE_COMMITS};
use cce_engine::indexing::relation_id;

fn entities(paths: &[&str]) -> Vec<(String, String)> {
    paths.iter().map(|p| (p.to_string(), format!("file_{p}"))).collect()
}

fn commit(paths: &[&str]) -> Vec<String> {
    paths.iter().map(|p| p.to_string()).collect()
}

fn find<'a>(edges: &'a [CoChangeEdge], a: usize, b: usize) -> Option<&'a CoChangeEdge> {
    edges.iter().find(|e| (e.left, e.right) == (a.min(b), a.max(b)))
}

#[test]
fn counts_shared_commits_and_busier_file_appearances() {
    let fe = entities(&["a.rs", "b.rs", "c.rs"]);
    let touched = vec![
        commit(&["a.rs", "b.rs"]),
        commit(&["b.rs", "a.rs", "a.rs", "unknown.rs"]),
        commit(&["b.rs"]),
        commit(&["c.rs"]),
    ];
    let edges = changed_with_edges(&touched, &fe);
    assert_eq!(edges.len(), 1);
    let e = &edges[0];
    assert_eq!((e.left, e.right), (0, 1));
    assert_eq!(e.co_change_count, 2);
    assert_eq!(e.commit_appearances, 3);
    assert_eq!(e.source_entity_id, "file_a.rs");
    assert_eq!(e.target_entity_id, "file_b.rs");
    assert_eq!(e.id, relation_id("file_a.rs", "file_b.rs", "changed_with"));
}

#[test]
fn source_is_the_smaller_entity_id() {
    let fe = vec![
        ("x.rs".to_owned(), "zz".to_owned()),
        ("y.rs".to_owned(), "aa".to_owned()),
    ];
    let edges = changed_with_edges(&vec![commit(&["x.rs", "y.rs"])], &fe);
    assert_eq!(edges.len(), 1);
    assert_eq!(edges[0].source_entity_id, "aa");
    assert_eq!(edges[0].target_entity_id, "zz");
}

#[test]
fn mass_commits_are_skipped() {
    let names: Vec<String> = (0..513).map(|k| format!("f{k}.rs")).collect();
    let refs: Vec<&str> = names.iter().map(String::as_str).collect();
    let fe = entities(&refs);
    let edges = changed_with_edges(&vec![commit(&refs)], &fe);
    assert!(edges.is_empty());
    let edges = changed_with_edges(&vec![commit(&refs), commit(&["f1.rs", "f2.rs"])], &fe);
    assert_eq!(edges.len(), 1);
    assert_eq!((edges[0].left, edges[0].right), (1, 2));
    assert_eq!(edges[0].commit_appearances, 1);
}

#[test]
fn only_the_newest_commits_are_read() {
    let fe = entities(&["a.rs", "b.rs"]);
    let mut touched = vec![commit(&["a.rs"]); MAX_COCHANGE_COMMITS];
    touched.push(commit(&["a.rs", "b.rs"]));
    assert!(changed_with_edges(&touched, &fe).is_empty());
    touched.insert(0, commit(&["a.rs", "b.rs"]));
    let edges = changed_with_edges(&touched, &fe);
    assert_eq!(edges.len(), 1);
    assert_eq!(edges[0].commit_appearances, MAX_COCHANGE_COMMITS);
}

#[test]
fn hub_keeps_only_its_top_partners() {
    // The hub changes once with each of nine partners; every partner changes
    // twice with eight friends of its own, so it ranks the hub ninth.
    let mut paths = vec!["hub.rs".to_owned()];
    for p in 1..=9 {
        paths.push(format!("p{p}.rs"));
    }
    for p in 1..=9 {
        for f in 1..=8 {
            paths.push(format!("p{p}_friend{f}.rs"));
        }
    }
    let refs: Vec<&str> = paths.iter().map(String::as_str).collect();
    let fe = entities(&refs);
    let mut touched = Vec::new();
    for p in 1..=9 {
        touched.push(vec!["hub.rs".to_owned(), format!("p{p}.rs")]);
        for f in 1..=8 {
            for _ in 0..2 {
                touched.push(vec![format!("p{p}.rs"), format!("p{p}_friend{f}.rs")]);
            }
        }
    }
    let edges = changed_with_edges(&touched, &fe);
    // Partners p1..p8 sort before p9, so the hub keeps them and drops p9.
    for p in 1..=8 {
        assert!(find(&edges, 0, p).is_some(), "hub keeps p{p}");
    }
    assert!(find(&edges, 0, 9).is_none());
    // Every friend pair survives: the friend ranks its partner first.
    assert_eq!(edges.len(), 8 + 9 * 8);
    let e = find(&edges, 1, 10).unwrap();
    assert_eq!(e.co_change_count, 2);
    assert_eq!(e.commit_appearances, 17);
}

#[test]
fn every_pair_is_reported_once() {
    let fe = entities(&["a", "b", "c"]);
    let touched = vec![commit(&["a", "b", "c"]), commit(&["c", "b"])];
    let edges = changed_with_edges(&touched, &fe);
    let mut pairs: Vec<(usize, usize)> = edges.iter().map(|e| (e.left, e.right)).collect();
    pairs.sort();
    assert_eq!(pairs, vec![(0, 1), (0, 2), (1, 2)]);
    assert_eq!(find(&edges, 1, 2).unwrap().co_change_count, 2);
    for e in &edges {
        assert!(1 <= e.co_change_count && e.co_change_count <= e.commit_appearances);
    }
}
