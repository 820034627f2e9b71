use cce_engine::artifact::{
    artifact_digest, contains_relation, enclosing_entity, flow_relation, generator_id, node_entity,
    validate_address, validate_files, validate_header, ArtifactAddress, ArtifactError, ArtifactFile,
    ArtifactHeader, ArtifactNode, DataflowRelationKind, IndexedEntity, SourceIdentity,
};
use cce_engine::dataflow::{ArtifactEdgeKind, GraphNode};
use cce_engine::dataflow_import::{assemble_dataflow, ArtifactEdge, ImportError};
use cce_engine::joern::{align_joern_node, parse_usize};
use cce_engine::parser::EntityKind;
use cce_engine::repository::ScannedFile;

fn scanned(path: &str, hash: &str) -> ScannedFile {
    ScannedFile {
        relative_path: path.to_owned(),
        absolute_path: format!("/repo/{path}"),
        language: Some("rust".to_owned()),
        content_hash: hash.to_owned(),
        size_bytes: 0,
        mtime_ms: 0,
        line_count: 0,
        cached_bytes: None,
    }
}

fn source() -> SourceIdentity {
    SourceIdentity {
        repository_id: "repo".to_owned(),
        snapshot_id: "snap".to_owned(),
        workspace_overlay_hash: "overlay".to_owned(),
        base_revision: Some("abc".to_owned()),
    }
}

fn header() -> ArtifactHeader {
    ArtifactHeader {
        schema_version: 1,
        repository_id: "repo".to_owned(),
        workspace_overlay_hash: "overlay".to_owned(),
        base_revision: Some("abc".to_owned()),
        generator_name: "joern-pdg-graphml".to_owned(),
        generator_version: "4.0".to_owned(),
    }
}

fn file(path: &str, hash: &str) -> ArtifactFile {
    ArtifactFile { path: path.to_owned(), content_hash: hash.to_owned() }
}

fn address(path: &str, start: u64, end: u64, sl: u32, el: u32) -> ArtifactAddress {
    ArtifactAddress { path: path.to_owned(), start_byte: start, end_byte: end, start_line: sl, end_line: el }
}

#[test]
fn header_must_match_format_target_and_generator() {
    assert!(validate_header(&header(), &source()).is_ok());
    let mut h = header();
    h.schema_version = 2;
    assert!(matches!(validate_header(&h, &source()), Err(ArtifactError::UnsupportedFormat { found: 2 })));
    let mut h = header();
    h.base_revision = None;
    assert!(matches!(validate_header(&h, &source()), Err(ArtifactError::TargetMismatch)));
    let mut h = header();
    h.generator_version = "  ".to_owned();
    assert!(matches!(validate_header(&h, &source()), Err(ArtifactError::MissingGenerator)));
}

#[test]
fn file_fingerprints_are_checked_in_order() {
    let files = vec![scanned("a.rs", "h1"), scanned("b.rs", "h2")];
    assert!(validate_files(&vec![file("a.rs", "h1"), file("b.rs", "h2")], &files).is_ok());
    match validate_files(&vec![file("a.rs", "h1"), file("a.rs", "h1")], &files) {
        Err(ArtifactError::DuplicateFile { path }) => assert_eq!(path, "a.rs"),
        other => panic!("unexpected {other:?}"),
    }
    match validate_files(&vec![file("c.rs", "h3"), file("b.rs", "bad")], &files) {
        Err(ArtifactError::MissingFile { path }) => assert_eq!(path, "c.rs"),
        other => panic!("unexpected {other:?}"),
    }
    match validate_files(&vec![file("b.rs", "bad")], &files) {
        Err(ArtifactError::HashMismatch { path }) => assert_eq!(path, "b.rs"),
        other => panic!("unexpected {other:?}"),
    }
}

#[test]
fn addresses_must_be_valid_ranges_of_fingerprinted_files() {
    let files = vec![scanned("a.rs", "h1"), scanned("b.rs", "h2")];
    let declared = vec![file("a.rs", "h1")];
    let texts = vec![("a.rs".to_owned(), "fn a() {\n    é();\n}\n".to_owned())];
    let ok = validate_address(&address("a.rs", 13, 17, 2, 2), &source(), &files, &declared, &texts).unwrap();
    assert_eq!((ok.path.as_str(), ok.start_byte, ok.end_byte, ok.start_line), ("a.rs", 13, 17, 2));
    assert_eq!(ok.snapshot_id, "snap");
    assert!(matches!(
        validate_address(&address("b.rs", 0, 1, 1, 1), &source(), &files, &declared, &texts),
        Err(ArtifactError::UnfingerprintedAddress { .. })
    ));
    // A cut inside `é` is no char boundary.
    assert!(matches!(
        validate_address(&address("a.rs", 14, 17, 2, 2), &source(), &files, &declared, &texts),
        Err(ArtifactError::InvalidSourceRange { start_byte: 14, end_byte: 17, .. })
    ));
    assert!(matches!(
        validate_address(&address("a.rs", 13, 17, 1, 2), &source(), &files, &declared, &texts),
        Err(ArtifactError::InvalidSourceRange { .. })
    ));
    assert!(matches!(
        validate_address(&address("a.rs", 0, 99, 1, 4), &source(), &files, &declared, &texts),
        Err(ArtifactError::InvalidSourceRange { .. })
    ));
    assert!(matches!(
        validate_address(&address("a.rs", 0, 1, 1, 1), &source(), &files, &declared, &Vec::new()),
        Err(ArtifactError::TextUnavailable { .. })
    ));
}

#[test]
fn nodes_become_entities_inside_their_enclosing_entity() {
    let texts = vec![("a.rs".to_owned(), "fn a() {\n    let x = 1;\n}\n".to_owned())];
    let files = vec![scanned("a.rs", "h1")];
    let declared = vec![file("a.rs", "h1")];
    let node = ArtifactNode {
        id: "n1".to_owned(),
        kind: "function".to_owned(),
        name: "a".to_owned(),
        address: address("a.rs", 13, 23, 2, 2),
    };
    let at = validate_address(&node.address, &source(), &files, &declared, &texts).unwrap();
    let digest = artifact_digest(b"{}");
    assert_eq!(digest.len(), 64);
    let entity = node_entity(&node, &at, "repo", &digest, &Some("rust".to_owned()));
    assert_eq!(entity.kind, EntityKind::Function);
    assert_eq!(entity.qualified_name, "a.rs::n1");
    assert_eq!(entity.address.symbol_id.as_deref(), Some(entity.id.as_str()));
    let indexed = vec![
        IndexedEntity { id: "file".to_owned(), path: "a.rs".to_owned(), start_byte: 0, end_byte: 26 },
        IndexedEntity { id: "fn_a".to_owned(), path: "a.rs".to_owned(), start_byte: 0, end_byte: 25 },
        IndexedEntity { id: "other".to_owned(), path: "b.rs".to_owned(), start_byte: 0, end_byte: 1 },
        IndexedEntity { id: "fn_a2".to_owned(), path: "a.rs".to_owned(), start_byte: 1, end_byte: 26 },
    ];
    assert_eq!(enclosing_entity(&indexed, &at), Some(1));
    let generator = generator_id(&header());
    assert_eq!(generator, "joern-pdg-graphml@4.0");
    let contains = contains_relation(&"fn_a".to_owned(), &entity, &at, &generator);
    assert_eq!(contains.kind, DataflowRelationKind::Contains);
    assert_eq!(contains.target_entity_id, entity.id);
    let flow = flow_relation(
        &"e1".to_owned(),
        ArtifactEdgeKind::Taint,
        &entity.id,
        &"x".to_owned(),
        Vec::new(),
        &digest,
        &generator,
    );
    assert_eq!(flow.kind, DataflowRelationKind::TaintFlowsTo);
    assert_eq!(flow.analysis_edge_id.as_deref(), Some("e1"));
    assert_ne!(flow.id, contains.id);
}

fn graph_node(props: &[(&str, &str)]) -> GraphNode {
    GraphNode {
        id: "7".to_owned(),
        properties: props.iter().map(|(k, v)| (k.to_string(), v.to_string())).collect(),
    }
}

#[test]
fn joern_nodes_align_with_their_source() {
    let files = vec![scanned("src/a.c", "h")];
    let texts = vec![("src/a.c".to_owned(), "int main() {\n  return sink(x);\n}\n".to_owned())];
    let node = graph_node(&[("labelV", "CALL"), ("LINE_NUMBER", "2"), ("COLUMN_NUMBER", "9"), ("CODE", " sink(x) ")]);
    let aligned = align_joern_node(&node, &Some("src/a.c".to_owned()), &files, &texts).unwrap().unwrap();
    assert_eq!(aligned.kind, "expression");
    assert_eq!(aligned.name, "sink(x)");
    assert_eq!((aligned.address.start_byte, aligned.address.end_byte), (22, 29));
    assert_eq!((aligned.address.start_line, aligned.address.end_line), (2, 2));

    let method = graph_node(&[("labelV", "METHOD"), ("LINE_NUMBER", "1"), ("NAME", "main")]);
    let aligned = align_joern_node(&method, &Some("src/a.c".to_owned()), &files, &texts).unwrap().unwrap();
    assert_eq!(aligned.kind, "function");
    assert_eq!(aligned.name, "main");
    assert_eq!((aligned.address.start_byte, aligned.address.end_byte), (0, 12));

    let no_line = graph_node(&[("CODE", "x")]);
    assert!(align_joern_node(&no_line, &Some("src/a.c".to_owned()), &files, &texts).unwrap().is_none());
    assert!(align_joern_node(&node, &None, &files, &texts).unwrap().is_none());
    assert!(align_joern_node(&node, &Some("other.c".to_owned()), &files, &texts).unwrap().is_none());
    assert!(matches!(
        align_joern_node(&node, &Some("src/a.c".to_owned()), &files, &Vec::new()),
        Err(ArtifactError::TextUnavailable { .. })
    ));
}

#[test]
fn usize_parsing_follows_from_str() {
    let p = |s: &str| parse_usize(&s.chars().collect::<Vec<char>>());
    assert_eq!(p("42"), Some(42));
    assert_eq!(p("+7"), Some(7));
    assert_eq!(p(""), None);
    assert_eq!(p("-1"), None);
    assert_eq!(p("99999999999999999999999"), None);
}

fn flow_edge(id: &str, from: &str, to: &str, ok: bool, evidence: Vec<ArtifactAddress>) -> ArtifactEdge {
    ArtifactEdge {
        id: id.to_owned(),
        source_node_id: from.to_owned(),
        target_node_id: to.to_owned(),
        kind: ArtifactEdgeKind::Data,
        confidence_ok: ok,
        evidence,
    }
}

fn flow_node(id: &str, start: u64, end: u64, line: u32) -> ArtifactNode {
    ArtifactNode { id: id.to_owned(), kind: "CALL".to_owned(), name: id.to_owned(), address: address("a.rs", start, end, line, line) }
}

#[test]
fn dataflow_import_assembles_entities_and_relations() {
    let files = vec![scanned("a.rs", "h1")];
    let declared = vec![file("a.rs", "h1")];
    let texts = vec![("a.rs".to_owned(), "fn a() {}\nfn b() {}\n".to_owned())];
    let existing = vec![IndexedEntity { id: "fn-a".to_owned(), path: "a.rs".to_owned(), start_byte: 0, end_byte: 9 }];
    let nodes = vec![flow_node("n1", 0, 2, 1), flow_node("n2", 10, 12, 2)];
    let edges = vec![flow_edge("e1", "n1", "n2", true, vec![address("a.rs", 3, 4, 1, 1)])];
    let bytes = b"{}";
    let imported = assemble_dataflow(bytes, &header(), &source(), &files, &declared, &nodes, &edges, &texts, &existing)
        .expect("import");
    assert_eq!((imported.nodes, imported.edges), (2, 1));
    assert_eq!(imported.entities.len(), 2);
    assert_eq!(imported.generator, "joern-pdg-graphml@4.0");
    assert_eq!(imported.digest, artifact_digest(bytes));
    assert_eq!(imported.relations.len(), 2);
    assert_eq!(imported.relations[0].kind, DataflowRelationKind::Contains);
    assert_eq!(imported.relations[0].source_entity_id, "fn-a");
    assert_eq!(imported.relations[0].target_entity_id, imported.entities[0].id);
    let flow = &imported.relations[1];
    assert_eq!(flow.kind, DataflowRelationKind::DataFlowsTo);
    assert_eq!(flow.source_entity_id, imported.entities[0].id);
    assert_eq!(flow.target_entity_id, imported.entities[1].id);
    assert_eq!(flow.evidence.len(), 1);
    assert_eq!(flow.analysis_edge_id.as_deref(), Some("e1"));
}

#[test]
fn dataflow_import_refuses_in_order() {
    let files = vec![scanned("a.rs", "h1")];
    let declared = vec![file("a.rs", "h1")];
    let texts = vec![("a.rs".to_owned(), "fn a() {}\nfn b() {}\n".to_owned())];
    let existing = Vec::new();
    let run = |nodes: Vec<ArtifactNode>, edges: Vec<ArtifactEdge>| {
        assemble_dataflow(b"{}", &header(), &source(), &files, &declared, &nodes, &edges, &texts, &existing)
    };
    assert!(matches!(run(vec![flow_node("n1", 0, 2, 1), flow_node("n1", 10, 12, 2)], Vec::new()), Err(ImportError::BadNodeId { index: 1 })));
    assert!(matches!(run(vec![flow_node("n1", 0, 2, 7)], Vec::new()), Err(ImportError::Artifact(ArtifactError::InvalidSourceRange { .. }))));
    let nodes = vec![flow_node("n1", 0, 2, 1), flow_node("n2", 10, 12, 2)];
    assert!(matches!(run(nodes.iter().map(|n| flow_node(&n.id, n.address.start_byte, n.address.end_byte, n.address.start_line)).collect(), vec![flow_edge("e1", "n1", "n2", false, Vec::new())]), Err(ImportError::BadConfidence { index: 0 })));
    let again = || vec![flow_node("n1", 0, 2, 1), flow_node("n2", 10, 12, 2)];
    assert!(matches!(run(again(), vec![flow_edge("e1", "n1", "n2", true, Vec::new()), flow_edge("e1", "n1", "n2", true, Vec::new())]), Err(ImportError::BadEdgeId { index: 1 })));
    assert!(matches!(run(again(), vec![flow_edge("e1", "zz", "n2", true, Vec::new())]), Err(ImportError::UnknownSource { index: 0 })));
    assert!(matches!(run(again(), vec![flow_edge("e1", "n1", "zz", true, Vec::new())]), Err(ImportError::UnknownTarget { index: 0 })));
    assert!(matches!(run(again(), vec![flow_edge("e1", "n1", "n2", true, vec![address("b.rs", 0, 1, 1, 1)])]), Err(ImportError::Artifact(ArtifactError::UnfingerprintedAddress { .. }))));
    let mut bad_header = header();
    bad_header.schema_version = 9;
    assert!(matches!(
        assemble_dataflow(b"{}", &bad_header, &source(), &files, &declared, &again(), &Vec::new(), &texts, &existing),
        Err(ImportError::Artifact(ArtifactError::UnsupportedFormat { found: 9 }))
    ));
}
