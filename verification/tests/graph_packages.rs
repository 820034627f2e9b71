use cce_engine::artifact::{check_dataflow_graph, DataflowGraphError};
use cce_engine::atlas::boundary_violations;
use cce_engine::indexing::{entity_id, relation_id};
use cce_engine::knowledge::{knowledge_pages, KnowledgeError};
use cce_engine::packages::{cargo_package, emit, extract, npm_package, PackageRelationKind};
use cce_engine::relations::fresh_relation_positions;
use cce_engine::repository::ScannedFile;
use cce_engine::testlinks::TestLinkKind;

fn file(path: &str, language: Option<&str>) -> ScannedFile {
    ScannedFile {
        relative_path: path.to_owned(),
        absolute_path: format!("/repo/{path}"),
        language: language.map(str::to_owned),
        content_hash: "hash".to_owned(),
        size_bytes: 0,
        mtime_ms: 0,
        line_count: 0,
        cached_bytes: None,
    }
}

fn strings(items: &[&str]) -> Vec<String> {
    items.iter().map(|s| (*s).to_owned()).collect()
}

fn edge(id: &str, source: &str, target: &str) -> (String, String, String) {
    (id.to_owned(), source.to_owned(), target.to_owned())
}

fn pairs(items: &[(&str, &str)]) -> Vec<(String, String)> {
    items.iter().map(|(a, b)| ((*a).to_owned(), (*b).to_owned())).collect()
}

#[test]
fn dataflow_graph_gives_endpoint_positions() {
    let nodes = strings(&["n1", "n2", "n3"]);
    let edges = vec![edge("e1", "n1", "n3"), edge("e2", "n3", "n2")];
    assert_eq!(check_dataflow_graph(&nodes, &edges), Ok(vec![(0, 2), (2, 1)]));
}

#[test]
fn dataflow_graph_names_the_first_offender() {
    let edges: Vec<(String, String, String)> = Vec::new();
    assert_eq!(
        check_dataflow_graph(&strings(&["a", "b", "a", ""]), &edges),
        Err(DataflowGraphError::BadNodeId { index: 2 })
    );
    assert_eq!(
        check_dataflow_graph(&strings(&["a", ""]), &edges),
        Err(DataflowGraphError::BadNodeId { index: 1 })
    );
    let nodes = strings(&["a", "b"]);
    assert_eq!(
        check_dataflow_graph(&nodes, &vec![edge("e", "a", "b"), edge("e", "a", "b")]),
        Err(DataflowGraphError::BadEdgeId { index: 1 })
    );
    assert_eq!(
        check_dataflow_graph(&nodes, &vec![edge("", "a", "b")]),
        Err(DataflowGraphError::BadEdgeId { index: 0 })
    );
    assert_eq!(
        check_dataflow_graph(&nodes, &vec![edge("e", "x", "b")]),
        Err(DataflowGraphError::UnknownSource { index: 0 })
    );
    assert_eq!(
        check_dataflow_graph(&nodes, &vec![edge("e", "a", "b"), edge("f", "a", "y")]),
        Err(DataflowGraphError::UnknownTarget { index: 1 })
    );
}

#[test]
fn derived_relations_keep_only_new_ids() {
    let existing = strings(&["r1", "r2"]);
    let candidates = strings(&["r3", "r1", "r3", "r4", "r2", "r4"]);
    assert_eq!(fresh_relation_positions(&existing, &candidates), vec![0, 3]);
    assert_eq!(fresh_relation_positions(&Vec::new(), &Vec::new()), Vec::<usize>::new());
}

#[test]
fn test_link_extractors() {
    assert_eq!(TestLinkKind::FilePair.extractor(), "cce-test-file-pair-v1");
    assert_eq!(TestLinkKind::TestDirectory.extractor(), "cce-test-dir-v1");
    assert_eq!(TestLinkKind::ExactName.extractor(), "cce-test-name-v1");
    assert_eq!(TestLinkKind::PrefixName.extractor(), "cce-test-name-v1");
}

#[test]
fn cargo_manifest_becomes_a_package() {
    let text = "[package]\nname = \"engine\"\nversion = \"0.1.0\"\n\n[dependencies]\nserde = \"1\"\ncore = { path = \"../core\" }\n\n[dev-dependencies]\ntempfile = \"3\"\n\n[build-dependencies]\ncc = \"1\"\n";
    let p = cargo_package("crates/engine/Cargo.toml", text).expect("package");
    assert_eq!(p.name, "engine");
    assert_eq!(p.manifest_path, "crates/engine/Cargo.toml");
    assert_eq!(p.root_dir, "crates/engine");
    assert_eq!(p.ecosystem, "cargo");
    assert_eq!(p.dependencies, strings(&["core", "serde", "tempfile", "cc"]));
    assert!(cargo_package("Cargo.toml", "[workspace]\nmembers = []\n").is_none());
    assert!(cargo_package("Cargo.toml", "not = [toml").is_none());
    let root = cargo_package("Cargo.toml", "[package]\nname = \"root\"\n").expect("root");
    assert_eq!(root.root_dir, "");
    assert!(root.dependencies.is_empty());
}

#[test]
fn npm_manifest_becomes_a_package() {
    let text = r#"{"name": "web", "dependencies": {"react": "18"}, "devDependencies": {"vite": "5"}, "peerDependencies": {"ui": "1"}}"#;
    let p = npm_package("apps/web/package.json", text).expect("package");
    assert_eq!(p.name, "web");
    assert_eq!(p.root_dir, "apps/web");
    assert_eq!(p.ecosystem, "npm");
    assert_eq!(p.dependencies, strings(&["react", "vite", "ui"]));
    assert!(npm_package("package.json", r#"{"private": true}"#).is_none());
    assert!(npm_package("package.json", "{").is_none());
}

#[test]
fn packages_are_extracted_by_name_and_emitted_as_a_graph() {
    let files = vec![
        file("Cargo.toml", None),
        file("crates/b/Cargo.toml", None),
        file("crates/a/Cargo.toml", None),
        file("crates/a/src/lib.rs", Some("rust")),
        file("web/node_modules/x/package.json", None),
        file("src/main.rs", Some("rust")),
    ];
    let texts = pairs(&[
        ("Cargo.toml", "[package]\nname = \"root\"\n[dependencies]\na = \"1\"\n"),
        ("crates/b/Cargo.toml", "[package]\nname = \"b\"\n[dependencies]\na = \"1\"\nserde = \"1\"\n"),
        ("crates/a/Cargo.toml", "[package]\nname = \"a\"\n"),
        ("web/node_modules/x/package.json", r#"{"name": "x"}"#),
    ]);
    let packages = extract(&files, &texts);
    let names: Vec<&str> = packages.iter().map(|p| p.name.as_str()).collect();
    assert_eq!(names, vec!["a", "b", "root"]);

    let entities = pairs(&[("crates/a/src/lib.rs", "file-a"), ("src/main.rs", "file-main"), ("Cargo.toml", "file-root")]);
    let regions = pairs(&[("Cargo.toml", "region-root")]);
    let emission = emit(&packages, "repo", "snap", &files, &entities, &regions);
    assert_eq!(emission.entities.len(), 3);
    let id_a = entity_id("repo", "crates/a/Cargo.toml", 0, 0, "package:a");
    let id_root = entity_id("repo", "Cargo.toml", 0, 0, "package:root");
    let root = &emission.entities[2];
    assert_eq!(root.id, id_root);
    assert_eq!(root.qualified_name, "cargo:root");
    assert_eq!(root.region_id.as_deref(), Some("region-root"));
    let address = root.address.as_ref().expect("manifest address");
    assert_eq!((address.start_line, address.end_line, address.start_byte), (1, 1, 0));
    assert!(emission.entities[0].address.is_none());

    let summary: Vec<(String, String, PackageRelationKind)> = emission
        .relations
        .iter()
        .map(|r| (r.source_entity_id.clone(), r.target_entity_id.clone(), r.kind))
        .collect();
    let id_b = entity_id("repo", "crates/b/Cargo.toml", 0, 0, "package:b");
    assert_eq!(
        summary,
        vec![
            (id_a.clone(), "file-a".to_owned(), PackageRelationKind::Contains),
            (id_b.clone(), id_a.clone(), PackageRelationKind::BuildDependsOn),
            (id_root.clone(), id_a.clone(), PackageRelationKind::BuildDependsOn),
            (id_root.clone(), "file-root".to_owned(), PackageRelationKind::Contains),
            (id_root.clone(), "file-main".to_owned(), PackageRelationKind::Contains),
        ]
    );
    assert_eq!(emission.relations[1].id, relation_id(&id_b, &id_a, "build_depends_on"));
    assert_eq!(emission.relations[0].extractor, "cargo-manifest");
}

#[test]
fn knowledge_pages_group_files_into_areas() {
    let files = vec![
        file("crates/core/src/lib.rs", Some("rust")),
        file("README.md", None),
        file("docs/guide.md", None),
        file("crates/core/Cargo.toml", None),
    ];
    let entities = pairs(&[("crates/core/src/lib.rs", "f1"), ("docs/guide.md", "f3")]);
    let texts = pairs(&[("crates/core/src/lib.rs", "fn a() {}\nfn b() {}\n"), ("docs/guide.md", "# Guide\n")]);
    let emission = knowledge_pages("snap", "repo", &files, &entities, &texts, "repo-entity").expect("pages");
    let groups: Vec<&str> = emission.areas.iter().map(|a| a.group.as_str()).collect();
    assert_eq!(groups, vec!["(root)", "crates/core", "docs"]);
    assert_eq!(
        emission.overview,
        "# Repository orientation\n\nSnapshot `snap` contains 4 indexed source artifacts.\n\n## Top-level areas\n- `(root)`: 1 files\n- `crates/core`: 2 files\n- `docs`: 1 files\n\nThis orientation is derived from the current path hierarchy and remains subordinate to source truth."
    );
    let core = &emission.areas[1];
    assert_eq!(core.directory_id, entity_id("repo", "crates/core", 0, 0, "directory"));
    assert_eq!(core.repository_relation_id, relation_id("repo-entity", &core.directory_id, "contains"));
    assert_eq!(
        core.page,
        "# Area: crates/core\n\n- `crates/core/src/lib.rs` (rust)\n- `crates/core/Cargo.toml` (text)\n\nThis page is deterministic navigation metadata; use its evidence addresses to verify current source."
    );
    assert_eq!(
        core.file_relations,
        vec![(relation_id(&core.directory_id, "f1", "contains"), "f1".to_owned())]
    );
    assert_eq!(core.evidence, pairs(&[("crates/core/src/lib.rs", "f1")]));
    let address = &core.evidence_addresses[0];
    assert_eq!((address.path.as_str(), address.start_byte, address.end_byte), ("crates/core/src/lib.rs", 0, 20));
    assert_eq!((address.start_line, address.end_line), (1, 3));
    assert_eq!(address.symbol_id.as_deref(), Some("f1"));
    assert_eq!((address.repository_id.as_str(), address.snapshot_id.as_str()), ("repo", "snap"));
    assert!(emission.areas[0].file_relations.is_empty());
    let without_text = pairs(&[("crates/core/src/lib.rs", "fn a() {}\n")]);
    assert_eq!(
        knowledge_pages("snap", "repo", &files, &entities, &without_text, "repo-entity").err(),
        Some(KnowledgeError::TextMissing)
    );
}

fn node(name: &str, root: &str, deps: &[&str]) -> cce_engine::packages::PackageNode {
    cce_engine::packages::PackageNode {
        name: name.to_owned(),
        ecosystem: "cargo".to_owned(),
        manifest_path: format!("{root}/Cargo.toml"),
        root_dir: root.to_owned(),
        member_files: 0,
        dependencies: strings(deps),
        dependents: Vec::new(),
    }
}

fn entity(id: &str, name: &str, path: Option<&str>) -> cce_engine::atlas::BoundaryEntity {
    cce_engine::atlas::BoundaryEntity { id: id.to_owned(), name: name.to_owned(), path: path.map(str::to_owned) }
}

fn code_edge(kind: &str, source: &str, target: &str, evidence: Option<&str>) -> cce_engine::atlas::BoundaryEdge {
    cce_engine::atlas::BoundaryEdge {
        kind: kind.to_owned(),
        source_entity_id: source.to_owned(),
        target_entity_id: target.to_owned(),
        evidence_path: evidence.map(str::to_owned),
    }
}

#[test]
fn boundary_violations_list_undeclared_crossings() {
    let packages = vec![node("root", "", &[]), node("app", "crates/app", &["core"]), node("core", "crates/core", &[])];
    let entities = vec![
        entity("e-app", "run", Some("crates/app/src/main.rs")),
        entity("e-core", "open", Some("crates/core/src/lib.rs")),
        entity("e-tool", "tool", Some("tools/x.rs")),
        entity("e-ext", "serde", None),
    ];
    let edges = vec![
        code_edge("calls", "e-app", "e-core", None),
        code_edge("calls", "e-core", "e-app", Some("crates/core/src/x.rs")),
        code_edge("calls", "e-core", "e-app", None),
        code_edge("imports", "e-tool", "e-core", None),
        code_edge("calls", "e-app", "e-ext", None),
        code_edge("calls", "e-app", "missing", None),
    ];
    let report = boundary_violations(&packages, &entities, &edges);
    assert_eq!(report.total, 3);
    let listed: Vec<(usize, &str, &str, &str, &str)> = report
        .violations
        .iter()
        .map(|v| (v.edge, v.source_package.as_str(), v.target_package.as_str(), v.kind.as_str(), v.evidence_path.as_str()))
        .collect();
    assert_eq!(
        listed,
        vec![
            (1, "core", "app", "calls", "crates/core/src/x.rs"),
            (3, "root", "core", "imports", "tools/x.rs"),
        ]
    );
    let none = boundary_violations(&Vec::new(), &entities, &edges);
    assert_eq!(none.total, 0);
    assert!(none.violations.is_empty());
}

#[test]
fn typescript_project_choice() {
    let none: Vec<(String, usize)> = Vec::new();
    let root = cce_engine::providers::choose_ts_project(true, false, &none).expect("root");
    assert_eq!((root.candidate, root.display.as_str(), root.note.as_str()), (None, ".", "project root: repository root"));
    let cands = vec![("packages/b".to_owned(), 5), ("packages/a-x".to_owned(), 7), ("packages/a/x".to_owned(), 7)];
    let with = cce_engine::providers::choose_ts_project(true, false, &cands).expect("root");
    assert_eq!(
        with.note,
        "project root: repository root (3 workspace tsconfig.json project(s) not indexed — v1 runs a single project)"
    );
    let best = cce_engine::providers::choose_ts_project(false, false, &cands).expect("candidate");
    assert_eq!(best.candidate, Some(2));
    assert_eq!(best.display, "packages/a/x");
    assert_eq!(
        best.note,
        "project root `packages/a/x`: largest of 3 workspace tsconfig.json candidate(s) (7 TS sources; no tsconfig.json at the repository root)"
    );
    let hollow = cce_engine::providers::choose_ts_project(true, true, &none).expect("hollow root");
    assert_eq!(hollow.note, "project root: repository root (repository tsconfig.json is a solution file with no inputs)");
    assert!(cce_engine::providers::choose_ts_project(false, true, &none).is_none());
}
