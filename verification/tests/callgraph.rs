use cce_engine::callgraph::{call_edges, resolve_callee, resolve_type, type_reference_edges};
use cce_engine::indexing::relation_id;
use cce_engine::landmarks::SymbolCandidate;
use cce_engine::parser::{EntityKind, ParsedCall, ParsedFile, ParsedUnit};
use cce_engine::repository::ScannedFile;

fn scanned(path: &str) -> ScannedFile {
    ScannedFile {
        relative_path: path.to_owned(),
        absolute_path: format!("/repo/{path}"),
        language: Some("rust".to_owned()),
        content_hash: String::new(),
        size_bytes: 0,
        mtime_ms: 0,
        line_count: 0,
        cached_bytes: None,
    }
}

fn unit(name: &str, start: usize, end: usize, types: &[&str]) -> ParsedUnit {
    ParsedUnit {
        kind: EntityKind::Function,
        name: name.to_owned(),
        signature: None,
        start_byte: start,
        end_byte: end,
        start_line: 1,
        end_line: 2,
        parent_unit: None,
        syntax_kind: "function_item".to_owned(),
        type_references: types.iter().map(|t| t.to_string()).collect(),
    }
}

fn call(caller: Option<usize>, name: &str, start: usize, end: usize) -> ParsedCall {
    ParsedCall { caller, name: name.to_owned(), start_byte: start, end_byte: end }
}

fn cand(id: &str, path: &str, kind: EntityKind) -> SymbolCandidate {
    SymbolCandidate { entity_id: id.to_owned(), path: path.to_owned(), kind }
}

fn one(path: &str, value: String) -> Vec<(String, String)> {
    vec![(path.to_owned(), value)]
}

#[test]
fn calls_resolve_per_caller_and_callee_once() {
    let text = "fn a() {\n    helper();\n    helper();\n}\nfn b() { helper(); a(); }\n".to_owned();
    let parsed = ParsedFile {
        units: vec![unit("a", 0, 40, &[]), unit("b", 41, 70, &[])],
        calls: vec![
            call(Some(0), "helper", 13, 21),
            call(Some(0), "helper", 28, 36),
            call(Some(1), "helper", 50, 58),
            call(Some(1), "a", 60, 63),
            call(None, "missing", 0, 1),
            call(Some(0), "a", 5, 6),
        ],
        parsed: true,
        has_syntax_errors: false,
        parser: Some("rust".to_owned()),
    };
    let index = vec![
        ("helper".to_owned(), vec![
            cand("h_other", "src/other.rs", EntityKind::Function),
            cand("h_lib", "src/lib.rs", EntityKind::Function),
        ]),
        ("a".to_owned(), vec![cand("ua", "src/lib.rs", EntityKind::Function)]),
    ];
    let edges = call_edges(
        "repo",
        "snap",
        &vec![scanned("src/lib.rs"), scanned("src/unparsed.rs")],
        &one("src/lib.rs", text),
        &one("src/lib.rs", "file_lib".to_owned()),
        &vec![("src/lib.rs".to_owned(), parsed)],
        &vec![("src/lib.rs".to_owned(), vec!["ua".to_owned(), "ub".to_owned()])],
        &index,
    );
    let got: Vec<(&str, &str, usize)> = edges
        .iter()
        .map(|e| (e.source_entity_id.as_str(), e.target_entity_id.as_str(), e.candidate_count))
        .collect();
    assert_eq!(got, vec![("ua", "h_lib", 2), ("ub", "h_lib", 2), ("ub", "ua", 1)]);
    assert_eq!(edges[0].evidence.start_line, 2);
    assert_eq!(edges[0].evidence.start_byte, 13);
    assert_eq!(edges[0].extractor, "cce-call-extract-v2:rust");
    assert_eq!(edges[0].name, "helper");
    assert_eq!(edges[2].id, relation_id("ub", "ua", "calls"));
}

#[test]
fn callee_resolution_prefers_same_file_then_callables() {
    let index = vec![(
        "run".to_owned(),
        vec![
            cand("s", "x.rs", EntityKind::Struct),
            cand("f", "y.rs", EntityKind::Function),
        ],
    )];
    assert_eq!(resolve_callee("run", "x.rs", &index).unwrap().0.entity_id, "s");
    assert_eq!(resolve_callee("run", "z.rs", &index).unwrap().0.entity_id, "f");
    assert_eq!(resolve_callee("run", "z.rs", &index).unwrap().1, 2);
    assert!(resolve_callee("walk", "z.rs", &index).is_none());
}

#[test]
fn type_references_link_units_to_type_level_symbols() {
    let parsed = ParsedFile {
        units: vec![
            unit("load", 0, 30, &["Config", "Token", "Config", "Helper"]),
            unit("Config", 31, 60, &["Config"]),
        ],
        calls: Vec::new(),
        parsed: true,
        has_syntax_errors: false,
        parser: None,
    };
    let index = vec![
        ("Config".to_owned(), vec![
            cand("cfg_fn", "src/a.rs", EntityKind::Function),
            cand("cfg_far", "src/b.rs", EntityKind::Struct),
            cand("cfg", "src/a.rs", EntityKind::Struct),
        ]),
        ("Token".to_owned(), vec![cand("tok", "src/t.rs", EntityKind::Enum)]),
        ("Helper".to_owned(), vec![cand("helper_fn", "src/a.rs", EntityKind::Function)]),
    ];
    let edges = type_reference_edges(
        "repo",
        "snap",
        &vec![scanned("src/a.rs")],
        &one("src/a.rs", "file_a".to_owned()),
        &vec![("src/a.rs".to_owned(), parsed)],
        &vec![("src/a.rs".to_owned(), vec!["u_load".to_owned(), "cfg".to_owned()])],
        &index,
    );
    let got: Vec<(&str, &str, usize)> = edges
        .iter()
        .map(|e| (e.source_entity_id.as_str(), e.target_entity_id.as_str(), e.candidate_count))
        .collect();
    assert_eq!(got, vec![("u_load", "cfg", 2), ("u_load", "tok", 1)]);
    assert_eq!(edges[0].extractor, "cce-type-ref-v2:unknown");
    assert_eq!(edges[0].evidence.end_byte, 30);
    assert_eq!(edges[0].name, "Config");
    assert_eq!(resolve_type("Config", &"src/c.rs".to_owned(), &index).unwrap().0.entity_id, "cfg_far");
}
