use cce_engine::indexing::relation_id;
use cce_engine::landmarks::SymbolCandidate;
use cce_engine::parser::{EntityKind, ParsedFile, ParsedUnit};
use cce_engine::repository::ScannedFile;
use cce_engine::testlinks::{test_links, TestLinkKind};

fn scanned(path: &str) -> ScannedFile {
    ScannedFile {
        relative_path: path.to_owned(),
        absolute_path: format!("/repo/{path}"),
        language: None,
        content_hash: String::new(),
        size_bytes: 0,
        mtime_ms: 0,
        line_count: 0,
        cached_bytes: None,
    }
}

fn entities(paths: &[&str]) -> Vec<(String, String)> {
    paths.iter().map(|p| (p.to_string(), format!("file:{p}"))).collect()
}

fn unit(name: &str) -> ParsedUnit {
    ParsedUnit {
        kind: EntityKind::Function,
        name: name.to_owned(),
        signature: None,
        start_byte: 0,
        end_byte: 1,
        start_line: 1,
        end_line: 1,
        parent_unit: None,
        syntax_kind: "function_item".to_owned(),
        type_references: Vec::new(),
    }
}

fn parsed_with(names: &[&str]) -> ParsedFile {
    ParsedFile {
        units: names.iter().map(|n| unit(n)).collect(),
        calls: Vec::new(),
        parsed: true,
        has_syntax_errors: false,
        parser: Some("rust".to_owned()),
    }
}

fn cand(id: &str, path: &str) -> SymbolCandidate {
    SymbolCandidate { entity_id: id.to_owned(), path: path.to_owned(), kind: EntityKind::Function }
}

#[test]
fn pairs_test_files_with_their_sources() {
    let fe = entities(&["web/foo.test.ts", "web/foo.ts", "web/foo.js", "test_bar.py", "bar.py"]);
    let files = vec![scanned("web/foo.test.ts"), scanned("test_bar.py")];
    let links = test_links(&files, &fe, &Vec::new(), &Vec::new(), &Vec::new());
    let got: Vec<(&str, &str, TestLinkKind)> =
        links.iter().map(|l| (l.test_id.as_str(), l.target_id.as_str(), l.kind)).collect();
    assert_eq!(
        got,
        vec![
            ("file:web/foo.test.ts", "file:web/foo.ts", TestLinkKind::FilePair),
            ("file:web/foo.test.ts", "file:web/foo.js", TestLinkKind::FilePair),
            ("file:test_bar.py", "file:bar.py", TestLinkKind::FilePair),
        ]
    );
    assert_eq!(links[0].id, relation_id("file:web/foo.test.ts", "file:web/foo.ts", "tests"));
}

#[test]
fn test_directory_files_link_by_file_name() {
    let fe = entities(&["tests/widget.rs", "src/widget.rs", "tests/lonely.rs"]);
    let files = vec![scanned("tests/widget.rs"), scanned("tests/lonely.rs")];
    let links = test_links(&files, &fe, &Vec::new(), &Vec::new(), &Vec::new());
    assert_eq!(links.len(), 1);
    assert_eq!(links[0].test_id, "file:tests/widget.rs");
    assert_eq!(links[0].target_id, "file:src/widget.rs");
    assert_eq!(links[0].kind, TestLinkKind::TestDirectory);
}

#[test]
fn test_symbols_link_to_the_symbols_they_name() {
    let fe = entities(&["src/lib.rs"]);
    let files = vec![scanned("src/lib.rs")];
    let parsed = vec![(
        "src/lib.rs".to_owned(),
        parsed_with(&["test_parse", "test_helper_works", "parse", "test_", "testzz"]),
    )];
    let ids = vec![(
        "src/lib.rs".to_owned(),
        vec!["u0".to_owned(), "u1".to_owned(), "u2".to_owned(), "u3".to_owned()],
    )];
    let index = vec![
        ("helper".to_owned(), vec![cand("sym_helper", "src/util.rs")]),
        ("parse".to_owned(), vec![cand("sym_parse_other", "src/other.rs"), cand("sym_parse", "src/lib.rs")]),
        ("he".to_owned(), vec![cand("sym_he", "src/lib.rs")]),
    ];
    let links = test_links(&files, &fe, &parsed, &ids, &index);
    let got: Vec<(&str, &str, TestLinkKind)> =
        links.iter().map(|l| (l.test_id.as_str(), l.target_id.as_str(), l.kind)).collect();
    assert_eq!(
        got,
        vec![
            ("u0", "sym_parse", TestLinkKind::ExactName),
            ("u1", "sym_helper", TestLinkKind::PrefixName),
        ]
    );
}

#[test]
fn longer_names_beat_same_file_and_exact_matches() {
    let fe = entities(&["a.rs"]);
    let files = vec![scanned("a.rs")];
    let parsed = vec![("a.rs".to_owned(), parsed_with(&["test_load_config_file"]))];
    let ids = vec![("a.rs".to_owned(), vec!["t".to_owned()])];
    let index = vec![
        ("load".to_owned(), vec![cand("short_same_file", "a.rs")]),
        ("load_config".to_owned(), vec![cand("long_elsewhere", "b.rs")]),
    ];
    let links = test_links(&files, &fe, &parsed, &ids, &index);
    assert_eq!(links.len(), 1);
    assert_eq!(links[0].target_id, "long_elsewhere");
    assert_eq!(links[0].kind, TestLinkKind::PrefixName);
}

#[test]
fn repeated_links_are_kept_once() {
    let fe = entities(&["foo.spec.js", "foo.js"]);
    let files = vec![scanned("foo.spec.js"), scanned("foo.spec.js"), scanned("unindexed.test.ts")];
    let links = test_links(&files, &fe, &Vec::new(), &Vec::new(), &Vec::new());
    assert_eq!(links.len(), 1);
    assert_eq!(links[0].target_id, "file:foo.js");
}
