use cce_engine::imports::{
    import_edges, import_specifiers, resolve_relative_import, resolve_rust_module, SpecifierKind,
};
use cce_engine::indexing::relation_id;
use cce_engine::repository::ScannedFile;

fn scanned(path: &str, language: &str) -> ScannedFile {
    ScannedFile {
        relative_path: path.to_owned(),
        absolute_path: format!("/repo/{path}"),
        language: Some(language.to_owned()),
        content_hash: String::new(),
        size_bytes: 0,
        mtime_ms: 0,
        line_count: 0,
        cached_bytes: None,
    }
}

fn entities(paths: &[&str]) -> Vec<(String, String)> {
    paths.iter().map(|p| (p.to_string(), format!("file:{p}"))).collect()
}

#[test]
fn extracts_relative_js_and_python_specifiers() {
    let js = "import { a } from './a';\nconst b = require(\"../lib/b\");\nimport x from 'react';\nconst c = await import('./c');\n".to_owned();
    let got = import_specifiers(&js, &Some("typescript".to_owned()));
    let specs: Vec<(&str, SpecifierKind)> = got.iter().map(|(s, k)| (s.as_str(), *k)).collect();
    assert_eq!(
        specs,
        vec![
            ("./a", SpecifierKind::Relative),
            ("../lib/b", SpecifierKind::Relative),
            ("./c", SpecifierKind::Relative),
        ]
    );
    let py = "from .utils import x\nfrom os import path\n  from .. import y\n".to_owned();
    let got = import_specifiers(&py, &Some("python".to_owned()));
    let specs: Vec<&str> = got.iter().map(|(s, _)| s.as_str()).collect();
    assert_eq!(specs, vec![".utils", ".."]);
    assert!(import_specifiers(&py, &Some("go".to_owned())).is_empty());
    assert!(import_specifiers(&py, &None).is_empty());
}

#[test]
fn extracts_rust_mod_and_use_specifiers() {
    let rs = "mod parser;\npub(crate) mod lexer;\nuse crate::ast::node;\nuse crate::ast::{Node, Kind};\nuse super::util;\nuse std::fmt;\n".to_owned();
    let got = import_specifiers(&rs, &Some("rust".to_owned()));
    let specs: Vec<(&str, SpecifierKind)> = got.iter().map(|(s, k)| (s.as_str(), *k)).collect();
    assert_eq!(
        specs,
        vec![
            ("mod:parser", SpecifierKind::ModDeclaration),
            ("mod:lexer", SpecifierKind::ModDeclaration),
            ("use:crate::ast::node", SpecifierKind::UsePath),
            ("use:super::util", SpecifierKind::UsePath),
        ]
    );
}

#[test]
fn resolves_rust_modules_against_module_dirs_and_crate_roots() {
    let fe = entities(&["src/lib.rs", "src/parser.rs", "src/ast/mod.rs", "src/ast/node.rs", "src/a/util.rs"]);
    assert_eq!(resolve_rust_module("src/lib.rs", "mod:parser", &fe).as_deref(), Some("src/parser.rs"));
    assert_eq!(resolve_rust_module("src/lib.rs", "mod:ast", &fe).as_deref(), Some("src/ast/mod.rs"));
    assert_eq!(
        resolve_rust_module("src/parser.rs", "use:crate::ast::node::Node", &fe).as_deref(),
        Some("src/ast/node.rs")
    );
    assert_eq!(resolve_rust_module("src/a/b.rs", "use:super::util", &fe).as_deref(), Some("src/a/util.rs"));
    assert_eq!(resolve_rust_module("src/lib.rs", "use:std::fmt", &fe), None);
    assert_eq!(resolve_rust_module("src/lib.rs", "other", &fe), None);
}

#[test]
fn resolves_relative_specifiers_with_extensions() {
    let fe = entities(&["web/a.ts", "web/lib/index.js", "pkg/utils.py", "pkg/__init__.py"]);
    assert_eq!(resolve_relative_import("web/main.ts", "./a", &fe).as_deref(), Some("web/a.ts"));
    assert_eq!(resolve_relative_import("web/x/main.ts", "../lib", &fe).as_deref(), Some("web/lib/index.js"));
    assert_eq!(resolve_relative_import("web/main.ts", "../../escape", &fe), None);
    assert_eq!(resolve_relative_import("pkg/sub/mod.py", ".utils", &fe).as_deref(), Some("pkg/utils.py"));
    assert_eq!(resolve_relative_import("", "./a", &fe), None);
}

#[test]
fn import_edges_link_files_to_resolved_targets() {
    let fe = entities(&["web/main.ts", "web/a.ts", "src/lib.rs", "src/parser.rs"]);
    let texts = vec![
        ("web/main.ts".to_owned(), "import a from './a';\nimport m from './missing';\n".to_owned()),
        ("src/lib.rs".to_owned(), "mod parser;\nmod gone;\n".to_owned()),
    ];
    let files = vec![scanned("web/main.ts", "typescript"), scanned("src/lib.rs", "rust"), scanned("web/a.ts", "typescript")];
    let edges = import_edges(&files, &texts, &fe);
    let got: Vec<(&str, &str, &str)> = edges
        .iter()
        .map(|e| (e.source_entity_id.as_str(), e.target_entity_id.as_str(), e.specifier.as_str()))
        .collect();
    assert_eq!(
        got,
        vec![
            ("file:web/main.ts", "file:web/a.ts", "./a"),
            ("file:src/lib.rs", "file:src/parser.rs", "mod:parser"),
        ]
    );
    assert_eq!(edges[1].kind, SpecifierKind::ModDeclaration);
    assert_eq!(edges[0].id, relation_id("file:web/main.ts", "file:web/a.ts", "imports"));
}
