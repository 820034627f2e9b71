use cce_engine::descriptor::{
    deterministic_role_summary, file_descriptor, leading_doc_comment, symbol_descriptor,
};
use cce_engine::parser::{EntityKind, ParsedCall, ParsedFile, ParsedUnit};
use cce_engine::repository::ScannedFile;

fn scanned(path: &str, language: Option<&str>) -> ScannedFile {
    ScannedFile {
        relative_path: path.to_owned(),
        absolute_path: format!("/repo/{path}"),
        language: language.map(str::to_owned),
        content_hash: "hash".to_owned(),
        size_bytes: 0,
        mtime_ms: 0,
        line_count: 0,
        cached_bytes: None,
    }
}

fn unit(kind: EntityKind, name: &str, signature: Option<&str>, start_line: u32) -> ParsedUnit {
    ParsedUnit {
        kind,
        name: name.to_owned(),
        signature: signature.map(str::to_owned),
        start_byte: 0,
        end_byte: 10,
        start_line,
        end_line: start_line,
        parent_unit: None,
        syntax_kind: "item".to_owned(),
        type_references: Vec::new(),
    }
}

fn call(caller: Option<usize>, name: &str) -> ParsedCall {
    ParsedCall {
        caller,
        name: name.to_owned(),
        start_byte: 0,
        end_byte: 1,
    }
}

#[test]
fn doc_comment_lines_are_joined_in_file_order() {
    let text = "/// Adds two.\n/// Returns sum.\nfn add() {}\n";
    assert_eq!(
        leading_doc_comment(text, 3),
        Some("Adds two. Returns sum.".to_owned())
    );
    assert_eq!(leading_doc_comment(text, 4), None);
    assert_eq!(leading_doc_comment(text, 1), None);
    assert_eq!(leading_doc_comment(text, 0), None);
}

#[test]
fn doc_comment_above_a_one_based_unit_line() {
    let text = "/// Open the store.\nfn open() {}\n";
    assert_eq!(leading_doc_comment(text, 2), Some("Open the store.".to_owned()));
}

#[test]
fn doc_comment_walks_block_comments_and_doc_attributes() {
    let block = "/**\n * Block doc.\n */\nfn f() {}\n";
    assert_eq!(leading_doc_comment(block, 4), Some("Block doc.".to_owned()));
    let attr = "#[doc = \"Hello\"]\n#[inline]\nfn g() {}\n";
    assert_eq!(leading_doc_comment(attr, 3), Some("Hello".to_owned()));
    let gap = "// a\n\n// b\nfn x() {}\n";
    assert_eq!(leading_doc_comment(gap, 4), Some("b".to_owned()));
    let decorated = "# Doc\n@decorator\ndef f(): pass\n";
    assert_eq!(leading_doc_comment(decorated, 3), Some("Doc".to_owned()));
}

#[test]
fn doc_comment_stops_after_four_lines() {
    let text = "// one\n// two\n// three\n// four\n// five\nfn f() {}\n";
    assert_eq!(
        leading_doc_comment(text, 6),
        Some("two three four five".to_owned())
    );
}

#[test]
fn file_descriptor_lists_head_and_signatures() {
    let text = "use std::fmt;\n// note\nfn main() {}\n";
    let parsed = ParsedFile {
        units: vec![unit(EntityKind::Function, "main", Some("fn main()"), 3)],
        calls: Vec::new(),
        parsed: true,
        has_syntax_errors: false,
        parser: Some("rust".to_owned()),
    };
    let file = scanned("src/main.rs", Some("rust"));
    assert_eq!(
        file_descriptor(&file, text, &parsed),
        "src/main.rs (rust)\n\nuse std::fmt;\n// note\n\nfn main()"
    );
    let bare = ParsedFile {
        units: vec![unit(EntityKind::Struct, "Point", None, 1)],
        calls: Vec::new(),
        parsed: true,
        has_syntax_errors: false,
        parser: None,
    };
    assert_eq!(
        file_descriptor(&scanned("p.txt", None), "plain\n", &bare),
        "p.txt (text)\n\nStruct Point"
    );
}

#[test]
fn file_descriptor_is_capped() {
    let text = "// ".to_owned() + &"x".repeat(5000) + "\n";
    let parsed = ParsedFile {
        units: Vec::new(),
        calls: Vec::new(),
        parsed: false,
        has_syntax_errors: false,
        parser: None,
    };
    let descriptor = file_descriptor(&scanned("a.rs", Some("rust")), &text, &parsed);
    assert_eq!(descriptor.len(), 2048);
    assert!(descriptor.starts_with("a.rs (rust)\n\n// xxx"));
}

#[test]
fn role_summary_groups_by_kind_name() {
    let parsed = ParsedFile {
        units: vec![
            unit(EntityKind::Struct, "Store", None, 1),
            unit(EntityKind::Function, "open", None, 2),
            unit(EntityKind::Function, "close", None, 3),
        ],
        calls: Vec::new(),
        parsed: true,
        has_syntax_errors: true,
        parser: None,
    };
    assert_eq!(
        deterministic_role_summary(&scanned("src/store.rs", Some("rust")), &parsed),
        "File `src/store.rs` is a rust source artifact. Parser status: parsed with syntax errors. Defined entities: function: open, close; struct: Store. This summary is deterministic navigation metadata and must be verified against the cited source."
    );
    let empty = ParsedFile {
        units: Vec::new(),
        calls: Vec::new(),
        parsed: false,
        has_syntax_errors: false,
        parser: None,
    };
    assert_eq!(
        deterministic_role_summary(&scanned("notes", None), &empty),
        "File `notes` is a unknown-language source artifact. Parser status: file-level only. Defined entities: none extracted. This summary is deterministic navigation metadata and must be verified against the cited source."
    );
}

#[test]
fn symbol_descriptor_sorts_and_dedups_callees() {
    let text = "fn main() {}\n";
    let mut main = unit(EntityKind::Function, "handleRequest", Some("fn main()"), 1);
    main.type_references = vec!["Request".to_owned(), "Response".to_owned()];
    let parsed = ParsedFile {
        units: vec![main],
        calls: vec![
            call(Some(0), "zeta"),
            call(Some(0), "alpha"),
            call(Some(0), "zeta"),
            call(None, "beta"),
        ],
        parsed: true,
        has_syntax_errors: false,
        parser: None,
    };
    assert_eq!(
        symbol_descriptor("src/main.rs", text, &parsed, 0, "handle request"),
        "function src/main.rs::handleRequest in src/main.rs (handle request) — fn main()\ncalls: alpha, zeta\nuses types: Request, Response"
    );
    assert_eq!(symbol_descriptor("src/main.rs", text, &parsed, 7, ""), "src/main.rs");
}

#[test]
fn symbol_descriptor_carries_the_doc_comment_above_the_unit() {
    let text = "/// Open the store.\nfn open() {}\n";
    let parsed = ParsedFile {
        units: vec![unit(EntityKind::Function, "open", Some("fn open()"), 2)],
        calls: Vec::new(),
        parsed: true,
        has_syntax_errors: false,
        parser: None,
    };
    assert_eq!(
        symbol_descriptor("src/lib.rs", text, &parsed, 0, ""),
        "function src/lib.rs::open in src/lib.rs — fn open()\nOpen the store."
    );
}

#[test]
fn file_descriptor_cuts_back_to_a_char_boundary() {
    let text = "//  ".to_owned() + &"é".repeat(3000) + "\n";
    let parsed = ParsedFile {
        units: Vec::new(),
        calls: Vec::new(),
        parsed: false,
        has_syntax_errors: false,
        parser: None,
    };
    let descriptor = file_descriptor(&scanned("a.rs", Some("rust")), &text, &parsed);
    assert_eq!(descriptor.len(), 2047);
    assert!(descriptor.ends_with('é'));
}
