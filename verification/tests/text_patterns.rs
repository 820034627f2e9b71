use cce_engine::diff::{diff_grep, parse_hunk_header, DiffGrepError};
use cce_engine::model::SearchRoute;
use cce_engine::indexing::{chunk_ranges, document_id, is_test, knowledge_group, relation_id};
use cce_engine::pattern::{line_of_byte, literal_anchors, translate_template};
use cce_engine::relations::{
    basename, crate_source_root, is_test_path, normalize_components, parent_dir, rust_module_dir,
    strip_test_affix, test_target_paths,
};

#[test]
fn translate_comby_spellings() {
    assert_eq!(translate_template("foo(:[x])"), "foo($X)");
    assert_eq!(translate_template("foo(...)"), "foo($$$)");
    assert_eq!(translate_template("if :[cond] { ... }"), "if $COND { $$$ }");
    assert_eq!(translate_template("$A.lock()"), "$A.lock()");
}

#[test]
fn chunks_on_utf8_and_newline_boundaries() {
    let text = "fn one() {}\nfn 二() {}\nfn three() {}\n";
    let ranges = chunk_ranges(text, 0, text.len(), 18);
    assert!(ranges.len() > 1);
    assert!(ranges
        .iter()
        .all(|(start, end)| text.is_char_boundary(*start) && text.is_char_boundary(*end)));
}

// ---- further cases -----------------------------------------------------------

#[test]
fn chunks_prefer_line_ends_past_half_the_limit() {
    let text = "aaaa\nbbbb\ncccc\n";
    assert_eq!(chunk_ranges(text, 0, text.len(), 6), vec![(0, 5), (5, 10), (10, 15)]);
    assert_eq!(chunk_ranges(text, 0, text.len(), 8), vec![(0, 8), (8, 15)]);
    assert_eq!(chunk_ranges(text, 0, text.len(), 100), vec![(0, 15)]);
    assert_eq!(chunk_ranges(text, 0, text.len(), 0), vec![(0, 15)]);
}

#[test]
fn line_of_byte_is_one_based() {
    let source = "a\nb\nc";
    assert_eq!(line_of_byte(source, 0), 1);
    assert_eq!(line_of_byte(source, 2), 2);
    assert_eq!(line_of_byte(source, 4), 3);
}

#[test]
fn hunk_headers_give_old_and_new_starts() {
    assert_eq!(parse_hunk_header("@@ -12,3 +14,5 @@ fn x()"), Some((12, 14)));
    assert_eq!(parse_hunk_header("@@ -1 +1 @@"), Some((1, 1)));
    assert_eq!(parse_hunk_header("not a hunk"), None);
}

#[test]
fn ids_are_prefixed_digests() {
    let doc = document_id("entity_x", "raw_code", 0, 10);
    assert!(doc.starts_with("doc_"));
    assert_eq!(doc.len(), 4 + 32);
    assert_eq!(doc, document_id("entity_x", "raw_code", 0, 10));
    assert_ne!(doc, document_id("entity_x", "raw_code", 0, 11));
    let rel = relation_id("a", "b", "calls");
    assert!(rel.starts_with("rel_"));
    assert_ne!(rel, relation_id("b", "a", "calls"));
}

#[test]
fn path_helpers() {
    assert_eq!(parent_dir("src/a/b.rs"), "src/a");
    assert_eq!(parent_dir("b.rs"), "");
    assert_eq!(basename("src/a/b.rs"), "b.rs");
    assert_eq!(rust_module_dir("src/a/mod.rs"), "src/a");
    assert_eq!(crate_source_root("crates/x/src/a/b.rs"), "crates/x/src");
    assert_eq!(normalize_components("src/./a/../b.rs"), Some("src/b.rs".to_owned()));
    assert_eq!(normalize_components("../b.rs"), None);
    assert_eq!(normalize_components("/abs/b.rs"), None);
}

#[test]
fn test_affixes_and_targets() {
    assert!(is_test_path("tests/t.rs"));
    assert!(!is_test_path("src/t.rs"));
    assert_eq!(strip_test_affix("test_parser"), Some("parser".to_owned()));
    assert_eq!(strip_test_affix("parser_test"), Some("parser".to_owned()));
    assert_eq!(strip_test_affix("test_"), None);
    assert_eq!(
        test_target_paths("web/app.test.ts"),
        vec![
            "web/app.ts".to_owned(),
            "web/app.tsx".to_owned(),
            "web/app.js".to_owned(),
            "web/app.jsx".to_owned()
        ]
    );
    assert_eq!(test_target_paths("app.spec.tsx").len(), 4);
    assert!(test_target_paths("src/app.ts").is_empty());
    assert_eq!(
        test_target_paths("pkg/util_test.go"),
        vec!["pkg/util.go".to_owned(), "pkg/util.rs".to_owned()]
    );
    assert_eq!(
        test_target_paths("test_util.py"),
        vec!["util.py".to_owned(), "util.rs".to_owned()]
    );
}

#[test]
fn test_detection_and_knowledge_groups() {
    assert!(is_test("tests/a.rs", "anything"));
    assert!(!is_test("src/a.rs", "parse"));
    assert_eq!(knowledge_group("src/a/b.rs"), "src");
    assert_eq!(knowledge_group("crates/x/src/a.rs"), "crates/x");
    assert_eq!(knowledge_group("README.md"), "(root)");
}

#[test]
fn prefilter_matches_all_hit_files() {
    let prefilter = literal_anchors("fmt.Println($$$X)");
    assert_eq!(prefilter.anchors, vec!["fmt.Println("]);
    let source = "package main\nfunc main() {\n\tfmt.Println( \"hi\" )\n}\n";
    assert!(prefilter.is_file_candidate(source));
    assert!(!prefilter.is_file_candidate("package main\nfunc main() {}\n"));
}

#[test]
fn prefilter_whitespace_is_elastic() {
    let prefilter = literal_anchors("foo($A)");
    assert!(prefilter.is_file_candidate("foo ( bar )"));
    assert!(prefilter.is_file_candidate("foo(bar)"));
}

#[test]
fn prefilter_without_anchors_degenerates() {
    let prefilter = literal_anchors(":[x]");
    assert!(prefilter.anchors.is_empty());
    assert!(prefilter.is_file_candidate("anything at all"));
}

#[test]
fn prefilter_preserves_anchor_order() {
    let prefilter = literal_anchors("if :[c] { ... } else { ... }");
    assert!(prefilter.is_file_candidate("if ready { go() } else { stop() }"));
    assert!(!prefilter.is_file_candidate("if ready { go() }"));
}

#[test]
fn prefilter_escapes_meta_characters() {
    let prefilter = literal_anchors("a.b($X)");
    assert_eq!(prefilter.anchors, vec!["a.b("]);
    assert!(prefilter.is_file_candidate("let x = a.b(1);"));
    assert!(!prefilter.is_file_candidate("let x = axb(1);"));
}

#[test]
fn prefilter_splits_on_every_hole_kind() {
    let prefilter = literal_anchors("call($A, :[b], ..., $$$REST) + $$ + x");
    assert_eq!(prefilter.anchors, vec!["call(", ") + $$ + x"]);
}

fn commit_patch(commit: &str, timestamp: i64, entity_id: &str, text: &str) -> cce_engine::diff::CommitPatch {
    cce_engine::diff::CommitPatch {
        commit: commit.to_owned(),
        timestamp,
        entity_id: entity_id.to_owned(),
        text: text.to_owned(),
    }
}

#[test]
fn diff_grep_orders_recent_commits_first() {
    let first = "diff --git a/src/a.rs b/src/a.rs\n--- a/src/a.rs\n+++ b/src/a.rs\n@@ -10,3 +10,3 @@\n fn keep() {}\n-fn zebra_old() {}\n+fn zebra_new() {}\n";
    let second = "diff --git a/b.rs b/b.rs\n@@ -1 +1 @@\n+zebra here\n unrelated\n";
    let documents = vec![
        commit_patch("0123456789abcdef", 100, "ent_a", first),
        commit_patch("fedcba9876543210", 200, "ent_b", second),
    ];
    let hits = diff_grep(&documents, "snap", "repo", "zebra", 20).expect("valid pattern");
    assert_eq!(hits.len(), 2);
    assert_eq!(hits[0].document_id, "diff:ent_b:b.rs");
    assert_eq!(hits[0].symbol_name.as_deref(), Some("commit:fedcba987654"));
    assert_eq!(hits[0].snippet, "+zebra here\n");
    assert_eq!(hits[1].document_id, "diff:ent_a:src/a.rs");
    assert_eq!(hits[1].snippet, "-fn zebra_old() {}\n+fn zebra_new() {}\n");
    let address = hits[1].address.as_ref().expect("address");
    assert_eq!((address.start_line, address.end_line), (11, 11));
    assert_eq!(hits[1].evidence.len(), 2);
    assert_eq!(hits[1].route, SearchRoute::Diff);
    assert!(!hits[1].verified_current);
    assert_eq!(
        hits[1].explanation,
        vec!["regex matched 2 line(s) in the stored patch of commit 0123456789ab (committer time 100); post-/pre-image line numbers".to_owned()]
    );
    assert_eq!(diff_grep(&documents, "snap", "repo", "zebra", 1).expect("valid").len(), 1);
    assert_eq!(diff_grep(&documents, "snap", "repo", "zebra", 0).expect("valid").len(), 1);
    assert!(diff_grep(&documents, "snap", "repo", "absent", 5).expect("valid").is_empty());
}

#[test]
fn diff_grep_rejects_invalid_patterns_and_caps_matches() {
    let documents = vec![commit_patch("c", 1, "e", "diff --git a/x b/x\n@@ -1 +1 @@\n+a\n")];
    assert_eq!(
        diff_grep(&documents, "s", "r", "(", 5).unwrap_err(),
        DiffGrepError::InvalidPattern("(".to_owned())
    );
    let mut patch = "diff --git a/many.txt b/many.txt\n@@ -0,0 +1,33 @@\n".to_owned();
    for index in 0..33 {
        patch.push_str(&format!("+hit {index}\n"));
    }
    let documents = vec![commit_patch("c", 1, "e", &patch)];
    let hits = diff_grep(&documents, "s", "r", "hit", 5).expect("valid");
    assert_eq!(hits.len(), 1);
    assert_eq!(hits[0].evidence.len(), 32);
    assert_eq!(hits[0].explanation[1], "1 further matched line(s) truncated");
    let address = hits[0].address.as_ref().expect("address");
    assert_eq!((address.start_line, address.end_line), (1, 32));
}

#[test]
fn prefilter_makes_template_spaces_elastic() {
    let prefilter = literal_anchors("foo ( $A )");
    assert!(prefilter.is_file_candidate("foo(bar)"));
    assert!(prefilter.is_file_candidate("foo  (\n bar )"));
    assert!(!prefilter.is_file_candidate("fo o(bar)"));
}
