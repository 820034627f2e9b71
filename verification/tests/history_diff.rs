use cce_engine::history::{diff_texts, is_identifierish, truncate_utf8, MAX_FILE_PATCH_BYTES};
use cce_engine::history::{ChangeAction, FileOutcome, TreeChange, assemble_commit_diff, build_commit_diff, classify_change, load_text};

#[test]
fn diff_texts_extracts_changed_lines_and_ranges() {
    let before = "fn alpha() -> u32 {\n    compute_old()\n}\n";
    let after = "fn alpha() -> u32 {\n    compute_value()\n}\n\nfn beta_added() {}\n";
    let extraction = diff_texts(before, after);
    assert!(extraction.patch.contains("@@"));
    assert!(extraction.patch.contains("-    compute_old()\n"));
    assert!(extraction.patch.contains("+    compute_value()\n"));
    assert_eq!(extraction.added_ranges.first(), Some(&(2, 2)));
    assert_eq!(extraction.removed_ranges, vec![(2, 2)]);
    assert!(extraction
        .added_lines
        .iter()
        .any(|line| line.contains("compute_value")));
    assert!(extraction
        .added_lines
        .iter()
        .any(|line| line.contains("beta_added")));
    assert_eq!(extraction.removed_lines, vec!["    compute_old()".to_owned()]);
}

#[test]
fn diff_texts_renders_pure_addition() {
    let extraction = diff_texts("", "fn created() {}\n");
    assert!(extraction.patch.contains("+fn created() {}"));
    assert_eq!(extraction.added_ranges, vec![(1, 1)]);
    assert!(extraction.removed_lines.is_empty());
}

#[test]
fn diff_texts_caps_patch_size() {
    let before = "let v = 0;\n".repeat(400);
    let mut after = String::new();
    for index in 0..400 {
        after.push_str(&format!("let v{index} = {index};\n"));
    }
    let extraction = diff_texts(&before, &after);
    assert!(extraction.patch.len() <= MAX_FILE_PATCH_BYTES + 64);
    assert!(extraction.patch.contains("[diff truncated]"));
}

#[test]
fn identifierish_filters_punctuation_only_lines() {
    assert!(is_identifierish("let compute_value = 1;"));
    assert!(is_identifierish("fn beta_added() {}"));
    assert!(!is_identifierish("}"));
    assert!(!is_identifierish("});"));
    assert!(!is_identifierish(""));
    assert!(!is_identifierish("//"));
}

#[test]
fn truncate_utf8_respects_char_boundaries() {
    let mut text = "abédef".to_owned();
    truncate_utf8(&mut text, 4, "…");
    assert_eq!(text, "abé…");
    let mut short = "abc".to_owned();
    truncate_utf8(&mut short, 10, "…");
    assert_eq!(short, "abc");
}

// ---- further cases -----------------------------------------------------------

#[test]
fn identical_texts_have_an_empty_diff() {
    let extraction = diff_texts("same\n", "same\n");
    assert!(extraction.patch.is_empty());
    assert!(extraction.added_lines.is_empty());
    assert!(extraction.removed_lines.is_empty());
    assert!(extraction.added_ranges.is_empty());
    assert!(extraction.removed_ranges.is_empty());
}

#[test]
fn pure_removal_reports_old_ranges() {
    let extraction = diff_texts("fn gone() {}\n", "");
    assert!(extraction.patch.contains("-fn gone() {}"));
    assert_eq!(extraction.removed_ranges, vec![(1, 1)]);
    assert_eq!(extraction.removed_lines, vec!["fn gone() {}".to_owned()]);
    assert!(extraction.added_lines.is_empty());
}

#[test]
fn truncate_utf8_at_exact_length_keeps_text() {
    let mut text = "abcd".to_owned();
    truncate_utf8(&mut text, 4, "…");
    assert_eq!(text, "abcd");
    let mut cut = "abcde".to_owned();
    truncate_utf8(&mut cut, 4, "~");
    assert_eq!(cut, "abcd~");
}

#[test]
fn changes_are_withheld_listed_or_extracted() {
    assert_eq!(classify_change("config/.env", false, false, 0), ChangeAction::Withhold);
    assert_eq!(classify_change("config/.env", true, false, 0), ChangeAction::Extract);
    assert_eq!(
        classify_change("Cargo.lock", false, false, 0),
        ChangeAction::List("Cargo.lock (lockfile)".to_owned())
    );
    assert_eq!(
        classify_change("src/a.rs", false, true, 0),
        ChangeAction::List("src/a.rs (ignored)".to_owned())
    );
    assert_eq!(
        classify_change("src/a.rs", false, false, 512),
        ChangeAction::List("src/a.rs (patch budget exhausted)".to_owned())
    );
    assert_eq!(classify_change("src/a.rs", false, false, 511), ChangeAction::Extract);
}

#[test]
fn commit_document_lists_paths_and_diff_lines() {
    let before = "fn alpha() -> u32 {\n    compute_old()\n}\n";
    let after = "fn alpha() -> u32 {\n    compute_value()\n}\n\nfn beta_added() {}\n";
    let extraction = diff_texts(before, after);
    let extraction_patch = extraction.patch.clone();
    let first_added = extraction.added_ranges.iter().map(|r| r.0).min().unwrap();
    let last_added = extraction.added_ranges.iter().map(|r| r.1).max().unwrap();
    let files = vec![
        FileOutcome::Listed("Cargo.lock (lockfile)".to_owned()),
        FileOutcome::Diffed {
            path: "src/a.rs".to_owned(),
            before: true,
            after: true,
            extraction,
        },
        FileOutcome::Failed {
            path: "img.png".to_owned(),
            reason: "binary".to_owned(),
        },
    ];
    let diff = assemble_commit_diff("abc123", "Fix bug\n\nDetails", -7, "repo", "snap", &files);
    assert_eq!(diff.id, "abc123");
    assert_eq!(diff.timestamp, -7);
    assert_eq!(diff.subject, "Fix bug");
    assert_eq!(
        diff.patch,
        format!("diff --git a/src/a.rs b/src/a.rs\n--- a/src/a.rs\n+++ b/src/a.rs\n{extraction_patch}")
    );
    assert!(diff.body.starts_with(
        "commit abc123\ndate: -7\n\nFix bug\n\nDetails\n\nchanged paths:\n- Cargo.lock (lockfile)\n- src/a.rs\n- img.png (binary)\n\ndiff lines:\n### src/a.rs\n"
    ));
    assert!(diff.body.contains("\n-    compute_old()\n"));
    assert_eq!(diff.evidence.len(), 2);
    assert_eq!(diff.evidence[0].path, "src/a.rs");
    assert_eq!(diff.evidence[0].repository_id, "repo");
    assert_eq!(diff.evidence[0].snapshot_id, "snap");
    assert_eq!((diff.evidence[0].start_line, diff.evidence[0].end_line), (first_added, last_added));
    assert_eq!((diff.evidence[1].start_line, diff.evidence[1].end_line), (2, 2));
    assert_eq!((diff.evidence[1].start_byte, diff.evidence[1].end_byte), (0, 0));
}

#[test]
fn commit_document_without_diffs_has_no_diff_lines() {
    let files = vec![FileOutcome::Listed("bundle.js.map (minified)".to_owned())];
    let long_message = "é".repeat(600);
    let diff = assemble_commit_diff("c", &long_message, 0, "r", "s", &files);
    assert!(diff.patch.is_empty());
    assert!(diff.evidence.is_empty());
    assert!(!diff.body.contains("diff lines:"));
    // 1024 bytes of two-byte chars: 512 of them, then 160 bytes for the subject.
    assert!(diff.body.contains(&format!("\n\n{}\n\nchanged paths:\n", "é".repeat(512))));
    assert_eq!(diff.subject, format!("{}…", "é".repeat(80)));
}

#[test]
fn commit_diff_from_tree_changes() {
    let change = |path: &str, before: Option<&[u8]>, after: Option<&[u8]>, ignored: bool| TreeChange {
        path: path.to_owned(),
        before: before.map(<[u8]>::to_vec),
        after: after.map(<[u8]>::to_vec),
        ignored,
    };
    let big = vec![b'a'; 204_801];
    let changes = vec![
        change("config/.env", None, Some(b"SECRET=1\n"), false),
        change("Cargo.lock", Some(b"a\n"), Some(b"b\n"), false),
        change("src/new.rs", None, Some(b"fn created() {}\n"), false),
        change("img.png", None, Some(b"\x00\x01"), false),
        change("big.txt", None, Some(&big), false),
        change("vendor/x.rs", None, Some(b"fn x() {}\n"), true),
    ];
    let diff = build_commit_diff("c0ffee", "Add things", 1, "repo", "snap", false, &changes);
    assert!(!diff.body.contains(".env"));
    assert!(diff.body.contains(
        "changed paths:\n- Cargo.lock (lockfile)\n- src/new.rs\n- img.png (binary)\n- big.txt (too large)\n- vendor/x.rs (ignored)\n"
    ));
    assert!(diff.patch.starts_with("diff --git a/src/new.rs b/src/new.rs\n--- /dev/null\n+++ b/src/new.rs\n"));
    assert!(diff.patch.contains("+fn created() {}"));
    assert!(diff.body.contains("\ndiff lines:\n### src/new.rs\n+fn created() {}\n"));
    assert_eq!(diff.evidence.len(), 1);
    assert_eq!((diff.evidence[0].start_line, diff.evidence[0].end_line), (1, 1));

    let with_sensitive = build_commit_diff("c0ffee", "Add things", 1, "repo", "snap", true, &changes);
    assert!(with_sensitive.body.contains("- config/.env\n"));
}

#[test]
fn blob_sides_load_as_text() {
    assert_eq!(load_text(&None), Ok(String::new()));
    assert_eq!(load_text(&Some(b"hello".to_vec())), Ok("hello".to_owned()));
    assert_eq!(load_text(&Some(vec![0xff])), Err("binary"));
    assert_eq!(load_text(&Some(vec![b'a'; 204_801])), Err("too large"));
}
