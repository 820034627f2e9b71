use cce_engine::ignore::{builtin_skip_reason, is_internal_or_generated, is_sensitive_name};
use cce_engine::repository::{
    admit_file, content_hash, entry_file_name, is_probably_binary, language_for_path, line_count,
    loose_ref_oid, origin_remote, packed_ref_oid, parse_head, repository_id, valid_oid, Admission,
    HeadTarget, assemble_scan, outside_data_root, WalkedFile,
};
use cce_engine::config::IndexOptions;

#[test]
fn lockfiles_are_builtin_ignored() {
    for name in [
        "Cargo.lock",
        "uv.lock",
        "yarn.lock",
        "poetry.lock",
        "flake.lock",
        "deno.lock",
        "bun.lockb",
        "package-lock.json",
        "npm-shrinkwrap.json",
        "pnpm-lock.yaml",
        "go.sum",
    ] {
        assert_eq!(builtin_skip_reason(name), Some("lockfile"), "{name}");
    }
}

#[test]
fn regular_files_are_not_ignored() {
    for name in [
        "main.rs",
        "Cargo.toml",
        "package.json",
        "pnpm-workspace.yaml",
        "go.mod",
        "unlock.rs",
        "deadlock.rs",
        "style.css",
    ] {
        assert_eq!(builtin_skip_reason(name), None, "{name}");
    }
}

#[test]
fn minified_assets_are_ignored() {
    assert_eq!(builtin_skip_reason("app.min.js"), Some("minified"));
    assert_eq!(builtin_skip_reason("site.min.css"), Some("minified"));
    assert_eq!(builtin_skip_reason("bundle.js.map"), Some("minified"));
    assert_eq!(builtin_skip_reason("app.js"), None);
}

#[test]
fn sensitive_names() {
    assert!(is_sensitive_name(".env"));
    assert!(is_sensitive_name(".env.production"));
    assert!(is_sensitive_name("server.pem"));
    assert!(is_sensitive_name("id_ed25519"));
    assert!(!is_sensitive_name("config.rs"));
}

#[test]
fn detects_binary_nul() {
    assert!(is_probably_binary(b"hello\0world"));
    assert!(!is_probably_binary(b"hello\nworld"));
}

#[test]
fn recognizes_languages() {
    assert_eq!(language_for_path("src/lib.rs"), Some("rust"));
    assert_eq!(language_for_path("app/page.tsx"), Some("tsx"));
}

#[test]
fn flags_sensitive_names() {
    assert!(is_sensitive_name(".env"));
    assert!(is_sensitive_name(".env.production"));
    assert!(is_sensitive_name("server.key"));
    assert!(is_sensitive_name("id_ed25519"));
    assert!(!is_sensitive_name("environment.rs"));
    assert!(!is_sensitive_name("keys.ts"));
}

// ---- further cases -----------------------------------------------------------

#[test]
fn invalid_utf8_is_binary() {
    assert!(is_probably_binary(&[0x66, 0xff, 0x66]));
    assert!(!is_probably_binary("héllo".as_bytes()));
}

#[test]
fn line_count_is_newlines_plus_one() {
    assert_eq!(line_count(b""), 0);
    assert_eq!(line_count(b"a"), 1);
    assert_eq!(line_count(b"a\n"), 2);
    assert_eq!(line_count(b"a\nb"), 2);
    assert_eq!(line_count(b"a\nb\n"), 3);
}

#[test]
fn unknown_extension_has_no_language() {
    assert_eq!(language_for_path("README"), None);
    assert_eq!(language_for_path("notes.txt"), None);
}

#[test]
fn file_name_is_the_last_component() {
    assert_eq!(entry_file_name("src/lib.rs"), "lib.rs");
    assert_eq!(entry_file_name("lib.rs"), "lib.rs");
}

#[test]
fn object_ids_are_full_length_hex() {
    assert!(valid_oid("0123456789abcdef0123456789abcdef01234567"));
    assert!(valid_oid("0123456789ABCDEF0123456789abcdef01234567"));
    assert!(!valid_oid("0123456789abcdeg0123456789abcdef01234567"));
    assert!(!valid_oid("0123"));
}

#[test]
fn head_names_a_branch_or_a_detached_commit() {
    match parse_head("ref: refs/heads/main\n") {
        HeadTarget::Reference(r) => assert_eq!(r, "refs/heads/main"),
        other => panic!("unexpected {other:?}"),
    }
    let oid = "0123456789abcdef0123456789abcdef01234567";
    match parse_head(&format!("{oid}\n")) {
        HeadTarget::Detached(o) => assert_eq!(o, oid),
        other => panic!("unexpected {other:?}"),
    }
    assert!(matches!(parse_head("garbage"), HeadTarget::Invalid));
    assert_eq!(loose_ref_oid(&format!("{oid}\n")), Some(oid.to_owned()));
    assert_eq!(loose_ref_oid("not an oid\n"), None);
}

#[test]
fn packed_refs_are_looked_up_by_name() {
    let oid = "0123456789abcdef0123456789abcdef01234567";
    let text = format!("# pack-refs with: peeled\n{oid} refs/heads/main\n");
    assert_eq!(packed_ref_oid(&text, "refs/heads/main"), Some(oid.to_owned()));
    assert_eq!(packed_ref_oid(&text, "refs/heads/other"), None);
}

#[test]
fn origin_remote_reads_the_origin_url() {
    let config = "[core]\n\tbare = false\n[remote \"origin\"]\n\turl = git@example.com:x/y.git\n";
    assert_eq!(origin_remote(config), Some("git@example.com:x/y.git".to_owned()));
    assert_eq!(origin_remote("[core]\n"), None);
}

#[test]
fn digests_are_stable_hex() {
    let a = content_hash(b"abc");
    assert_eq!(a.len(), 64);
    assert_eq!(a, content_hash(b"abc"));
    assert_ne!(a, content_hash(b"abd"));
    assert!(repository_id("/tmp/repo").starts_with("repo_"));
}

#[test]
fn sensitive_and_oversized_files_are_refused() {
    let options = IndexOptions::default();
    assert!(matches!(admit_file(10, ".env", &options), Admission::Sensitive));
    assert!(matches!(admit_file(10, "main.rs", &options), Admission::Read));
    assert!(matches!(
        admit_file(options.max_file_bytes + 1, "main.rs", &options),
        Admission::TooLarge
    ));
}

#[test]
fn engine_state_directories_are_internal() {
    assert!(is_internal_or_generated(".git", 1, true));
    assert!(!is_internal_or_generated("src", 1, true));
}

fn walked(path: &str, bytes: &[u8]) -> WalkedFile {
    WalkedFile {
        relative_path: path.to_owned(),
        absolute_path: format!("/repo/{path}"),
        size_bytes: bytes.len() as u64,
        mtime_ms: 7,
        bytes: Some(bytes.to_vec()),
    }
}

#[test]
fn scan_prunes_cce_data_dirs() {
    // The walker prunes engine state directories by name and the configured
    // data dir by path; what it hands on is classified and sorted.
    for name in [".cce", ".cce-bench-external", ".cce_sandbox"] {
        assert!(is_internal_or_generated(name, 1, true), "{name}");
    }
    assert!(!is_internal_or_generated("bench-data", 1, true));
    let data_root = Some("/repo/bench-data".to_owned());
    assert!(!outside_data_root("/repo/bench-data/store.bin", &data_root));
    assert!(outside_data_root("/repo/bench-database/x", &data_root));
    let entries = vec![
        walked("src/main.rs", b"fn main() {}\n"),
        walked("bench-data/store.bin", b"artifacts"),
        walked(".cceignore", b"# rules\n"),
    ];
    let scan = assemble_scan(entries, data_root, &IndexOptions::default());
    let paths: Vec<&str> = scan.files.iter().map(|f| f.relative_path.as_str()).collect();
    assert_eq!(paths, vec![".cceignore", "src/main.rs"]);
    assert_eq!(scan.file_count, 2);
}

#[test]
fn assembled_scans_sort_and_classify() {
    let mut options = IndexOptions::default();
    options.max_file_bytes = 25;
    let mut big = walked("big.rs", b"x");
    big.size_bytes = 26;
    big.bytes = None;
    let entries = vec![
        walked("z.rs", b"fn z() {}\n"),
        walked("Cargo.lock", b"lock"),
        walked(".env", b"SECRET=1"),
        big,
        walked("blob.bin", &[0, 159, 146, 150]),
        walked("a.rs", b"fn a() {}\nfn b() {}\n"),
    ];
    let scan = assemble_scan(entries, None, &options);
    let paths: Vec<&str> = scan.files.iter().map(|f| f.relative_path.as_str()).collect();
    assert_eq!(paths, vec!["a.rs", "z.rs"]);
    assert_eq!(scan.file_count, 2);
    assert_eq!(scan.skipped_large_files, vec!["big.rs".to_owned()]);
    assert_eq!(scan.skipped_sensitive_files, vec![".env".to_owned()]);
    assert_eq!(scan.skipped_binary_files, vec!["blob.bin".to_owned()]);
    assert_eq!(scan.skipped_builtin_files.len(), 1);
    assert_eq!(scan.skipped_builtin_files[0].0, "Cargo.lock");
    assert_eq!(scan.source_bytes, 30);
    let a = &scan.files[0];
    assert_eq!(a.line_count, 3);
    assert_eq!(a.content_hash, content_hash(b"fn a() {}\nfn b() {}\n"));
    assert_eq!(a.language.as_deref(), Some("rust"));
}
