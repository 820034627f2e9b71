use cce_engine::browse::{file_content, grep, grep_hit, GrepError, GrepFile, GrepRequest};
use cce_engine::config::EngineConfig;
use cce_engine::dataflow::{
    graph_property, joern_edge_kind, joern_node_kind, node_entity_kind, normalize_joern_path,
    parse_graphml, unescape_xml, ArtifactEdgeKind, GraphmlErrorKind,
};
use cce_engine::dense::{tokens, DeterministicEmbedder, EmbedderError, SliceError, SliceReader};
use cce_engine::parser::EntityKind;
use cce_engine::providers::{is_secret_env, CommandOutput};
use cce_engine::dense::{token_slot};

#[test]
fn rejects_non_finite_confidence() {
    assert!(!f32::NAN.is_finite());
    assert!(!(0.0..=1.0).contains(&1.1));
}

#[test]
fn maps_precise_edge_kinds_without_inference() {
    assert!(matches!(ArtifactEdgeKind::Taint, ArtifactEdgeKind::Taint));
    assert_eq!(node_entity_kind("expression"), EntityKind::Unknown);
}

#[test]
fn graphml_parser_unescapes_code_properties() {
    let graphml = br#"<graphml><key id="code" attr.name="CODE"/><graph><node id="n"><data key="code">a &lt; b &amp;&amp; b &gt; 0</data></node></graph></graphml>"#;
    let (nodes, _) = parse_graphml(graphml).expect("parse GraphML");
    assert_eq!(
        graph_property(&nodes[0].properties, &["CODE"]).as_deref(),
        Some("a < b && b > 0")
    );
}

#[test]
fn secret_env_vars_are_scrubbed() {
    assert!(is_secret_env("GITHUB_TOKEN"));
    assert!(is_secret_env("AWS_SECRET_ACCESS_KEY"));
    assert!(is_secret_env("MY_API_KEY"));
    assert!(!is_secret_env("PATH"));
    assert!(!is_secret_env("RUSTUP_HOME"));
}

fn profile_hash(config: &EngineConfig, overrides: &[(&str, &str)]) -> String {
    let profile = config.profile(1, "0.1.0");
    let mut text = String::new();
    for option in &profile.options {
        let value = overrides
            .iter()
            .find(|(key, _)| *key == option.key)
            .map_or(option.value.as_str(), |(_, value)| value);
        text.push_str(&format!("{}={}\n", option.key, value));
    }
    blake3::hash(text.as_bytes()).to_hex().to_string()
}

#[test]
fn graph_materialization_versions_are_profiled() {
    let config = EngineConfig::for_repository("/tmp/repo", None);
    let profile = config.profile(1, "0.1.0");
    assert_eq!(profile.option("scip_ingest").as_deref(), Some("v2"));
    assert_eq!(profile.option("call_edges").as_deref(), Some("v2"));
    assert_eq!(profile.option("type_refs").as_deref(), Some("v2"));
    assert_eq!(profile.option("descriptor_bodies").as_deref(), Some("v2"));
    let legacy = [
        ("scip_ingest", "v1"),
        ("call_edges", "v1"),
        ("type_refs", "v1"),
        ("descriptor_bodies", "v1"),
    ];
    assert_ne!(
        profile_hash(&config, &[]),
        profile_hash(&config, &legacy),
        "v1 graph materializations must not hash-match the v2 profile"
    );
}

#[test]
fn disabled_providers_profile_as_off() {
    let mut config = EngineConfig::for_repository("/tmp/repo", None);
    config.providers.enabled = false;
    let profile = config.profile(1, "0.1.0");
    assert_eq!(profile.option("scip_ingest").as_deref(), Some("off"));
    assert_eq!(profile.option("call_edges").as_deref(), Some("v2"));
}

// ---- further cases -----------------------------------------------------------

const GRAPH: &[u8] = br#"<?xml version="1.0"?>
<graphml>
  <key id="labelV" for="node" attr.name="labelV" attr.type="string"/>
  <key id="filename" for="node" attr.name="FILENAME" attr.type="string"/>
  <key id="labelE" for="edge" attr.name="labelE" attr.type="string"/>
  <graph edgedefault="directed">
    <node id="n1"><data key="labelV">CALL</data><data key="filename">/repo/main.c</data></node>
    <node id="n2"><data key="labelV">RETURN</data></node>
    <edge id="e1" source="n1" target="n2"><data key="labelE">REACHING_DEF</data></edge>
    <edge id="e2" source="n1" target="missing"><data key="labelE">CDG</data></edge>
    <edge id="ignored" source="n1" target="n2"><data key="labelE">CFG</data></edge>
  </graph>
</graphml>"#;

#[test]
fn graphml_nodes_edges_and_kinds() {
    let (nodes, edges) = parse_graphml(GRAPH).expect("parse GraphML");
    assert_eq!(nodes.len(), 2);
    assert_eq!(edges.len(), 3);
    assert_eq!(nodes[0].id, "n1");
    assert_eq!(
        graph_property(&nodes[0].properties, &["FILENAME", "filename"]).as_deref(),
        Some("/repo/main.c")
    );
    assert_eq!(edges[1].target, "missing");
    assert_eq!(joern_edge_kind(&edges[0]), Some(ArtifactEdgeKind::Data));
    assert_eq!(joern_edge_kind(&edges[1]), Some(ArtifactEdgeKind::Control));
    assert_eq!(joern_edge_kind(&edges[2]), None);
}

#[test]
fn graphml_rejects_malformed_documents() {
    let unterminated = parse_graphml(b"<graphml><node id=\"n\"").unwrap_err();
    assert_eq!(unterminated.kind, GraphmlErrorKind::UnterminatedTag);
    let bad_entity = unescape_xml(&"a &bogus; b".chars().collect::<Vec<_>>()).unwrap_err();
    assert_eq!(bad_entity.kind, GraphmlErrorKind::UnsupportedEntity);
    let numeric: String = unescape_xml(&"&#65;&#x42;".chars().collect::<Vec<_>>())
        .expect("numeric entities")
        .into_iter()
        .collect();
    assert_eq!(numeric, "AB");
}

#[test]
fn joern_labels_and_paths() {
    assert_eq!(joern_node_kind(" method "), "function");
    assert_eq!(joern_node_kind("MEMBER"), "field");
    assert_eq!(joern_node_kind("CALL"), "expression");
    assert_eq!(node_entity_kind("function"), EntityKind::Function);
    assert_eq!(node_entity_kind("field"), EntityKind::Field);
    let files = vec!["main.c".to_owned(), "src/lib.c".to_owned()];
    assert_eq!(
        normalize_joern_path("/repo/main.c", "/repo", &files),
        Some("main.c".to_owned())
    );
    assert_eq!(normalize_joern_path("/elsewhere/x.c", "/repo", &files), None);
}

#[test]
fn stderr_tail_keeps_short_output() {
    let output = CommandOutput {
        code: Some(1),
        stdout: String::new(),
        stderr: "  failure happened \n".to_owned(),
        timed_out: false,
    };
    assert_eq!(output.stderr_tail(), "failure happened");
    let long = CommandOutput {
        code: Some(1),
        stdout: String::new(),
        stderr: "x".repeat(5000),
        timed_out: false,
    };
    assert_eq!(long.stderr_tail().len(), 2048);
}

#[test]
fn embedder_dimensions_are_bounded() {
    let embedder = DeterministicEmbedder::new(64).expect("embedder");
    assert_eq!(embedder.dimensions(), 64);
    assert_eq!(embedder.profile(), "deterministic-baseline-64");
    assert!(!embedder.production_ready());
    assert_eq!(DeterministicEmbedder::new(8).unwrap_err(), EmbedderError::Dimensions(8));
    assert_eq!(tokens("resumeAttempt, Workspace_Overlay"), vec![
        "resumeattempt".to_owned(),
        "workspace_overlay".to_owned()
    ]);
}

#[test]
fn slice_reader_reads_little_endian() {
    let mut reader = SliceReader::new(vec![1, 0, 0, 0, 2, 0, 0, 0, 0, 0, 0, 0, 9]);
    assert_eq!(reader.u32(), Ok(1));
    assert_eq!(reader.u64(), Ok(2));
    assert!(!reader.is_empty());
    assert_eq!(reader.take(2), Err(SliceError::Truncated));
    assert_eq!(reader.take(1), Ok(vec![9]));
    assert!(reader.is_empty());
}

#[test]
fn browser_views() {
    let content = file_content("s".to_owned(), "p".to_owned(), None, b"hello");
    assert_eq!(content.content, "hello");
    assert!(!content.binary && !content.truncated);
    let binary = file_content("s".to_owned(), "p".to_owned(), None, &[0xff, 0xfe]);
    assert!(binary.binary);
    assert!(binary.content.is_empty());
    let hit = grep_hit("src/a.rs", 4, "  let é = find();  ", 8);
    assert_eq!(hit.line, 5);
    assert_eq!(hit.column, 8);
    assert_eq!(hit.text, "let é = find();");
}

#[test]
fn token_slots_follow_the_token_digest() {
    let digest = blake3::hash(b"resume");
    let bytes = digest.as_bytes();
    let mut first = [0u8; 8];
    first.copy_from_slice(&bytes[..8]);
    let slot = u64::from_le_bytes(first) as usize % 64;
    let negative = bytes[8] & 1 == 1;
    assert_eq!(token_slot("resume", 64), (slot, negative));
    let embedder = DeterministicEmbedder::new(64).expect("embedder");
    assert_eq!(embedder.slots("Resume, resume!"), vec![(slot, negative), (slot, negative)]);
}

fn grep_file(path: &str, language: Option<&str>, text: Option<&str>) -> GrepFile {
    GrepFile {
        path: path.to_owned(),
        language: language.map(str::to_owned),
        text: text.map(str::to_owned),
    }
}

fn grep_request(pattern: &str, limit: usize) -> GrepRequest {
    GrepRequest {
        pattern: pattern.to_owned(),
        path_prefix: None,
        language: None,
        limit,
        ignore_case: false,
    }
}

fn sample_files() -> Vec<GrepFile> {
    vec![
        grep_file(
            "src/a.rs",
            Some("rust"),
            Some("fn main() {\n    let needle = 1;\n    needle + needle\n}\n"),
        ),
        grep_file("img.bin", None, None),
        grep_file("docs/b.md", Some("markdown"), Some("needle in docs")),
    ]
}

#[test]
fn grep_reports_lines_and_columns() {
    let report = grep(&sample_files(), &grep_request("needle", 200)).expect("valid pattern");
    let found: Vec<(String, u64, usize)> = report
        .matches
        .iter()
        .map(|hit| (hit.path.clone(), hit.line, hit.column))
        .collect();
    assert_eq!(
        found,
        vec![
            ("src/a.rs".to_owned(), 2, 9),
            ("src/a.rs".to_owned(), 3, 5),
            ("src/a.rs".to_owned(), 3, 14),
            ("docs/b.md".to_owned(), 1, 1),
        ]
    );
    assert_eq!(report.matches[0].text, "let needle = 1;");
    assert!(!report.truncated);
    assert_eq!(report.files_scanned, 2);
    assert_eq!(report.skipped_binary, 1);
    assert_eq!(report.freshness, "worktree");
    assert_eq!(report.pattern, "needle");
}

#[test]
fn grep_limit_filters_and_case() {
    let limited = grep(&sample_files(), &grep_request("needle", 2)).expect("valid");
    assert_eq!(limited.matches.len(), 2);
    assert!(limited.truncated);
    assert_eq!(limited.files_scanned, 1);
    let mut by_prefix = grep_request("needle", 200);
    by_prefix.path_prefix = Some("docs/".to_owned());
    let docs = grep(&sample_files(), &by_prefix).expect("valid");
    assert_eq!(docs.matches.len(), 1);
    assert_eq!((docs.files_scanned, docs.skipped_binary), (1, 0));
    let mut by_language = grep_request("needle", 200);
    by_language.language = Some("RUST".to_owned());
    assert_eq!(grep(&sample_files(), &by_language).expect("valid").matches.len(), 3);
    let mut folded = grep_request("NEEDLE", 200);
    assert!(grep(&sample_files(), &folded).expect("valid").matches.is_empty());
    folded.ignore_case = true;
    assert_eq!(grep(&sample_files(), &folded).expect("valid").matches.len(), 4);
    assert_eq!(
        grep(&sample_files(), &grep_request("(", 5)).unwrap_err(),
        GrepError::InvalidPattern("(".to_owned())
    );
}

#[test]
fn grep_caps_matches_per_file() {
    let text = "x\n".repeat(150);
    let files = vec![grep_file("many.txt", None, Some(&text)), grep_file("one.txt", None, Some("x"))];
    let report = grep(&files, &grep_request("x", 1000)).expect("valid");
    assert_eq!(report.matches.len(), 101);
    assert_eq!(report.matches[100].path, "one.txt");
    assert!(!report.truncated);
}

#[test]
fn browser_view_of_a_long_text_file_is_text_cut_on_a_char_boundary() {
    let mut bytes = vec![b'a'; 1_048_575];
    bytes.extend_from_slice("é".as_bytes());
    bytes.push(b'b');
    let content = file_content("s".to_owned(), "p".to_owned(), None, &bytes);
    assert!(content.truncated);
    assert!(!content.binary);
    assert_eq!(content.content.len(), 1_048_575);
    assert!(content.content.chars().all(|c| c == 'a'));
}
