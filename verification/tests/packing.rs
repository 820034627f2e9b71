use cce_engine::context::{
    estimate_tokens, orientation, ContextItemKind, ContextPack, ContextPacker, OmissionReason,
    OmittedHit, RetrievalRepresentation, SearchHit, SearchRequest, SearchResult, SearchVerdict,
    SourceAddress, VerdictState, ViewManifest, WitnessVerification,
};
use cce_engine::model::{GraphPolicy, QueryIntent, SearchRoute};
use cce_engine::planner::QueryPlan;

/// Bit pattern of the score `1.0`.
const SCORE_ONE: u64 = 0x3FF0_0000_0000_0000;

fn hit(
    document_id: &str,
    entity_id: &str,
    representation: RetrievalRepresentation,
    address: Option<SourceAddress>,
    snippet_len: usize,
) -> SearchHit {
    SearchHit {
        document_id: document_id.to_owned(),
        entity_id: entity_id.to_owned(),
        region_id: None,
        symbol_name: Some(entity_id.to_owned()),
        representation,
        route: SearchRoute::Lexical,
        rank: 0,
        score: SCORE_ONE,
        contributing_routes: vec![SearchRoute::Lexical],
        address,
        evidence: Vec::new(),
        snippet: "x".repeat(snippet_len),
        verified_current: true,
        explanation: vec!["fixture".to_owned()],
    }
}

fn address(path: &str, start: u64, end: u64) -> Option<SourceAddress> {
    Some(SourceAddress {
        repository_id: "repo_t".to_owned(),
        snapshot_id: "snap_t".to_owned(),
        path: path.to_owned(),
        start_byte: start,
        end_byte: end,
        start_line: 1,
        end_line: 2,
        symbol_id: None,
    })
}

fn search_result(hits: Vec<SearchHit>) -> SearchResult {
    search_result_with_verdict(hits, VerdictState::Answered, Vec::new(), Vec::new())
}

fn search_result_with_verdict(
    hits: Vec<SearchHit>,
    state: VerdictState,
    reasons: Vec<String>,
    distinguishing_terms: Vec<String>,
) -> SearchResult {
    SearchResult {
        request: SearchRequest {
            repository_id: "repo_t".to_owned(),
            snapshot_id: "snap_t".to_owned(),
            query: "fixture query".to_owned(),
            intent: None,
            limit: 50,
            require_fresh: false,
            routes: Vec::new(),
        },
        plan: QueryPlan {
            intent: QueryIntent::NaturalLanguageBehavior,
            routes: vec![SearchRoute::Lexical],
            graph_policy: GraphPolicy::Opportunistic,
            required_views: Vec::new(),
            reasons: Vec::new(),
        },
        manifest: ViewManifest {
            repository_id: "repo_t".to_owned(),
            snapshot_id: "snap_t".to_owned(),
            views: Vec::new(),
        },
        hits,
        missing_capabilities: Vec::new(),
        verdict: SearchVerdict {
            state,
            reasons,
            distinguishing_terms,
        },
        latency_ms: 0,
    }
}

fn packed_ids(pack: &ContextPack) -> Vec<&str> {
    pack.items.iter().map(|item| item.id.as_str()).collect()
}

/// Probe-pack with an unlimited budget to learn the real token cost of a
/// hit set.
fn measured_tokens(search: &SearchResult, id: &str) -> usize {
    let probe = ContextPacker::new().pack(search, usize::MAX / 2);
    if id == "orientation" {
        probe
            .items
            .iter()
            .find(|item| item.kind == ContextItemKind::Orientation)
            .map_or(0, |item| item.estimated_tokens)
    } else {
        probe
            .items
            .iter()
            .find(|item| item.id == id)
            .map_or(0, |item| item.estimated_tokens)
    }
}

#[test]
fn token_estimate_penalizes_code_punctuation() {
    assert!(estimate_tokens("fn x() { y(); }") > estimate_tokens("plain prose text"));
}

#[test]
fn rejected_long_candidates_do_not_starve_short_evidence() {
    let mut hits: Vec<SearchHit> = (0..4)
        .map(|index| {
            hit(
                &format!("long_{index}"),
                &format!("entity_{index}"),
                RetrievalRepresentation::RawCode,
                address("src/a.rs", index * 100, index * 100 + 50),
                200_000,
            )
        })
        .collect();
    hits.push(hit(
        "short",
        "entity_short",
        RetrievalRepresentation::RawCode,
        address("src/a.rs", 900, 950),
        40,
    ));
    let search = search_result(hits);
    let pack = ContextPacker::new().pack(&search, 4_000);
    let ids = packed_ids(&pack);
    assert!(
        ids.contains(&"short"),
        "short evidence must pack after four rejected longs: {ids:?}"
    );
    assert!(
        !ids.iter().any(|id| id.starts_with("long_")),
        "rejected candidates must not appear: {ids:?}"
    );
}

#[test]
fn failed_long_representation_frees_the_range_for_a_short_one() {
    let hits = vec![
        hit(
            "long_repr",
            "entity_a",
            RetrievalRepresentation::RawCode,
            address("src/lib.rs", 0, 500),
            200_000,
        ),
        hit(
            "short_repr",
            "entity_a",
            RetrievalRepresentation::SymbolSummary,
            address("src/lib.rs", 0, 500),
            40,
        ),
    ];
    let search = search_result(hits);
    let pack = ContextPacker::new().pack(&search, 4_000);
    let ids = packed_ids(&pack);
    assert_eq!(
        ids.iter().filter(|id| **id == "short_repr").count(),
        1,
        "short representation of the range must pack: {ids:?}"
    );
    assert!(!ids.contains(&"long_repr"));
}

#[test]
fn failed_addressless_candidate_does_not_consume_entity_dedup() {
    let hits = vec![
        hit(
            "long_addrless",
            "entity_b",
            RetrievalRepresentation::KnowledgePage,
            None,
            200_000,
        ),
        hit(
            "short_addrless",
            "entity_b",
            RetrievalRepresentation::KnowledgePage,
            None,
            40,
        ),
    ];
    let search = search_result(hits);
    let pack = ContextPacker::new().pack(&search, 4_000);
    let ids = packed_ids(&pack);
    assert!(
        ids.contains(&"short_addrless"),
        "same-entity short hit must pack: {ids:?}"
    );
    assert!(!ids.contains(&"long_addrless"));
}

#[test]
fn admitted_quota_rules_still_hold() {
    let mut hits: Vec<SearchHit> = (0..4)
        .map(|index| {
            hit(
                &format!("file_a_{index}"),
                &format!("entity_a_{index}"),
                RetrievalRepresentation::RawCode,
                address("src/a.rs", index * 100, index * 100 + 50),
                40,
            )
        })
        .collect();
    hits.push(hit(
        "dup_range",
        "entity_dup",
        RetrievalRepresentation::RawCode,
        address("src/a.rs", 0, 50),
        40,
    ));
    hits.push(hit(
        "fifth_range",
        "entity_fifth",
        RetrievalRepresentation::RawCode,
        address("src/a.rs", 500, 550),
        40,
    ));
    let search = search_result(hits);
    let pack = ContextPacker::new().pack(&search, usize::MAX / 2);
    let ids = packed_ids(&pack);
    for index in 0..4 {
        assert!(ids.contains(&format!("file_a_{index}").as_str()));
    }
    assert!(!ids.contains(&"dup_range"), "duplicate range rejected");
    assert!(!ids.contains(&"fifth_range"), "file cap still enforced");
}

#[test]
fn role_preselection_rejection_does_not_pollute_rank_fill() {
    let hits = vec![
        hit(
            "long_test",
            "entity_t",
            RetrievalRepresentation::TestBehavior,
            address("tests/t.rs", 0, 400),
            200_000,
        ),
        hit(
            "target_hit",
            "entity_u",
            RetrievalRepresentation::RawCode,
            address("src/u.rs", 0, 100),
            40,
        ),
    ];
    let search = search_result(hits);
    let pack = ContextPacker::new().pack(&search, 4_000);
    let ids = packed_ids(&pack);
    assert!(ids.contains(&"target_hit"), "rank fill unaffected: {ids:?}");
    assert!(!ids.contains(&"long_test"));
}

#[test]
fn budget_edges_are_exact() {
    let hits = vec![
        hit(
            "a",
            "entity_a",
            RetrievalRepresentation::RawCode,
            address("src/a.rs", 0, 50),
            40,
        ),
        hit(
            "b",
            "entity_b",
            RetrievalRepresentation::RawCode,
            address("src/b.rs", 0, 50),
            40,
        ),
    ];
    let search = search_result(hits);

    let pack = ContextPacker::new().pack(&search, 0);
    assert!(pack.items.is_empty() && pack.used_tokens == 0);

    let orientation_tokens = measured_tokens(&search, "orientation");
    let pack = ContextPacker::new().pack(&search, orientation_tokens);
    assert_eq!(pack.items.len(), 1);
    assert_eq!(pack.items[0].kind, ContextItemKind::Orientation);
    assert_eq!(pack.used_tokens, orientation_tokens);

    let a_tokens = measured_tokens(&search, "a");
    let exact = orientation_tokens + a_tokens;
    let pack = ContextPacker::new().pack(&search, exact);
    let ids = packed_ids(&pack);
    assert!(
        ids.contains(&"a") && !ids.contains(&"b"),
        "exact fill: {ids:?}"
    );
    assert_eq!(pack.used_tokens, exact);
    assert!(pack.used_tokens <= pack.budget_tokens);

    let sum: usize = pack.items.iter().map(|item| item.estimated_tokens).sum();
    assert_eq!(sum, pack.used_tokens);
}

#[test]
fn search_verdict_passes_through_verbatim() {
    let search = search_result_with_verdict(
        vec![hit(
            "a",
            "entity_a",
            RetrievalRepresentation::RawCode,
            address("src/a.rs", 0, 50),
            40,
        )],
        VerdictState::WeakWitness,
        vec!["no artifact binds the claim's distinguishing terms".to_owned()],
        vec!["zebra".to_owned()],
    );
    let pack = ContextPacker::new().pack(&search, 4_000);
    let verdict = pack.search_verdict.expect("searchVerdict");
    assert_eq!(verdict, search.verdict, "verdict must be verbatim");
    assert_eq!(verdict.state, VerdictState::WeakWitness);
}

#[test]
fn weak_witness_reasons_surface_as_evidence_uncertainties() {
    let search = search_result_with_verdict(
        vec![hit(
            "a",
            "entity_a",
            RetrievalRepresentation::RawCode,
            address("src/a.rs", 0, 50),
            40,
        )],
        VerdictState::WeakWitness,
        vec![
            "no artifact binds the claim's distinguishing terms".to_owned(),
            "no artifact binds the claim's distinguishing terms".to_owned(),
        ],
        Vec::new(),
    );
    let pack = ContextPacker::new().pack(&search, 4_000);
    let witness_gaps = pack
        .uncertainties
        .iter()
        .filter(|gap| gap.capability == "evidence_witness")
        .count();
    assert_eq!(
        witness_gaps, 1,
        "deduped, one witness gap: {:?}",
        pack.uncertainties
    );
    assert!(pack.missing_capabilities.is_empty());
    assert!(!pack
        .uncertainties
        .iter()
        .any(|gap| gap.capability == "lexical"));
}

#[test]
fn sole_evidence_cut_by_budget_reports_the_gap() {
    let hits = vec![hit(
        "sole",
        "entity_sole",
        RetrievalRepresentation::RawCode,
        address("src/sole.rs", 0, 400),
        200_000,
    )];
    let search = search_result_with_verdict(
        hits,
        VerdictState::WeakWitness,
        Vec::new(),
        vec!["zebra".to_owned()],
    );
    let pack = ContextPacker::new().pack(&search, 4_000);
    let report = pack.delivery_report.expect("delivery report");
    assert!(report.included_item_ids.is_empty());
    assert_eq!(report.delivered_terms, Vec::<String>::new());
    assert_eq!(report.missing_terms, vec!["zebra".to_owned()]);
    assert_eq!(
        report.omitted_hits,
        vec![OmittedHit {
            document_id: "sole".to_owned(),
            reason: OmissionReason::Budget,
        }]
    );
    assert_eq!(
        report.witness_verification,
        WitnessVerification::NoSourceEvidence
    );
}

#[test]
fn orientation_and_titles_never_count_as_term_coverage() {
    let hits = vec![hit(
        "filler",
        "entity_f",
        RetrievalRepresentation::RawCode,
        address("src/f.rs", 0, 50),
        40,
    )];
    let mut search = search_result_with_verdict(
        hits,
        VerdictState::WeakWitness,
        Vec::new(),
        vec!["lexical".to_owned()],
    );
    let text: String = orientation(&search).into_iter().collect();
    assert!(text.to_lowercase().contains("lexical"));
    search.verdict.distinguishing_terms = vec!["lexical".to_owned()];
    let pack = ContextPacker::new().pack(&search, 4_000);
    let report = pack.delivery_report.expect("delivery report");
    assert_eq!(
        report.missing_terms,
        vec!["lexical".to_owned()],
        "orientation text must not satisfy term coverage"
    );
}

#[test]
fn term_in_undelivered_source_tail_is_not_delivered() {
    let hits = vec![hit(
        "truncated",
        "entity_t",
        RetrievalRepresentation::RawCode,
        address("src/t.rs", 0, 50_000),
        40,
    )];
    let search = search_result_with_verdict(
        hits,
        VerdictState::Answered,
        Vec::new(),
        vec!["zebra".to_owned()],
    );
    let pack = ContextPacker::new().pack(&search, 4_000);
    let report = pack.delivery_report.expect("delivery report");
    assert_eq!(report.included_item_ids, vec!["truncated".to_owned()]);
    assert_eq!(report.missing_terms, vec!["zebra".to_owned()]);
    assert_eq!(report.delivered_terms, Vec::<String>::new());
    assert_eq!(
        report.witness_verification,
        WitnessVerification::NotVerified
    );
}

#[test]
fn delivered_terms_match_shipped_snippets() {
    let hits = vec![
        hit(
            "carries",
            "entity_c",
            RetrievalRepresentation::RawCode,
            address("src/c.rs", 0, 50),
            0,
        ),
        hit(
            "other",
            "entity_o",
            RetrievalRepresentation::RawCode,
            address("src/o.rs", 0, 50),
            0,
        ),
    ];
    let mut search = search_result(hits);
    search.hits[0].snippet = "fn handle_zebra_reconnect()".to_owned();
    search.hits[1].snippet = "unrelated body".to_owned();
    search.verdict.distinguishing_terms = vec!["zebra".to_owned(), "absent_term".to_owned()];
    let pack = ContextPacker::new().pack(&search, 4_000);
    let report = pack.delivery_report.expect("delivery report");
    assert_eq!(report.delivered_terms, vec!["zebra".to_owned()]);
    assert_eq!(report.missing_terms, vec!["absent_term".to_owned()]);
}

// ---- further cases -----------------------------------------------------------

#[test]
fn token_estimate_exact_values() {
    // 16 chars, 0 punctuation: 16 / 4 + 1.
    assert_eq!(estimate_tokens("plain prose text"), 5);
    // 15 chars + 7 punctuation = 22; 22 / 4 + 1.
    assert_eq!(estimate_tokens("fn x() { y(); }"), 6);
    assert_eq!(estimate_tokens(""), 1);
}

#[test]
fn duplicate_entity_without_address_is_omitted() {
    let hits = vec![
        hit("first", "entity_same", RetrievalRepresentation::KnowledgePage, None, 10),
        hit("second", "entity_same", RetrievalRepresentation::KnowledgePage, None, 10),
    ];
    let search = search_result(hits);
    let pack = ContextPacker::new().pack(&search, 4_000);
    let ids = packed_ids(&pack);
    assert!(ids.contains(&"first"));
    assert!(!ids.contains(&"second"));
    let report = pack.delivery_report.expect("delivery report");
    assert_eq!(
        report.omitted_hits,
        vec![OmittedHit {
            document_id: "second".to_owned(),
            reason: OmissionReason::DuplicateEntity,
        }]
    );
}

#[test]
fn duplicate_range_and_file_cap_reasons_are_reported() {
    let mut hits: Vec<SearchHit> = (0..4)
        .map(|index| {
            hit(
                &format!("r{index}"),
                &format!("e{index}"),
                RetrievalRepresentation::RawCode,
                address("src/a.rs", index * 100, index * 100 + 50),
                10,
            )
        })
        .collect();
    hits.push(hit("dup", "edup", RetrievalRepresentation::RawCode, address("src/a.rs", 0, 50), 10));
    hits.push(hit("cap", "ecap", RetrievalRepresentation::RawCode, address("src/a.rs", 700, 750), 10));
    let search = search_result(hits);
    let pack = ContextPacker::new().pack(&search, usize::MAX / 2);
    let report = pack.delivery_report.expect("delivery report");
    assert!(report.omitted_hits.contains(&OmittedHit {
        document_id: "dup".to_owned(),
        reason: OmissionReason::DuplicateRange,
    }));
    assert!(report.omitted_hits.contains(&OmittedHit {
        document_id: "cap".to_owned(),
        reason: OmissionReason::FileCap,
    }));
}

#[test]
fn pack_copies_search_identity() {
    let search = search_result(Vec::new());
    let pack = ContextPacker::new().pack(&search, 4_000);
    assert_eq!(pack.repository_id, "repo_t");
    assert_eq!(pack.snapshot_id, "snap_t");
    assert_eq!(pack.query, "fixture query");
    assert_eq!(pack.budget_tokens, 4_000);
    assert_eq!(pack.items.len(), 1);
    assert_eq!(pack.items[0].kind, ContextItemKind::Orientation);
    let report = pack.delivery_report.expect("delivery report");
    assert!(report.omitted_hits.is_empty());
}
