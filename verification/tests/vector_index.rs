use cce_engine::config::DenseBackendConfig;
use cce_engine::context::{
    dataflow_view_status, history_view_status, knowledge_view_status, lexical_view_status, repair_plan,
    source_view_status, SnapshotStamp, ViewManifest, ViewState,
};
use cce_engine::model::ViewKind;
use cce_engine::dense::{
    decode_index, dense_batch_size, dense_building_status, dense_view_status, encode_index, DenseBuild,
    VectorFormatError, VectorIndex,
};

fn index(dimensions: usize, ids: &[&str], values: &[f32]) -> VectorIndex {
    VectorIndex {
        profile: "deterministic-test".to_owned(),
        dimensions,
        ids: ids.iter().map(|s| (*s).to_owned()).collect(),
        vectors: values.iter().map(|v| v.to_bits()).collect(),
    }
}

#[test]
fn vector_index_round_trips() {
    let ix = index(2, &["a", "bé"], &[1.0, -0.5, 0.25, 2.0]);
    let bytes = encode_index(&ix).expect("encode");
    assert_eq!(&bytes[..8], b"CCEVEC1\0");
    assert_eq!(&bytes[8..12], &1u32.to_le_bytes());
    assert_eq!(&bytes[12..16], &2u32.to_le_bytes());
    assert_eq!(&bytes[16..24], &2u64.to_le_bytes());
    assert_eq!(bytes.len(), 8 + 4 + 4 + 8 + 4 + 18 + (4 + 1 + 8) + (4 + 3 + 8));
    let back = decode_index(&bytes).expect("decode");
    assert_eq!(back.profile, ix.profile);
    assert_eq!(back.dimensions, 2);
    assert_eq!(back.ids, ix.ids);
    assert_eq!(back.vectors, ix.vectors);
    let values: Vec<f32> = back.vectors.iter().map(|b| f32::from_bits(*b)).collect();
    assert_eq!(values, vec![1.0, -0.5, 0.25, 2.0]);
    let empty = decode_index(&encode_index(&index(3, &[], &[])).expect("encode")).expect("decode");
    assert!(empty.ids.is_empty() && empty.vectors.is_empty() && empty.dimensions == 3);
}

#[test]
fn vector_index_rejects_malformed_bytes() {
    let bytes = encode_index(&index(1, &["x"], &[0.5])).expect("encode");
    assert!(matches!(decode_index(&bytes[..5]), Err(VectorFormatError::Truncated)));
    let mut bad = bytes.clone();
    bad[0] = b'X';
    assert!(matches!(decode_index(&bad), Err(VectorFormatError::BadMagic)));
    let mut version = bytes.clone();
    version[8] = 2;
    assert!(matches!(decode_index(&version), Err(VectorFormatError::UnsupportedVersion { found: 2 })));
    let mut trailing = bytes.clone();
    trailing.push(0);
    assert!(matches!(decode_index(&trailing), Err(VectorFormatError::TrailingBytes)));
    assert!(matches!(decode_index(&bytes[..bytes.len() - 1]), Err(VectorFormatError::Truncated)));
    let mut zero = bytes.clone();
    zero[12] = 0;
    assert!(matches!(decode_index(&zero), Err(VectorFormatError::ZeroDimensional)));
    let mut bad_id = bytes.clone();
    let id_at = 8 + 4 + 4 + 8 + 4 + "deterministic-test".len() + 4;
    bad_id[id_at] = 0xff;
    assert!(matches!(decode_index(&bad_id), Err(VectorFormatError::BadId)));
    let mut bad_profile = bytes.clone();
    bad_profile[28] = 0xff;
    assert!(matches!(decode_index(&bad_profile), Err(VectorFormatError::BadProfile)));
}

/// The baseline embedding of `text`: the embedder's signed slots, summed
/// and scaled to unit length.
fn baseline_vector(embedder: &cce_engine::dense::DeterministicEmbedder, text: &str) -> Vec<f32> {
    let mut vector = vec![0.0_f32; embedder.dimensions()];
    for (slot, negative) in embedder.slots(text) {
        vector[slot] += if negative { -1.0 } else { 1.0 };
    }
    let norm = vector.iter().map(|v| v * v).sum::<f32>().sqrt();
    if norm > f32::EPSILON {
        for v in &mut vector {
            *v /= norm;
        }
    }
    vector
}

#[test]
fn binary_index_round_trips_and_searches() {
    let embedder = cce_engine::dense::DeterministicEmbedder::new(64).expect("embedder");
    let documents = [("a", "resume cursor persistence"), ("b", "unrelated CSS styles")];
    let mut values = Vec::new();
    for (_, text) in &documents {
        values.extend(baseline_vector(&embedder, text));
    }
    let ix = VectorIndex {
        profile: embedder.profile().to_owned(),
        dimensions: 64,
        ids: documents.iter().map(|(id, _)| (*id).to_owned()).collect(),
        vectors: values.iter().map(|v| v.to_bits()).collect(),
    };
    let decoded = decode_index(&encode_index(&ix).expect("encode")).expect("decode");
    let query = baseline_vector(&embedder, "cursor resume");
    let mut hits: Vec<(String, f32)> = decoded
        .ids
        .iter()
        .zip(decoded.vectors.chunks_exact(decoded.dimensions))
        .map(|(id, row)| (id.clone(), row.iter().zip(&query).map(|(a, b)| f32::from_bits(*a) * b).sum()))
        .collect();
    hits.sort_by(|l, r| r.1.total_cmp(&l.1));
    hits.truncate(1);
    assert_eq!(hits[0].0, "a");
}

#[test]
fn dense_view_status_follows_the_build() {
    assert_eq!(dense_batch_size(&DenseBackendConfig::Local { model: "m".to_owned() }), 32);
    assert_eq!(dense_batch_size(&DenseBackendConfig::DeterministicBaseline { dimensions: 64 }), 64);
    assert_eq!(dense_batch_size(&DenseBackendConfig::Disabled), 64);
    let building = dense_building_status(&stamp());
    assert_eq!(building.state, ViewState::Building);
    assert_eq!(building.capabilities[0].level, "building");
    let failed = dense_view_status(&stamp(), DenseBuild::BackendFailed { error: "no model".to_owned() }, false);
    assert_eq!(failed.state, ViewState::Failed);
    assert_eq!(failed.message.as_deref(), Some("embedding backend init failed: no model"));
    let none = dense_view_status(&stamp(), DenseBuild::NoBackend, false);
    assert_eq!(none.state, ViewState::Unavailable);
    let baseline = dense_view_status(&stamp(), DenseBuild::Built { digest: "d1".to_owned() }, false);
    assert_eq!(baseline.state, ViewState::Partial);
    assert_eq!(baseline.capabilities[0].level, "benchmark_only");
    assert!(baseline.capabilities[0].reason.is_some());
    assert_eq!(baseline.artifact_digest.as_deref(), Some("d1"));
    let production = dense_view_status(&stamp(), DenseBuild::Built { digest: "d2".to_owned() }, true);
    assert_eq!(production.state, ViewState::Ready);
    assert_eq!(production.capabilities[0].level, "production");
    assert!(production.capabilities[0].reason.is_none());
    let broken = dense_view_status(&stamp(), DenseBuild::BuildFailed { error: "disk full".to_owned() }, true);
    assert_eq!((broken.state, broken.message.as_deref()), (ViewState::Failed, Some("disk full")));
}

#[test]
fn repair_revisits_views_left_building_or_failed() {
    let manifest = ViewManifest {
        repository_id: "r".to_owned(),
        snapshot_id: "s".to_owned(),
        views: vec![
            (ViewKind::Dense, ViewState::Building),
            (ViewKind::Source, ViewState::Ready),
            (ViewKind::History, ViewState::Failed),
            (ViewKind::Lexical, ViewState::Failed),
            (ViewKind::Dataflow, ViewState::Partial),
        ],
    };
    let plan = repair_plan(&manifest, false);
    assert_eq!(plan.views, vec![ViewKind::Lexical, ViewKind::Dense, ViewKind::History]);
    assert!(!plan.count_scip_edges);
    let without_dense = repair_plan(&manifest, true);
    assert_eq!(without_dense.views, vec![ViewKind::Lexical, ViewKind::History]);
    let graph = ViewManifest {
        repository_id: "r".to_owned(),
        snapshot_id: "s".to_owned(),
        views: vec![(ViewKind::Graph, ViewState::Failed)],
    };
    assert!(repair_plan(&graph, false).count_scip_edges);
}

#[test]
fn history_and_dataflow_statuses() {
    let ready = history_view_status(&stamp(), 12, true, 7);
    assert_eq!(ready.state, ViewState::Ready);
    assert_eq!(ready.capabilities[0].reason.as_deref(), Some("12 reachable commits indexed with gitoxide"));
    assert_eq!(ready.capabilities[1].reason.as_deref(), Some("7 commits contributed extracted diff hunks"));
    assert_eq!(history_view_status(&stamp(), 0, true, 0).state, ViewState::Failed);
    let none = history_view_status(&stamp(), 0, false, 0);
    assert_eq!((none.state, none.message.as_deref()), (ViewState::Unavailable, Some("Repository has no local .git object database")));
    let partial = dataflow_view_status(&stamp(), 42);
    assert_eq!(partial.state, ViewState::Partial);
    assert_eq!(partial.capabilities[0].reason.as_deref(), Some("42 definition/reference edges ingested"));
    assert_eq!(dataflow_view_status(&stamp(), 0).state, ViewState::Unavailable);
}

#[test]
fn empty_index_with_no_dimensions_round_trips() {
    let bytes = encode_index(&index(0, &[], &[])).expect("encode");
    let back = decode_index(&bytes).expect("decode");
    assert_eq!(back.dimensions, 0);
    assert!(back.ids.is_empty());
}

fn stamp() -> SnapshotStamp {
    SnapshotStamp { snapshot_id: "snap".to_owned(), profile_hash: "prof".to_owned() }
}

#[test]
fn repaired_statuses_carry_the_snapshot_stamp() {
    let source = source_view_status(&stamp());
    assert_eq!((source.state, source.snapshot_id.as_str(), source.profile_hash.as_str()), (ViewState::Ready, "snap", "prof"));
    assert_eq!(source.capabilities[0].name, "content_addressed_source");
    let lexical = lexical_view_status(&stamp());
    assert_eq!((lexical.state, lexical.capabilities[0].name.as_str()), (ViewState::Ready, "sqlite_fts5"));
    let knowledge = knowledge_view_status(&stamp());
    assert_eq!(knowledge.state, ViewState::Partial);
    assert_eq!(knowledge.capabilities.len(), 2);
    assert_eq!(knowledge.capabilities[1].name, "deterministic_hierarchy");
    let dataflow = dataflow_view_status(&stamp(), 3);
    assert_eq!((dataflow.snapshot_id.as_str(), dataflow.profile_hash.as_str()), ("snap", "prof"));
}
