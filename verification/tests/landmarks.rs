use cce_engine::landmarks::{axum_routes, emit, resolve_handler, SymbolCandidate, AXUM_EXTRACTOR};
use cce_engine::parser::EntityKind;
use cce_engine::repository::ScannedFile;

fn rust_file(path: &str) -> ScannedFile {
    ScannedFile {
        relative_path: path.to_owned(),
        absolute_path: format!("/repo/{path}"),
        language: Some("rust".to_owned()),
        content_hash: String::new(),
        size_bytes: 0,
        mtime_ms: 0,
        line_count: 0,
        cached_bytes: None,
    }
}

fn texts(source: &str) -> Vec<(String, String)> {
    vec![("src/main.rs".to_owned(), source.to_owned())]
}

fn file_regions() -> Vec<(String, String)> {
    vec![("src/main.rs".to_owned(), "region_file".to_owned())]
}

fn candidate(id: &str, path: &str, kind: EntityKind) -> SymbolCandidate {
    SymbolCandidate { entity_id: id.to_owned(), path: path.to_owned(), kind }
}

#[test]
fn emits_route_entity_and_handler_edge() {
    let source = r#"use axum::{routing::post, Router};

async fn search() -> &'static str {
    "ok"
}

fn router() -> Router {
    Router::new().route("/v1/search", post(search))
}
"#;
    let files = vec![rust_file("src/main.rs")];
    let bindings = axum_routes(&files, &texts(source));
    assert_eq!(bindings.len(), 1);
    assert_eq!(bindings[0].route_path, "/v1/search");
    assert_eq!(bindings[0].method, "post");
    assert_eq!(bindings[0].handler_name.as_deref(), Some("search"));
    assert_eq!(bindings[0].start_line, 8);

    let name_index = vec![(
        "search".to_owned(),
        vec![candidate("ent_search", "src/main.rs", EntityKind::Function)],
    )];
    let emission = emit(&bindings, "repo", "snap", &file_regions(), &name_index);

    assert_eq!(emission.entities.len(), 1);
    let route = &emission.entities[0];
    assert_eq!(route.name, "POST /v1/search");
    assert_eq!(route.qualified_name, "axum:POST /v1/search");
    assert_eq!(route.region_id.as_deref(), Some("region_file"));
    assert_eq!(route.address.path, "src/main.rs");

    assert_eq!(emission.relations.len(), 1);
    let edge = &emission.relations[0];
    assert_eq!(AXUM_EXTRACTOR, "cce-landmark-axum-v1");
    assert_eq!(edge.source_entity_id, route.id);
    assert_eq!(edge.target_entity_id, "ent_search");
    assert_eq!(edge.evidence.path, "src/main.rs");
    assert_eq!(edge.evidence.symbol_id.as_deref(), Some("ent_search"));
    assert_eq!(edge.route, "/v1/search");
    assert_eq!(edge.method, "post");
    assert_eq!(edge.kind, "route_handled_by");
    assert_eq!(edge.origin, "framework_rule");
    assert_eq!(edge.extractor, "cce-landmark-axum-v1");
    assert_eq!(edge.framework, "axum");
}

#[test]
fn non_identifier_handler_still_emits_route() {
    let source = r#"fn router() -> Router {
    Router::new().route("/v1/search", post(|_| async { "ok" }))
}
"#;
    let files = vec![rust_file("src/main.rs")];
    let bindings = axum_routes(&files, &texts(source));
    assert_eq!(bindings.len(), 1);
    assert!(bindings[0].handler_name.is_none());

    let emission = emit(&bindings, "repo", "snap", &file_regions(), &Vec::new());
    assert_eq!(emission.entities.len(), 1);
    assert_eq!(emission.entities[0].name, "POST /v1/search");
    assert!(emission.relations.is_empty());
}

#[test]
fn unresolvable_handler_emits_route_without_edge() {
    let source = r#"fn router() -> Router {
    Router::new().route("/v1/search", post(search))
}
"#;
    let files = vec![rust_file("src/main.rs")];
    let bindings = axum_routes(&files, &texts(source));
    assert_eq!(bindings[0].handler_name.as_deref(), Some("search"));

    let emission = emit(&bindings, "repo", "snap", &file_regions(), &Vec::new());
    assert_eq!(emission.entities.len(), 1);
    assert!(emission.relations.is_empty());
}

#[test]
fn same_file_handler_wins_over_global_candidates() {
    let source = r#"fn router() -> Router {
    Router::new().route("/v1/search", post(search))
}
"#;
    let files = vec![rust_file("src/main.rs")];
    let bindings = axum_routes(&files, &texts(source));
    let name_index = vec![(
        "search".to_owned(),
        vec![
            candidate("ent_other", "src/other.rs", EntityKind::Function),
            candidate("ent_local", "src/main.rs", EntityKind::Function),
        ],
    )];
    let emission = emit(&bindings, "repo", "snap", &file_regions(), &name_index);
    assert_eq!(emission.relations.len(), 1);
    assert_eq!(emission.relations[0].target_entity_id, "ent_local");

    let name_index = vec![(
        "search".to_owned(),
        vec![
            candidate("ent_struct", "src/main.rs", EntityKind::Struct),
            candidate("ent_fn", "src/other.rs", EntityKind::Function),
        ],
    )];
    let emission = emit(&bindings, "repo", "snap", &file_regions(), &name_index);
    assert_eq!(emission.relations[0].target_entity_id, "ent_fn");
}

#[test]
fn handler_paths_resolve_by_their_last_segment() {
    let source = "let app = Router::new()\n    .route(\"/a\", get(handlers::list))\n    .route(\"/b\", delete(remove));\n";
    let files = vec![rust_file("src/main.rs"), rust_file("src/missing.rs")];
    let bindings = axum_routes(&files, &texts(source));
    assert_eq!(bindings.len(), 2);
    assert_eq!(bindings[0].handler_name.as_deref(), Some("list"));
    assert_eq!(bindings[0].start_line, 2);
    assert_eq!(bindings[1].method, "delete");
    assert_eq!(bindings[1].start_line, 3);
    let emission = emit(&bindings, "repo", "snap", &Vec::new(), &Vec::new());
    assert_eq!(emission.entities[1].name, "DELETE /b");
    assert!(emission.entities[1].region_id.is_none());
    assert_ne!(emission.entities[0].id, emission.entities[1].id);
}

#[test]
fn non_rust_files_yield_no_routes() {
    let mut file = rust_file("src/main.rs");
    file.language = Some("python".to_owned());
    let bindings = axum_routes(&[file].to_vec(), &texts(".route(\"/x\", get(f))"));
    assert!(bindings.is_empty());
}

#[test]
fn resolution_falls_back_to_same_file_then_first() {
    let index = vec![(
        "h".to_owned(),
        vec![
            candidate("ent_a", "a.rs", EntityKind::Struct),
            candidate("ent_b", "b.rs", EntityKind::Struct),
        ],
    )];
    assert_eq!(resolve_handler("h", "b.rs", &index).unwrap().entity_id, "ent_b");
    assert_eq!(resolve_handler("h", "c.rs", &index).unwrap().entity_id, "ent_a");
    assert!(resolve_handler("other", "a.rs", &index).is_none());
}
