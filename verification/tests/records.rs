use cce_engine::descriptor::{deterministic_role_summary, file_descriptor};
use cce_engine::indexing::{document_id, entity_id, relation_id};
use cce_engine::parser::{EntityKind, ParsedFile, ParsedUnit};
use cce_engine::records::{
    file_records, region_id, snapshot_records, ChunkRepresentation, RecordsError, RegionKind,
};
use cce_engine::repository::ScannedFile;

fn scanned(path: &str, lines: u64) -> ScannedFile {
    ScannedFile {
        relative_path: path.to_owned(),
        absolute_path: format!("/repo/{path}"),
        language: None,
        content_hash: "h".to_owned(),
        size_bytes: 0,
        mtime_ms: 0,
        line_count: lines,
        cached_bytes: None,
    }
}

fn unit(kind: EntityKind, name: &str, start: usize, end: usize, line: u32, parent: Option<usize>) -> ParsedUnit {
    ParsedUnit {
        kind,
        name: name.to_owned(),
        signature: None,
        start_byte: start,
        end_byte: end,
        start_line: line,
        end_line: line,
        parent_unit: parent,
        syntax_kind: "item".to_owned(),
        type_references: Vec::new(),
    }
}

fn parsed(units: Vec<ParsedUnit>) -> ParsedFile {
    ParsedFile { units, calls: Vec::new(), parsed: true, has_syntax_errors: false, parser: None }
}

#[test]
fn a_file_without_units_is_covered_by_windows() {
    let text = "hello\nworld\n";
    let r = file_records("repo", &scanned("notes.txt", 2), text, &parsed(Vec::new()), 6).expect("records");
    let fid = entity_id("repo", "notes.txt", 0, 12, "file");
    let fregion = region_id("notes.txt", 0, 12, RegionKind::File, "");
    assert_eq!(r.entity_id, fid);
    assert_eq!(r.region.id, fregion);
    assert_eq!((r.region.start_byte, r.region.end_byte, r.region.start_line, r.region.end_line), (0, 12, 1, 2));
    assert!(r.units.is_empty());
    let ranges: Vec<(usize, usize)> = r.chunks.iter().map(|c| (c.start_byte, c.end_byte)).collect();
    assert_eq!(ranges, vec![(0, 6), (6, 12)]);
    let second = &r.chunks[1];
    assert_eq!(second.document_id, document_id(&fid, "raw_code", 6, 12));
    assert_eq!(second.region_id, region_id("notes.txt", 6, 12, RegionKind::Subregion, ""));
    assert_eq!(second.representation, ChunkRepresentation::RawCode);
    let sub = second.subregion.as_ref().expect("window region");
    assert_eq!(sub.parent_region_id.as_deref(), Some(fregion.as_str()));
    assert_eq!((sub.start_line, sub.end_line), (2, 3));
    let descriptor = file_descriptor(&scanned("notes.txt", 2), text, &parsed(Vec::new()));
    assert_eq!(r.descriptor, descriptor);
    assert!(r.descriptor.starts_with("notes.txt (text)"));
    assert_eq!(r.descriptor_document_id, document_id(&fid, "file_descriptor", 0, descriptor.len()));
    let summary = deterministic_role_summary(&scanned("notes.txt", 2), &parsed(Vec::new()));
    assert_eq!(r.role_summary, summary);
    assert_eq!(r.role_summary_document_id, document_id(&fid, "role_summary", 0, summary.len()));
}

#[test]
fn an_empty_file_has_no_windows_and_one_line() {
    let r = file_records("repo", &scanned("empty.txt", 0), "", &parsed(Vec::new()), 6).expect("records");
    assert!(r.chunks.is_empty());
    assert_eq!((r.region.start_line, r.region.end_line), (1, 1));
}

#[test]
fn units_get_entities_regions_relations_and_chunks() {
    let text = "mod m {\n    fn test_a() {}\n}\n";
    let units = vec![
        unit(EntityKind::Module, "m", 0, 28, 1, None),
        unit(EntityKind::Function, "test_a", 12, 26, 2, Some(0)),
    ];
    let r = file_records("repo", &scanned("src/lib.rs", 3), text, &parsed(units), 1000).expect("records");
    assert!(r.chunks.is_empty());
    assert_eq!(r.units.len(), 2);
    let fid = entity_id("repo", "src/lib.rs", 0, 29, "file");
    let module_id = entity_id("repo", "src/lib.rs", 0, 28, "Module:m");
    let function_id = entity_id("repo", "src/lib.rs", 12, 26, "Function:test_a");
    let module = &r.units[0];
    assert_eq!(module.entity_id, module_id);
    assert_eq!(module.parent_entity_id, fid);
    assert_eq!(module.contains_relation_id, relation_id(&fid, &module_id, "contains"));
    assert_eq!(
        module.region.parent_region_id.as_deref(),
        Some(region_id("src/lib.rs", 0, 29, RegionKind::File, "").as_str())
    );
    let function = &r.units[1];
    assert_eq!(function.parent_entity_id, module_id);
    let function_region = region_id("src/lib.rs", 12, 26, RegionKind::Symbol, "test_a");
    assert_eq!(function.region.id, function_region);
    assert_eq!(
        function.region.parent_region_id.as_deref(),
        Some(region_id("src/lib.rs", 0, 28, RegionKind::Symbol, "m").as_str())
    );
    assert_eq!(function.chunks.len(), 1);
    let chunk = &function.chunks[0];
    assert_eq!(chunk.region_id, function_region);
    assert!(chunk.subregion.is_none());
    assert_eq!(chunk.representation, ChunkRepresentation::TestBehavior);
    assert_eq!(chunk.document_id, document_id(&function_id, "raw_code", 12, 26));
    assert_eq!(module.chunks[0].representation, ChunkRepresentation::RawCode);
    assert_eq!(module.extractor, "unknown");
}

#[test]
fn a_long_unit_is_split_into_subregions() {
    let text = "fn big() {\n    a();\n    b();\n}\n";
    let units = vec![unit(EntityKind::Function, "big", 0, 30, 1, Some(9))];
    let mut parse = parsed(units);
    parse.parser = Some("tree-sitter-rust".to_owned());
    let r = file_records("repo", &scanned("src/big.rs", 4), text, &parse, 12).expect("records");
    let u = &r.units[0];
    assert_eq!(u.extractor, "tree-sitter-rust");
    assert_eq!(u.parent_entity_id, r.entity_id);
    assert!(u.chunks.len() > 1);
    for chunk in &u.chunks {
        let sub = chunk.subregion.as_ref().expect("split chunk region");
        assert_eq!(chunk.region_id, region_id("src/big.rs", chunk.start_byte, chunk.end_byte, RegionKind::Subregion, "big"));
        assert_eq!(sub.symbol_name.as_deref(), Some("big"));
        assert_eq!(sub.parent_region_id.as_deref(), Some(u.region.id.as_str()));
    }
}

#[test]
fn snapshot_records_need_every_text() {
    let files = vec![scanned("a.txt", 1), scanned("b.txt", 1)];
    let texts = vec![("a.txt".to_owned(), "a\n".to_owned())];
    let parses = vec![parsed(Vec::new()), parsed(Vec::new())];
    match snapshot_records("repo", &files, &texts, &parses, 100) {
        Err(RecordsError::TextMissing { path }) => assert_eq!(path, "b.txt"),
        other => panic!("expected a missing text, got {other:?}"),
    }
    let texts = vec![("b.txt".to_owned(), "b\n".to_owned()), ("a.txt".to_owned(), "a\n".to_owned())];
    let s = snapshot_records("repo", &files, &texts, &parses, 100).expect("records");
    assert_eq!(s.repository_entity_id, entity_id("repo", "", 0, 0, "repository"));
    assert_eq!(s.files.len(), 2);
    assert_eq!(s.files[1].entity_id, entity_id("repo", "b.txt", 0, 2, "file"));
}

#[test]
fn unit_ranges_outside_the_text_are_refused() {
    let text = "fn é() {}\n";
    let past_end = vec![unit(EntityKind::Function, "a", 0, 10, 1, None), unit(EntityKind::Function, "b", 0, 40, 1, None)];
    match file_records("repo", &scanned("src/a.rs", 2), text, &parsed(past_end), 100) {
        Err(RecordsError::InvalidSourceRange { path, start_byte, end_byte }) => {
            assert_eq!((path.as_str(), start_byte, end_byte), ("src/a.rs", 0, 40));
        }
        other => panic!("expected an invalid range, got {other:?}"),
    }
    let mid_char = vec![unit(EntityKind::Function, "e", 4, 11, 1, None)];
    assert!(matches!(
        file_records("repo", &scanned("src/a.rs", 2), text, &parsed(mid_char), 100),
        Err(RecordsError::InvalidSourceRange { start_byte: 4, end_byte: 11, .. })
    ));
    let files = vec![scanned("a.txt", 1), scanned("b.rs", 1)];
    let texts = vec![("a.txt".to_owned(), "a\n".to_owned()), ("b.rs".to_owned(), "b\n".to_owned())];
    let parses = vec![parsed(Vec::new()), parsed(vec![unit(EntityKind::Function, "b", 1, 0, 1, None)])];
    assert!(matches!(
        snapshot_records("repo", &files, &texts, &parses, 100),
        Err(RecordsError::InvalidSourceRange { start_byte: 1, end_byte: 0, .. })
    ));
}
