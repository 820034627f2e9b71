//! The structural records a snapshot stores for each scanned file: the file
//! entity and its region, the file's descriptor and role-summary documents,
//! one entity, region and `contains` relation per source unit, and the
//! raw-code chunk documents that cover the units (or the whole file, where
//! no unit was found), each with the region it retrieves. A file whose text
//! is missing, or whose parse names a range that is not one of its text,
//! is refused.

use vstd::prelude::*;
use vstd::utf8::{
    encode_utf8, is_char_boundary, length_of_first_scalar, pop_first_scalar, valid_first_scalar,
    valid_utf8,
};
use crate::indexing::{
    chunk_ranges, chunks_of, decimal_string, digest_id, digest_id_of, document_id, entity_id,
    is_test, line_for_offset, relation_id, test_like,
};
use crate::artifact::{find_text, text_at};
use crate::descriptor::{
    descriptor_text, deterministic_role_summary, file_descriptor, longest_fitting_prefix, opt_view,
    role_summary_of, MAX_DESCRIPTOR_BYTES,
};
use crate::knowledge::texts_countable;
use crate::parser::{kind_label, kind_name, ParsedFile, ParsedUnit};
use crate::repository::{newline_count, ScannedFile};
use crate::text::{chars_of, decimal, owned, push_str, string_of};

verus! {

/// The kind of a stored region.
#[derive(Clone, Copy, Debug, PartialEq, Eq, Structural)]
pub enum RegionKind {
    File,
    Symbol,
    Subregion,
}

/// The Debug spelling of a region kind.
pub open spec fn region_kind_label(k: RegionKind) -> Seq<char> {
    match k {
        RegionKind::File => "File"@,
        RegionKind::Symbol => "Symbol"@,
        RegionKind::Subregion => "Subregion"@,
    }
}

fn region_kind_name(k: RegionKind) -> (r: &'static str)
    ensures
        r@ == region_kind_label(k),
{
    match k {
        RegionKind::File => "File",
        RegionKind::Symbol => "Symbol",
        RegionKind::Subregion => "Subregion",
    }
}

/// The id of a region: a digest of its path, range, kind and symbol.
pub open spec fn region_id_of(path: Seq<char>, start: int, end: int, kind: RegionKind, symbol: Seq<char>) -> Seq<char> {
    digest_id_of(
        "region"@,
        seq![path, decimal(start as nat), decimal(end as nat), region_kind_label(kind), symbol],
    )
}

/// The id of the region `path[start..end]` of the given kind and symbol.
pub fn region_id(path: &str, start: usize, end: usize, kind: RegionKind, symbol: &str) -> (r: String)
    ensures
        r@ == region_id_of(path@, start as int, end as int, kind, symbol@),
{
    let components = vec![
        owned(path),
        decimal_string(start),
        decimal_string(end),
        owned(region_kind_name(kind)),
        owned(symbol),
    ];
    assert(components@.map_values(|s: String| s@) =~= seq![
        path@,
        decimal(start as nat),
        decimal(end as nat),
        region_kind_label(kind),
        symbol@,
    ]);
    digest_id("region", &components)
}

/// A stored region of one file.
#[derive(Debug)]
pub struct RegionRecord {
    pub id: String,
    pub kind: RegionKind,
    pub symbol_name: Option<String>,
    pub parent_region_id: Option<String>,
    pub start_byte: usize,
    pub end_byte: usize,
    pub start_line: u32,
    pub end_line: u32,
}

/// How a chunk document is retrieved.
#[derive(Clone, Copy, Debug, PartialEq, Eq, Structural)]
pub enum ChunkRepresentation {
    RawCode,
    TestBehavior,
}

/// One chunk document: its id, the entity it belongs to, the region it
/// retrieves, its representation and its byte range; and the subregion it
/// adds, where the chunk is not the whole of its owner's region.
#[derive(Debug)]
pub struct ChunkRecord {
    pub document_id: String,
    pub entity_id: String,
    pub region_id: String,
    pub representation: ChunkRepresentation,
    pub start_byte: usize,
    pub end_byte: usize,
    pub subregion: Option<RegionRecord>,
}

/// The records of one source unit.
#[derive(Debug)]
pub struct UnitRecords {
    pub entity_id: String,
    pub region: RegionRecord,
    pub parent_entity_id: String,
    pub contains_relation_id: String,
    /// The parser that found the unit, `unknown` where none is named.
    pub extractor: String,
    pub chunks: Vec<ChunkRecord>,
}

/// The records of one file.
#[derive(Debug)]
pub struct FileRecords {
    pub entity_id: String,
    pub region: RegionRecord,
    pub units: Vec<UnitRecords>,
    /// Whole-file windows, present only where no unit was found.
    pub chunks: Vec<ChunkRecord>,
    /// The file's routing descriptor and the id of its document.
    pub descriptor: String,
    pub descriptor_document_id: String,
    /// The file's role summary and the id of its document.
    pub role_summary: String,
    pub role_summary_document_id: String,
}

// ---- the model ---------------------------------------------------------------------

/// The entity id of a file of `len` bytes.
pub open spec fn file_entity_id_of(repository_id: Seq<char>, path: Seq<char>, len: int) -> Seq<char> {
    digest_id_of("entity"@, seq![repository_id, path, decimal(0), decimal(len as nat), "file"@])
}

/// The entity id of a unit: its range and `Kind:name` as discriminator.
pub open spec fn unit_entity_id_of(repository_id: Seq<char>, path: Seq<char>, u: ParsedUnit) -> Seq<char> {
    digest_id_of(
        "entity"@,
        seq![
            repository_id,
            path,
            decimal(u.start_byte as nat),
            decimal(u.end_byte as nat),
            kind_label(u.kind) + ":"@ + u.name@,
        ],
    )
}

/// The symbol region id of a unit.
pub open spec fn unit_region_id_of(path: Seq<char>, u: ParsedUnit) -> Seq<char> {
    region_id_of(path, u.start_byte as int, u.end_byte as int, RegionKind::Symbol, u.name@)
}

/// The file region id of a file of `len` bytes.
pub open spec fn file_region_id_of(path: Seq<char>, len: int) -> Seq<char> {
    region_id_of(path, 0, len, RegionKind::File, ""@)
}

/// The 1-based line of a byte offset of a text.
pub open spec fn line_of(text: Seq<char>, offset: int) -> nat {
    crate::pattern::line_at(encode_utf8(text), offset as nat)
}

/// A region record holds the given fields.
pub open spec fn region_is(
    r: RegionRecord,
    id: Seq<char>,
    kind: RegionKind,
    symbol: Option<Seq<char>>,
    parent: Option<Seq<char>>,
    start: int,
    end: int,
    start_line: int,
    end_line: int,
) -> bool {
    &&& r.id@ == id
    &&& r.kind == kind
    &&& opt_view(r.symbol_name) == symbol
    &&& opt_view(r.parent_region_id) == parent
    &&& r.start_byte == start
    &&& r.end_byte == end
    &&& r.start_line == start_line
    &&& r.end_line == end_line
}

/// The record of chunk `c` of a unit whose region spans `[start, end)`: a
/// chunk that is the whole unit retrieves the unit's own region; any other
/// chunk adds a subregion under it, named after the unit.
pub open spec fn unit_chunk_is(
    r: ChunkRecord,
    path: Seq<char>,
    text: Seq<char>,
    u: ParsedUnit,
    unit_id: Seq<char>,
    c: (int, int),
) -> bool {
    let whole = c.0 == u.start_byte && c.1 == u.end_byte;
    let sub = region_id_of(path, c.0, c.1, RegionKind::Subregion, u.name@);
    &&& r.document_id@ == digest_id_of(
        "doc"@,
        seq![unit_id, "raw_code"@, decimal(c.0 as nat), decimal(c.1 as nat)],
    )
    &&& r.entity_id@ == unit_id
    &&& r.representation == (if test_like(path, u.name@) {
        ChunkRepresentation::TestBehavior
    } else {
        ChunkRepresentation::RawCode
    })
    &&& r.start_byte == c.0
    &&& r.end_byte == c.1
    &&& if whole {
        &&& r.region_id@ == unit_region_id_of(path, u)
        &&& r.subregion is None
    } else {
        &&& r.region_id@ == sub
        &&& r.subregion matches Some(s) && region_is(
            s,
            sub,
            RegionKind::Subregion,
            Some(u.name@),
            Some(unit_region_id_of(path, u)),
            c.0,
            c.1,
            line_of(text, c.0) as int,
            line_of(text, c.1) as int,
        )
    }
}

/// The record of whole-file window `c` of a file without units.
pub open spec fn file_chunk_is(r: ChunkRecord, path: Seq<char>, text: Seq<char>, file_id: Seq<char>, c: (int, int)) -> bool {
    let sub = region_id_of(path, c.0, c.1, RegionKind::Subregion, ""@);
    &&& r.document_id@ == digest_id_of(
        "doc"@,
        seq![file_id, "raw_code"@, decimal(c.0 as nat), decimal(c.1 as nat)],
    )
    &&& r.entity_id@ == file_id
    &&& r.region_id@ == sub
    &&& r.representation == ChunkRepresentation::RawCode
    &&& r.start_byte == c.0
    &&& r.end_byte == c.1
    &&& r.subregion matches Some(s) && region_is(
        s,
        sub,
        RegionKind::Subregion,
        None,
        Some(file_region_id_of(path, encode_utf8(text).len() as int)),
        c.0,
        c.1,
        line_of(text, c.0) as int,
        line_of(text, c.1) as int,
    )
}

/// The byte chunks of `text[start..end]`.
pub open spec fn chunks_in(text: Seq<char>, start: int, end: int, maximum: int) -> Seq<(int, int)> {
    chunks_of(encode_utf8(text), start, end, maximum)
}

/// The records of unit `i`: its entity and symbol region, its parent (the
/// enclosing unit where its parent index names one, else the file), the
/// `contains` relation from that parent, and one record per chunk.
pub open spec fn unit_records_are(
    r: UnitRecords,
    repository_id: Seq<char>,
    path: Seq<char>,
    text: Seq<char>,
    units: Seq<ParsedUnit>,
    parser: Option<Seq<char>>,
    i: int,
    maximum: int,
) -> bool {
    let u = units[i];
    let len = encode_utf8(text).len() as int;
    let uid = unit_entity_id_of(repository_id, path, u);
    let parent = match u.parent_unit {
        Some(p) => if p < units.len() { Some(p as int) } else { None },
        None => None,
    };
    let parent_region = match parent {
        Some(p) => unit_region_id_of(path, units[p]),
        None => file_region_id_of(path, len),
    };
    let parent_entity = match parent {
        Some(p) => unit_entity_id_of(repository_id, path, units[p]),
        None => file_entity_id_of(repository_id, path, len),
    };
    let cs = chunks_in(text, u.start_byte as int, u.end_byte as int, maximum);
    &&& r.entity_id@ == uid
    &&& region_is(
        r.region,
        unit_region_id_of(path, u),
        RegionKind::Symbol,
        Some(u.name@),
        Some(parent_region),
        u.start_byte as int,
        u.end_byte as int,
        u.start_line as int,
        u.end_line as int,
    )
    &&& r.parent_entity_id@ == parent_entity
    &&& r.contains_relation_id@ == digest_id_of("rel"@, seq![parent_entity, uid, "contains"@])
    &&& r.extractor@ == match parser {
        Some(p) => p,
        None => "unknown"@,
    }
    &&& r.chunks@.len() == cs.len()
    &&& forall|k: int| 0 <= k < cs.len() ==> unit_chunk_is(#[trigger] r.chunks@[k], path, text, u, uid, cs[k])
}

/// The records of a file: its entity and file region (lines 1 to its line
/// count, at least 1), its units' records in order, and, where it has no
/// unit and is not empty, one whole-file window record per chunk.
#[verifier::opaque]
pub open spec fn file_records_are(
    r: FileRecords,
    repository_id: Seq<char>,
    file: ScannedFile,
    text: Seq<char>,
    parsed: ParsedFile,
    maximum: int,
) -> bool {
    let units = parsed.units@;
    let path = file.relative_path@;
    let len = encode_utf8(text).len() as int;
    let fid = file_entity_id_of(repository_id, path, len);
    let windows = if units.len() == 0 && len > 0 {
        chunks_in(text, 0, len, maximum)
    } else {
        Seq::empty()
    };
    &&& r.entity_id@ == fid
    &&& region_is(
        r.region,
        file_region_id_of(path, len),
        RegionKind::File,
        None,
        None,
        0,
        len,
        1,
        ((if file.line_count >= 1 { file.line_count } else { 1u64 }) as u32) as int,
    )
    &&& r.units@.len() == units.len()
    &&& forall|i: int| 0 <= i < units.len() ==> unit_records_are(
        #[trigger] r.units@[i],
        repository_id,
        path,
        text,
        units,
        opt_view(parsed.parser),
        i,
        maximum,
    )
    &&& r.chunks@.len() == windows.len()
    &&& forall|k: int| 0 <= k < windows.len() ==> file_chunk_is(#[trigger] r.chunks@[k], path, text, fid, windows[k])
    &&& longest_fitting_prefix(
        r.descriptor@,
        descriptor_text(path, opt_view(file.language), text, units),
        MAX_DESCRIPTOR_BYTES as nat,
    )
    &&& r.descriptor_document_id@ == digest_id_of(
        "doc"@,
        seq![fid, "file_descriptor"@, decimal(0), decimal(encode_utf8(r.descriptor@).len())],
    )
    &&& r.role_summary@ == role_summary_of(
        path,
        opt_view(file.language),
        units,
        parsed.parsed,
        parsed.has_syntax_errors,
    )
    &&& r.role_summary_document_id@ == digest_id_of(
        "doc"@,
        seq![fid, "role_summary"@, decimal(0), decimal(encode_utf8(r.role_summary@).len())],
    )
}

/// What the records need of a text: its line numbers fit in `u32`.
pub open spec fn recordable(text: Seq<char>) -> bool {
    newline_count(encode_utf8(text)) < u32::MAX
}

// ---- building ----------------------------------------------------------------------

fn unit_discriminator(u: &ParsedUnit) -> (r: String)
    ensures
        r@ == kind_label(u.kind) + ":"@ + u.name@,
{
    let mut v: Vec<char> = chars_of(kind_name(u.kind));
    push_str(&mut v, ":");
    push_str(&mut v, u.name.as_str());
    string_of(&v)
}

fn unit_entity_id(repository_id: &str, path: &str, u: &ParsedUnit) -> (r: String)
    ensures
        r@ == unit_entity_id_of(repository_id@, path@, *u),
{
    let d = unit_discriminator(u);
    entity_id(repository_id, path, u.start_byte, u.end_byte, d.as_str())
}

fn some_string(s: &String) -> (r: Option<String>)
    ensures
        opt_view(r) == Some(s@),
{
    Some(s.clone())
}

fn unit_chunks(path: &str, text: &str, u: &ParsedUnit, unit_id: &String, unit_region: &String, maximum: usize) -> (r: Vec<ChunkRecord>)
    requires
        newline_count(encode_utf8(text@)) < u32::MAX,
        unit_region@ == unit_region_id_of(path@, *u),
    ensures
        r@.len() == chunks_in(text@, u.start_byte as int, u.end_byte as int, maximum as int).len(),
        forall|k: int| 0 <= k < r@.len() ==> unit_chunk_is(
            #[trigger] r@[k],
            path@,
            text@,
            *u,
            unit_id@,
            chunks_in(text@, u.start_byte as int, u.end_byte as int, maximum as int)[k],
        ),
{
    let ranges = chunk_ranges(text, u.start_byte, u.end_byte, maximum);
    let ghost cs = chunks_in(text@, u.start_byte as int, u.end_byte as int, maximum as int);
    assert(ranges@.len() == cs.len()) by {
        assert(ranges@.map_values(|p: (usize, usize)| (p.0 as int, p.1 as int)).len() == ranges@.len());
    }
    let test = is_test(path, u.name.as_str());
    let representation = if test { ChunkRepresentation::TestBehavior } else { ChunkRepresentation::RawCode };
    let mut out: Vec<ChunkRecord> = Vec::new();
    for k in 0..ranges.len()
        invariant
            newline_count(encode_utf8(text@)) < u32::MAX,
            unit_region@ == unit_region_id_of(path@, *u),
            ranges@.len() == cs.len(),
            ranges@.map_values(|p: (usize, usize)| (p.0 as int, p.1 as int)) == cs,
            cs == chunks_in(text@, u.start_byte as int, u.end_byte as int, maximum as int),
            test == test_like(path@, u.name@),
            representation == (if test { ChunkRepresentation::TestBehavior } else { ChunkRepresentation::RawCode }),
            out@.len() == k,
            forall|j: int| 0 <= j < k ==> unit_chunk_is(#[trigger] out@[j], path@, text@, *u, unit_id@, cs[j]),
    {
        let (s, e) = ranges[k];
        assert(cs[k as int] == (s as int, e as int)) by {
            assert(ranges@.map_values(|p: (usize, usize)| (p.0 as int, p.1 as int))[k as int] == (s as int, e as int));
        }
        let doc = document_id(unit_id.as_str(), "raw_code", s, e);
        let rec = if s == u.start_byte && e == u.end_byte {
            ChunkRecord {
                document_id: doc,
                entity_id: unit_id.clone(),
                region_id: unit_region.clone(),
                representation,
                start_byte: s,
                end_byte: e,
                subregion: None,
            }
        } else {
            let sub = region_id(path, s, e, RegionKind::Subregion, u.name.as_str());
            let region = RegionRecord {
                id: sub.clone(),
                kind: RegionKind::Subregion,
                symbol_name: some_string(&u.name),
                parent_region_id: some_string(unit_region),
                start_byte: s,
                end_byte: e,
                start_line: line_for_offset(text, s),
                end_line: line_for_offset(text, e),
            };
            ChunkRecord {
                document_id: doc,
                entity_id: unit_id.clone(),
                region_id: sub,
                representation,
                start_byte: s,
                end_byte: e,
                subregion: Some(region),
            }
        };
        out.push(rec);
    }
    out
}

fn unit_records(
    repository_id: &str,
    path: &str,
    text: &str,
    units: &Vec<ParsedUnit>,
    parser: &Option<String>,
    i: usize,
    file_id: &String,
    file_region: &String,
    maximum: usize,
) -> (r: UnitRecords)
    requires
        i < units@.len(),
        newline_count(encode_utf8(text@)) < u32::MAX,
        file_id@ == file_entity_id_of(repository_id@, path@, encode_utf8(text@).len() as int),
        file_region@ == file_region_id_of(path@, encode_utf8(text@).len() as int),
    ensures
        unit_records_are(r, repository_id@, path@, text@, units@, opt_view(*parser), i as int, maximum as int),
{
    let u = &units[i];
    let uid = unit_entity_id(repository_id, path, u);
    let uregion = region_id(path, u.start_byte, u.end_byte, RegionKind::Symbol, u.name.as_str());
    let (parent_region, parent_entity) = match u.parent_unit {
        Some(p) => if p < units.len() {
            let pu = &units[p];
            (
                region_id(path, pu.start_byte, pu.end_byte, RegionKind::Symbol, pu.name.as_str()),
                unit_entity_id(repository_id, path, pu),
            )
        } else {
            (file_region.clone(), file_id.clone())
        },
        None => (file_region.clone(), file_id.clone()),
    };
    let contains = relation_id(parent_entity.as_str(), uid.as_str(), "contains");
    let region = RegionRecord {
        id: uregion.clone(),
        kind: RegionKind::Symbol,
        symbol_name: some_string(&u.name),
        parent_region_id: some_string(&parent_region),
        start_byte: u.start_byte,
        end_byte: u.end_byte,
        start_line: u.start_line,
        end_line: u.end_line,
    };
    let chunks = unit_chunks(path, text, u, &uid, &uregion, maximum);
    let extractor = match parser {
        Some(p) => p.clone(),
        None => owned("unknown"),
    };
    UnitRecords {
        entity_id: uid,
        region,
        parent_entity_id: parent_entity,
        contains_relation_id: contains,
        extractor,
        chunks,
    }
}

fn file_chunks(path: &str, text: &str, file_id: &String, file_region: &String, maximum: usize) -> (r: Vec<ChunkRecord>)
    requires
        newline_count(encode_utf8(text@)) < u32::MAX,
        file_region@ == file_region_id_of(path@, encode_utf8(text@).len() as int),
    ensures
        r@.len() == chunks_in(text@, 0, encode_utf8(text@).len() as int, maximum as int).len(),
        forall|k: int| 0 <= k < r@.len() ==> file_chunk_is(
            #[trigger] r@[k],
            path@,
            text@,
            file_id@,
            chunks_in(text@, 0, encode_utf8(text@).len() as int, maximum as int)[k],
        ),
{
    let len = text.as_bytes().len();
    let ranges = chunk_ranges(text, 0, len, maximum);
    let ghost cs = chunks_in(text@, 0, len as int, maximum as int);
    assert(ranges@.len() == cs.len()) by {
        assert(ranges@.map_values(|p: (usize, usize)| (p.0 as int, p.1 as int)).len() == ranges@.len());
    }
    let mut out: Vec<ChunkRecord> = Vec::new();
    for k in 0..ranges.len()
        invariant
            newline_count(encode_utf8(text@)) < u32::MAX,
            len == encode_utf8(text@).len(),
            file_region@ == file_region_id_of(path@, len as int),
            ranges@.len() == cs.len(),
            ranges@.map_values(|p: (usize, usize)| (p.0 as int, p.1 as int)) == cs,
            out@.len() == k,
            forall|j: int| 0 <= j < k ==> file_chunk_is(#[trigger] out@[j], path@, text@, file_id@, cs[j]),
    {
        let (s, e) = ranges[k];
        assert(cs[k as int] == (s as int, e as int)) by {
            assert(ranges@.map_values(|p: (usize, usize)| (p.0 as int, p.1 as int))[k as int] == (s as int, e as int));
        }
        let sub = region_id(path, s, e, RegionKind::Subregion, "");
        let region = RegionRecord {
            id: sub.clone(),
            kind: RegionKind::Subregion,
            symbol_name: None,
            parent_region_id: some_string(file_region),
            start_byte: s,
            end_byte: e,
            start_line: line_for_offset(text, s),
            end_line: line_for_offset(text, e),
        };
        out.push(ChunkRecord {
            document_id: document_id(file_id.as_str(), "raw_code", s, e),
            entity_id: file_id.clone(),
            region_id: sub,
            representation: ChunkRepresentation::RawCode,
            start_byte: s,
            end_byte: e,
            subregion: Some(region),
        });
    }
    out
}

fn build_file_records(
    repository_id: &str,
    file: &ScannedFile,
    text: &str,
    parsed: &ParsedFile,
    max_unit_bytes: usize,
) -> (r: FileRecords)
    requires
        recordable(text@),
    ensures
        file_records_are(r, repository_id@, *file, text@, *parsed, max_unit_bytes as int),
{
    let path = file.relative_path.as_str();
    let len = text.as_bytes().len();
    let fid = entity_id(repository_id, path, 0, len, "file");
    let fregion = region_id(path, 0, len, RegionKind::File, "");
    let counted: u64 = if file.line_count >= 1 { file.line_count } else { 1 };
    let end_line: u32 = counted as u32;
    let region = RegionRecord {
        id: fregion.clone(),
        kind: RegionKind::File,
        symbol_name: None,
        parent_region_id: None,
        start_byte: 0,
        end_byte: len,
        start_line: 1,
        end_line,
    };
    let units = &parsed.units;
    let mut records: Vec<UnitRecords> = Vec::new();
    for i in 0..units.len()
        invariant
            newline_count(encode_utf8(text@)) < u32::MAX,
            len == encode_utf8(text@).len(),
            path@ == file.relative_path@,
            units == &parsed.units,
            fid@ == file_entity_id_of(repository_id@, path@, len as int),
            fregion@ == file_region_id_of(path@, len as int),
            records@.len() == i,
            forall|j: int| 0 <= j < i ==> unit_records_are(
                #[trigger] records@[j],
                repository_id@,
                path@,
                text@,
                units@,
                opt_view(parsed.parser),
                j,
                max_unit_bytes as int,
            ),
    {
        let rec = unit_records(repository_id, path, text, units, &parsed.parser, i, &fid, &fregion, max_unit_bytes);
        records.push(rec);
    }
    let chunks = if units.len() == 0 && len > 0 {
        file_chunks(path, text, &fid, &fregion, max_unit_bytes)
    } else {
        Vec::new()
    };
    let descriptor = file_descriptor(file, text, parsed);
    let descriptor_document_id = document_id(fid.as_str(), "file_descriptor", 0, descriptor.as_str().as_bytes().len());
    let role_summary = deterministic_role_summary(file, parsed);
    let role_summary_document_id = document_id(fid.as_str(), "role_summary", 0, role_summary.as_str().as_bytes().len());
    let r = FileRecords {
        entity_id: fid,
        region,
        units: records,
        chunks,
        descriptor,
        descriptor_document_id,
        role_summary,
        role_summary_document_id,
    };
    proof {
        reveal(file_records_are);
    }
    r
}



/// Why the records of a file or a snapshot could not be built.
#[derive(Debug)]
pub enum RecordsError {
    /// A scanned file has no text among those handed in.
    TextMissing { path: String },
    /// A unit's byte range is not a range of its file's text on char
    /// boundaries.
    InvalidSourceRange { path: String, start_byte: u64, end_byte: u64 },
}

/// `start..end` is a range of `text`: ordered, inside it, and on char
/// boundaries at both ends.
pub open spec fn range_valid(text: Seq<char>, start: int, end: int) -> bool {
    let b = encode_utf8(text);
    &&& 0 <= start <= end <= b.len()
    &&& is_char_boundary(b, start)
    &&& is_char_boundary(b, end)
}

/// The first unit, from `i` on, whose range is not a valid range of `text`.
pub open spec fn first_bad_unit(text: Seq<char>, units: Seq<ParsedUnit>, i: int) -> Option<int>
    decreases units.len() - i,
{
    if i < 0 || i >= units.len() {
        None
    } else if !range_valid(text, units[i].start_byte as int, units[i].end_byte as int) {
        Some(i)
    } else {
        first_bad_unit(text, units, i + 1)
    }
}

fn range_ok(text: &str, start: usize, end: usize) -> (r: bool)
    ensures
        r == range_valid(text@, start as int, end as int),
{
    start <= end && end <= text.as_bytes().len() && text.is_char_boundary(start) && text.is_char_boundary(
        end,
    )
}

fn find_bad_unit(text: &str, units: &Vec<ParsedUnit>) -> (r: Option<usize>)
    ensures
        match r {
            Some(k) => k < units@.len() && first_bad_unit(text@, units@, 0) == Some(k as int),
            None => first_bad_unit(text@, units@, 0) is None,
        },
{
    let mut i: usize = 0;
    while i < units.len()
        invariant
            i <= units@.len(),
            first_bad_unit(text@, units@, 0) == first_bad_unit(text@, units@, i as int),
        decreases units@.len() - i,
    {
        if !range_ok(text, units[i].start_byte, units[i].end_byte) {
            return Some(i);
        }
        i = i + 1;
    }
    None
}

/// The structural records of one scanned file, given its text and what
/// the parser found in it; refused, with its range, where the first unit
/// whose range is not a range of the text on char boundaries is.
pub fn file_records(
    repository_id: &str,
    file: &ScannedFile,
    text: &str,
    parsed: &ParsedFile,
    max_unit_bytes: usize,
) -> (r: Result<FileRecords, RecordsError>)
    requires
        recordable(text@),
    ensures
        match r {
            Ok(f) => first_bad_unit(text@, parsed.units@, 0) is None && file_records_are(
                f,
                repository_id@,
                *file,
                text@,
                *parsed,
                max_unit_bytes as int,
            ),
            Err(RecordsError::InvalidSourceRange { path, start_byte, end_byte }) => first_bad_unit(
                text@,
                parsed.units@,
                0,
            ) matches Some(k) && path@ == file.relative_path@ && start_byte
                == parsed.units@[k].start_byte && end_byte == parsed.units@[k].end_byte,
            Err(RecordsError::TextMissing { .. }) => false,
        },
{
    match find_bad_unit(text, &parsed.units) {
        Some(k) => Err(
            RecordsError::InvalidSourceRange {
                path: file.relative_path.clone(),
                start_byte: parsed.units[k].start_byte as u64,
                end_byte: parsed.units[k].end_byte as u64,
            },
        ),
        None => Ok(build_file_records(repository_id, file, text, parsed, max_unit_bytes)),
    }
}

/// The records of a snapshot: the repository entity and each file's
/// records, in scan order.
#[derive(Debug)]
pub struct SnapshotRecords {
    pub repository_entity_id: String,
    pub files: Vec<FileRecords>,
}

/// File `i` can be recorded: its text is at hand and every unit's range
/// is a range of it.
pub open spec fn file_ok(files: Seq<ScannedFile>, texts: Seq<(String, String)>, parsed: Seq<ParsedFile>, i: int) -> bool {
    &&& text_at(texts, files[i].relative_path@, 0) is Some
    &&& first_bad_unit(texts[text_at(texts, files[i].relative_path@, 0)->0].1@, parsed[i].units@, 0) is None
}

/// The first file, from `i` on, that cannot be recorded.
pub open spec fn first_faulty(files: Seq<ScannedFile>, texts: Seq<(String, String)>, parsed: Seq<ParsedFile>, i: int) -> Option<int>
    decreases files.len() - i,
{
    if i < 0 || i >= files.len() {
        None
    } else if !file_ok(files, texts, parsed, i) {
        Some(i)
    } else {
        first_faulty(files, texts, parsed, i + 1)
    }
}

/// The records of a snapshot whose every file has its text.
pub open spec fn snapshot_records_are(
    r: SnapshotRecords,
    repository_id: Seq<char>,
    files: Seq<ScannedFile>,
    texts: Seq<(String, String)>,
    parsed: Seq<ParsedFile>,
    maximum: int,
) -> bool {
    &&& r.repository_entity_id@ == digest_id_of(
        "entity"@,
        seq![repository_id, ""@, decimal(0), decimal(0), "repository"@],
    )
    &&& r.files@.len() == files.len()
    &&& built(r.files@, repository_id, files, texts, parsed, maximum, files.len() as int)
}

/// The structural records of a snapshot: the repository entity, then, file
/// by file in scan order, the file's records from its text (`texts` maps
/// paths to file texts) and its parse (`parsed[i]` is the parse of
/// `files[i]`). Refused at the first file that cannot be recorded: for a
/// missing text, naming the file; for a unit range that is not a range of
/// the text, naming the file and the first such range.
pub fn snapshot_records(
    repository_id: &str,
    files: &Vec<ScannedFile>,
    texts: &Vec<(String, String)>,
    parsed: &Vec<ParsedFile>,
    max_unit_bytes: usize,
) -> (r: Result<SnapshotRecords, RecordsError>)
    requires
        parsed@.len() == files@.len(),
        texts_countable(texts@),
    ensures
        match r {
            Ok(s) => first_faulty(files@, texts@, parsed@, 0) is None && snapshot_records_are(
                s,
                repository_id@,
                files@,
                texts@,
                parsed@,
                max_unit_bytes as int,
            ),
            Err(RecordsError::TextMissing { path }) => {
                let k = first_faulty(files@, texts@, parsed@, 0)->0;
                &&& first_faulty(files@, texts@, parsed@, 0) is Some
                &&& text_at(texts@, files@[k].relative_path@, 0) is None
                &&& path@ == files@[k].relative_path@
            },
            Err(RecordsError::InvalidSourceRange { path, start_byte, end_byte }) => {
                let k = first_faulty(files@, texts@, parsed@, 0)->0;
                let t = text_at(texts@, files@[k].relative_path@, 0)->0;
                let u = first_bad_unit(texts@[t].1@, parsed@[k].units@, 0)->0;
                &&& first_faulty(files@, texts@, parsed@, 0) is Some
                &&& text_at(texts@, files@[k].relative_path@, 0) is Some
                &&& first_bad_unit(texts@[t].1@, parsed@[k].units@, 0) is Some
                &&& path@ == files@[k].relative_path@
                &&& start_byte == parsed@[k].units@[u].start_byte
                &&& end_byte == parsed@[k].units@[u].end_byte
            },
        },
{
    let repository_entity_id = entity_id(repository_id, "", 0, 0, "repository");
    let mut out: Vec<FileRecords> = Vec::new();
    let mut i: usize = 0;
    while i < files.len()
        invariant
            i <= files@.len(),
            parsed@.len() == files@.len(),
            texts_countable(texts@),
            first_faulty(files@, texts@, parsed@, 0) == first_faulty(files@, texts@, parsed@, i as int),
            out@.len() == i,
            built(out@, repository_id@, files@, texts@, parsed@, max_unit_bytes as int, i as int),
        decreases files@.len() - i,
    {
        let file = &files[i];
        let t = match find_text(texts, &file.relative_path) {
            Some(t) => t,
            None => {
                return Err(RecordsError::TextMissing { path: file.relative_path.clone() });
            },
        };
        let text = texts[t].1.as_str();
        assert(recordable(text@)) by {
            assert(newline_count(encode_utf8(texts@[t as int].1@)) < u32::MAX);
        }
        let rec = match file_records(repository_id, file, text, &parsed[i], max_unit_bytes) {
            Ok(rec) => rec,
            Err(e) => {
                return Err(e);
            },
        };
        proof {
            assert(text_at(texts@, files@[i as int].relative_path@, 0) == Some(t as int));
        }
        let ghost before = out@;
        out.push(rec);
        proof {
            assert(first_faulty(files@, texts@, parsed@, i as int) == first_faulty(files@, texts@, parsed@, i + 1));
            lemma_built_push(before, out@, repository_id@, files@, texts@, parsed@, max_unit_bytes as int, i as int);
        }
        i = i + 1;
    }
    proof {
        lemma_none_past_end(files@, texts@, parsed@, files@.len() as int);
    }
    Ok(SnapshotRecords { repository_entity_id, files: out })
}

/// File record `j` is built from file `j`'s text and parse.
pub open spec fn built_at(
    out: Seq<FileRecords>,
    repository_id: Seq<char>,
    files: Seq<ScannedFile>,
    texts: Seq<(String, String)>,
    parsed: Seq<ParsedFile>,
    maximum: int,
    j: int,
) -> bool {
    &&& text_at(texts, files[j].relative_path@, 0) is Some
    &&& file_records_are(
        out[j],
        repository_id,
        files[j],
        texts[text_at(texts, files[j].relative_path@, 0)->0].1@,
        parsed[j],
        maximum,
    )
}

/// The first `n` file records are built.
pub open spec fn built(
    out: Seq<FileRecords>,
    repository_id: Seq<char>,
    files: Seq<ScannedFile>,
    texts: Seq<(String, String)>,
    parsed: Seq<ParsedFile>,
    maximum: int,
    n: int,
) -> bool {
    forall|j: int| 0 <= j < n ==> #[trigger] built_at(out, repository_id, files, texts, parsed, maximum, j)
}

proof fn lemma_built_push(
    before: Seq<FileRecords>,
    after: Seq<FileRecords>,
    repository_id: Seq<char>,
    files: Seq<ScannedFile>,
    texts: Seq<(String, String)>,
    parsed: Seq<ParsedFile>,
    maximum: int,
    n: int,
)
    requires
        built(before, repository_id, files, texts, parsed, maximum, n),
        before.len() == n,
        after.len() == n + 1,
        forall|j: int| 0 <= j < n ==> after[j] == before[j],
        built_at(after, repository_id, files, texts, parsed, maximum, n),
    ensures
        built(after, repository_id, files, texts, parsed, maximum, n + 1),
{
    assert forall|j: int| 0 <= j < n + 1 implies #[trigger] built_at(
        after,
        repository_id,
        files,
        texts,
        parsed,
        maximum,
        j,
    ) by {
        if j < n {
            assert(after[j] == before[j]);
            assert(built_at(before, repository_id, files, texts, parsed, maximum, j));
        }
    }
}

proof fn lemma_none_past_end(files: Seq<ScannedFile>, texts: Seq<(String, String)>, parsed: Seq<ParsedFile>, i: int)
    requires
        i >= files.len(),
    ensures
        first_faulty(files, texts, parsed, i) is None,
{
}

/// A unit that fits in `maximum` bytes (or any unit, where `maximum` is 0)
/// is one chunk that retrieves the unit's own symbol region; a longer unit
/// is split into chunks that walk it in order from its first byte, each
/// non-empty, at most `maximum` bytes, within the unit, and each with a
/// subregion of its own.
pub proof fn law_units_split_into_subregions(
    r: UnitRecords,
    repository_id: Seq<char>,
    path: Seq<char>,
    text: Seq<char>,
    units: Seq<ParsedUnit>,
    parser: Option<Seq<char>>,
    i: int,
    maximum: int,
)
    requires
        0 <= i < units.len(),
        unit_records_are(r, repository_id, path, text, units, parser, i, maximum),
    ensures
        units[i].end_byte - units[i].start_byte <= maximum || maximum == 0 ==> {
            &&& r.chunks@.len() == 1
            &&& r.chunks@[0].start_byte == units[i].start_byte
            &&& r.chunks@[0].end_byte == units[i].end_byte
            &&& r.chunks@[0].subregion is None
            &&& r.chunks@[0].region_id@ == unit_region_id_of(path, units[i])
        },
        maximum > 0 && units[i].end_byte - units[i].start_byte > maximum ==> {
            &&& r.chunks@.len() > 0 ==> r.chunks@[0].start_byte == units[i].start_byte
            &&& forall|k: int|
                0 <= k < r.chunks@.len() - 1 ==> #[trigger] r.chunks@[k].end_byte == r.chunks@[k
                    + 1].start_byte
            &&& forall|k: int|
                0 <= k < r.chunks@.len() ==> {
                    let c = #[trigger] r.chunks@[k];
                    &&& c.start_byte < c.end_byte <= c.start_byte + maximum
                    &&& c.end_byte <= units[i].end_byte
                    &&& c.subregion is Some
                }
        },
{
    let u = units[i];
    let uid = unit_entity_id_of(repository_id, path, u);
    let cs = chunks_in(text, u.start_byte as int, u.end_byte as int, maximum);
    if u.end_byte - u.start_byte <= maximum || maximum == 0 {
        assert(cs =~= seq![(u.start_byte as int, u.end_byte as int)]);
        assert(unit_chunk_is(r.chunks@[0], path, text, u, uid, cs[0]));
    }
    if maximum > 0 && u.end_byte - u.start_byte > maximum {
        crate::indexing::law_chunks_walk_the_range(
            encode_utf8(text),
            u.start_byte as int,
            u.end_byte as int,
            maximum,
        );
        assert forall|k: int| 0 <= k < r.chunks@.len() implies ({
            let c = #[trigger] r.chunks@[k];
            &&& c.start_byte == cs[k].0
            &&& c.end_byte == cs[k].1
            &&& c.subregion is Some
        }) by {
            assert(unit_chunk_is(r.chunks@[k], path, text, u, uid, cs[k]));
        }
        if r.chunks@.len() > 0 {
            assert(r.chunks@[0].start_byte == cs[0].0);
        }
        assert forall|k: int| 0 <= k < r.chunks@.len() - 1 implies #[trigger] r.chunks@[k].end_byte
            == r.chunks@[k + 1].start_byte by {
            assert(r.chunks@[k].end_byte == cs[k].1);
            assert(r.chunks@[k + 1].start_byte == cs[k + 1].0);
        }
    }
}

proof fn lemma_after_newline_is_boundary(b: Seq<u8>, e: int)
    requires
        valid_utf8(b),
        0 < e <= b.len(),
        b[e - 1] == 10,
    ensures
        is_char_boundary(b, e),
    decreases b.len(),
{
    let l = length_of_first_scalar(b);
    assert(valid_first_scalar(b));
    let p = pop_first_scalar(b);
    assert(p.len() == b.len() - l);
    if e - 1 < l {
        assert(e == l);
        assert(is_char_boundary(p, 0));
    } else {
        assert(p[e - l - 1] == b[e - 1]);
        lemma_after_newline_is_boundary(p, e - l);
    }
}

proof fn lemma_walk_starts_late(cs: Seq<(int, int)>, start: int, end: int, maximum: int, b: Seq<u8>, k: int)
    requires
        crate::indexing::chunks_walk(cs, start, end, maximum, b),
        0 <= k < cs.len(),
    ensures
        cs[k].0 >= start,
    decreases k,
{
    if k > 0 {
        lemma_walk_starts_late(cs, start, end, maximum, b, k - 1);
        assert(cs[k - 1].1 == cs[k].0);
    }
}

/// Every chunk of a valid range of a text is itself a valid range of it,
/// so the chunk documents of a unit whose range was accepted, and the
/// windows of a whole file, never meet a range that is not one.
pub proof fn law_chunks_of_valid_ranges_are_valid(text: Seq<char>, start: int, end: int, maximum: int)
    requires
        range_valid(text, start, end),
        maximum >= 0,
    ensures
        forall|k: int|
            0 <= k < chunks_in(text, start, end, maximum).len() ==> range_valid(
                text,
                (#[trigger] chunks_in(text, start, end, maximum)[k]).0,
                chunks_in(text, start, end, maximum)[k].1,
            ),
{
    let b = encode_utf8(text);
    vstd::utf8::encode_utf8_valid_utf8(text);
    let cs = chunks_in(text, start, end, maximum);
    if end - start <= maximum || maximum == 0 {
        assert(cs =~= seq![(start, end)]);
    } else {
        crate::indexing::law_chunks_walk_the_range(b, start, end, maximum);
        assert forall|k: int| 0 <= k < cs.len() implies is_char_boundary(b, #[trigger] cs[k].1) by {
            lemma_walk_starts_late(cs, start, end, maximum, b, k);
            let e = cs[k].1;
            if !is_char_boundary(b, e) {
                lemma_after_newline_is_boundary(b, e);
            }
        }
        assert forall|k: int| 0 <= k < cs.len() implies range_valid(text, (#[trigger] cs[k]).0, cs[k].1) by {
            if k > 0 {
                assert(cs[k - 1].1 == cs[k].0);
                assert(is_char_boundary(b, cs[k - 1].1));
            }
        }
    }
}

} // verus!
