//! Checking a dataflow artifact against the scanned source it claims to
//! describe: its header (format, target snapshot, generator), its file
//! fingerprints, and every source address it carries.

use vstd::prelude::*;
use vstd::hash_map::StringHashMap;
use vstd::utf8::{encode_utf8, is_char_boundary};

use crate::context::SourceAddress;
use crate::descriptor::opt_view;
use crate::pattern::line_at;
use crate::repository::{newline_count, ScannedFile};
use crate::dataflow::{node_entity_kind, node_entity_kind_of, ArtifactEdgeKind};
use crate::digest::{blake3_hex, blake3_hex_of};
use crate::indexing::{digest_id, digest_id_of};
use crate::parser::EntityKind;
use crate::testlinks::byte_len;
use crate::text::{chars_of, copy_string, string_of, trim, trim_chars};

verus! {

/// The artifact format this library reads.
pub const ARTIFACT_SCHEMA_VERSION: u32 = 1;

/// What an artifact says about itself.
#[derive(Debug)]
pub struct ArtifactHeader {
    pub schema_version: u32,
    pub repository_id: String,
    pub workspace_overlay_hash: String,
    pub base_revision: Option<String>,
    pub generator_name: String,
    pub generator_version: String,
}

/// The snapshot the scanned source is.
#[derive(Debug)]
pub struct SourceIdentity {
    pub repository_id: String,
    pub snapshot_id: String,
    pub workspace_overlay_hash: String,
    pub base_revision: Option<String>,
}

/// A file an artifact was generated from, with its content hash.
#[derive(Debug)]
pub struct ArtifactFile {
    pub path: String,
    pub content_hash: String,
}

/// A byte and line range an artifact reports.
#[derive(Debug)]
pub struct ArtifactAddress {
    pub path: String,
    pub start_byte: u64,
    pub end_byte: u64,
    pub start_line: u32,
    pub end_line: u32,
}

/// Why an artifact was refused.
#[derive(Debug)]
pub enum ArtifactError {
    /// The artifact is in another format version.
    UnsupportedFormat { found: u32 },
    /// It describes another repository, overlay or revision.
    TargetMismatch,
    /// Its generator has no name or no version.
    MissingGenerator,
    /// It fingerprints a file twice.
    DuplicateFile { path: String },
    /// It fingerprints a file the scan does not have.
    MissingFile { path: String },
    /// A fingerprint does not match the scanned file.
    HashMismatch { path: String },
    /// An address names a file it did not fingerprint.
    UnfingerprintedAddress { path: String },
    /// An address names a file the scan does not have.
    MissingAddressFile { path: String },
    /// The text of an addressed file could not be had.
    TextUnavailable { path: String },
    /// An address's byte offsets do not fit this machine's offsets.
    RangeOverflow { path: String },
    /// An address is not a valid range of its file, or its lines are wrong.
    InvalidSourceRange { path: String, start_byte: u64, end_byte: u64 },
}

/// The failure kinds, for contracts.
pub enum Refusal {
    UnsupportedFormat(u32),
    TargetMismatch,
    MissingGenerator,
    DuplicateFile(Seq<char>),
    MissingFile(Seq<char>),
    HashMismatch(Seq<char>),
    UnfingerprintedAddress(Seq<char>),
    MissingAddressFile(Seq<char>),
    TextUnavailable(Seq<char>),
    RangeOverflow(Seq<char>),
    InvalidSourceRange(Seq<char>, u64, u64),
}

/// An error by its kind and the values it carries.
pub open spec fn refusal_of(e: ArtifactError) -> Refusal {
    match e {
        ArtifactError::UnsupportedFormat { found } => Refusal::UnsupportedFormat(found),
        ArtifactError::TargetMismatch => Refusal::TargetMismatch,
        ArtifactError::MissingGenerator => Refusal::MissingGenerator,
        ArtifactError::DuplicateFile { path } => Refusal::DuplicateFile(path@),
        ArtifactError::MissingFile { path } => Refusal::MissingFile(path@),
        ArtifactError::HashMismatch { path } => Refusal::HashMismatch(path@),
        ArtifactError::UnfingerprintedAddress { path } => Refusal::UnfingerprintedAddress(path@),
        ArtifactError::MissingAddressFile { path } => Refusal::MissingAddressFile(path@),
        ArtifactError::TextUnavailable { path } => Refusal::TextUnavailable(path@),
        ArtifactError::RangeOverflow { path } => Refusal::RangeOverflow(path@),
        ArtifactError::InvalidSourceRange { path, start_byte, end_byte } => Refusal::InvalidSourceRange(
            path@,
            start_byte,
            end_byte,
        ),
    }
}

/// A result by its refusal, if any.
pub open spec fn outcome<T>(r: Result<T, ArtifactError>) -> Option<Refusal> {
    match r {
        Ok(_) => None,
        Err(e) => Some(refusal_of(e)),
    }
}

// ---- the header --------------------------------------------------------------------

/// Why a header is refused, if it is.
pub open spec fn header_refusal(h: ArtifactHeader, src: SourceIdentity) -> Option<Refusal> {
    if h.schema_version != ARTIFACT_SCHEMA_VERSION {
        Some(Refusal::UnsupportedFormat(h.schema_version))
    } else if h.repository_id@ != src.repository_id@ || h.workspace_overlay_hash@
        != src.workspace_overlay_hash@ || opt_view(h.base_revision) != opt_view(src.base_revision) {
        Some(Refusal::TargetMismatch)
    } else if trim(h.generator_name@).len() == 0 || trim(h.generator_version@).len() == 0 {
        Some(Refusal::MissingGenerator)
    } else {
        None
    }
}

fn same_opt(a: &Option<String>, b: &Option<String>) -> (r: bool)
    ensures
        r == (opt_view(*a) == opt_view(*b)),
{
    match (a, b) {
        (Some(x), Some(y)) => *x == *y,
        (None, None) => true,
        _ => false,
    }
}

/// Checks an artifact's header: the supported format, the scanned
/// repository, overlay and revision, and a named, versioned generator.
pub fn validate_header(header: &ArtifactHeader, source: &SourceIdentity) -> (r: Result<(), ArtifactError>)
    ensures
        outcome(r) == header_refusal(*header, *source),
{
    if header.schema_version != ARTIFACT_SCHEMA_VERSION {
        return Err(ArtifactError::UnsupportedFormat { found: header.schema_version });
    }
    if header.repository_id != source.repository_id || header.workspace_overlay_hash
        != source.workspace_overlay_hash || !same_opt(&header.base_revision, &source.base_revision) {
        return Err(ArtifactError::TargetMismatch);
    }
    if trim_chars(&chars_of(header.generator_name.as_str())).len() == 0 || trim_chars(
        &chars_of(header.generator_version.as_str()),
    ).len() == 0 {
        return Err(ArtifactError::MissingGenerator);
    }
    Ok(())
}

// ---- file fingerprints -------------------------------------------------------------

/// Position of the first scanned file with `path` at or after `i`.
pub open spec fn scanned_at(files: Seq<ScannedFile>, path: Seq<char>, i: int) -> Option<int>
    decreases files.len() - i,
{
    if i < 0 || i >= files.len() {
        None
    } else if files[i].relative_path@ == path {
        Some(i)
    } else {
        scanned_at(files, path, i + 1)
    }
}

/// Why the `k`-th fingerprint is refused, if it is: a path fingerprinted
/// before, a file the scan lacks, or a hash that differs.
pub open spec fn file_refusal(declared: Seq<ArtifactFile>, files: Seq<ScannedFile>, k: int) -> Option<
    Refusal,
> {
    let d = declared[k];
    if exists|j: int| 0 <= j < k && #[trigger] declared[j].path@ == d.path@ {
        Some(Refusal::DuplicateFile(d.path@))
    } else {
        match scanned_at(files, d.path@, 0) {
            None => Some(Refusal::MissingFile(d.path@)),
            Some(f) => if files[f].content_hash@ != d.content_hash@ {
                Some(Refusal::HashMismatch(d.path@))
            } else {
                None
            },
        }
    }
}

/// The refusal of the first refused fingerprint among positions `k..`.
pub open spec fn files_refusal(declared: Seq<ArtifactFile>, files: Seq<ScannedFile>, k: int) -> Option<
    Refusal,
>
    decreases declared.len() - k,
{
    if k < 0 || k >= declared.len() {
        None
    } else if file_refusal(declared, files, k) is Some {
        file_refusal(declared, files, k)
    } else {
        files_refusal(declared, files, k + 1)
    }
}

pub(crate) fn find_scanned(files: &Vec<ScannedFile>, path: &String) -> (r: Option<usize>)
    ensures
        match r {
            Some(i) => i < files@.len() && scanned_at(files@, path@, 0) == Some(i as int),
            None => scanned_at(files@, path@, 0) is None,
        },
{
    let mut i: usize = 0;
    while i < files.len()
        invariant
            i <= files@.len(),
            scanned_at(files@, path@, 0) == scanned_at(files@, path@, i as int),
        decreases files@.len() - i,
    {
        if files[i].relative_path == *path {
            return Some(i);
        }
        i = i + 1;
    }
    None
}

/// Checks an artifact's file fingerprints in order: each path once, each
/// file scanned, each hash equal to the scanned file's; the first failure
/// is reported.
pub fn validate_files(declared: &Vec<ArtifactFile>, files: &Vec<ScannedFile>) -> (r: Result<(), ArtifactError>)
    ensures
        outcome(r) == files_refusal(declared@, files@, 0),
{
    let mut k: usize = 0;
    while k < declared.len()
        invariant
            k <= declared@.len(),
            files_refusal(declared@, files@, 0) == files_refusal(declared@, files@, k as int),
        decreases declared@.len() - k,
    {
        let d = &declared[k];
        let mut j: usize = 0;
        while j < k
            invariant
                j <= k < declared@.len(),
                d == declared@[k as int],
                forall|a: int| 0 <= a < j ==> declared@[a].path@ != d.path@,
                files_refusal(declared@, files@, 0) == files_refusal(declared@, files@, k as int),
            decreases k - j,
        {
            if declared[j].path == d.path {
                assert(declared@[j as int].path@ == d.path@);
                return Err(ArtifactError::DuplicateFile { path: copy_string(&d.path) });
            }
            j = j + 1;
        }
        match find_scanned(files, &d.path) {
            None => {
                return Err(ArtifactError::MissingFile { path: copy_string(&d.path) });
            },
            Some(f) => {
                if files[f].content_hash != d.content_hash {
                    return Err(ArtifactError::HashMismatch { path: copy_string(&d.path) });
                }
            },
        }
        k = k + 1;
    }
    Ok(())
}

// ---- addresses ---------------------------------------------------------------------

/// Position of the first fingerprint of `path`.
pub open spec fn declared_at(declared: Seq<ArtifactFile>, path: Seq<char>, i: int) -> Option<int>
    decreases declared.len() - i,
{
    if i < 0 || i >= declared.len() {
        None
    } else if declared[i].path@ == path {
        Some(i)
    } else {
        declared_at(declared, path, i + 1)
    }
}

/// Position of the text of `path` among `texts`.
pub open spec fn text_at(texts: Seq<(String, String)>, path: Seq<char>, i: int) -> Option<int>
    decreases texts.len() - i,
{
    if i < 0 || i >= texts.len() {
        None
    } else if texts[i].0@ == path {
        Some(i)
    } else {
        text_at(texts, path, i + 1)
    }
}

/// `start..end` with lines `sl..=el` is a valid range of `text`: ordered,
/// inside it, on char boundaries, with the lines its offsets fall on.
pub open spec fn valid_range(text: Seq<char>, start: int, end: int, sl: u32, el: u32) -> bool {
    let b = encode_utf8(text);
    &&& start <= end
    &&& end <= byte_len(text)
    &&& is_char_boundary(b, start)
    &&& is_char_boundary(b, end)
    &&& sl == line_at(b, start as nat)
    &&& el == line_at(b, end as nat)
}

/// Why an address is refused, if it is; `None` when it is valid.
pub open spec fn address_refusal(
    a: ArtifactAddress,
    files: Seq<ScannedFile>,
    declared: Seq<ArtifactFile>,
    texts: Seq<(String, String)>,
) -> Option<Refusal> {
    if declared_at(declared, a.path@, 0) is None {
        Some(Refusal::UnfingerprintedAddress(a.path@))
    } else if scanned_at(files, a.path@, 0) is None {
        Some(Refusal::MissingAddressFile(a.path@))
    } else {
        match text_at(texts, a.path@, 0) {
            None => Some(Refusal::TextUnavailable(a.path@)),
            Some(t) => if a.start_byte > usize::MAX || a.end_byte > usize::MAX {
                Some(Refusal::RangeOverflow(a.path@))
            } else if !valid_range(
                texts[t].1@,
                a.start_byte as int,
                a.end_byte as int,
                a.start_line,
                a.end_line,
            ) {
                Some(Refusal::InvalidSourceRange(a.path@, a.start_byte, a.end_byte))
            } else {
                None
            },
        }
    }
}

/// `r` is address `a` in the scanned snapshot.
pub open spec fn address_in(r: SourceAddress, a: ArtifactAddress, src: SourceIdentity) -> bool {
    &&& r.repository_id@ == src.repository_id@
    &&& r.snapshot_id@ == src.snapshot_id@
    &&& r.path@ == a.path@
    &&& r.start_byte == a.start_byte
    &&& r.end_byte == a.end_byte
    &&& r.start_line == a.start_line
    &&& r.end_line == a.end_line
    &&& r.symbol_id is None
}

fn find_declared(declared: &Vec<ArtifactFile>, path: &String) -> (r: bool)
    ensures
        r == declared_at(declared@, path@, 0) is Some,
{
    let mut i: usize = 0;
    while i < declared.len()
        invariant
            i <= declared@.len(),
            declared_at(declared@, path@, 0) == declared_at(declared@, path@, i as int),
        decreases declared@.len() - i,
    {
        if declared[i].path == *path {
            return true;
        }
        i = i + 1;
    }
    false
}

pub(crate) fn find_text(texts: &Vec<(String, String)>, path: &String) -> (r: Option<usize>)
    ensures
        match r {
            Some(i) => i < texts@.len() && text_at(texts@, path@, 0) == Some(i as int),
            None => text_at(texts@, path@, 0) is None,
        },
{
    let mut i: usize = 0;
    while i < texts.len()
        invariant
            i <= texts@.len(),
            text_at(texts@, path@, 0) == text_at(texts@, path@, i as int),
        decreases texts@.len() - i,
    {
        if texts[i].0 == *path {
            return Some(i);
        }
        i = i + 1;
    }
    None
}

/// Checks a source address an artifact carries: its file fingerprinted and
/// scanned, its text at hand (`texts` maps paths to file texts), its
/// offsets machine-sized, ordered, inside the text and on char boundaries,
/// and its lines the ones those offsets fall on. A valid address becomes
/// the same range in the scanned snapshot.
pub fn validate_address(
    address: &ArtifactAddress,
    source: &SourceIdentity,
    files: &Vec<ScannedFile>,
    declared: &Vec<ArtifactFile>,
    texts: &Vec<(String, String)>,
) -> (r: Result<SourceAddress, ArtifactError>)
    requires
        forall|k: int|
            0 <= k < texts@.len() ==> newline_count(encode_utf8(#[trigger] texts@[k].1@))
                < u32::MAX,
    ensures
        outcome(r) == address_refusal(*address, files@, declared@, texts@),
        r matches Ok(a) ==> address_in(a, *address, *source),
{
    let path = &address.path;
    if !find_declared(declared, path) {
        return Err(ArtifactError::UnfingerprintedAddress { path: copy_string(path) });
    }
    if find_scanned(files, path).is_none() {
        return Err(ArtifactError::MissingAddressFile { path: copy_string(path) });
    }
    let Some(t) = find_text(texts, path) else {
        return Err(ArtifactError::TextUnavailable { path: copy_string(path) });
    };
    if address.start_byte > usize::MAX as u64 || address.end_byte > usize::MAX as u64 {
        return Err(ArtifactError::RangeOverflow { path: copy_string(path) });
    }
    let text = texts[t].1.as_str();
    let start = address.start_byte as usize;
    let end = address.end_byte as usize;
    let valid = start <= end && end <= text.len() && text.is_char_boundary(start)
        && text.is_char_boundary(end) && address.start_line == crate::indexing::line_for_offset(
        text,
        start,
    ) && address.end_line == crate::indexing::line_for_offset(text, end);
    if !valid {
        return Err(
            ArtifactError::InvalidSourceRange {
                path: copy_string(path),
                start_byte: address.start_byte,
                end_byte: address.end_byte,
            },
        );
    }
    Ok(
        SourceAddress {
            repository_id: copy_string(&source.repository_id),
            snapshot_id: copy_string(&source.snapshot_id),
            path: copy_string(path),
            start_byte: address.start_byte,
            end_byte: address.end_byte,
            start_line: address.start_line,
            end_line: address.end_line,
            symbol_id: None,
        },
    )
}

// ---- entities and relations --------------------------------------------------------

/// A node of an artifact.
#[derive(Debug)]
pub struct ArtifactNode {
    pub id: String,
    pub kind: String,
    pub name: String,
    pub address: ArtifactAddress,
}

/// An entity already indexed, by its id and source range.
#[derive(Debug)]
pub struct IndexedEntity {
    pub id: String,
    pub path: String,
    pub start_byte: u64,
    pub end_byte: u64,
}

/// An entity for an artifact node (capability `precise_dataflow_node`).
#[derive(Debug)]
pub struct DataflowEntity {
    pub id: String,
    pub kind: EntityKind,
    pub name: String,
    pub qualified_name: String,
    pub language: Option<String>,
    pub address: SourceAddress,
    pub node_id: String,
    pub node_kind: String,
    pub artifact_digest: String,
}

/// The relation kinds an artifact import produces.
#[derive(Clone, Copy, Debug, PartialEq, Eq, Structural)]
pub enum DataflowRelationKind {
    Contains,
    DataFlowsTo,
    TaintFlowsTo,
    ControlFlowsTo,
}

/// A relation an artifact import produces.
#[derive(Debug)]
pub struct DataflowRelation {
    pub id: String,
    pub source_entity_id: String,
    pub target_entity_id: String,
    pub kind: DataflowRelationKind,
    pub extractor: String,
    pub evidence: Vec<SourceAddress>,
    pub analysis_edge_id: Option<String>,
    pub artifact_digest: String,
}

/// The digest an artifact's entities and relations are keyed by.
pub fn artifact_digest(bytes: &[u8]) -> (r: String)
    ensures
        r@ == blake3_hex_of(bytes@),
{
    blake3_hex(bytes)
}

/// `name@version`.
pub open spec fn generator_label(name: Seq<char>, version: Seq<char>) -> Seq<char> {
    name + "@"@ + version
}

/// The extractor id of an artifact's generator.
pub fn generator_id(header: &ArtifactHeader) -> (r: String)
    ensures
        r@ == generator_label(header.generator_name@, header.generator_version@),
{
    let mut v = chars_of(header.generator_name.as_str());
    crate::text::push_str(&mut v, "@");
    crate::text::push_str(&mut v, header.generator_version.as_str());
    string_of(&v)
}

/// `e` covers the whole of `a`.
pub open spec fn encloses(e: IndexedEntity, a: SourceAddress) -> bool {
    e.path@ == a.path@ && e.start_byte <= a.start_byte && e.end_byte >= a.end_byte
}

/// The byte length of an entity's range.
pub open spec fn span_of(e: IndexedEntity) -> int {
    if e.end_byte >= e.start_byte {
        e.end_byte - e.start_byte
    } else {
        0
    }
}

/// Among the first `n` entities, the position of the shortest one that
/// encloses `a`, the earliest among equally short ones.
pub open spec fn enclosing_pick(es: Seq<IndexedEntity>, a: SourceAddress, n: int) -> Option<int>
    decreases n,
{
    if n <= 0 {
        None
    } else {
        let prev = enclosing_pick(es, a, n - 1);
        if encloses(es[n - 1], a) && (prev matches Some(b) ==> span_of(es[n - 1]) < span_of(es[b])) {
            Some(n - 1)
        } else {
            prev
        }
    }
}

/// The entity an address lies in: the shortest enclosing one, the earliest
/// among equally short ones.
pub fn enclosing_entity(entities: &Vec<IndexedEntity>, address: &SourceAddress) -> (r: Option<usize>)
    ensures
        r matches Some(b) ==> b < entities@.len(),
        match r {
            Some(b) => enclosing_pick(entities@, *address, entities@.len() as int) == Some(b as int),
            None => enclosing_pick(entities@, *address, entities@.len() as int) is None,
        },
{
    let mut best: Option<usize> = None;
    let mut k: usize = 0;
    while k < entities.len()
        invariant
            k <= entities@.len(),
            best matches Some(b) ==> b < k,
            match best {
                Some(b) => enclosing_pick(entities@, *address, k as int) == Some(b as int),
                None => enclosing_pick(entities@, *address, k as int) is None,
            },
        decreases entities@.len() - k,
    {
        let e = &entities[k];
        if e.path == address.path && e.start_byte <= address.start_byte && e.end_byte
            >= address.end_byte {
            let shorter = match best {
                Some(b) => {
                    let x = &entities[b];
                    let sk: u64 = if e.end_byte >= e.start_byte {
                        e.end_byte - e.start_byte
                    } else {
                        0
                    };
                    let sb: u64 = if x.end_byte >= x.start_byte {
                        x.end_byte - x.start_byte
                    } else {
                        0
                    };
                    sk < sb
                },
                None => true,
            };
            if shorter {
                best = Some(k);
            }
        }
        k = k + 1;
    }
    best
}

/// `e` is the entity of node `node` at `address` in an artifact with
/// `digest`.
pub open spec fn node_entity_of(
    e: DataflowEntity,
    node: ArtifactNode,
    address: SourceAddress,
    repo: Seq<char>,
    digest: Seq<char>,
    language: Option<String>,
) -> bool {
    &&& e.id@ == digest_id_of("entity"@, seq![repo, "dataflow"@, digest, node.id@])
    &&& e.kind == node_entity_kind_of(node.kind@)
    &&& e.name == node.name
    &&& e.qualified_name@ == address.path@ + "::"@ + node.id@
    &&& e.language == language
    &&& e.address.repository_id == address.repository_id
    &&& e.address.snapshot_id == address.snapshot_id
    &&& e.address.path == address.path
    &&& e.address.start_byte == address.start_byte
    &&& e.address.end_byte == address.end_byte
    &&& e.address.start_line == address.start_line
    &&& e.address.end_line == address.end_line
    &&& e.address.symbol_id == Some(e.id)
    &&& e.node_id == node.id
    &&& e.node_kind == node.kind
    &&& e.artifact_digest@ == digest
}

/// The entity of an artifact node at its validated address; `language` is
/// the scanned file's.
pub fn node_entity(
    node: &ArtifactNode,
    address: &SourceAddress,
    repository_id: &str,
    digest: &str,
    language: &Option<String>,
) -> (r: DataflowEntity)
    ensures
        node_entity_of(r, *node, *address, repository_id@, digest@, *language),
{
    let mut components: Vec<String> = Vec::new();
    components.push(string_of(&chars_of(repository_id)));
    components.push(string_of(&chars_of("dataflow")));
    components.push(string_of(&chars_of(digest)));
    components.push(copy_string(&node.id));
    assert(components@.map_values(|s: String| s@) =~= seq![repository_id@, "dataflow"@, digest@, node.id@]);
    let id = digest_id("entity", &components);
    let mut q = chars_of(address.path.as_str());
    crate::text::push_str(&mut q, "::");
    crate::text::push_str(&mut q, node.id.as_str());
    let mut located = address.duplicate();
    located.symbol_id = Some(copy_string(&id));
    DataflowEntity {
        id,
        kind: node_entity_kind(node.kind.as_str()),
        name: copy_string(&node.name),
        qualified_name: string_of(&q),
        language: crate::text::copy_opt_string(language),
        address: located,
        node_id: copy_string(&node.id),
        node_kind: copy_string(&node.kind),
        artifact_digest: string_of(&chars_of(digest)),
    }
}

/// The relation from the entity a node lies in to the node's entity.
pub fn contains_relation(
    parent_id: &String,
    entity: &DataflowEntity,
    address: &SourceAddress,
    generator: &String,
) -> (r: DataflowRelation)
    ensures
        r.id@ == digest_id_of("rel"@, seq![parent_id@, entity.id@, "contains"@, "dataflow"@]),
        r.source_entity_id == *parent_id,
        r.target_entity_id == entity.id,
        r.kind == DataflowRelationKind::Contains,
        r.extractor == *generator,
        r.evidence@ == seq![*address],
        r.analysis_edge_id is None,
        r.artifact_digest == entity.artifact_digest,
{
    let mut components: Vec<String> = Vec::new();
    components.push(copy_string(parent_id));
    components.push(copy_string(&entity.id));
    components.push(string_of(&chars_of("contains")));
    components.push(string_of(&chars_of("dataflow")));
    assert(components@.map_values(|s: String| s@) =~= seq![parent_id@, entity.id@, "contains"@, "dataflow"@]);
    let mut evidence: Vec<SourceAddress> = Vec::new();
    evidence.push(address.duplicate());
    assert(evidence@ =~= seq![*address]);
    DataflowRelation {
        id: digest_id("rel", &components),
        source_entity_id: copy_string(parent_id),
        target_entity_id: copy_string(&entity.id),
        kind: DataflowRelationKind::Contains,
        extractor: copy_string(generator),
        evidence,
        analysis_edge_id: None,
        artifact_digest: copy_string(&entity.artifact_digest),
    }
}

/// The relation kind of an artifact edge kind.
pub open spec fn flow_kind(k: ArtifactEdgeKind) -> DataflowRelationKind {
    match k {
        ArtifactEdgeKind::Data => DataflowRelationKind::DataFlowsTo,
        ArtifactEdgeKind::Taint => DataflowRelationKind::TaintFlowsTo,
        ArtifactEdgeKind::Control => DataflowRelationKind::ControlFlowsTo,
    }
}

/// The relation of an artifact edge between two node entities, with its
/// validated evidence.
pub fn flow_relation(
    edge_id: &String,
    kind: ArtifactEdgeKind,
    source_entity_id: &String,
    target_entity_id: &String,
    evidence: Vec<SourceAddress>,
    digest: &String,
    generator: &String,
) -> (r: DataflowRelation)
    ensures
        r.id@ == digest_id_of("rel"@, seq![digest@, edge_id@]),
        r.source_entity_id == *source_entity_id,
        r.target_entity_id == *target_entity_id,
        r.kind == flow_kind(kind),
        r.extractor == *generator,
        r.evidence@ == evidence@,
        r.analysis_edge_id == Some(*edge_id),
        r.artifact_digest == *digest,
{
    let mut components: Vec<String> = Vec::new();
    components.push(copy_string(digest));
    components.push(copy_string(edge_id));
    assert(components@.map_values(|s: String| s@) =~= seq![digest@, edge_id@]);
    let k = match kind {
        ArtifactEdgeKind::Data => DataflowRelationKind::DataFlowsTo,
        ArtifactEdgeKind::Taint => DataflowRelationKind::TaintFlowsTo,
        ArtifactEdgeKind::Control => DataflowRelationKind::ControlFlowsTo,
    };
    DataflowRelation {
        id: digest_id("rel", &components),
        source_entity_id: copy_string(source_entity_id),
        target_entity_id: copy_string(target_entity_id),
        kind: k,
        extractor: copy_string(generator),
        evidence,
        analysis_edge_id: Some(copy_string(edge_id)),
        artifact_digest: copy_string(digest),
    }
}

// ---- the graph of an artifact --------------------------------------------------------

/// Why the node and edge ids of an artifact do not form a graph; `index` is
/// the position of the first offending node or edge.
#[derive(Debug, Clone, Copy, PartialEq, Eq, Structural)]
pub enum DataflowGraphError {
    /// A node id that is empty or repeats an earlier node's.
    BadNodeId { index: usize },
    /// An edge id that is empty or repeats an earlier edge's.
    BadEdgeId { index: usize },
    /// An edge whose source is no node id.
    UnknownSource { index: usize },
    /// An edge whose target is no node id.
    UnknownTarget { index: usize },
}

/// The `k`-th id is non-empty and no earlier id equals it.
pub open spec fn fresh_id(ids: Seq<Seq<char>>, k: int) -> bool {
    ids[k].len() > 0 && !ids.take(k).contains(ids[k])
}

/// The first of the first `n` ids that is not fresh.
pub open spec fn first_stale(ids: Seq<Seq<char>>, n: int) -> Option<int>
    decreases n,
{
    if n <= 0 {
        None
    } else {
        match first_stale(ids, n - 1) {
            Some(k) => Some(k),
            None => if fresh_id(ids, n - 1) {
                None
            } else {
                Some(n - 1)
            },
        }
    }
}

/// Edges as `(id, source node id, target node id)`.
pub open spec fn edge_views(edges: Seq<(String, String, String)>) -> Seq<(Seq<char>, Seq<char>, Seq<char>)> {
    edges.map_values(|e: (String, String, String)| (e.0@, e.1@, e.2@))
}

/// What is wrong with edge `k`, checked in the order id, source, target.
pub open spec fn edge_fault(
    ids: Seq<Seq<char>>,
    edges: Seq<(Seq<char>, Seq<char>, Seq<char>)>,
    k: int,
) -> Option<DataflowGraphError> {
    if !fresh_id(edges.map_values(|e: (Seq<char>, Seq<char>, Seq<char>)| e.0), k) {
        Some(DataflowGraphError::BadEdgeId { index: k as usize })
    } else if !ids.contains(edges[k].1) {
        Some(DataflowGraphError::UnknownSource { index: k as usize })
    } else if !ids.contains(edges[k].2) {
        Some(DataflowGraphError::UnknownTarget { index: k as usize })
    } else {
        None
    }
}

/// The fault of the first faulty edge among the first `n`.
pub open spec fn first_edge_fault(
    ids: Seq<Seq<char>>,
    edges: Seq<(Seq<char>, Seq<char>, Seq<char>)>,
    n: int,
) -> Option<DataflowGraphError>
    decreases n,
{
    if n <= 0 {
        None
    } else {
        match first_edge_fault(ids, edges, n - 1) {
            Some(e) => Some(e),
            None => edge_fault(ids, edges, n - 1),
        }
    }
}

/// The first fault of the graph: nodes first, then edges in order.
pub open spec fn graph_fault(
    ids: Seq<Seq<char>>,
    edges: Seq<(Seq<char>, Seq<char>, Seq<char>)>,
) -> Option<DataflowGraphError> {
    match first_stale(ids, ids.len() as int) {
        Some(k) => Some(DataflowGraphError::BadNodeId { index: k as usize }),
        None => first_edge_fault(ids, edges, edges.len() as int),
    }
}

proof fn lemma_first_stale_stays(ids: Seq<Seq<char>>, k: int, n: int)
    requires
        0 <= k < n <= ids.len(),
        first_stale(ids, k) is None,
        !fresh_id(ids, k),
    ensures
        first_stale(ids, n) == Some(k),
    decreases n,
{
    if n > k + 1 {
        lemma_first_stale_stays(ids, k, n - 1);
    }
}

proof fn lemma_edge_fault_stays(
    ids: Seq<Seq<char>>,
    es: Seq<(Seq<char>, Seq<char>, Seq<char>)>,
    k: int,
    n: int,
)
    requires
        0 <= k < n <= es.len(),
        first_edge_fault(ids, es, k) is None,
        edge_fault(ids, es, k) is Some,
    ensures
        first_edge_fault(ids, es, n) == edge_fault(ids, es, k),
    decreases n,
{
    if n > k + 1 {
        lemma_edge_fault_stays(ids, es, k, n - 1);
    }
}

/// Checks that node ids are non-empty and distinct, edge ids too, and that
/// every edge joins two known nodes; on success gives each edge's source
/// and target node positions, in edge order.
pub fn check_dataflow_graph(node_ids: &Vec<String>, edges: &Vec<(String, String, String)>) -> (r:
    Result<Vec<(usize, usize)>, DataflowGraphError>)
    ensures
        ({
            let ids = node_ids@.map_values(|s: String| s@);
            let es = edge_views(edges@);
            match graph_fault(ids, es) {
                Some(e) => r == Err::<Vec<(usize, usize)>, DataflowGraphError>(e),
                None => r matches Ok(v) && v@.len() == es.len() && forall|k: int|
                    0 <= k < v@.len() ==> {
                        let (s, t) = #[trigger] v@[k];
                        &&& s < ids.len() && ids[s as int] == es[k].1
                        &&& t < ids.len() && ids[t as int] == es[k].2
                    },
            }
        }),
{
    let ghost ids = node_ids@.map_values(|s: String| s@);
    let ghost es = edge_views(edges@);
    let mut index: StringHashMap<usize> = StringHashMap::new();
    for k in 0..node_ids.len()
        invariant
            ids == node_ids@.map_values(|s: String| s@),
            first_stale(ids, k as int) is None,
            forall|x: Seq<char>| #[trigger] index@.contains_key(x) <==> ids.take(k as int).contains(x),
            forall|x: Seq<char>|
                #[trigger] index@.contains_key(x) ==> index@[x] < k && ids[index@[x] as int] == x,
    {
        let id = &node_ids[k];
        assert(ids[k as int] == id@);
        if id.as_str().is_empty() || index.contains_key(id.as_str()) {
            proof {
                lemma_first_stale_stays(ids, k as int, ids.len() as int);
            }
            return Err(DataflowGraphError::BadNodeId { index: k });
        }
        let ghost before = index@;
        index.insert(copy_string(id), k);
        assert(ids.take(k + 1) =~= ids.take(k as int).push(id@));
        assert forall|x: Seq<char>| #[trigger] index@.contains_key(x) <==> ids.take(k + 1).contains(x) by {
            assert(index@.contains_key(x) <==> (x == id@ || before.contains_key(x)));
            assert(before.contains_key(x) <==> ids.take(k as int).contains(x));
            if x == id@ {
                assert(ids.take(k + 1)[k as int] == x);
            }
            if ids.take(k + 1).contains(x) && x != id@ {
                let j = choose|j: int| 0 <= j < ids.take(k + 1).len() && #[trigger] ids.take(k + 1)[j] == x;
                assert(ids.take(k as int)[j] == x);
            }
            if ids.take(k as int).contains(x) {
                let j = choose|j: int| 0 <= j < ids.take(k as int).len() && #[trigger] ids.take(k as int)[j] == x;
                assert(ids.take(k + 1)[j] == x);
            }
        }
    }
    assert(ids.take(ids.len() as int) =~= ids);
    let ghost eids = es.map_values(|e: (Seq<char>, Seq<char>, Seq<char>)| e.0);
    let mut seen: StringHashMap<()> = StringHashMap::new();
    let mut ends: Vec<(usize, usize)> = Vec::new();
    for k in 0..edges.len()
        invariant
            ids == node_ids@.map_values(|s: String| s@),
            es == edge_views(edges@),
            eids == es.map_values(|e: (Seq<char>, Seq<char>, Seq<char>)| e.0),
            first_stale(ids, ids.len() as int) is None,
            first_edge_fault(ids, es, k as int) is None,
            forall|x: Seq<char>| #[trigger] index@.contains_key(x) <==> ids.contains(x),
            forall|x: Seq<char>|
                #[trigger] index@.contains_key(x) ==> index@[x] < ids.len() && ids[index@[x] as int] == x,
            forall|x: Seq<char>| #[trigger] seen@.contains_key(x) <==> eids.take(k as int).contains(x),
            ends@.len() == k,
            forall|j: int|
                0 <= j < k ==> {
                    let (s, t) = #[trigger] ends@[j];
                    &&& s < ids.len() && ids[s as int] == es[j].1
                    &&& t < ids.len() && ids[t as int] == es[j].2
                },
    {
        let e = &edges[k];
        assert(es[k as int] == (e.0@, e.1@, e.2@));
        assert(eids[k as int] == e.0@);
        if e.0.as_str().is_empty() || seen.contains_key(e.0.as_str()) {
            proof {
                lemma_edge_fault_stays(ids, es, k as int, es.len() as int);
            }
            return Err(DataflowGraphError::BadEdgeId { index: k });
        }
        let ghost before = seen@;
        seen.insert(copy_string(&e.0), ());
        assert(eids.take(k + 1) =~= eids.take(k as int).push(e.0@));
        assert forall|x: Seq<char>| #[trigger] seen@.contains_key(x) <==> eids.take(k + 1).contains(x) by {
            assert(seen@.contains_key(x) <==> (x == e.0@ || before.contains_key(x)));
            assert(before.contains_key(x) <==> eids.take(k as int).contains(x));
            if x == e.0@ {
                assert(eids.take(k + 1)[k as int] == x);
            }
            if eids.take(k + 1).contains(x) && x != e.0@ {
                let j = choose|j: int| 0 <= j < eids.take(k + 1).len() && #[trigger] eids.take(k + 1)[j] == x;
                assert(eids.take(k as int)[j] == x);
            }
            if eids.take(k as int).contains(x) {
                let j = choose|j: int| 0 <= j < eids.take(k as int).len() && #[trigger] eids.take(k as int)[j] == x;
                assert(eids.take(k + 1)[j] == x);
            }
        }
        let s = match index.get(e.1.as_str()) {
            Some(i) => *i,
            None => {
                proof {
                    lemma_edge_fault_stays(ids, es, k as int, es.len() as int);
                }
                return Err(DataflowGraphError::UnknownSource { index: k });
            },
        };
        let t = match index.get(e.2.as_str()) {
            Some(i) => *i,
            None => {
                proof {
                    lemma_edge_fault_stays(ids, es, k as int, es.len() as int);
                }
                return Err(DataflowGraphError::UnknownTarget { index: k });
            },
        };
        ends.push((s, t));
        assert(first_edge_fault(ids, es, k + 1) == edge_fault(ids, es, k as int));
    }
    Ok(ends)
}


} // verus!
