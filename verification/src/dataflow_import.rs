//! Importing a dataflow artifact: its header, size limits and file
//! fingerprints checked, one entity per node at its validated address, a
//! containment relation from the indexed entity each node lies in, and
//! one flow relation per edge between the node entities, with validated
//! evidence.

use vstd::prelude::*;
use vstd::hash_map::StringHashMap;
use vstd::utf8::encode_utf8;
use crate::artifact::{
    address_in, address_refusal, artifact_digest, contains_relation, enclosing_entity, enclosing_pick, encloses,
    files_refusal, flow_kind, flow_relation, fresh_id, generator_id, generator_label, header_refusal,
    node_entity, node_entity_of, refusal_of, scanned_at, span_of, validate_address, validate_files,
    validate_header, ArtifactAddress, ArtifactError, ArtifactFile, ArtifactHeader, ArtifactNode,
    DataflowEntity, DataflowRelation, DataflowRelationKind, IndexedEntity, Refusal, SourceIdentity,
};
use crate::context::SourceAddress;
use crate::dataflow::ArtifactEdgeKind;
use crate::digest::blake3_hex_of;
use crate::indexing::digest_id_of;
use crate::repository::{newline_count, ScannedFile};
use crate::text::{copy_opt_string, copy_string};

verus! {

/// Most nodes an artifact may carry.
pub const MAX_DATAFLOW_NODES: usize = 5000000;

/// Most edges an artifact may carry.
pub const MAX_DATAFLOW_EDGES: usize = 20000000;

/// An edge of an artifact. Whether its confidence is a finite number in
/// `0..=1` is decided by the caller, which holds the float.
#[derive(Debug)]
pub struct ArtifactEdge {
    pub id: String,
    pub source_node_id: String,
    pub target_node_id: String,
    pub kind: ArtifactEdgeKind,
    pub confidence_ok: bool,
    pub evidence: Vec<ArtifactAddress>,
}

/// Why an artifact import failed.
#[derive(Debug)]
pub enum ImportError {
    /// The header, a fingerprint or an address was refused.
    Artifact(ArtifactError),
    /// More nodes or edges than an artifact may carry.
    TooLarge { nodes: usize, edges: usize },
    /// A node id that is empty or repeats an earlier one.
    BadNodeId { index: usize },
    /// An edge id that is empty or repeats an earlier one.
    BadEdgeId { index: usize },
    /// An edge whose confidence is not a number in `0..=1`.
    BadConfidence { index: usize },
    /// An edge whose source is no node.
    UnknownSource { index: usize },
    /// An edge whose target is no node.
    UnknownTarget { index: usize },
}

/// The failure kinds, for contracts.
pub enum ImportFault {
    Refused(Refusal),
    TooLarge,
    BadNodeId(int),
    BadEdgeId(int),
    BadConfidence(int),
    UnknownSource(int),
    UnknownTarget(int),
}

/// An import error by its kind.
pub open spec fn fault_of(e: ImportError) -> ImportFault {
    match e {
        ImportError::Artifact(a) => ImportFault::Refused(refusal_of(a)),
        ImportError::TooLarge { .. } => ImportFault::TooLarge,
        ImportError::BadNodeId { index } => ImportFault::BadNodeId(index as int),
        ImportError::BadEdgeId { index } => ImportFault::BadEdgeId(index as int),
        ImportError::BadConfidence { index } => ImportFault::BadConfidence(index as int),
        ImportError::UnknownSource { index } => ImportFault::UnknownSource(index as int),
        ImportError::UnknownTarget { index } => ImportFault::UnknownTarget(index as int),
    }
}

/// The node ids.
pub open spec fn node_ids(nodes: Seq<ArtifactNode>) -> Seq<Seq<char>> {
    nodes.map_values(|n: ArtifactNode| n.id@)
}

/// The edge ids.
pub open spec fn edge_ids(edges: Seq<ArtifactEdge>) -> Seq<Seq<char>> {
    edges.map_values(|e: ArtifactEdge| e.id@)
}

/// The first fault among the first `n` nodes: a stale id, then a refused
/// address.
pub open spec fn first_node_fault(
    nodes: Seq<ArtifactNode>,
    files: Seq<ScannedFile>,
    declared: Seq<ArtifactFile>,
    texts: Seq<(String, String)>,
    n: int,
) -> Option<ImportFault>
    decreases n,
{
    if n <= 0 {
        None
    } else {
        match first_node_fault(nodes, files, declared, texts, n - 1) {
            Some(f) => Some(f),
            None => if !fresh_id(node_ids(nodes), n - 1) {
                Some(ImportFault::BadNodeId(n - 1))
            } else {
                match address_refusal(nodes[n - 1].address, files, declared, texts) {
                    Some(r) => Some(ImportFault::Refused(r)),
                    None => None,
                }
            },
        }
    }
}

/// The first refused address among the first `n` of `ev`.
pub open spec fn first_evidence_fault(
    ev: Seq<ArtifactAddress>,
    files: Seq<ScannedFile>,
    declared: Seq<ArtifactFile>,
    texts: Seq<(String, String)>,
    n: int,
) -> Option<ImportFault>
    decreases n,
{
    if n <= 0 {
        None
    } else {
        match first_evidence_fault(ev, files, declared, texts, n - 1) {
            Some(f) => Some(f),
            None => match address_refusal(ev[n - 1], files, declared, texts) {
                Some(r) => Some(ImportFault::Refused(r)),
                None => None,
            },
        }
    }
}

/// The fault of edge `k`: a stale id, a bad confidence, an unknown source
/// or target, then a refused evidence address.
pub open spec fn edge_fault(
    nodes: Seq<ArtifactNode>,
    edges: Seq<ArtifactEdge>,
    files: Seq<ScannedFile>,
    declared: Seq<ArtifactFile>,
    texts: Seq<(String, String)>,
    k: int,
) -> Option<ImportFault> {
    if !fresh_id(edge_ids(edges), k) {
        Some(ImportFault::BadEdgeId(k))
    } else if !edges[k].confidence_ok {
        Some(ImportFault::BadConfidence(k))
    } else if !node_ids(nodes).contains(edges[k].source_node_id@) {
        Some(ImportFault::UnknownSource(k))
    } else if !node_ids(nodes).contains(edges[k].target_node_id@) {
        Some(ImportFault::UnknownTarget(k))
    } else {
        first_evidence_fault(edges[k].evidence@, files, declared, texts, edges[k].evidence@.len() as int)
    }
}

/// The first fault among the first `n` edges.
pub open spec fn first_edge_fault(
    nodes: Seq<ArtifactNode>,
    edges: Seq<ArtifactEdge>,
    files: Seq<ScannedFile>,
    declared: Seq<ArtifactFile>,
    texts: Seq<(String, String)>,
    n: int,
) -> Option<ImportFault>
    decreases n,
{
    if n <= 0 {
        None
    } else {
        match first_edge_fault(nodes, edges, files, declared, texts, n - 1) {
            Some(f) => Some(f),
            None => edge_fault(nodes, edges, files, declared, texts, n - 1),
        }
    }
}

/// The first fault of an import, in the order it checks: header, size
/// limits, fingerprints, nodes, edges.
pub open spec fn import_fault(
    header: ArtifactHeader,
    source: SourceIdentity,
    files: Seq<ScannedFile>,
    declared: Seq<ArtifactFile>,
    nodes: Seq<ArtifactNode>,
    edges: Seq<ArtifactEdge>,
    texts: Seq<(String, String)>,
) -> Option<ImportFault> {
    match header_refusal(header, source) {
        Some(r) => Some(ImportFault::Refused(r)),
        None => if nodes.len() > MAX_DATAFLOW_NODES || edges.len() > MAX_DATAFLOW_EDGES {
            Some(ImportFault::TooLarge)
        } else {
            match files_refusal(declared, files, 0) {
                Some(r) => Some(ImportFault::Refused(r)),
                None => match first_node_fault(nodes, files, declared, texts, nodes.len() as int) {
                    Some(f) => Some(f),
                    None => first_edge_fault(nodes, edges, files, declared, texts, edges.len() as int),
                },
            }
        },
    }
}

/// Among the first `n` indexed entities, the one address `a` lies in: the
/// shortest enclosing, the earliest among equally short.
pub open spec fn enclosing_of(es: Seq<IndexedEntity>, a: ArtifactAddress, n: int) -> Option<int>
    decreases n,
{
    if n <= 0 {
        None
    } else {
        let prev = enclosing_of(es, a, n - 1);
        let e = es[n - 1];
        if e.path@ == a.path@ && e.start_byte <= a.start_byte && e.end_byte >= a.end_byte && (prev matches Some(
            b,
        ) ==> span_of(e) < span_of(es[b])) {
            Some(n - 1)
        } else {
            prev
        }
    }
}

/// The nodes among the first `n` that lie in an indexed entity, with it.
pub open spec fn contained_nodes(es: Seq<IndexedEntity>, nodes: Seq<ArtifactNode>, n: int) -> Seq<(int, int)>
    decreases n,
{
    if n <= 0 {
        Seq::empty()
    } else {
        contained_nodes(es, nodes, n - 1) + match enclosing_of(es, nodes[n - 1].address, es.len() as int) {
            Some(p) => seq![(n - 1, p)],
            None => Seq::empty(),
        }
    }
}

/// The language the scan gives the file at `path`.
pub open spec fn scanned_language(files: Seq<ScannedFile>, path: Seq<char>) -> Option<String> {
    match scanned_at(files, path, 0) {
        Some(i) => files[i].language,
        None => None,
    }
}

/// The first node with id `id`.
pub open spec fn node_at(nodes: Seq<ArtifactNode>, id: Seq<char>, n: int) -> Option<int>
    decreases n,
{
    if n <= 0 {
        None
    } else {
        match node_at(nodes, id, n - 1) {
            Some(k) => Some(k),
            None => if nodes[n - 1].id@ == id {
                Some(n - 1)
            } else {
                None
            },
        }
    }
}

/// `r` is the containment relation of entity `e` (node at `a`) in the
/// indexed entity `parent`.
pub open spec fn containment_of(
    r: DataflowRelation,
    parent: IndexedEntity,
    e: DataflowEntity,
    a: ArtifactAddress,
    source: SourceIdentity,
    generator: Seq<char>,
) -> bool {
    &&& r.id@ == digest_id_of("rel"@, seq![parent.id@, e.id@, "contains"@, "dataflow"@])
    &&& r.source_entity_id == parent.id
    &&& r.target_entity_id == e.id
    &&& r.kind == DataflowRelationKind::Contains
    &&& r.extractor@ == generator
    &&& r.evidence@.len() == 1
    &&& address_in(r.evidence@[0], a, source)
    &&& r.analysis_edge_id is None
    &&& r.artifact_digest == e.artifact_digest
}

/// `r` is the flow relation of edge `e` between the entities `s` and `t`.
pub open spec fn flow_of(
    r: DataflowRelation,
    e: ArtifactEdge,
    s: DataflowEntity,
    t: DataflowEntity,
    source: SourceIdentity,
    digest: Seq<char>,
    generator: Seq<char>,
) -> bool {
    &&& r.id@ == digest_id_of("rel"@, seq![digest, e.id@])
    &&& r.source_entity_id == s.id
    &&& r.target_entity_id == t.id
    &&& r.kind == flow_kind(e.kind)
    &&& r.extractor@ == generator
    &&& r.evidence@.len() == e.evidence@.len()
    &&& forall|q: int| 0 <= q < e.evidence@.len() ==> address_in(#[trigger] r.evidence@[q], e.evidence@[q], source)
    &&& r.analysis_edge_id == Some(e.id)
    &&& r.artifact_digest@ == digest
}

/// `e` is the entity of `node` at its address in the scanned snapshot.
pub open spec fn entity_of_node(
    e: DataflowEntity,
    node: ArtifactNode,
    source: SourceIdentity,
    digest: Seq<char>,
    language: Option<String>,
) -> bool {
    let a = node.address;
    &&& e.id@ == digest_id_of("entity"@, seq![source.repository_id@, "dataflow"@, digest, node.id@])
    &&& e.kind == crate::dataflow::node_entity_kind_of(node.kind@)
    &&& e.name == node.name
    &&& e.qualified_name@ == a.path@ + "::"@ + node.id@
    &&& e.language == language
    &&& e.address.repository_id@ == source.repository_id@
    &&& e.address.snapshot_id@ == source.snapshot_id@
    &&& e.address.path@ == a.path@
    &&& e.address.start_byte == a.start_byte
    &&& e.address.end_byte == a.end_byte
    &&& e.address.start_line == a.start_line
    &&& e.address.end_line == a.end_line
    &&& e.address.symbol_id == Some(e.id)
    &&& e.node_id == node.id
    &&& e.node_kind == node.kind
    &&& e.artifact_digest@ == digest
}

/// `r` is the containment relation `c` (node position, indexed entity
/// position) names.
pub open spec fn containment_at(
    r: DataflowRelation,
    c: (int, int),
    existing: Seq<IndexedEntity>,
    entities: Seq<DataflowEntity>,
    nodes: Seq<ArtifactNode>,
    source: SourceIdentity,
    generator: Seq<char>,
) -> bool {
    &&& 0 <= c.0 < entities.len()
    &&& 0 <= c.1 < existing.len()
    &&& containment_of(r, existing[c.1], entities[c.0], nodes[c.0].address, source, generator)
}

/// What an import yields.
#[derive(Debug)]
pub struct DataflowImport {
    /// One entity per node, in node order.
    pub entities: Vec<DataflowEntity>,
    /// The containment relations in node order, then one flow relation per
    /// edge in edge order.
    pub relations: Vec<DataflowRelation>,
    /// Node and edge counts of the artifact.
    pub nodes: usize,
    pub edges: usize,
    /// `name@version` of the generator.
    pub generator: String,
    /// The digest of the artifact's bytes.
    pub digest: String,
}

/// All texts are within the line counter's range.
pub open spec fn countable(texts: Seq<(String, String)>) -> bool {
    forall|k: int| 0 <= k < texts.len() ==> newline_count(encode_utf8(#[trigger] texts[k].1@)) < u32::MAX
}

/// `r` is the successful import of the artifact.
pub open spec fn import_of(
    r: DataflowImport,
    bytes: Seq<u8>,
    header: ArtifactHeader,
    source: SourceIdentity,
    files: Seq<ScannedFile>,
    nodes: Seq<ArtifactNode>,
    edges: Seq<ArtifactEdge>,
    existing: Seq<IndexedEntity>,
) -> bool {
    let digest = blake3_hex_of(bytes);
    let generator = generator_label(header.generator_name@, header.generator_version@);
    let cs = contained_nodes(existing, nodes, nodes.len() as int);
    &&& r.nodes == nodes.len()
    &&& r.edges == edges.len()
    &&& r.digest@ == digest
    &&& r.generator@ == generator
    &&& r.entities@.len() == nodes.len()
    &&& forall|k: int|
        0 <= k < nodes.len() ==> entity_of_node(
            #[trigger] r.entities@[k],
            nodes[k],
            source,
            digest,
            scanned_language(files, nodes[k].address.path@),
        )
    &&& r.relations@.len() == cs.len() + edges.len()
    &&& forall|j: int|
        0 <= j < cs.len() ==> containment_at(
            #[trigger] r.relations@[j],
            cs[j],
            existing,
            r.entities@,
            nodes,
            source,
            generator,
        )
    &&& forall|k: int|
        0 <= k < edges.len() ==> flow_of(
            #[trigger] r.relations@[cs.len() + k],
            edges[k],
            r.entities@[node_at(nodes, edges[k].source_node_id@, nodes.len() as int).unwrap()],
            r.entities@[node_at(nodes, edges[k].target_node_id@, nodes.len() as int).unwrap()],
            source,
            digest,
            generator,
        )
}

proof fn lemma_enclosing_same(es: Seq<IndexedEntity>, located: SourceAddress, a: ArtifactAddress, source: SourceIdentity, n: int)
    requires
        address_in(located, a, source),
    ensures
        enclosing_pick(es, located, n) == enclosing_of(es, a, n),
    decreases n,
{
    if n > 0 {
        lemma_enclosing_same(es, located, a, source, n - 1);
    }
}

proof fn lemma_node_fault_stays(
    nodes: Seq<ArtifactNode>,
    files: Seq<ScannedFile>,
    declared: Seq<ArtifactFile>,
    texts: Seq<(String, String)>,
    k: int,
    n: int,
)
    requires
        0 <= k < n <= nodes.len(),
        first_node_fault(nodes, files, declared, texts, k) is None,
        first_node_fault(nodes, files, declared, texts, k + 1) is Some,
    ensures
        first_node_fault(nodes, files, declared, texts, n) == first_node_fault(nodes, files, declared, texts, k + 1),
    decreases n,
{
    if n > k + 1 {
        lemma_node_fault_stays(nodes, files, declared, texts, k, n - 1);
    }
}

proof fn lemma_edge_fault_stays(
    nodes: Seq<ArtifactNode>,
    edges: Seq<ArtifactEdge>,
    files: Seq<ScannedFile>,
    declared: Seq<ArtifactFile>,
    texts: Seq<(String, String)>,
    k: int,
    n: int,
)
    requires
        0 <= k < n <= edges.len(),
        first_edge_fault(nodes, edges, files, declared, texts, k) is None,
        edge_fault(nodes, edges, files, declared, texts, k) is Some,
    ensures
        first_edge_fault(nodes, edges, files, declared, texts, n) == edge_fault(nodes, edges, files, declared, texts, k),
    decreases n,
{
    if n > k + 1 {
        lemma_edge_fault_stays(nodes, edges, files, declared, texts, k, n - 1);
    }
}

proof fn lemma_evidence_fault_stays(
    ev: Seq<ArtifactAddress>,
    files: Seq<ScannedFile>,
    declared: Seq<ArtifactFile>,
    texts: Seq<(String, String)>,
    q: int,
    n: int,
)
    requires
        0 <= q < n <= ev.len(),
        first_evidence_fault(ev, files, declared, texts, q) is None,
        address_refusal(ev[q], files, declared, texts) is Some,
    ensures
        first_evidence_fault(ev, files, declared, texts, n) == Some(
            ImportFault::Refused(address_refusal(ev[q], files, declared, texts).unwrap()),
        ),
    decreases n,
{
    if n > q + 1 {
        lemma_evidence_fault_stays(ev, files, declared, texts, q, n - 1);
    }
}

proof fn lemma_all_fresh(
    nodes: Seq<ArtifactNode>,
    files: Seq<ScannedFile>,
    declared: Seq<ArtifactFile>,
    texts: Seq<(String, String)>,
    n: int,
)
    requires
        0 <= n <= nodes.len(),
        first_node_fault(nodes, files, declared, texts, n) is None,
    ensures
        forall|k: int| 0 <= k < n ==> fresh_id(node_ids(nodes), k),
    decreases n,
{
    if n > 0 {
        lemma_all_fresh(nodes, files, declared, texts, n - 1);
    }
}

proof fn lemma_node_at(nodes: Seq<ArtifactNode>, s: int, n: int)
    requires
        0 <= s < n <= nodes.len(),
        forall|k: int| 0 <= k < n ==> fresh_id(node_ids(nodes), k),
    ensures
        node_at(nodes, nodes[s].id@, n) == Some(s),
    decreases n,
{
    if s < n - 1 {
        lemma_node_at(nodes, s, n - 1);
    } else {
        lemma_node_at_none(nodes, nodes[s].id@, n - 1);
    }
}

proof fn lemma_node_at_none(nodes: Seq<ArtifactNode>, id: Seq<char>, n: int)
    requires
        0 <= n < nodes.len(),
        nodes[n].id@ == id,
        forall|k: int| 0 <= k <= n ==> fresh_id(node_ids(nodes), k),
    ensures
        node_at(nodes, id, n) is None,
    decreases n,
{
    if n > 0 {
        let ids = node_ids(nodes);
        assert(ids[n] == id);
        assert(fresh_id(ids, n));
        if nodes[n - 1].id@ == id {
            assert(ids.take(n)[n - 1] == ids[n]);
            assert(false);
        }
        lemma_node_at_none_below(nodes, id, n - 1, n);
    }
}

proof fn lemma_node_at_none_below(nodes: Seq<ArtifactNode>, id: Seq<char>, m: int, n: int)
    requires
        0 <= m < n < nodes.len(),
        nodes[n].id@ == id,
        fresh_id(node_ids(nodes), n),
    ensures
        node_at(nodes, id, m) is None,
    decreases m,
{
    if m > 0 {
        lemma_node_at_none_below(nodes, id, m - 1, n);
        if nodes[m - 1].id@ == id {
            assert(node_ids(nodes).take(n)[m - 1] == id);
            assert(node_ids(nodes)[n] == id);
            assert(node_ids(nodes).take(n).contains(node_ids(nodes)[n]));
            assert(false);
        }
    }
}

/// Imports a dataflow artifact whose JSON the caller parsed: checks the
/// header, the size limits and the file fingerprints; makes one entity per
/// node at its validated address (refusing empty or repeated node ids),
/// with a containment relation from the indexed entity it lies in; then
/// one flow relation per edge between the node entities (refusing empty or
/// repeated edge ids, bad confidences, unknown endpoints and invalid
/// evidence), in that order. `texts` maps paths to file texts.
pub fn assemble_dataflow(
    bytes: &[u8],
    header: &ArtifactHeader,
    source: &SourceIdentity,
    files: &Vec<ScannedFile>,
    declared: &Vec<ArtifactFile>,
    nodes: &Vec<ArtifactNode>,
    edges: &Vec<ArtifactEdge>,
    texts: &Vec<(String, String)>,
    existing: &Vec<IndexedEntity>,
) -> (r: Result<DataflowImport, ImportError>)
    requires
        countable(texts@),
    ensures
        match import_fault(*header, *source, files@, declared@, nodes@, edges@, texts@) {
            Some(f) => r matches Err(e) && fault_of(e) == f,
            None => r matches Ok(i) && import_of(i, bytes@, *header, *source, files@, nodes@, edges@, existing@),
        },
{
    match validate_header(header, source) {
        Ok(()) => {},
        Err(e) => return Err(ImportError::Artifact(e)),
    }
    if nodes.len() > MAX_DATAFLOW_NODES || edges.len() > MAX_DATAFLOW_EDGES {
        return Err(ImportError::TooLarge { nodes: nodes.len(), edges: edges.len() });
    }
    match validate_files(declared, files) {
        Ok(()) => {},
        Err(e) => return Err(ImportError::Artifact(e)),
    }
    let digest = artifact_digest(bytes);
    let generator = generator_id(header);
    let ghost ids = node_ids(nodes@);
    let ghost gen = generator@;
    let ghost dg = digest@;
    let mut index: StringHashMap<usize> = StringHashMap::new();
    let mut entities: Vec<DataflowEntity> = Vec::new();
    let mut relations: Vec<DataflowRelation> = Vec::new();
    for k in 0..nodes.len()
        invariant
            ids == node_ids(nodes@),
            gen == generator@,
            gen == generator_label(header.generator_name@, header.generator_version@),
            dg == digest@,
            dg == blake3_hex_of(bytes@),
            countable(texts@),
            header_refusal(*header, *source) is None,
            nodes@.len() <= MAX_DATAFLOW_NODES,
            edges@.len() <= MAX_DATAFLOW_EDGES,
            files_refusal(declared@, files@, 0) is None,
            first_node_fault(nodes@, files@, declared@, texts@, k as int) is None,
            forall|x: Seq<char>| #[trigger] index@.contains_key(x) <==> ids.take(k as int).contains(x),
            forall|x: Seq<char>|
                #[trigger] index@.contains_key(x) ==> index@[x] < k && ids[index@[x] as int] == x,
            entities@.len() == k,
            forall|j: int|
                0 <= j < entities@.len() ==> entity_of_node(
                    #[trigger] entities@[j],
                    nodes@[j],
                    *source,
                    dg,
                    scanned_language(files@, nodes@[j].address.path@),
                ),
            relations@.len() == contained_nodes(existing@, nodes@, k as int).len(),
            forall|j: int|
                0 <= j < relations@.len() ==> containment_at(
                    #[trigger] relations@[j],
                    contained_nodes(existing@, nodes@, k as int)[j],
                    existing@,
                    entities@,
                    nodes@,
                    *source,
                    gen,
                ),
    {
        let node = &nodes[k];
        assert(ids[k as int] == node.id@);
        if node.id.as_str().is_empty() || index.contains_key(node.id.as_str()) {
            proof {
                assert(first_node_fault(nodes@, files@, declared@, texts@, k + 1) == Some(
                    ImportFault::BadNodeId(k as int),
                ));
                lemma_node_fault_stays(nodes@, files@, declared@, texts@, k as int, nodes@.len() as int);
            }
            return Err(ImportError::BadNodeId { index: k });
        }
        let located = match validate_address(&node.address, source, files, declared, texts) {
            Ok(a) => a,
            Err(e) => {
                proof {
                    lemma_node_fault_stays(nodes@, files@, declared@, texts@, k as int, nodes@.len() as int);
                }
                return Err(ImportError::Artifact(e));
            },
        };
        let language = match crate::artifact::find_scanned(files, &node.address.path) {
            Some(i) => copy_opt_string(&files[i].language),
            None => None,
        };
        assert(language == scanned_language(files@, node.address.path@));
        let entity = node_entity(node, &located, source.repository_id.as_str(), digest.as_str(), &language);
        let ghost before_index = index@;
        index.insert(copy_string(&node.id), k);
        assert(ids.take(k + 1) =~= ids.take(k as int).push(node.id@));
        assert forall|x: Seq<char>| #[trigger] index@.contains_key(x) <==> ids.take(k + 1).contains(x) by {
            assert(index@.contains_key(x) <==> (x == node.id@ || before_index.contains_key(x)));
            if ids.take(k + 1).contains(x) && x != node.id@ {
                let j = choose|j: int| 0 <= j < ids.take(k + 1).len() && #[trigger] ids.take(k + 1)[j] == x;
                assert(ids.take(k as int)[j] == x);
            }
            if ids.take(k as int).contains(x) {
                let j = choose|j: int| 0 <= j < ids.take(k as int).len() && #[trigger] ids.take(k as int)[j] == x;
                assert(ids.take(k + 1)[j] == x);
            }
            if x == node.id@ {
                assert(ids.take(k + 1)[k as int] == x);
            }
        }
        let ghost cs = contained_nodes(existing@, nodes@, k as int);
        let ghost rb = relations@;
        let ghost eb = entities@;
        proof {
            lemma_enclosing_same(existing@, located, node.address, *source, existing@.len() as int);
        }
        let parent = enclosing_entity(existing, &located);
        let containment = match parent {
            Some(p) => Some(contains_relation(&existing[p].id, &entity, &located, &generator)),
            None => None,
        };
        assert(entity_of_node(
            entity,
            nodes@[k as int],
            *source,
            dg,
            scanned_language(files@, nodes@[k as int].address.path@),
        ));
        entities.push(entity);
        assert(entities@[k as int] == entity);
        assert forall|j: int| 0 <= j < entities@.len() implies entity_of_node(
            #[trigger] entities@[j],
            nodes@[j],
            *source,
            dg,
            scanned_language(files@, nodes@[j].address.path@),
        ) by {
            if j < k {
                assert(entities@[j] == eb[j]);
            }
        }
        match containment {
            Some(rel) => {
                let p = parent.unwrap();
                assert(containment_of(rel, existing@[p as int], entity, node.address, *source, gen));
                relations.push(rel);
                assert(contained_nodes(existing@, nodes@, k + 1) == cs.push((k as int, p as int)));
                assert(relations@[rb.len() as int] == rel);
            },
            None => {
                assert(contained_nodes(existing@, nodes@, k + 1) =~= cs);
            },
        }
        assert forall|j: int| 0 <= j < relations@.len() implies containment_at(
            #[trigger] relations@[j],
            contained_nodes(existing@, nodes@, k + 1)[j],
            existing@,
            entities@,
            nodes@,
            *source,
            gen,
        ) by {
            if j < rb.len() {
                assert(relations@[j] == rb[j]);
                assert(contained_nodes(existing@, nodes@, k + 1)[j] == cs[j]);
                assert(entities@[cs[j].0] == eb[cs[j].0]);
            }
        }
        assert(first_node_fault(nodes@, files@, declared@, texts@, k + 1) is None);
    }
    proof {
        lemma_all_fresh(nodes@, files@, declared@, texts@, nodes@.len() as int);
        assert(ids.take(nodes@.len() as int) =~= ids);
    }
    let ghost cs = contained_nodes(existing@, nodes@, nodes@.len() as int);
    let ghost ents = entities@;
    let ghost eids = edge_ids(edges@);
    let mut seen: StringHashMap<()> = StringHashMap::new();
    for k in 0..edges.len()
        invariant
            ids == node_ids(nodes@),
            eids == edge_ids(edges@),
            gen == generator@,
            dg == digest@,
            countable(texts@),
            forall|i: int| 0 <= i < nodes@.len() ==> fresh_id(ids, i),
            first_node_fault(nodes@, files@, declared@, texts@, nodes@.len() as int) is None,
            header_refusal(*header, *source) is None,
            nodes@.len() <= MAX_DATAFLOW_NODES,
            edges@.len() <= MAX_DATAFLOW_EDGES,
            files_refusal(declared@, files@, 0) is None,
            first_edge_fault(nodes@, edges@, files@, declared@, texts@, k as int) is None,
            forall|x: Seq<char>| #[trigger] index@.contains_key(x) <==> ids.contains(x),
            forall|x: Seq<char>|
                #[trigger] index@.contains_key(x) ==> index@[x] < ids.len() && ids[index@[x] as int] == x,
            forall|x: Seq<char>| #[trigger] seen@.contains_key(x) <==> eids.take(k as int).contains(x),
            entities@ == ents,
            ents.len() == nodes@.len(),
            relations@.len() == cs.len() + k,
            forall|j: int|
                0 <= j < cs.len() ==> containment_at(
                    #[trigger] relations@[j],
                    cs[j],
                    existing@,
                    ents,
                    nodes@,
                    *source,
                    gen,
                ),
            forall|q: int|
                0 <= q < k ==> flow_of(
                    #[trigger] relations@[cs.len() + q],
                    edges@[q],
                    ents[node_at(nodes@, edges@[q].source_node_id@, nodes@.len() as int).unwrap()],
                    ents[node_at(nodes@, edges@[q].target_node_id@, nodes@.len() as int).unwrap()],
                    *source,
                    dg,
                    gen,
                ),
    {
        let e = &edges[k];
        assert(eids[k as int] == e.id@);
        if e.id.as_str().is_empty() || seen.contains_key(e.id.as_str()) {
            proof {
                lemma_edge_fault_stays(nodes@, edges@, files@, declared@, texts@, k as int, edges@.len() as int);
            }
            return Err(ImportError::BadEdgeId { index: k });
        }
        if !e.confidence_ok {
            proof {
                lemma_edge_fault_stays(nodes@, edges@, files@, declared@, texts@, k as int, edges@.len() as int);
            }
            return Err(ImportError::BadConfidence { index: k });
        }
        let s = match index.get(e.source_node_id.as_str()) {
            Some(i) => *i,
            None => {
                proof {
                    lemma_edge_fault_stays(nodes@, edges@, files@, declared@, texts@, k as int, edges@.len() as int);
                }
                return Err(ImportError::UnknownSource { index: k });
            },
        };
        let t = match index.get(e.target_node_id.as_str()) {
            Some(i) => *i,
            None => {
                proof {
                    lemma_edge_fault_stays(nodes@, edges@, files@, declared@, texts@, k as int, edges@.len() as int);
                }
                return Err(ImportError::UnknownTarget { index: k });
            },
        };
        let mut evidence: Vec<SourceAddress> = Vec::new();
        let ghost ev = e.evidence@;
        assert(fresh_id(eids, k as int));
        assert(ids.contains(e.source_node_id@));
        assert(ids.contains(e.target_node_id@));
        assert(edge_fault(nodes@, edges@, files@, declared@, texts@, k as int) == first_evidence_fault(
            ev,
            files@,
            declared@,
            texts@,
            ev.len() as int,
        ));
        for q in 0..e.evidence.len()
            invariant
                ev == e.evidence@,
                k < edges@.len(),
                header_refusal(*header, *source) is None,
                nodes@.len() <= MAX_DATAFLOW_NODES,
                edges@.len() <= MAX_DATAFLOW_EDGES,
                files_refusal(declared@, files@, 0) is None,
                first_node_fault(nodes@, files@, declared@, texts@, nodes@.len() as int) is None,
                *e == edges@[k as int],
                first_edge_fault(nodes@, edges@, files@, declared@, texts@, k as int) is None,
                edge_fault(nodes@, edges@, files@, declared@, texts@, k as int) == first_evidence_fault(
                    ev,
                    files@,
                    declared@,
                    texts@,
                    ev.len() as int,
                ),
                countable(texts@),
                first_evidence_fault(ev, files@, declared@, texts@, q as int) is None,
                evidence@.len() == q,
                forall|p: int| 0 <= p < q ==> address_in(#[trigger] evidence@[p], ev[p], *source),
        {
            match validate_address(&e.evidence[q], source, files, declared, texts) {
                Ok(a) => {
                    evidence.push(a);
                },
                Err(err) => {
                    proof {
                        lemma_evidence_fault_stays(ev, files@, declared@, texts@, q as int, ev.len() as int);
                        assert(edge_fault(nodes@, edges@, files@, declared@, texts@, k as int) is Some);
                        lemma_edge_fault_stays(nodes@, edges@, files@, declared@, texts@, k as int, edges@.len() as int);
                    }
                    return Err(ImportError::Artifact(err));
                },
            }
        }
        proof {
            lemma_node_at(nodes@, s as int, nodes@.len() as int);
            lemma_node_at(nodes@, t as int, nodes@.len() as int);
        }
        let rel = flow_relation(&e.id, e.kind, &entities[s].id, &entities[t].id, evidence, &digest, &generator);
        let ghost rb = relations@;
        relations.push(rel);
        let ghost before_seen = seen@;
        seen.insert(copy_string(&e.id), ());
        assert(eids.take(k + 1) =~= eids.take(k as int).push(e.id@));
        assert forall|x: Seq<char>| #[trigger] seen@.contains_key(x) <==> eids.take(k + 1).contains(x) by {
            assert(seen@.contains_key(x) <==> (x == e.id@ || before_seen.contains_key(x)));
            if eids.take(k + 1).contains(x) && x != e.id@ {
                let j = choose|j: int| 0 <= j < eids.take(k + 1).len() && #[trigger] eids.take(k + 1)[j] == x;
                assert(eids.take(k as int)[j] == x);
            }
            if eids.take(k as int).contains(x) {
                let j = choose|j: int| 0 <= j < eids.take(k as int).len() && #[trigger] eids.take(k as int)[j] == x;
                assert(eids.take(k + 1)[j] == x);
            }
            if x == e.id@ {
                assert(eids.take(k + 1)[k as int] == x);
            }
        }
        assert forall|q: int| 0 <= q < k + 1 implies flow_of(
            #[trigger] relations@[cs.len() + q],
            edges@[q],
            ents[node_at(nodes@, edges@[q].source_node_id@, nodes@.len() as int).unwrap()],
            ents[node_at(nodes@, edges@[q].target_node_id@, nodes@.len() as int).unwrap()],
            *source,
            dg,
            gen,
        ) by {
            if q < k {
                assert(relations@[cs.len() + q] == rb[cs.len() + q]);
            }
        }
        assert forall|j: int| 0 <= j < cs.len() implies containment_at(
            #[trigger] relations@[j],
            cs[j],
            existing@,
            ents,
            nodes@,
            *source,
            gen,
        ) by {
            assert(relations@[j] == rb[j]);
        }
        assert(first_edge_fault(nodes@, edges@, files@, declared@, texts@, k + 1) is None);
    }
    Ok(DataflowImport {
        entities,
        relations,
        nodes: nodes.len(),
        edges: edges.len(),
        generator,
        digest,
    })
}

} // verus!
