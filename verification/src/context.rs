//! Token-budgeted context packing: search hits become a `ContextPack`
//! with per-item provenance, role quotas, per-range and per-file dedup,
//! explicit uncertainties, and a report of what shipped versus what
//! retrieval found.

use vstd::prelude::*;
use crate::ignore::{extension_of, final_component};
use crate::model::{
    GraphPolicy, QueryIntent, SearchRoute, ViewKind, intent_label, intent_name, route_label,
    route_name, view_label, view_name,
};
use crate::planner::QueryPlan;
use crate::text::{
    Separator, chars_of, copy_opt_string, copy_string, copy_strings, decimal, eq_str, join,
    join_chars, join_strings, lower, lower_all, owned, push_all, push_decimal, push_str, split,
    split_on, string_of, to_lowercase, unicode_to_lower, contains, contains_seq,
};

verus! {

/// A byte and line range inside one file of one snapshot.
#[derive(Debug)]
pub struct SourceAddress {
    pub repository_id: String,
    pub snapshot_id: String,
    pub path: String,
    pub start_byte: u64,
    pub end_byte: u64,
    pub start_line: u32,
    pub end_line: u32,
    pub symbol_id: Option<String>,
}

impl SourceAddress {
    /// A field-for-field copy.
    pub fn duplicate(&self) -> (r: SourceAddress)
        ensures
            r == *self,
    {
        SourceAddress {
            repository_id: copy_string(&self.repository_id),
            snapshot_id: copy_string(&self.snapshot_id),
            path: copy_string(&self.path),
            start_byte: self.start_byte,
            end_byte: self.end_byte,
            start_line: self.start_line,
            end_line: self.end_line,
            symbol_id: copy_opt_string(&self.symbol_id),
        }
    }
}

/// Copy of an optional address.
pub fn copy_opt_address(a: &Option<SourceAddress>) -> (r: Option<SourceAddress>)
    ensures
        r == *a,
{
    match a {
        Some(x) => Some(x.duplicate()),
        None => None,
    }
}

/// Copy of a list of addresses.
pub fn copy_addresses(v: &Vec<SourceAddress>) -> (r: Vec<SourceAddress>)
    ensures
        r@ == v@,
{
    let mut r: Vec<SourceAddress> = Vec::new();
    for i in 0..v.len()
        invariant
            r@ == v@.take(i as int),
    {
        r.push(v[i].duplicate());
        proof {
            assert(v@.take(i + 1) =~= v@.take(i as int).push(v@[i as int]));
        }
    }
    assert(v@.take(v.len() as int) =~= v@);
    r
}

/// Copy of a list of routes.
pub fn copy_routes(v: &Vec<SearchRoute>) -> (r: Vec<SearchRoute>)
    ensures
        r@ == v@,
{
    let mut r: Vec<SearchRoute> = Vec::new();
    for i in 0..v.len()
        invariant
            r@ == v@.take(i as int),
    {
        r.push(v[i]);
        proof {
            assert(v@.take(i + 1) =~= v@.take(i as int).push(v@[i as int]));
        }
    }
    assert(v@.take(v.len() as int) =~= v@);
    r
}

/// What a retrieval document represents.
#[derive(Clone, Copy, Debug, PartialEq, Eq, Structural)]
pub enum RetrievalRepresentation {
    RawCode,
    Signature,
    SymbolSummary,
    FileDescriptor,
    TestBehavior,
    CommitSummary,
    RoleSummary,
    ModuleSummary,
    FlowSummary,
    KnowledgePage,
    CommitDiff,
}

/// One ranked search result. `score` carries the bit pattern of the
/// ranker's `f64` score, passed through unchanged.
#[derive(Debug)]
pub struct SearchHit {
    pub document_id: String,
    pub entity_id: String,
    pub region_id: Option<String>,
    pub symbol_name: Option<String>,
    pub representation: RetrievalRepresentation,
    pub route: SearchRoute,
    pub rank: usize,
    pub score: u64,
    pub contributing_routes: Vec<SearchRoute>,
    pub address: Option<SourceAddress>,
    pub evidence: Vec<SourceAddress>,
    pub snippet: String,
    pub verified_current: bool,
    pub explanation: Vec<String>,
}

/// The request a search answered.
#[derive(Debug)]
pub struct SearchRequest {
    pub repository_id: String,
    pub snapshot_id: String,
    pub query: String,
    pub intent: Option<QueryIntent>,
    pub limit: usize,
    pub require_fresh: bool,
    pub routes: Vec<SearchRoute>,
}

/// Readiness of one index view.
#[derive(Clone, Copy, Debug, PartialEq, Eq, Structural)]
pub enum ViewState {
    Ready,
    Partial,
    Stale,
    Unavailable,
    Failed,
    Building,
}

/// Debug spelling of a view state.
pub open spec fn view_state_label(s: ViewState) -> Seq<char> {
    match s {
        ViewState::Ready => "Ready"@,
        ViewState::Partial => "Partial"@,
        ViewState::Stale => "Stale"@,
        ViewState::Unavailable => "Unavailable"@,
        ViewState::Failed => "Failed"@,
        ViewState::Building => "Building"@,
    }
}

/// The Debug spelling of a view state.
pub fn view_state_name(s: ViewState) -> (r: &'static str)
    ensures
        r@ == view_state_label(s),
{
    match s {
        ViewState::Ready => "Ready",
        ViewState::Partial => "Partial",
        ViewState::Stale => "Stale",
        ViewState::Unavailable => "Unavailable",
        ViewState::Failed => "Failed",
        ViewState::Building => "Building",
    }
}

/// Per-view readiness of one snapshot, in view order.
#[derive(Debug)]
pub struct ViewManifest {
    pub repository_id: String,
    pub snapshot_id: String,
    pub views: Vec<(ViewKind, ViewState)>,
}

/// A capability a view reports, at a level, with an optional reason.
#[derive(Debug)]
pub struct Capability {
    pub name: String,
    pub level: String,
    pub reason: Option<String>,
}

/// The snapshot a view status is recorded for: its id and the hash of
/// the index profile it was built with.
#[derive(Debug)]
pub struct SnapshotStamp {
    pub snapshot_id: String,
    pub profile_hash: String,
}

/// The status recorded for one view of a snapshot (the time of the record
/// is the store's to add).
#[derive(Debug)]
pub struct ViewStatus {
    pub snapshot_id: String,
    pub profile_hash: String,
    pub state: ViewState,
    pub capabilities: Vec<Capability>,
    pub message: Option<String>,
    pub artifact_digest: Option<String>,
}

/// `r` carries the snapshot stamp `s`.
pub open spec fn stamped_by(r: ViewStatus, s: SnapshotStamp) -> bool {
    r.snapshot_id == s.snapshot_id && r.profile_hash == s.profile_hash
}

/// A status with one capability and no message or artifact.
fn single_capability(
    stamp: &SnapshotStamp,
    state: ViewState,
    name: &str,
    level: &str,
    reason: Option<String>,
) -> (r: ViewStatus)
    ensures
        stamped_by(r, *stamp),
        r.state == state,
        r.capabilities@.len() == 1,
        r.capabilities@[0].name@ == name@,
        r.capabilities@[0].level@ == level@,
        r.capabilities@[0].reason == reason,
        r.message is None,
        r.artifact_digest is None,
{
    ViewStatus {
        snapshot_id: copy_string(&stamp.snapshot_id),
        profile_hash: copy_string(&stamp.profile_hash),
        state,
        capabilities: vec![Capability { name: owned(name), level: owned(level), reason }],
        message: None,
        artifact_digest: None,
    }
}

/// The source view's status: `Ready`, content-addressed and authoritative.
pub fn source_view_status(stamp: &SnapshotStamp) -> (r: ViewStatus)
    ensures
        stamped_by(r, *stamp),
        r.state == ViewState::Ready,
        r.capabilities@.len() == 1,
        r.capabilities@[0].name@ == "content_addressed_source"@,
        r.capabilities@[0].level@ == "authoritative"@,
        r.capabilities@[0].reason is None,
        r.message is None,
        r.artifact_digest is None,
{
    single_capability(stamp, ViewState::Ready, "content_addressed_source", "authoritative", None)
}

/// The lexical view's status: `Ready` on full-text search.
pub fn lexical_view_status(stamp: &SnapshotStamp) -> (r: ViewStatus)
    ensures
        stamped_by(r, *stamp),
        r.state == ViewState::Ready,
        r.capabilities@.len() == 1,
        r.capabilities@[0].name@ == "sqlite_fts5"@,
        r.capabilities@[0].level@ == "ready"@,
        r.capabilities@[0].reason is None,
        r.message is None,
        r.artifact_digest is None,
{
    single_capability(stamp, ViewState::Ready, "sqlite_fts5", "ready", None)
}

/// The knowledge view's status: `Partial`, with the deterministic role
/// summary (no model synthesis) and the deterministic hierarchy.
pub fn knowledge_view_status(stamp: &SnapshotStamp) -> (r: ViewStatus)
    ensures
        stamped_by(r, *stamp),
        r.state == ViewState::Partial,
        r.capabilities@.len() == 2,
        r.capabilities@[0].name@ == "deterministic_role_summary"@,
        r.capabilities@[0].level@ == "derived"@,
        r.capabilities@[0].reason matches Some(x) && x@ == "hierarchical model synthesis not configured"@,
        r.capabilities@[1].name@ == "deterministic_hierarchy"@,
        r.capabilities@[1].level@ == "derived"@,
        r.capabilities@[1].reason is None,
        r.message is None,
        r.artifact_digest is None,
{
    let capabilities = vec![
        Capability {
            name: owned("deterministic_role_summary"),
            level: owned("derived"),
            reason: Some(owned("hierarchical model synthesis not configured")),
        },
        Capability { name: owned("deterministic_hierarchy"), level: owned("derived"), reason: None },
    ];
    ViewStatus {
        snapshot_id: copy_string(&stamp.snapshot_id),
        profile_hash: copy_string(&stamp.profile_hash),
        state: ViewState::Partial,
        capabilities,
        message: None,
        artifact_digest: None,
    }
}

/// The views a repair pass revisits, in the order it revisits them.
pub open spec fn repair_order() -> Seq<ViewKind> {
    seq![
        ViewKind::Source,
        ViewKind::Lexical,
        ViewKind::Symbols,
        ViewKind::Graph,
        ViewKind::Dense,
        ViewKind::Knowledge,
        ViewKind::History,
        ViewKind::Dataflow,
    ]
}

/// The recorded state of view `kind` (its first entry).
pub open spec fn state_of(views: Seq<(ViewKind, ViewState)>, kind: ViewKind) -> Option<ViewState>
    decreases views.len(),
{
    if views.len() == 0 {
        None
    } else if views[0].0 == kind {
        Some(views[0].1)
    } else {
        state_of(views.drop_first(), kind)
    }
}

/// View `kind` was left building or failed.
pub open spec fn stuck(views: Seq<(ViewKind, ViewState)>, kind: ViewKind) -> bool {
    state_of(views, kind) matches Some(s) && (s == ViewState::Building || s == ViewState::Failed)
}

/// The views among the first `n` of the repair order that get repaired:
/// the stuck ones, the dense view only when a backend is configured.
pub open spec fn repaired_views(views: Seq<(ViewKind, ViewState)>, dense_disabled: bool, n: int) -> Seq<
    ViewKind,
>
    decreases n,
{
    if n <= 0 {
        Seq::empty()
    } else {
        let k = repair_order()[n - 1];
        repaired_views(views, dense_disabled, n - 1) + if stuck(views, k) && !(k == ViewKind::Dense
            && dense_disabled) {
            seq![k]
        } else {
            Seq::empty()
        }
    }
}

/// What a repair pass over a committed snapshot does.
#[derive(Debug)]
pub struct RepairPlan {
    /// The views to recompute, in order.
    pub views: Vec<ViewKind>,
    /// Whether the graph or dataflow status needs the count of SCIP edges.
    pub count_scip_edges: bool,
}

fn stuck_exec(views: &Vec<(ViewKind, ViewState)>, kind: ViewKind) -> (r: bool)
    ensures
        r == stuck(views@, kind),
{
    let mut i: usize = 0;
    assert(views@.skip(0) =~= views@);
    while i < views.len()
        invariant
            i <= views@.len(),
            state_of(views@, kind) == state_of(views@.skip(i as int), kind),
        decreases views@.len() - i,
    {
        assert(views@.skip(i as int)[0] == views@[i as int]);
        assert(views@.skip(i as int).drop_first() =~= views@.skip(i + 1));
        if views[i].0 == kind {
            let s = views[i].1;
            return s == ViewState::Building || s == ViewState::Failed;
        }
        i = i + 1;
    }
    false
}

/// The repair pass for views a crash left building or failed: which views
/// to recompute (a stuck dense view only with a backend), and whether the
/// SCIP edge count is needed.
pub fn repair_plan(manifest: &ViewManifest, dense_disabled: bool) -> (r: RepairPlan)
    ensures
        r.views@ == repaired_views(manifest.views@, dense_disabled, 8),
        r.count_scip_edges == (stuck(manifest.views@, ViewKind::Graph) || stuck(
            manifest.views@,
            ViewKind::Dataflow,
        )),
{
    let order = vec![
        ViewKind::Source,
        ViewKind::Lexical,
        ViewKind::Symbols,
        ViewKind::Graph,
        ViewKind::Dense,
        ViewKind::Knowledge,
        ViewKind::History,
        ViewKind::Dataflow,
    ];
    assert(order@ =~= repair_order());
    let mut views: Vec<ViewKind> = Vec::new();
    for n in 0..order.len()
        invariant
            order@ == repair_order(),
            views@ == repaired_views(manifest.views@, dense_disabled, n as int),
    {
        let k = order[n];
        if stuck_exec(&manifest.views, k) && !(k == ViewKind::Dense && dense_disabled) {
            views.push(k);
        }
    }
    let count_scip_edges = stuck_exec(&manifest.views, ViewKind::Graph) || stuck_exec(
        &manifest.views,
        ViewKind::Dataflow,
    );
    RepairPlan { views, count_scip_edges }
}

/// The history view's status: `Ready` with the commit and diff counts
/// when commits were indexed; else `Failed` when a `.git` directory exists
/// (extraction produced nothing) and `Unavailable` when none does.
pub fn history_view_status(stamp: &SnapshotStamp, commits: usize, has_git: bool, diff_documents: usize) -> (r: ViewStatus)
    ensures
        stamped_by(r, *stamp),
        r.artifact_digest is None,
        commits == 0 && has_git ==> r.state == ViewState::Failed && r.capabilities@.len() == 0
            && (r.message matches Some(m) && m@
            == "snapshot carries no commit records — history extraction failed or produced nothing"@),
        commits == 0 && !has_git ==> r.state == ViewState::Unavailable && r.capabilities@.len() == 0
            && (r.message matches Some(m) && m@ == "Repository has no local .git object database"@),
        commits > 0 ==> r.state == ViewState::Ready && r.message is None && r.capabilities@.len() == 2
            && r.capabilities@[0].name@ == "git_commit_messages"@ && r.capabilities@[0].level@
            == "historical_evidence"@ && (r.capabilities@[0].reason matches Some(x) && x@ == decimal(
            commits as nat,
        ) + " reachable commits indexed with gitoxide"@) && r.capabilities@[1].name@
            == "git_diff_hunks"@ && r.capabilities@[1].level@ == "historical_evidence"@ && (
        r.capabilities@[1].reason matches Some(x) && x@ == decimal(diff_documents as nat)
            + " commits contributed extracted diff hunks"@),
{
    if commits == 0 {
        let message = if has_git {
            owned("snapshot carries no commit records — history extraction failed or produced nothing")
        } else {
            owned("Repository has no local .git object database")
        };
        let state = if has_git { ViewState::Failed } else { ViewState::Unavailable };
        return ViewStatus { snapshot_id: copy_string(&stamp.snapshot_id), profile_hash: copy_string(&stamp.profile_hash), state, capabilities: Vec::new(), message: Some(message), artifact_digest: None };
    }
    let mut first: Vec<char> = Vec::new();
    push_decimal(&mut first, commits as u64);
    push_str(&mut first, " reachable commits indexed with gitoxide");
    let mut second: Vec<char> = Vec::new();
    push_decimal(&mut second, diff_documents as u64);
    push_str(&mut second, " commits contributed extracted diff hunks");
    let capabilities = vec![
        Capability {
            name: owned("git_commit_messages"),
            level: owned("historical_evidence"),
            reason: Some(string_of(&first)),
        },
        Capability {
            name: owned("git_diff_hunks"),
            level: owned("historical_evidence"),
            reason: Some(string_of(&second)),
        },
    ];
    ViewStatus { snapshot_id: copy_string(&stamp.snapshot_id), profile_hash: copy_string(&stamp.profile_hash), state: ViewState::Ready, capabilities, message: None, artifact_digest: None }
}

/// The dataflow view's status: `Partial` on the SCIP definition/reference
/// substrate when SCIP edges were ingested, else `Unavailable`.
pub fn dataflow_view_status(stamp: &SnapshotStamp, scip_edges: usize) -> (r: ViewStatus)
    ensures
        stamped_by(r, *stamp),
        r.artifact_digest is None,
        scip_edges > 0 ==> r.state == ViewState::Partial && r.capabilities@.len() == 1
            && r.capabilities@[0].name@ == "scip_def_ref_substrate"@ && r.capabilities@[0].level@
            == "compiler_derived"@ && (r.capabilities@[0].reason matches Some(x) && x@ == decimal(
            scip_edges as nat,
        ) + " definition/reference edges ingested"@) && (r.message matches Some(m) && m@
            == "SCIP definition/reference graph available; no source→sink taint analysis yet"@),
        scip_edges == 0 ==> r.state == ViewState::Unavailable && r.capabilities@.len() == 0 && (
        r.message matches Some(m) && m@
            == "No evidence-backed SCIP or static-analysis dataflow artifact was supplied"@),
{
    if scip_edges > 0 {
        let mut reason: Vec<char> = Vec::new();
        push_decimal(&mut reason, scip_edges as u64);
        push_str(&mut reason, " definition/reference edges ingested");
        let capabilities = vec![
            Capability {
                name: owned("scip_def_ref_substrate"),
                level: owned("compiler_derived"),
                reason: Some(string_of(&reason)),
            },
        ];
        ViewStatus {
            snapshot_id: copy_string(&stamp.snapshot_id),
            profile_hash: copy_string(&stamp.profile_hash),
            state: ViewState::Partial,
            capabilities,
            message: Some(owned("SCIP definition/reference graph available; no source→sink taint analysis yet")),
            artifact_digest: None,
        }
    } else {
        ViewStatus {
            snapshot_id: copy_string(&stamp.snapshot_id),
            profile_hash: copy_string(&stamp.profile_hash),
            state: ViewState::Unavailable,
            capabilities: Vec::new(),
            message: Some(owned("No evidence-backed SCIP or static-analysis dataflow artifact was supplied")),
            artifact_digest: None,
        }
    }
}

/// How well the retrieved evidence witnesses the query's claim.
#[derive(Clone, Copy, Debug, PartialEq, Eq, Structural)]
pub enum VerdictState {
    Answered,
    WeakWitness,
    NoEvidence,
}

/// The search's own verdict, shipped verbatim with the pack.
#[derive(Debug, PartialEq, Eq)]
pub struct SearchVerdict {
    pub state: VerdictState,
    pub reasons: Vec<String>,
    /// Terms that distinguish the claim; delivery coverage is measured
    /// against them.
    pub distinguishing_terms: Vec<String>,
}

impl SearchVerdict {
    /// A field-for-field copy.
    pub fn duplicate(&self) -> (r: SearchVerdict)
        ensures
            r.state == self.state,
            r.reasons@ == self.reasons@,
            r.distinguishing_terms@ == self.distinguishing_terms@,
    {
        SearchVerdict {
            state: self.state,
            reasons: copy_strings(&self.reasons),
            distinguishing_terms: copy_strings(&self.distinguishing_terms),
        }
    }
}

/// Everything a search produced.
#[derive(Debug)]
pub struct SearchResult {
    pub request: SearchRequest,
    pub plan: QueryPlan,
    pub manifest: ViewManifest,
    pub hits: Vec<SearchHit>,
    pub missing_capabilities: Vec<String>,
    pub verdict: SearchVerdict,
    pub latency_ms: u64,
}

/// What a packed item is, on the wire.
#[derive(Clone, Copy, Debug, PartialEq, Eq, Structural)]
pub enum ContextItemKind {
    Orientation,
    EntryPoint,
    Source,
    Contract,
    RelationPath,
    Test,
    Config,
    History,
    Knowledge,
}

/// Why and how an item was retrieved.
#[derive(Debug)]
pub struct ContextProvenance {
    pub why_retrieved: String,
    pub route: SearchRoute,
    pub rank: usize,
    /// Bit pattern of the `f64` score.
    pub score: u64,
    pub snapshot_id: String,
    pub verified_current: bool,
    pub symbol_name: Option<String>,
    pub source_address: Option<SourceAddress>,
    pub evidence_addresses: Vec<SourceAddress>,
}

/// One packed item.
#[derive(Debug)]
pub struct ContextItem {
    pub id: String,
    pub kind: ContextItemKind,
    pub title: String,
    pub body: String,
    pub estimated_tokens: usize,
    pub provenance: ContextProvenance,
}

/// A gap the pack reports instead of papering over.
#[derive(Debug)]
pub struct Uncertainty {
    pub capability: String,
    pub message: String,
    pub recommended_action: Option<String>,
}

/// Why a retrieved hit did not ship.
#[derive(Clone, Copy, Debug, PartialEq, Eq, Structural)]
pub enum OmissionReason {
    DuplicateRange,
    FileCap,
    DuplicateEntity,
    Budget,
}

/// A retrieved hit that did not ship, with the last reason it was refused.
#[derive(Debug, PartialEq, Eq)]
pub struct OmittedHit {
    pub document_id: String,
    pub reason: OmissionReason,
}

/// Whether shipped evidence can back a completeness claim.
#[derive(Clone, Copy, Debug, PartialEq, Eq, Structural)]
pub enum WitnessVerification {
    NotVerified,
    NoSourceEvidence,
}

/// What shipped versus what retrieval found.
#[derive(Debug)]
pub struct DeliveryReport {
    pub included_item_ids: Vec<String>,
    pub omitted_hits: Vec<OmittedHit>,
    pub delivered_terms: Vec<String>,
    pub missing_terms: Vec<String>,
    pub witness_verification: WitnessVerification,
}

/// The packed context.
#[derive(Debug)]
pub struct ContextPack {
    pub repository_id: String,
    pub snapshot_id: String,
    pub query: String,
    pub intent: QueryIntent,
    pub plan_routes: Vec<SearchRoute>,
    pub graph_policy: Option<GraphPolicy>,
    pub budget_tokens: usize,
    pub used_tokens: usize,
    pub latency_ms: u64,
    pub search_latency_ms: Option<u64>,
    pub search_verdict: Option<SearchVerdict>,
    pub delivery_report: Option<DeliveryReport>,
    pub items: Vec<ContextItem>,
    pub uncertainties: Vec<Uncertainty>,
    pub missing_capabilities: Vec<String>,
}

/// Parameters for a context request: a token-budgeted pack for a query.
#[derive(Debug)]
pub struct ContextRequest {
    pub query: String,
    pub intent: Option<QueryIntent>,
    pub budget_tokens: usize,
    pub max_candidates: usize,
    pub require_fresh: bool,
    pub routes: Vec<SearchRoute>,
}

impl ContextRequest {
    /// A request with default candidate/freshness settings: fifty
    /// candidates, fresh snapshots only, planner-chosen routes.
    pub fn new(query: String, budget_tokens: usize) -> (r: Self)
        ensures
            r.query == query,
            r.intent is None,
            r.budget_tokens == budget_tokens,
            r.max_candidates == 50,
            r.require_fresh,
            r.routes@.len() == 0,
    {
        ContextRequest {
            query,
            intent: None,
            budget_tokens,
            max_candidates: 50,
            require_fresh: true,
            routes: Vec::new(),
        }
    }
}

/// Packs search hits into a `ContextPack` within a token budget.
#[derive(Debug, Clone, Copy, Default)]
pub struct ContextPacker;

// ---- token estimate and small renderers ------------------------------------

/// Chars that count double in the token estimate.
pub open spec fn code_punct(c: char) -> bool {
    c == '{' || c == '}' || c == '[' || c == ']' || c == '(' || c == ')' || c == ';' || c == ':'
        || c == ',' || c == '.' || c == '<' || c == '>' || c == '/' || c == '\\'
}

/// Number of code-punctuation chars in `s`.
pub open spec fn punct_count(s: Seq<char>) -> nat
    decreases s.len(),
{
    if s.len() == 0 {
        0
    } else {
        punct_count(s.drop_last()) + if code_punct(s.last()) { 1nat } else { 0nat }
    }
}

/// The token estimate: chars plus code punctuation (saturating), over
/// four, plus one.
pub open spec fn estimate(s: Seq<char>) -> nat {
    let total = s.len() + punct_count(s);
    let capped = if total > usize::MAX { usize::MAX as nat } else { total };
    capped / 4 + 1
}

/// Token estimate of `value`; code punctuation counts double.
pub fn estimate_tokens(value: &str) -> (r: usize)
    ensures
        r == estimate(value@),
{
    let v = chars_of(value);
    estimate_chars(&v)
}

fn estimate_chars(v: &[char]) -> (r: usize)
    ensures
        r == estimate(v@),
{
    let mut punct: usize = 0;
    for i in 0..v.len()
        invariant
            punct == punct_count(v@.take(i as int)),
            punct <= i,
    {
        assert(v@.take(i + 1).drop_last() =~= v@.take(i as int));
        let c = v[i];
        if c == '{' || c == '}' || c == '[' || c == ']' || c == '(' || c == ')' || c == ';' || c
            == ':' || c == ',' || c == '.' || c == '<' || c == '>' || c == '/' || c == '\\' {
            punct = punct + 1;
        }
    }
    assert(v@.take(v.len() as int) =~= v@);
    let total = v.len().saturating_add(punct);
    total / 4 + 1
}

/// First piece of a white-space split that is not empty.
pub open spec fn first_nonempty(pieces: Seq<Seq<char>>) -> Option<Seq<char>>
    decreases pieces.len(),
{
    if pieces.len() == 0 {
        None
    } else if pieces[0].len() > 0 {
        Some(pieces[0])
    } else {
        first_nonempty(pieces.drop_first())
    }
}

/// The capability a missing-view message names: its first word.
pub open spec fn capability_of(message: Seq<char>) -> Seq<char> {
    match first_nonempty(split_on(message, Separator::Whitespace)) {
        Some(w) => w,
        None => "unknown"@,
    }
}

/// First word of `message`, or `unknown`.
pub fn capability_from_message(message: &str) -> (r: String)
    ensures
        r@ == capability_of(message@),
{
    let pieces = split(&chars_of(message), Separator::Whitespace);
    let ghost ps = split_on(message@, Separator::Whitespace);
    let mut i: usize = 0;
    assert(ps.skip(0) =~= ps);
    while i < pieces.len()
        invariant
            ps == split_on(message@, Separator::Whitespace),
            pieces@.len() == ps.len(),
            forall|k: int| 0 <= k < ps.len() ==> #[trigger] pieces@[k]@ == ps[k],
            i <= ps.len(),
            first_nonempty(ps) == first_nonempty(ps.skip(i as int)),
        decreases ps.len() - i,
    {
        assert(ps.skip(i as int).drop_first() =~= ps.skip(i + 1));
        assert(ps.skip(i as int)[0] == ps[i as int]);
        if pieces[i].len() > 0 {
            assert(pieces@[i as int]@ == ps[i as int]);
            assert(first_nonempty(ps.skip(i as int)) == Some(ps[i as int]));
            let r = string_of(pieces[i].as_slice());
            assert(r@ == ps[i as int]);

            return r;
        }
        assert(first_nonempty(ps.skip(i as int)) == first_nonempty(ps.skip(i + 1)));
        i = i + 1;
    }
    assert(ps.skip(i as int).len() == 0);
    owned("unknown")
}

/// Debug rendering of a route list: `[A, B]`.
pub open spec fn routes_debug(routes: Seq<SearchRoute>) -> Seq<char> {
    "["@ + join(routes.map_values(|r: SearchRoute| route_label(r)), ", "@) + "]"@
}

/// `path:start-end` of an address.
pub open spec fn lines_label(a: SourceAddress) -> Seq<char> {
    a.path@ + ":"@ + decimal(a.start_line as nat) + "-"@ + decimal(a.end_line as nat)
}

/// The body a hit ships as.
pub open spec fn body_of(hit: SearchHit) -> Seq<char> {
    let source = match hit.address {
        None => "no direct source range"@,
        Some(a) => lines_label(a) + " bytes "@ + decimal(a.start_byte as nat) + ".."@ + decimal(
            a.end_byte as nat,
        ),
    };
    "Source: "@ + source + "\nRoute: "@ + route_label(hit.route) + "; routes: "@ + routes_debug(
        hit.contributing_routes@,
    ) + "\nEvidence:\n"@ + hit.snippet@
}

/// The title a hit ships under.
pub open spec fn title_of(hit: SearchHit) -> Seq<char> {
    match hit.address {
        Some(a) => lines_label(a),
        None => match hit.symbol_name {
            Some(n) => n@,
            None => hit.entity_id@,
        },
    }
}

fn push_route_list(v: &mut Vec<char>, routes: &Vec<SearchRoute>)
    ensures
        final(v)@ == old(v)@ + routes_debug(routes@),
{
    let mut names: Vec<Vec<char>> = Vec::new();
    for i in 0..routes.len()
        invariant
            names@.len() == i,
            forall|k: int| 0 <= k < i ==> #[trigger] names@[k]@ == route_label(routes@[k]),
    {
        names.push(chars_of(route_name(routes[i])));
    }
    let joined = join_chars(&names, ", ");
    assert(names@.map_values(|s: Vec<char>| s@) =~= routes@.map_values(
        |r: SearchRoute| route_label(r),
    ));
    push_str(v, "[");
    push_all(v, &joined);
    push_str(v, "]");
}

fn push_lines_label(v: &mut Vec<char>, a: &SourceAddress)
    ensures
        final(v)@ == old(v)@ + lines_label(*a),
{
    push_str(v, a.path.as_str());
    push_str(v, ":");
    push_decimal(v, a.start_line as u64);
    push_str(v, "-");
    push_decimal(v, a.end_line as u64);
}

/// The evidence body of a hit.
pub fn render_hit(hit: &SearchHit) -> (r: Vec<char>)
    ensures
        r@ == body_of(*hit),
{
    let mut v: Vec<char> = Vec::new();
    push_str(&mut v, "Source: ");
    match &hit.address {
        None => push_str(&mut v, "no direct source range"),
        Some(a) => {
            push_lines_label(&mut v, a);
            push_str(&mut v, " bytes ");
            push_decimal(&mut v, a.start_byte);
            push_str(&mut v, "..");
            push_decimal(&mut v, a.end_byte);
        },
    }
    push_str(&mut v, "\nRoute: ");
    push_str(&mut v, route_name(hit.route));
    push_str(&mut v, "; routes: ");
    push_route_list(&mut v, &hit.contributing_routes);
    push_str(&mut v, "\nEvidence:\n");
    push_str(&mut v, hit.snippet.as_str());
    v
}

/// The title of a hit's item.
pub fn render_title(hit: &SearchHit) -> (r: Vec<char>)
    ensures
        r@ == title_of(*hit),
{
    match &hit.address {
        Some(a) => {
            let mut v: Vec<char> = Vec::new();
            push_lines_label(&mut v, a);
            v
        },
        None => match &hit.symbol_name {
            Some(n) => chars_of(n.as_str()),
            None => chars_of(hit.entity_id.as_str()),
        },
    }
}


// ---- roles and orientation ---------------------------------------------------

/// The task-facing role a hit plays in the pack; roles drive quotas.
#[derive(Clone, Copy, Debug, PartialEq, Eq, Structural)]
pub enum ContextRole {
    Target,
    Contract,
    Caller,
    Test,
    Config,
    History,
    Knowledge,
}

/// A path that names configuration: a `toml`/`yaml`/`yml`/`lock`
/// extension (any case) or a file named `package.json`.
pub open spec fn config_path(p: Seq<char>) -> bool {
    ||| match extension_of(p) {
        Some(e) => lower(e) == "toml"@ || lower(e) == "yaml"@ || lower(e) == "yml"@ || lower(e)
            == "lock"@,
        None => false,
    }
    ||| final_component(p) == "package.json"@
}

proof fn lemma_last_index_free_suffix(s: Seq<char>, t: Seq<char>, c: char)
    requires
        forall|j: int| 0 <= j < t.len() ==> t[j] != c,
    ensures
        crate::text::last_index_of(s + t, c) == crate::text::last_index_of(s, c),
    decreases t.len(),
{
    if t.len() > 0 {
        assert((s + t).drop_last() =~= s + t.drop_last());
        assert((s + t).last() == t.last());
        lemma_last_index_free_suffix(s, t.drop_last(), c);
    } else {
        assert(s + t =~= s);
    }
}

/// A path whose final component has a `toml`, `yaml`, `yml` or `lock`
/// extension, in any letter case, names configuration: `q.<ext>` is a
/// config path for every non-empty `q` not ending in `/`.
pub proof fn law_config_extensions_are_config(q: Seq<char>, e: Seq<char>)
    requires
        q.len() > 0,
        q.last() != '/',
        lower(e) == "toml"@ || lower(e) == "yaml"@ || lower(e) == "yml"@ || lower(e) == "lock"@,
    ensures
        config_path(q + seq!['.'] + e),
{
    reveal_strlit("toml");
    reveal_strlit("yaml");
    reveal_strlit("yml");
    reveal_strlit("lock");
    reveal_strlit("..");
    assert(e.len() == lower(e).len());
    assert forall|j: int| 0 <= j < e.len() implies e[j] != '.' && e[j] != '/' by {
        assert(lower(e)[j] == crate::text::lower_char(e[j]));
    }
    let dot = seq!['.'];
    let p = q + dot + e;
    let t = dot + e;
    assert(p =~= q + t);
    assert forall|j: int| 0 <= j < t.len() implies t[j] != '/' by {
        if j > 0 {
            assert(t[j] == e[j - 1]);
        }
    }
    lemma_last_index_free_suffix(q, t, '/');
    let cq = final_component(q);
    let comp = final_component(p);
    match crate::text::last_index_of(q, '/') {
        Some(j) => {
            crate::text::lemma_last_index_of(q, '/');
            assert(j < q.len() - 1);
            assert(comp =~= cq + t);
        },
        None => {
            assert(comp =~= cq + t);
        },
    }
    assert(cq.len() > 0);
    lemma_last_index_free_suffix(cq.push('.'), e, '.');
    assert(cq + t =~= cq.push('.') + e);
    assert(crate::text::last_index_of(cq.push('.'), '.') == Some(cq.len() as int));
    assert(comp.skip(cq.len() as int + 1) =~= e);
    assert(comp.len() >= 5);
    assert(extension_of(p) == Some(e));
}

/// Only those files name configuration: a path whose extension is none
/// of `toml`, `yaml`, `yml` and `lock` in any case, and whose file name is
/// not `package.json`, is no config path.
pub proof fn law_other_files_are_not_config(p: Seq<char>)
    requires
        match extension_of(p) {
            Some(e) => lower(e) != "toml"@ && lower(e) != "yaml"@ && lower(e) != "yml"@ && lower(e)
                != "lock"@,
            None => true,
        },
        final_component(p) != "package.json"@,
    ensures
        !config_path(p),
{
}

/// A file named `package.json`, at the root or in any directory, names
/// configuration.
pub proof fn law_package_json_is_config(q: Seq<char>)
    requires
        q.len() == 0 || q.last() == '/',
    ensures
        config_path(q + "package.json"@),
{
    reveal_strlit("package.json");
    let t = "package.json"@;
    lemma_last_index_free_suffix(q, t, '/');
    if q.len() > 0 {
        assert(q =~= q.drop_last().push('/'));
        assert(crate::text::last_index_of(q, '/') == Some(q.len() - 1));
        assert((q + t).skip(q.len() as int) =~= t);
    } else {
        assert(q + t =~= t);
    }
    assert(final_component(q + t) == t);
}

/// A hit that is neither a test, a commit, a summary or knowledge page nor
/// a signature, reached other than through structure, with an address in
/// a configuration file, plays the config role and ships as a config item.
pub proof fn law_config_hits_are_config(hit: SearchHit)
    requires
        hit.representation == RetrievalRepresentation::RawCode || hit.representation
            == RetrievalRepresentation::SymbolSummary || hit.representation
            == RetrievalRepresentation::FileDescriptor || hit.representation
            == RetrievalRepresentation::CommitDiff,
        hit.route != SearchRoute::Structure,
        hit.address matches Some(a) && config_path(a.path@),
    ensures
        role_spec(hit) == ContextRole::Config,
        kind_spec(role_spec(hit), hit.route) == ContextItemKind::Config,
{
}

/// The role of a hit.
pub open spec fn role_spec(hit: SearchHit) -> ContextRole {
    match hit.representation {
        RetrievalRepresentation::TestBehavior => ContextRole::Test,
        RetrievalRepresentation::CommitSummary => ContextRole::History,
        RetrievalRepresentation::RoleSummary | RetrievalRepresentation::ModuleSummary
        | RetrievalRepresentation::FlowSummary | RetrievalRepresentation::KnowledgePage =>
            ContextRole::Knowledge,
        RetrievalRepresentation::Signature => if hit.route == SearchRoute::Structure {
            ContextRole::Caller
        } else {
            ContextRole::Contract
        },
        _ => if hit.route == SearchRoute::Structure {
            ContextRole::Caller
        } else if hit.address is Some && config_path(hit.address->0.path@) {
            ContextRole::Config
        } else {
            ContextRole::Target
        },
    }
}

/// The wire kind of an item with `role` reached through `route`.
pub open spec fn kind_spec(role: ContextRole, route: SearchRoute) -> ContextItemKind {
    match role {
        ContextRole::Test => ContextItemKind::Test,
        ContextRole::History => ContextItemKind::History,
        ContextRole::Knowledge => ContextItemKind::Knowledge,
        ContextRole::Caller => ContextItemKind::RelationPath,
        ContextRole::Contract => ContextItemKind::Contract,
        ContextRole::Config => ContextItemKind::Config,
        ContextRole::Target => if route == SearchRoute::ExactSymbol {
            ContextItemKind::EntryPoint
        } else {
            ContextItemKind::Source
        },
    }
}

fn is_config_path(p: &[char]) -> (r: bool)
    ensures
        r == config_path(p@),
{
    let by_extension = match crate::ignore::extension(p) {
        Some(e) => {
            let l = lower_all(&e);
            eq_str(&l, "toml") || eq_str(&l, "yaml") || eq_str(&l, "yml") || eq_str(&l, "lock")
        },
        None => false,
    };
    if by_extension {
        return true;
    }
    let component = match crate::text::rfind_char(p, '/') {
        Some(i) => crate::text::slice_vec(p, i + 1, p.len()),
        None => crate::text::slice_vec(p, 0, p.len()),
    };
    assert(component@ == final_component(p@));
    eq_str(&component, "package.json")
}

/// The role a hit plays: tests, history, knowledge pages and signatures by
/// representation; structural hits are callers; configuration files by
/// path; everything else is a target.
pub fn role_of(hit: &SearchHit) -> (r: ContextRole)
    ensures
        r == role_spec(*hit),
{
    match hit.representation {
        RetrievalRepresentation::TestBehavior => ContextRole::Test,
        RetrievalRepresentation::CommitSummary => ContextRole::History,
        RetrievalRepresentation::RoleSummary | RetrievalRepresentation::ModuleSummary
        | RetrievalRepresentation::FlowSummary | RetrievalRepresentation::KnowledgePage =>
            ContextRole::Knowledge,
        RetrievalRepresentation::Signature => {
            if hit.route == SearchRoute::Structure {
                ContextRole::Caller
            } else {
                ContextRole::Contract
            }
        },
        _ => {
            if hit.route == SearchRoute::Structure {
                ContextRole::Caller
            } else {
                let config = match &hit.address {
                    Some(a) => is_config_path(&chars_of(a.path.as_str())),
                    None => false,
                };
                if config {
                    ContextRole::Config
                } else {
                    ContextRole::Target
                }
            }
        },
    }
}

/// `kind=State` for each view, in manifest order.
pub open spec fn views_line(views: Seq<(ViewKind, ViewState)>) -> Seq<char> {
    join(
        views.map_values(
            |v: (ViewKind, ViewState)| view_label(v.0) + "="@ + view_state_label(v.1),
        ),
        ", "@,
    )
}

/// The orientation text that opens every pack.
pub open spec fn orientation_text(search: SearchResult) -> Seq<char> {
    "Snapshot: "@ + search.request.snapshot_id@ + "\nIntent: "@ + intent_label(search.plan.intent)
        + "\nRoutes: "@ + join(search.plan.routes@.map_values(|r: SearchRoute| route_label(r)), ", "@)
        + "\nViews: "@ + views_line(search.manifest.views@) + "\nPlanner rationale: "@ + join(
        search.plan.reasons@.map_values(|s: String| s@),
        "; "@,
    )
        + "\nAll summaries and derived relations are navigation aids; cited source is authoritative."@
}

/// The orientation text of a search result.
pub fn orientation(search: &SearchResult) -> (r: Vec<char>)
    ensures
        r@ == orientation_text(*search),
{
    let mut v: Vec<char> = Vec::new();
    push_str(&mut v, "Snapshot: ");
    push_str(&mut v, search.request.snapshot_id.as_str());
    push_str(&mut v, "\nIntent: ");
    push_str(&mut v, intent_name(search.plan.intent));
    push_str(&mut v, "\nRoutes: ");
    let mut names: Vec<Vec<char>> = Vec::new();
    for i in 0..search.plan.routes.len()
        invariant
            names@.len() == i,
            forall|k: int| 0 <= k < i ==> #[trigger] names@[k]@ == route_label(search.plan.routes@[k]),
    {
        names.push(chars_of(route_name(search.plan.routes[i])));
    }
    assert(names@.map_values(|s: Vec<char>| s@) =~= search.plan.routes@.map_values(
        |r: SearchRoute| route_label(r),
    ));
    let routes = join_chars(&names, ", ");
    push_all(&mut v, &routes);
    push_str(&mut v, "\nViews: ");
    let mut views: Vec<Vec<char>> = Vec::new();
    for i in 0..search.manifest.views.len()
        invariant
            views@.len() == i,
            forall|k: int| 0 <= k < i ==> #[trigger] views@[k]@ == view_label(search.manifest.views@[k].0) + "="@
                + view_state_label(search.manifest.views@[k].1),
    {
        let (kind, state) = search.manifest.views[i];
        let mut entry: Vec<char> = Vec::new();
        push_str(&mut entry, view_name(kind));
        push_str(&mut entry, "=");
        push_str(&mut entry, view_state_name(state));
        views.push(entry);
    }
    assert(views@.map_values(|s: Vec<char>| s@) =~= search.manifest.views@.map_values(
        |v: (ViewKind, ViewState)| view_label(v.0) + "="@ + view_state_label(v.1),
    ));
    let joined = join_chars(&views, ", ");
    push_all(&mut v, &joined);
    push_str(&mut v, "\nPlanner rationale: ");
    let reasons = join_strings(&search.plan.reasons, "; ");
    push_all(&mut v, &reasons);
    push_str(
        &mut v,
        "\nAll summaries and derived relations are navigation aids; cited source is authoritative.",
    );
    v
}


// ---- the packing ledger ------------------------------------------------------

/// The packer's bookkeeping, as mathematical values: shipped entities and
/// source ranges, taken document ids, refusals in order, tokens used, and
/// the shipped hits (index and role) in item order.
pub struct PackState {
    pub entities: Seq<Seq<char>>,
    pub ranges: Seq<(Seq<char>, u64, u64)>,
    pub taken: Seq<Seq<char>>,
    pub rejections: Seq<(Seq<char>, OmissionReason)>,
    pub used: nat,
    pub shipped: Seq<(int, ContextRole)>,
}

/// The dedup key of an address.
pub open spec fn range_key(a: SourceAddress) -> (Seq<char>, u64, u64) {
    (a.path@, a.start_byte, a.end_byte)
}

/// How many shipped ranges lie in file `p`.
pub open spec fn path_count(ranges: Seq<(Seq<char>, u64, u64)>, p: Seq<char>) -> nat
    decreases ranges.len(),
{
    if ranges.len() == 0 {
        0
    } else {
        path_count(ranges.drop_last(), p) + if ranges.last().0 == p { 1nat } else { 0nat }
    }
}

/// Tokens left in the budget (saturating).
pub open spec fn remaining(budget: nat, used: nat) -> nat {
    if budget >= used {
        (budget - used) as nat
    } else {
        0
    }
}

/// Why `hit` would be refused in state `st`, or `None` when it ships.
/// Checks are read-only: a refusal consumes no range, file or entity
/// quota.
pub open spec fn admission(st: PackState, hit: SearchHit, budget: nat) -> Option<OmissionReason> {
    let over_budget = estimate(body_of(hit)) > remaining(budget, st.used);
    match hit.address {
        Some(a) => if st.ranges.contains(range_key(a)) {
            Some(OmissionReason::DuplicateRange)
        } else if path_count(st.ranges, a.path@) >= 4 {
            Some(OmissionReason::FileCap)
        } else if over_budget {
            Some(OmissionReason::Budget)
        } else {
            None
        },
        None => if st.entities.contains(hit.entity_id@) {
            Some(OmissionReason::DuplicateEntity)
        } else if over_budget {
            Some(OmissionReason::Budget)
        } else {
            None
        },
    }
}

/// One packing attempt of `hits[i]` in `role`.
pub open spec fn step(
    st: PackState,
    hits: Seq<SearchHit>,
    i: int,
    role: ContextRole,
    budget: nat,
) -> PackState {
    let hit = hits[i];
    match admission(st, hit, budget) {
        Some(reason) => PackState {
            entities: st.entities,
            ranges: st.ranges,
            taken: st.taken,
            rejections: st.rejections.push((hit.document_id@, reason)),
            used: st.used,
            shipped: st.shipped,
        },
        None => PackState {
            entities: st.entities.push(hit.entity_id@),
            ranges: match hit.address {
                Some(a) => st.ranges.push(range_key(a)),
                None => st.ranges,
            },
            taken: st.taken.push(hit.document_id@),
            rejections: st.rejections,
            used: st.used + estimate(body_of(hit)),
            shipped: st.shipped.push((i, role)),
        },
    }
}

/// Roles that keep a quota slot, in preselection order.
pub open spec fn quota_roles() -> Seq<ContextRole> {
    seq![
        ContextRole::Test,
        ContextRole::Contract,
        ContextRole::Caller,
        ContextRole::Config,
        ContextRole::History,
        ContextRole::Knowledge,
    ]
}

/// The first of the first `n` hits with `role` whose document is not taken.
pub open spec fn first_untaken(
    hits: Seq<SearchHit>,
    role: ContextRole,
    taken: Seq<Seq<char>>,
    n: int,
) -> Option<int>
    decreases n,
{
    if n <= 0 {
        None
    } else {
        match first_untaken(hits, role, taken, n - 1) {
            Some(i) => Some(i),
            None => if role_spec(hits[n - 1]) == role && !taken.contains(hits[n - 1].document_id@) {
                Some(n - 1)
            } else {
                None
            },
        }
    }
}

/// Role preselection over the first `k` quota roles: each role tries its
/// first untaken hit.
pub open spec fn preselect(hits: Seq<SearchHit>, budget: nat, st: PackState, k: nat) -> PackState
    decreases k,
{
    if k == 0 {
        st
    } else {
        let prev = preselect(hits, budget, st, (k - 1) as nat);
        let role = quota_roles()[k - 1];
        match first_untaken(hits, role, prev.taken, hits.len() as int) {
            Some(i) => step(prev, hits, i, role, budget),
            None => prev,
        }
    }
}

/// Rank-order fill over the first `n` hits: every hit not yet taken tries
/// once in its own role.
pub open spec fn fill(hits: Seq<SearchHit>, budget: nat, st: PackState, n: nat) -> PackState
    decreases n,
{
    if n == 0 {
        st
    } else {
        let prev = fill(hits, budget, st, (n - 1) as nat);
        let hit = hits[n - 1];
        if prev.taken.contains(hit.document_id@) {
            prev
        } else {
            step(prev, hits, n - 1, role_spec(hit), budget)
        }
    }
}

/// The ledger before any hit: only the orientation's tokens, when the
/// orientation fits.
pub open spec fn initial_state(search: SearchResult, budget: nat) -> PackState {
    let ot = estimate(orientation_text(search));
    PackState {
        entities: Seq::empty(),
        ranges: Seq::empty(),
        taken: Seq::empty(),
        rejections: Seq::empty(),
        used: if ot <= budget { ot } else { 0 },
        shipped: Seq::empty(),
    }
}

/// The ledger after both passes.
pub open spec fn final_state(search: SearchResult, budget: nat) -> PackState {
    let hits = search.hits@;
    fill(
        hits,
        budget,
        preselect(hits, budget, initial_state(search, budget), 6),
        hits.len() as nat,
    )
}

/// `item` is the packed form of `hit` in `role`.
pub open spec fn item_for(item: ContextItem, hit: SearchHit, role: ContextRole, snapshot: Seq<char>) -> bool {
    &&& item.id@ == hit.document_id@
    &&& item.kind == kind_spec(role, hit.route)
    &&& item.title@ == title_of(hit)
    &&& item.body@ == body_of(hit)
    &&& item.estimated_tokens == estimate(body_of(hit))
    &&& item.provenance.why_retrieved@ == join(hit.explanation@.map_values(|s: String| s@), "; "@)
    &&& item.provenance.route == hit.route
    &&& item.provenance.rank == hit.rank
    &&& item.provenance.score == hit.score
    &&& item.provenance.snapshot_id@ == snapshot
    &&& item.provenance.verified_current == hit.verified_current
    &&& item.provenance.symbol_name == hit.symbol_name
    &&& item.provenance.source_address == hit.address
    &&& item.provenance.evidence_addresses@ == hit.evidence@
}

/// The orientation bit pattern of the score `1.0`.
pub open spec fn unit_score() -> u64 {
    0x3FF0_0000_0000_0000
}

/// `item` is the orientation item of `search`.
pub open spec fn orientation_item(item: ContextItem, search: SearchResult) -> bool {
    &&& item.id@ == "orientation"@
    &&& item.kind == ContextItemKind::Orientation
    &&& item.title@ == "Repository context orientation"@
    &&& item.body@ == orientation_text(search)
    &&& item.estimated_tokens == estimate(orientation_text(search))
    &&& item.provenance.why_retrieved@ == "planner and view-manifest orientation"@
    &&& item.provenance.route == SearchRoute::Hybrid
    &&& item.provenance.rank == 0
    &&& item.provenance.score == unit_score()
    &&& item.provenance.snapshot_id@ == search.request.snapshot_id@
    &&& item.provenance.verified_current
    &&& item.provenance.symbol_name is None
    &&& item.provenance.source_address is None
    &&& item.provenance.evidence_addresses@.len() == 0
}

/// Sum of the items' token estimates.
pub open spec fn token_sum(items: Seq<ContextItem>) -> nat
    decreases items.len(),
{
    if items.len() == 0 {
        0
    } else {
        token_sum(items.drop_last()) + items.last().estimated_tokens as nat
    }
}

/// Exec bookkeeping behind `PackState`.
pub struct Ledger {
    pub entities: Vec<Vec<char>>,
    pub ranges: Vec<(Vec<char>, u64, u64)>,
    pub taken: Vec<Vec<char>>,
    pub rejections: Vec<(Vec<char>, OmissionReason)>,
    pub used: usize,
    pub items: Vec<ContextItem>,
    pub shipped: Ghost<Seq<(int, ContextRole)>>,
    pub offset: Ghost<nat>,
}

impl Ledger {
    /// The ledger's mathematical state.
    pub open spec fn state(&self) -> PackState {
        PackState {
            entities: self.entities@.map_values(|v: Vec<char>| v@),
            ranges: self.ranges@.map_values(|r: (Vec<char>, u64, u64)| (r.0@, r.1, r.2)),
            taken: self.taken@.map_values(|v: Vec<char>| v@),
            rejections: self.rejections@.map_values(|r: (Vec<char>, OmissionReason)| (r.0@, r.1)),
            used: self.used as nat,
            shipped: self.shipped@,
        }
    }

    /// Items after the offset are the packed forms of the shipped hits.
    pub open spec fn wf(&self, hits: Seq<SearchHit>, snapshot: Seq<char>, budget: nat) -> bool {
        &&& self.used <= budget
        &&& self.used == token_sum(self.items@)
        &&& self.items@.len() == self.offset@ + self.shipped@.len()
        &&& forall|k: int|
            0 <= k < self.shipped@.len() ==> {
                let (i, role) = #[trigger] self.shipped@[k];
                &&& 0 <= i < hits.len()
                &&& item_for(self.items@[self.offset@ + k], hits[i], role, snapshot)
            }
    }
}

fn contains_chars(list: &Vec<Vec<char>>, x: &[char]) -> (r: bool)
    ensures
        r == list@.map_values(|v: Vec<char>| v@).contains(x@),
{
    let ghost views = list@.map_values(|v: Vec<char>| v@);
    for i in 0..list.len()
        invariant
            views == list@.map_values(|v: Vec<char>| v@),
            forall|k: int| 0 <= k < i ==> views[k] != x@,
    {
        if crate::text::eq_chars(&list[i], x) {
            assert(views[i as int] == x@);
            return true;
        }
    }
    false
}

fn contains_range(list: &Vec<(Vec<char>, u64, u64)>, path: &[char], start: u64, end: u64) -> (r: bool)
    ensures
        r == list@.map_values(|r: (Vec<char>, u64, u64)| (r.0@, r.1, r.2)).contains((path@, start, end)),
{
    let ghost views = list@.map_values(|r: (Vec<char>, u64, u64)| (r.0@, r.1, r.2));
    for i in 0..list.len()
        invariant
            views == list@.map_values(|r: (Vec<char>, u64, u64)| (r.0@, r.1, r.2)),
            forall|k: int| 0 <= k < i ==> views[k] != (path@, start, end),
    {
        let entry = &list[i];
        if entry.1 == start && entry.2 == end && crate::text::eq_chars(&entry.0, path) {
            assert(views[i as int] == (path@, start, end));
            return true;
        }
    }
    false
}

fn count_in_path(list: &Vec<(Vec<char>, u64, u64)>, path: &[char]) -> (r: usize)
    ensures
        r == path_count(list@.map_values(|r: (Vec<char>, u64, u64)| (r.0@, r.1, r.2)), path@),
{
    let ghost views = list@.map_values(|r: (Vec<char>, u64, u64)| (r.0@, r.1, r.2));
    let mut count: usize = 0;
    for i in 0..list.len()
        invariant
            views == list@.map_values(|r: (Vec<char>, u64, u64)| (r.0@, r.1, r.2)),
            count == path_count(views.take(i as int), path@),
            count <= i,
    {
        assert(views.take(i + 1).drop_last() =~= views.take(i as int));
        if crate::text::eq_chars(&list[i].0, path) {
            count = count + 1;
        }
    }
    assert(views.take(list.len() as int) =~= views);
    count
}

/// Builds the packed item of `hit`.
fn make_item(hit: &SearchHit, role: ContextRole, body: Vec<char>, tokens: usize, snapshot: &String) -> (r: ContextItem)
    requires
        body@ == body_of(*hit),
        tokens == estimate(body_of(*hit)),
    ensures
        item_for(r, *hit, role, snapshot@),
{
    let kind = match role {
        ContextRole::Test => ContextItemKind::Test,
        ContextRole::History => ContextItemKind::History,
        ContextRole::Knowledge => ContextItemKind::Knowledge,
        ContextRole::Caller => ContextItemKind::RelationPath,
        ContextRole::Contract => ContextItemKind::Contract,
        ContextRole::Config => ContextItemKind::Config,
        ContextRole::Target => if hit.route == SearchRoute::ExactSymbol {
            ContextItemKind::EntryPoint
        } else {
            ContextItemKind::Source
        },
    };
    let why = join_strings(&hit.explanation, "; ");
    ContextItem {
        id: copy_string(&hit.document_id),
        kind,
        title: string_of(&render_title(hit)),
        body: string_of(&body),
        estimated_tokens: tokens,
        provenance: ContextProvenance {
            why_retrieved: string_of(&why),
            route: hit.route,
            rank: hit.rank,
            score: hit.score,
            snapshot_id: copy_string(snapshot),
            verified_current: hit.verified_current,
            symbol_name: copy_opt_string(&hit.symbol_name),
            source_address: copy_opt_address(&hit.address),
            evidence_addresses: copy_addresses(&hit.evidence),
        },
    }
}

/// One packing attempt: admission checks first (read-only), then, when
/// the hit ships, commit its range, file, entity and document quotas.
fn attempt(
    ledger: &mut Ledger,
    hits: &Vec<SearchHit>,
    i: usize,
    role: ContextRole,
    budget: usize,
    snapshot: &String,
)
    requires
        i < hits.len(),
        old(ledger).wf(hits@, snapshot@, budget as nat),
    ensures
        final(ledger).state() == step(old(ledger).state(), hits@, i as int, role, budget as nat),
        final(ledger).wf(hits@, snapshot@, budget as nat),
        final(ledger).offset == old(ledger).offset,
        final(ledger).items@.take(old(ledger).items@.len() as int) == old(ledger).items@,
{
    let hit = &hits[i];
    let ghost st = ledger.state();
    let reason: Option<OmissionReason> = match &hit.address {
        Some(a) => {
            let path = chars_of(a.path.as_str());
            if contains_range(&ledger.ranges, &path, a.start_byte, a.end_byte) {
                Some(OmissionReason::DuplicateRange)
            } else if count_in_path(&ledger.ranges, &path) >= 4 {
                Some(OmissionReason::FileCap)
            } else {
                None
            }
        },
        None => {
            if contains_chars(&ledger.entities, &chars_of(hit.entity_id.as_str())) {
                Some(OmissionReason::DuplicateEntity)
            } else {
                None
            }
        },
    };
    if let Some(r) = reason {
        ledger.rejections.push((chars_of(hit.document_id.as_str()), r));
        proof {
            assert(ledger.state().rejections =~= st.rejections.push((hit.document_id@, r)));
            assert(ledger.state().entities =~= st.entities);
            assert(ledger.state().ranges =~= st.ranges);
            assert(ledger.state().taken =~= st.taken);
        }
        return;
    }
    let body = render_hit(hit);
    let tokens = estimate_chars(&body);
    if tokens > budget.saturating_sub(ledger.used) {
        ledger.rejections.push((chars_of(hit.document_id.as_str()), OmissionReason::Budget));
        proof {
            assert(ledger.state().rejections =~= st.rejections.push(
                (hit.document_id@, OmissionReason::Budget),
            ));
            assert(ledger.state().entities =~= st.entities);
            assert(ledger.state().ranges =~= st.ranges);
            assert(ledger.state().taken =~= st.taken);
        }
        return;
    }
    match &hit.address {
        Some(a) => {
            ledger.ranges.push((chars_of(a.path.as_str()), a.start_byte, a.end_byte));
        },
        None => {},
    }
    ledger.entities.push(chars_of(hit.entity_id.as_str()));
    ledger.taken.push(chars_of(hit.document_id.as_str()));
    ledger.used = ledger.used + tokens;
    let item = make_item(hit, role, body, tokens, snapshot);
    let ghost old_items = ledger.items@;
    ledger.items.push(item);
    ledger.shipped = Ghost(ledger.shipped@.push((i as int, role)));
    proof {
        assert(ledger.state().entities =~= st.entities.push(hit.entity_id@));
        assert(ledger.state().taken =~= st.taken.push(hit.document_id@));
        if hit.address is Some {
            assert(ledger.state().ranges =~= st.ranges.push(range_key(hit.address->0)));
        } else {
            assert(ledger.state().ranges =~= st.ranges);
        }
        assert(ledger.state().rejections =~= st.rejections);
        assert(ledger.items@.take(old_items.len() as int) =~= old_items);
        assert(ledger.items@.drop_last() =~= old_items);
        assert forall|k: int| 0 <= k < ledger.shipped@.len() implies {
            let (j, rl) = #[trigger] ledger.shipped@[k];
            &&& 0 <= j < hits@.len()
            &&& item_for(ledger.items@[ledger.offset@ + k], hits@[j], rl, snapshot@)
        } by {
            if k < ledger.shipped@.len() - 1 {
                assert(ledger.items@[ledger.offset@ + k] == old_items[ledger.offset@ + k]);
            }
        }
    }
}


// ---- the two packing passes -------------------------------------------------

proof fn lemma_first_untaken_stable(
    hits: Seq<SearchHit>,
    role: ContextRole,
    taken: Seq<Seq<char>>,
    m: int,
    n: int,
)
    requires
        0 <= m <= n,
        first_untaken(hits, role, taken, m) is Some,
    ensures
        first_untaken(hits, role, taken, n) == first_untaken(hits, role, taken, m),
    decreases n - m,
{
    if m < n {
        lemma_first_untaken_stable(hits, role, taken, m, n - 1);
    }
}

/// The quota role at position `k` of the preselection order.
fn quota_role(k: usize) -> (r: ContextRole)
    requires
        k < 6,
    ensures
        r == quota_roles()[k as int],
{
    match k {
        0 => ContextRole::Test,
        1 => ContextRole::Contract,
        2 => ContextRole::Caller,
        3 => ContextRole::Config,
        4 => ContextRole::History,
        _ => ContextRole::Knowledge,
    }
}

/// Index of the first hit in `role` whose document is not yet taken.
fn find_untaken(hits: &Vec<SearchHit>, role: ContextRole, taken: &Vec<Vec<char>>) -> (r: Option<
    usize,
>)
    ensures
        match r {
            Some(i) => i < hits.len() && first_untaken(
                hits@,
                role,
                taken@.map_values(|v: Vec<char>| v@),
                hits.len() as int,
            ) == Some(i as int),
            None => first_untaken(
                hits@,
                role,
                taken@.map_values(|v: Vec<char>| v@),
                hits.len() as int,
            ) is None,
        },
{
    let ghost tv = taken@.map_values(|v: Vec<char>| v@);
    for j in 0..hits.len()
        invariant
            tv == taken@.map_values(|v: Vec<char>| v@),
            first_untaken(hits@, role, tv, j as int) is None,
    {
        let hit = &hits[j];
        if role_of(hit) == role && !contains_chars(taken, &chars_of(hit.document_id.as_str())) {
            proof {
                assert(first_untaken(hits@, role, tv, j + 1) == Some(j as int));
                lemma_first_untaken_stable(hits@, role, tv, j + 1, hits.len() as int);
            }
            return Some(j);
        }
    }
    None
}

/// The orientation item of `search`.
fn orientation_item_of(search: &SearchResult, body: &Vec<char>, tokens: usize) -> (r: ContextItem)
    requires
        body@ == orientation_text(*search),
        tokens == estimate(orientation_text(*search)),
    ensures
        orientation_item(r, *search),
{
    ContextItem {
        id: owned("orientation"),
        kind: ContextItemKind::Orientation,
        title: owned("Repository context orientation"),
        body: string_of(body),
        estimated_tokens: tokens,
        provenance: ContextProvenance {
            why_retrieved: owned("planner and view-manifest orientation"),
            route: SearchRoute::Hybrid,
            rank: 0,
            score: 0x3FF0_0000_0000_0000u64,
            snapshot_id: copy_string(&search.request.snapshot_id),
            verified_current: true,
            symbol_name: None,
            source_address: None,
            evidence_addresses: Vec::new(),
        },
    }
}

/// Both passes over the hits, starting from the orientation-only ledger.
/// Returns the ledger and whether the orientation shipped.
fn run_passes(search: &SearchResult, budget: usize) -> (r: (Ledger, bool))
    ensures
        r.0.state() == final_state(*search, budget as nat),
        r.0.wf(search.hits@, search.request.snapshot_id@, budget as nat),
        r.1 == (estimate(orientation_text(*search)) <= budget),
        r.0.offset@ == if r.1 { 1nat } else { 0nat },
        r.1 ==> orientation_item(r.0.items@[0], *search),
{
    let hits = &search.hits;
    let snapshot = &search.request.snapshot_id;
    let text = orientation(search);
    let ot = estimate_chars(&text);
    let fits = ot <= budget;
    let mut items: Vec<ContextItem> = Vec::new();
    let mut used: usize = 0;
    if fits {
        items.push(orientation_item_of(search, &text, ot));
        used = ot;
        assert(items@.drop_last() =~= Seq::<ContextItem>::empty());
    }
    let mut ledger = Ledger {
        entities: Vec::new(),
        ranges: Vec::new(),
        taken: Vec::new(),
        rejections: Vec::new(),
        used,
        items,
        shipped: Ghost(Seq::empty()),
        offset: Ghost(if fits { 1nat } else { 0nat }),
    };
    let ghost init = initial_state(*search, budget as nat);
    assert(ledger.state().entities =~= init.entities);
    assert(ledger.state().ranges =~= init.ranges);
    assert(ledger.state().taken =~= init.taken);
    assert(ledger.state().rejections =~= init.rejections);
    assert(ledger.state() == init);
    proof {
        if fits {
            assert(ledger.items@.drop_last() =~= Seq::<ContextItem>::empty());
            assert(token_sum(ledger.items@.drop_last()) == 0);
            assert(ledger.items@.last().estimated_tokens == ot);
            assert(token_sum(ledger.items@) == ot);
        }
        assert(ledger.used == token_sum(ledger.items@));
        assert(ledger.items@.len() == ledger.offset@ + ledger.shipped@.len());
    }
    let ghost off = ledger.offset@;
    for k in 0..6
        invariant
            ledger.state() == preselect(hits@, budget as nat, init, k as nat),
            ledger.wf(hits@, snapshot@, budget as nat),
            ledger.offset@ == off,
            off == if fits { 1nat } else { 0nat },
            fits ==> orientation_item(ledger.items@[0], *search),
            hits == &search.hits,
            snapshot == &search.request.snapshot_id,
            init == initial_state(*search, budget as nat),
    {
        let role = quota_role(k);
        match find_untaken(hits, role, &ledger.taken) {
            Some(i) => {
                let ghost before = ledger.items@;
                attempt(&mut ledger, hits, i, role, budget, snapshot);
                proof {
                    if fits {
                        assert(ledger.items@.take(before.len() as int)[0] == ledger.items@[0]);
                    }
                }
            },
            None => {},
        }
    }
    let ghost pre = ledger.state();
    for i in 0..hits.len()
        invariant
            ledger.state() == fill(hits@, budget as nat, pre, i as nat),
            ledger.wf(hits@, snapshot@, budget as nat),
            ledger.offset@ == off,
            off == if fits { 1nat } else { 0nat },
            fits ==> orientation_item(ledger.items@[0], *search),
            hits == &search.hits,
            snapshot == &search.request.snapshot_id,
    {
        let hit = &hits[i];
        if !contains_chars(&ledger.taken, &chars_of(hit.document_id.as_str())) {
            let ghost before = ledger.items@;
            attempt(&mut ledger, hits, i, role_of(hit), budget, snapshot);
            proof {
                if fits {
                    assert(ledger.items@.take(before.len() as int)[0] == ledger.items@[0]);
                }
            }
        }
    }
    (ledger, fits)
}


// ---- uncertainties -----------------------------------------------------------

/// Messages after folding `reasons` into `init`: a reason already present
/// is skipped, any other is appended.
pub open spec fn gap_messages(init: Seq<Seq<char>>, reasons: Seq<Seq<char>>) -> Seq<Seq<char>>
    decreases reasons.len(),
{
    if reasons.len() == 0 {
        init
    } else {
        let prev = gap_messages(init, reasons.drop_last());
        if prev.contains(reasons.last()) {
            prev
        } else {
            prev.push(reasons.last())
        }
    }
}

/// The messages of a pack's uncertainties, in order: every missing view,
/// then (for a weak witness only) each distinct verdict reason not already
/// reported.
pub open spec fn uncertainty_messages(search: SearchResult) -> Seq<Seq<char>> {
    let missing = search.missing_capabilities@.map_values(|s: String| s@);
    if search.verdict.state == VerdictState::WeakWitness {
        gap_messages(missing, search.verdict.reasons@.map_values(|s: String| s@))
    } else {
        missing
    }
}

/// The shape of one uncertainty: a missing view names its capability by
/// the message's first word; an evidence gap is `evidence_witness`.
pub open spec fn uncertainty_shape(u: Uncertainty, missing_view: bool) -> bool {
    if missing_view {
        &&& u.capability@ == capability_of(u.message@)
        &&& u.recommended_action matches Some(a) && a@
            == "verify against source or build the missing view"@
    } else {
        &&& u.capability@ == "evidence_witness"@
        &&& u.recommended_action matches Some(a) && a@
            == "inspect the cited evidence or run a drill-down query"@
    }
}

fn has_message(list: &Vec<Uncertainty>, m: &[char]) -> (r: bool)
    ensures
        r == list@.map_values(|u: Uncertainty| u.message@).contains(m@),
{
    let ghost views = list@.map_values(|u: Uncertainty| u.message@);
    for i in 0..list.len()
        invariant
            views == list@.map_values(|u: Uncertainty| u.message@),
            forall|k: int| 0 <= k < i ==> views[k] != m@,
    {
        if crate::text::eq_chars(&chars_of(list[i].message.as_str()), m) {
            assert(views[i as int] == m@);
            return true;
        }
    }
    false
}

/// The pack's uncertainties: missing views, then deduplicated weak-witness
/// reasons.
fn uncertainties_of(search: &SearchResult) -> (r: Vec<Uncertainty>)
    ensures
        r@.map_values(|u: Uncertainty| u.message@) == uncertainty_messages(*search),
        forall|k: int|
            0 <= k < r@.len() ==> uncertainty_shape(
                #[trigger] r@[k],
                k < search.missing_capabilities@.len(),
            ),
{
    let missing = &search.missing_capabilities;
    let ghost mv = missing@.map_values(|s: String| s@);
    let mut r: Vec<Uncertainty> = Vec::new();
    for i in 0..missing.len()
        invariant
            mv == missing@.map_values(|s: String| s@),
            r@.map_values(|u: Uncertainty| u.message@) == mv.take(i as int),
            forall|k: int| 0 <= k < r@.len() ==> uncertainty_shape(#[trigger] r@[k], k < missing@.len()),
            missing == &search.missing_capabilities,
    {
        let message = &missing[i];
        let u = Uncertainty {
            capability: capability_from_message(message.as_str()),
            message: copy_string(message),
            recommended_action: Some(owned("verify against source or build the missing view")),
        };
        let ghost before = r@;
        r.push(u);
        proof {
            assert(r@.map_values(|u: Uncertainty| u.message@) =~= before.map_values(
                |u: Uncertainty| u.message@,
            ).push(mv[i as int]));
            assert(mv.take(i + 1) =~= mv.take(i as int).push(mv[i as int]));
        }
    }
    assert(mv.take(missing.len() as int) =~= mv);
    if search.verdict.state == VerdictState::WeakWitness {
        let reasons = &search.verdict.reasons;
        let ghost rv = reasons@.map_values(|s: String| s@);
        assert(rv.take(0) =~= Seq::<Seq<char>>::empty());
        for j in 0..reasons.len()
            invariant
                rv == reasons@.map_values(|s: String| s@),
                mv == missing@.map_values(|s: String| s@),
                r@.map_values(|u: Uncertainty| u.message@) == gap_messages(mv, rv.take(j as int)),
                r@.len() >= missing@.len(),
                forall|k: int| 0 <= k < r@.len() ==> uncertainty_shape(#[trigger] r@[k], k < missing@.len()),
                missing == &search.missing_capabilities,
                reasons == &search.verdict.reasons,
        {
            let reason = &reasons[j];
            proof {
                assert(rv.take(j + 1).drop_last() =~= rv.take(j as int));
                assert(rv.take(j + 1).last() == reason@);
            }
            if !has_message(&r, &chars_of(reason.as_str())) {
                let u = Uncertainty {
                    capability: owned("evidence_witness"),
                    message: copy_string(reason),
                    recommended_action: Some(
                        owned("inspect the cited evidence or run a drill-down query"),
                    ),
                };
                let ghost before = r@;
                r.push(u);
                proof {
                    assert(r@.map_values(|u: Uncertainty| u.message@) =~= before.map_values(
                        |u: Uncertainty| u.message@,
                    ).push(reason@));
                }
            }
        }
        assert(rv.take(reasons.len() as int) =~= rv);
    }
    r
}


// ---- delivery report -----------------------------------------------------------

/// Document ids of the shipped hits, in item order.
pub open spec fn shipped_ids(hits: Seq<SearchHit>, shipped: Seq<(int, ContextRole)>) -> Seq<
    Seq<char>,
> {
    shipped.map_values(|p: (int, ContextRole)| hits[p.0].document_id@)
}

/// The last refusal recorded for document `d`.
pub open spec fn last_reason(rejections: Seq<(Seq<char>, OmissionReason)>, d: Seq<char>) -> Option<
    OmissionReason,
>
    decreases rejections.len(),
{
    if rejections.len() == 0 {
        None
    } else if rejections.last().0 == d {
        Some(rejections.last().1)
    } else {
        last_reason(rejections.drop_last(), d)
    }
}

/// Omitted hits among the first `n`: every hit whose document was not
/// taken, with its last refusal (`Budget` if it was never refused).
pub open spec fn omitted_upto(hits: Seq<SearchHit>, st: PackState, n: nat) -> Seq<
    (Seq<char>, OmissionReason),
>
    decreases n,
{
    if n == 0 {
        Seq::empty()
    } else {
        let prev = omitted_upto(hits, st, (n - 1) as nat);
        let d = hits[n - 1].document_id@;
        if st.taken.contains(d) {
            prev
        } else {
            prev.push(
                (
                    d,
                    match last_reason(st.rejections, d) {
                        Some(r) => r,
                        None => OmissionReason::Budget,
                    },
                ),
            )
        }
    }
}

/// Lower-cased snippets of the taken hits among the first `n`, in hit
/// order.
pub open spec fn delivered_pieces(hits: Seq<SearchHit>, taken: Seq<Seq<char>>, n: nat) -> Seq<
    Seq<char>,
>
    decreases n,
{
    if n == 0 {
        Seq::empty()
    } else {
        let prev = delivered_pieces(hits, taken, (n - 1) as nat);
        if taken.contains(hits[n - 1].document_id@) {
            prev.push(unicode_to_lower(hits[n - 1].snippet@))
        } else {
            prev
        }
    }
}

/// The terms whose presence in `text` equals `present`, in term order.
pub open spec fn terms_where(terms: Seq<Seq<char>>, text: Seq<char>, present: bool) -> Seq<
    Seq<char>,
>
    decreases terms.len(),
{
    if terms.len() == 0 {
        Seq::empty()
    } else {
        let prev = terms_where(terms.drop_last(), text, present);
        if contains_seq(text, terms.last()) == present {
            prev.push(terms.last())
        } else {
            prev
        }
    }
}

/// Some taken hit carries a source address.
pub open spec fn source_shipped(hits: Seq<SearchHit>, taken: Seq<Seq<char>>) -> bool {
    exists|i: int|
        0 <= i < hits.len() && taken.contains(#[trigger] hits[i].document_id@)
            && hits[i].address is Some
}

/// The delivery text term coverage is measured on: the taken hits'
/// lower-cased snippets joined by newlines.
pub open spec fn delivered_text(hits: Seq<SearchHit>, st: PackState) -> Seq<char> {
    join(delivered_pieces(hits, st.taken, hits.len() as nat), "\n"@)
}

/// `r` reports what shipped in state `st` against `terms`.
pub open spec fn report_matches(
    r: DeliveryReport,
    hits: Seq<SearchHit>,
    st: PackState,
    terms: Seq<Seq<char>>,
) -> bool {
    let text = delivered_text(hits, st);
    &&& r.included_item_ids@.map_values(|s: String| s@) == shipped_ids(hits, st.shipped)
    &&& r.omitted_hits@.map_values(|o: OmittedHit| (o.document_id@, o.reason)) == omitted_upto(
        hits,
        st,
        hits.len() as nat,
    )
    &&& r.delivered_terms@.map_values(|s: String| s@) == terms_where(terms, text, true)
    &&& r.missing_terms@.map_values(|s: String| s@) == terms_where(terms, text, false)
    &&& r.witness_verification == if source_shipped(hits, st.taken) {
        WitnessVerification::NotVerified
    } else {
        WitnessVerification::NoSourceEvidence
    }
}

fn last_reason_of(rejections: &Vec<(Vec<char>, OmissionReason)>, d: &[char]) -> (r: Option<
    OmissionReason,
>)
    ensures
        r == last_reason(
            rejections@.map_values(|x: (Vec<char>, OmissionReason)| (x.0@, x.1)),
            d@,
        ),
{
    let ghost views = rejections@.map_values(|x: (Vec<char>, OmissionReason)| (x.0@, x.1));
    let mut i = rejections.len();
    assert(views.take(i as int) =~= views);
    while i > 0
        invariant
            i <= rejections.len(),
            views == rejections@.map_values(|x: (Vec<char>, OmissionReason)| (x.0@, x.1)),
            last_reason(views, d@) == last_reason(views.take(i as int), d@),
        decreases i,
    {
        assert(views.take(i as int).drop_last() =~= views.take(i - 1));
        assert(views.take(i as int).last() == views[i - 1]);
        if crate::text::eq_chars(&rejections[i - 1].0, d) {
            return Some(rejections[i - 1].1);
        }
        i = i - 1;
    }
    None
}

/// The delivery report of a ledger.
fn delivery_report(
    hits: &Vec<SearchHit>,
    ledger: &Ledger,
    terms: &Vec<String>,
    Ghost(snapshot): Ghost<Seq<char>>,
    Ghost(budget): Ghost<nat>,
) -> (r: DeliveryReport)
    requires
        ledger.wf(hits@, snapshot, budget),
        ledger.offset@ <= 1,
        ledger.offset@ == 1 ==> ledger.items@[0].kind == ContextItemKind::Orientation,
    ensures
        report_matches(r, hits@, ledger.state(), terms@.map_values(|s: String| s@)),
{
    let ghost st = ledger.state();
    let ghost off = ledger.offset@;
    // included ids: every non-orientation item, in order
    let mut included: Vec<String> = Vec::new();
    for j in 0..ledger.items.len()
        invariant
            st == ledger.state(),
            off == ledger.offset@,
            ledger.wf(hits@, snapshot, budget),
            off <= 1,
            off == 1 ==> ledger.items@[0].kind == ContextItemKind::Orientation,
            included@.map_values(|s: String| s@) == shipped_ids(
                hits@,
                st.shipped.take(if j >= off { j - off } else { 0 }),
            ),
    {
        let item = &ledger.items[j];
        let ghost before = included@;
        if item.kind != ContextItemKind::Orientation {
            included.push(copy_string(&item.id));
            proof {
                assert(j >= off);
                let k = j - off;
                assert(st.shipped.take(k + 1) =~= st.shipped.take(k).push(st.shipped[k]));
                assert(included@.map_values(|s: String| s@) =~= before.map_values(
                    |s: String| s@,
                ).push(item.id@));
            }
        } else {
            proof {
                if j >= off {
                    let k = j - off;
                    let (i, role) = st.shipped[k];
                    assert(item_for(ledger.items@[off + k], hits@[i], role, snapshot));
                }
                assert(j < off);
            }
        }
    }
    assert(st.shipped.take(st.shipped.len() as int) =~= st.shipped);
    // omitted hits, delivered snippets and source evidence, in hit order
    let mut omitted: Vec<OmittedHit> = Vec::new();
    let mut pieces: Vec<Vec<char>> = Vec::new();
    let mut source = false;
    for i in 0..hits.len()
        invariant
            st == ledger.state(),
            omitted@.map_values(|o: OmittedHit| (o.document_id@, o.reason)) == omitted_upto(
                hits@,
                st,
                i as nat,
            ),
            pieces@.map_values(|v: Vec<char>| v@) == delivered_pieces(hits@, st.taken, i as nat),
            source == exists|k: int|
                0 <= k < i && st.taken.contains(#[trigger] hits@[k].document_id@)
                    && hits@[k].address is Some,
    {
        let hit = &hits[i];
        let doc = chars_of(hit.document_id.as_str());
        let ghost o_before = omitted@;
        let ghost p_before = pieces@;
        if contains_chars(&ledger.taken, &doc) {
            pieces.push(to_lowercase(&chars_of(hit.snippet.as_str())));
            if hit.address.is_some() {
                source = true;
            }
            proof {
                assert(pieces@.map_values(|v: Vec<char>| v@) =~= p_before.map_values(
                    |v: Vec<char>| v@,
                ).push(unicode_to_lower(hit.snippet@)));
            }
        } else {
            let reason = match last_reason_of(&ledger.rejections, &doc) {
                Some(r) => r,
                None => OmissionReason::Budget,
            };
            omitted.push(OmittedHit { document_id: copy_string(&hit.document_id), reason });
            proof {
                assert(omitted@.map_values(|o: OmittedHit| (o.document_id@, o.reason))
                    =~= o_before.map_values(|o: OmittedHit| (o.document_id@, o.reason)).push(
                    (hit.document_id@, reason),
                ));
            }
        }
    }
    let text = join_chars(&pieces, "\n");
    assert(text@ == delivered_text(hits@, st));
    // term coverage over the shipped snippets only
    let ghost tv = terms@.map_values(|s: String| s@);
    let mut delivered: Vec<String> = Vec::new();
    let mut missing: Vec<String> = Vec::new();
    for j in 0..terms.len()
        invariant
            tv == terms@.map_values(|s: String| s@),
            delivered@.map_values(|s: String| s@) == terms_where(tv.take(j as int), text@, true),
            missing@.map_values(|s: String| s@) == terms_where(tv.take(j as int), text@, false),
    {
        let term = &terms[j];
        proof {
            assert(tv.take(j + 1).drop_last() =~= tv.take(j as int));
            assert(tv.take(j + 1).last() == term@);
        }
        let ghost d_before = delivered@;
        let ghost m_before = missing@;
        if contains(&text, &chars_of(term.as_str())) {
            delivered.push(copy_string(term));
            assert(delivered@.map_values(|s: String| s@) =~= d_before.map_values(|s: String| s@).push(
                term@,
            ));
        } else {
            missing.push(copy_string(term));
            assert(missing@.map_values(|s: String| s@) =~= m_before.map_values(|s: String| s@).push(
                term@,
            ));
        }
    }
    assert(tv.take(terms.len() as int) =~= tv);
    DeliveryReport {
        included_item_ids: included,
        omitted_hits: omitted,
        delivered_terms: delivered,
        missing_terms: missing,
        witness_verification: if source {
            WitnessVerification::NotVerified
        } else {
            WitnessVerification::NoSourceEvidence
        },
    }
}


// ---- the packer ----------------------------------------------------------------

/// The orientation fits the budget.
pub open spec fn orientation_fits(search: SearchResult, budget: nat) -> bool {
    estimate(orientation_text(search)) <= budget
}

/// `items` are the orientation item (when it fits) followed by the packed
/// forms of the shipped hits, in shipping order.
pub open spec fn items_match(items: Seq<ContextItem>, search: SearchResult, budget: nat) -> bool {
    let st = final_state(search, budget);
    let off: int = if orientation_fits(search, budget) { 1 } else { 0 };
    &&& items.len() == off + st.shipped.len()
    &&& orientation_fits(search, budget) ==> orientation_item(items[0], search)
    &&& forall|k: int|
        0 <= k < st.shipped.len() ==> {
            let (i, role) = #[trigger] st.shipped[k];
            &&& 0 <= i < search.hits@.len()
            &&& item_for(items[off + k], search.hits@[i], role, search.request.snapshot_id@)
        }
}

impl ContextPacker {
    /// Create a packer.
    pub fn new() -> (r: Self) {
        ContextPacker
    }

    /// Assemble the pack: orientation first (when it fits), then one quota
    /// slot per evidence role, then the remaining hits in rank order until
    /// the budget runs out; each item keeps its provenance.
    pub fn pack(&self, search: &SearchResult, budget_tokens: usize) -> (r: ContextPack)
        ensures
            r.repository_id == search.request.repository_id,
            r.snapshot_id == search.request.snapshot_id,
            r.query == search.request.query,
            r.intent == search.plan.intent,
            r.plan_routes@ == search.plan.routes@,
            r.graph_policy == Some(search.plan.graph_policy),
            r.budget_tokens == budget_tokens,
            r.used_tokens == final_state(*search, budget_tokens as nat).used,
            r.used_tokens == token_sum(r.items@),
            r.used_tokens <= budget_tokens,
            r.latency_ms == search.latency_ms,
            r.search_latency_ms == Some(search.latency_ms),
            r.search_verdict matches Some(v) && v.state == search.verdict.state && v.reasons@
                == search.verdict.reasons@ && v.distinguishing_terms@
                == search.verdict.distinguishing_terms@,
            items_match(r.items@, *search, budget_tokens as nat),
            r.delivery_report matches Some(d) && report_matches(
                d,
                search.hits@,
                final_state(*search, budget_tokens as nat),
                search.verdict.distinguishing_terms@.map_values(|s: String| s@),
            ),
            r.uncertainties@.map_values(|u: Uncertainty| u.message@) == uncertainty_messages(
                *search,
            ),
            forall|k: int|
                0 <= k < r.uncertainties@.len() ==> uncertainty_shape(
                    #[trigger] r.uncertainties@[k],
                    k < search.missing_capabilities@.len(),
                ),
            r.missing_capabilities@ == search.missing_capabilities@,
    {
        let (ledger, fits) = run_passes(search, budget_tokens);
        let report = delivery_report(
            &search.hits,
            &ledger,
            &search.verdict.distinguishing_terms,
            Ghost(search.request.snapshot_id@),
            Ghost(budget_tokens as nat),
        );
        let uncertainties = uncertainties_of(search);
        let used_tokens = ledger.used;
        ContextPack {
            repository_id: copy_string(&search.request.repository_id),
            snapshot_id: copy_string(&search.request.snapshot_id),
            query: copy_string(&search.request.query),
            intent: search.plan.intent,
            plan_routes: copy_routes(&search.plan.routes),
            graph_policy: Some(search.plan.graph_policy),
            budget_tokens,
            used_tokens,
            latency_ms: search.latency_ms,
            search_latency_ms: Some(search.latency_ms),
            search_verdict: Some(search.verdict.duplicate()),
            delivery_report: Some(report),
            items: ledger.items,
            uncertainties,
            missing_capabilities: copy_strings(&search.missing_capabilities),
        }
    }
}


// ---- laws of the packer -----------------------------------------------------------

/// Source-range keys of the shipped hits that carry an address, in order.
pub open spec fn shipped_ranges(hits: Seq<SearchHit>, shipped: Seq<(int, ContextRole)>) -> Seq<
    (Seq<char>, u64, u64),
>
    decreases shipped.len(),
{
    if shipped.len() == 0 {
        Seq::empty()
    } else {
        let prev = shipped_ranges(hits, shipped.drop_last());
        match hits[shipped.last().0].address {
            Some(a) => prev.push(range_key(a)),
            None => prev,
        }
    }
}

/// No element occurs twice.
pub open spec fn distinct<T>(s: Seq<T>) -> bool {
    forall|a: int, b: int| 0 <= a < b < s.len() ==> s[a] != s[b]
}

/// The ledger's bookkeeping agrees with what shipped, and the dedup and
/// per-file rules hold of it.
pub open spec fn ledger_consistent(st: PackState, hits: Seq<SearchHit>) -> bool {
    &&& forall|k: int| 0 <= k < st.shipped.len() ==> 0 <= (#[trigger] st.shipped[k]).0 < hits.len()
    &&& st.taken == shipped_ids(hits, st.shipped)
    &&& st.ranges == shipped_ranges(hits, st.shipped)
    &&& distinct(st.ranges)
    &&& distinct(st.taken)
    &&& forall|p: Seq<char>| #[trigger] path_count(st.ranges, p) <= 4
}

proof fn lemma_first_untaken_props(
    hits: Seq<SearchHit>,
    role: ContextRole,
    taken: Seq<Seq<char>>,
    n: int,
)
    requires
        n <= hits.len(),
    ensures
        first_untaken(hits, role, taken, n) matches Some(i) ==> 0 <= i < n && !taken.contains(
            hits[i].document_id@,
        ) && role_spec(hits[i]) == role,
    decreases n,
{
    if n > 0 {
        lemma_first_untaken_props(hits, role, taken, n - 1);
    }
}

proof fn lemma_step_consistent(
    st: PackState,
    hits: Seq<SearchHit>,
    i: int,
    role: ContextRole,
    budget: nat,
)
    requires
        ledger_consistent(st, hits),
        0 <= i < hits.len(),
        !st.taken.contains(hits[i].document_id@),
    ensures
        ledger_consistent(step(st, hits, i, role, budget), hits),
{
    let next = step(st, hits, i, role, budget);
    if admission(st, hits[i], budget) is None {
        let hit = hits[i];
        assert(next.shipped.drop_last() =~= st.shipped);
        assert(next.taken =~= shipped_ids(hits, next.shipped));
        assert(next.ranges == shipped_ranges(hits, next.shipped));
        assert forall|p: Seq<char>| #[trigger] path_count(next.ranges, p) <= 4 by {
            assert(path_count(st.ranges, p) <= 4);
            if hit.address is Some {
                let a = hit.address->0;
                assert(next.ranges.drop_last() =~= st.ranges);
                assert(path_count(st.ranges, a.path@) < 4);
                assert(path_count(next.ranges, p) == path_count(st.ranges, p) + if a.path@ == p {
                    1nat
                } else {
                    0nat
                });
            }
        }
        assert(distinct(next.taken)) by {
            assert forall|a: int, b: int| 0 <= a < b < next.taken.len() implies next.taken[a]
                != next.taken[b] by {
                if b == next.taken.len() - 1 {
                    assert(st.taken[a] == next.taken[a]);
                }
            }
        }
        assert(distinct(next.ranges)) by {
            if hit.address is Some {
                assert forall|a: int, b: int| 0 <= a < b < next.ranges.len() implies next.ranges[a]
                    != next.ranges[b] by {
                    if b == next.ranges.len() - 1 {
                        assert(st.ranges[a] == next.ranges[a]);
                    }
                }
            }
        }
    }
}

proof fn lemma_preselect_consistent(hits: Seq<SearchHit>, budget: nat, st: PackState, k: nat)
    requires
        ledger_consistent(st, hits),
        k <= 6,
    ensures
        ledger_consistent(preselect(hits, budget, st, k), hits),
    decreases k,
{
    if k > 0 {
        lemma_preselect_consistent(hits, budget, st, (k - 1) as nat);
        let prev = preselect(hits, budget, st, (k - 1) as nat);
        let role = quota_roles()[k - 1];
        lemma_first_untaken_props(hits, role, prev.taken, hits.len() as int);
        match first_untaken(hits, role, prev.taken, hits.len() as int) {
            Some(i) => lemma_step_consistent(prev, hits, i, role, budget),
            None => {},
        }
    }
}

proof fn lemma_fill_consistent(hits: Seq<SearchHit>, budget: nat, st: PackState, n: nat)
    requires
        ledger_consistent(st, hits),
        n <= hits.len(),
    ensures
        ledger_consistent(fill(hits, budget, st, n), hits),
    decreases n,
{
    if n > 0 {
        lemma_fill_consistent(hits, budget, st, (n - 1) as nat);
        let prev = fill(hits, budget, st, (n - 1) as nat);
        if !prev.taken.contains(hits[n - 1].document_id@) {
            lemma_step_consistent(prev, hits, n - 1, role_spec(hits[n - 1]), budget);
        }
    }
}

/// Packing never ships one source range twice, never ships more than four
/// ranges of one file, and never ships one document twice; its bookkeeping
/// of taken documents is exactly the shipped items' ids.
pub proof fn law_pack_dedup(search: SearchResult, budget: nat)
    ensures
        ({
            let st = final_state(search, budget);
            &&& distinct(shipped_ranges(search.hits@, st.shipped))
            &&& forall|p: Seq<char>| #[trigger]
                path_count(shipped_ranges(search.hits@, st.shipped), p) <= 4
            &&& distinct(shipped_ids(search.hits@, st.shipped))
            &&& st.taken == shipped_ids(search.hits@, st.shipped)
        }),
{
    let hits = search.hits@;
    let init = initial_state(search, budget);
    assert(shipped_ids(hits, init.shipped) =~= init.taken);
    assert(shipped_ranges(hits, init.shipped) =~= init.ranges);
    assert forall|p: Seq<char>| #[trigger] path_count(init.ranges, p) <= 4 by {}
    lemma_preselect_consistent(hits, budget, init, 6);
    lemma_fill_consistent(hits, budget, preselect(hits, budget, init, 6), hits.len() as nat);
}

/// A refused attempt consumes nothing: ranges, per-file counts, entities,
/// taken documents, tokens and shipped items are unchanged, and only the
/// refusal is recorded.
pub proof fn law_refusal_consumes_nothing(
    st: PackState,
    hits: Seq<SearchHit>,
    i: int,
    role: ContextRole,
    budget: nat,
)
    requires
        0 <= i < hits.len(),
        admission(st, hits[i], budget) is Some,
    ensures
        ({
            let next = step(st, hits, i, role, budget);
            &&& next.ranges == st.ranges
            &&& next.entities == st.entities
            &&& next.taken == st.taken
            &&& next.used == st.used
            &&& next.shipped == st.shipped
            &&& next.rejections == st.rejections.push(
                (hits[i].document_id@, admission(st, hits[i], budget)->0),
            )
        }),
{
}

/// Every estimate is at least one token.
pub proof fn lemma_estimate_positive(s: Seq<char>)
    ensures
        estimate(s) >= 1,
{
}

proof fn lemma_zero_budget_steps(hits: Seq<SearchHit>, st: PackState, k: nat, n: nat)
    requires
        st.used == 0,
        st.shipped.len() == 0,
        k <= 6,
    ensures
        preselect(hits, 0, st, k).used == 0,
        preselect(hits, 0, st, k).shipped.len() == 0,
        fill(hits, 0, st, n).used == 0,
        fill(hits, 0, st, n).shipped.len() == 0,
    decreases k + n,
{
    if k > 0 {
        lemma_zero_budget_steps(hits, st, (k - 1) as nat, n);
        let prev = preselect(hits, 0, st, (k - 1) as nat);
        let role = quota_roles()[k - 1];
        match first_untaken(hits, role, prev.taken, hits.len() as int) {
            Some(i) => {
                lemma_estimate_positive(body_of(hits[i]));
            },
            None => {},
        }
    }
    if n > 0 {
        lemma_zero_budget_steps(hits, st, k, (n - 1) as nat);
        lemma_estimate_positive(body_of(hits[n - 1]));
    }
}

/// With a zero budget nothing ships, not even the orientation, and no
/// token is used.
pub proof fn law_zero_budget_ships_nothing(search: SearchResult)
    ensures
        !orientation_fits(search, 0),
        final_state(search, 0).shipped.len() == 0,
        final_state(search, 0).used == 0,
{
    let hits = search.hits@;
    lemma_estimate_positive(orientation_text(search));
    let init = initial_state(search, 0);
    lemma_zero_budget_steps(hits, init, 6, 0);
    let pre = preselect(hits, 0, init, 6);
    lemma_zero_budget_steps(hits, pre, 0, hits.len() as nat);
}

/// The reason reported for an omitted document.
pub open spec fn reported_reason(st: PackState, d: Seq<char>) -> OmissionReason {
    match last_reason(st.rejections, d) {
        Some(r) => r,
        None => OmissionReason::Budget,
    }
}

proof fn lemma_omitted_covers(hits: Seq<SearchHit>, st: PackState, n: nat)
    requires
        n <= hits.len(),
    ensures
        forall|i: int|
            0 <= i < n ==> st.taken.contains(#[trigger] hits[i].document_id@) || omitted_upto(
                hits,
                st,
                n,
            ).contains((hits[i].document_id@, reported_reason(st, hits[i].document_id@))),
    decreases n,
{
    if n > 0 {
        lemma_omitted_covers(hits, st, (n - 1) as nat);
        let prev = omitted_upto(hits, st, (n - 1) as nat);
        assert forall|i: int| 0 <= i < n implies st.taken.contains(
            #[trigger] hits[i].document_id@,
        ) || omitted_upto(hits, st, n).contains(
            (hits[i].document_id@, reported_reason(st, hits[i].document_id@)),
        ) by {
            if i < n - 1 && !st.taken.contains(hits[i].document_id@) {
                let e = (hits[i].document_id@, reported_reason(st, hits[i].document_id@));
                assert(prev.contains(e));
                let j = choose|j: int| 0 <= j < prev.len() && prev[j] == e;
                if !st.taken.contains(hits[n - 1].document_id@) {
                    assert(omitted_upto(hits, st, n)[j] == e);
                }
            } else if i == n - 1 && !st.taken.contains(hits[i].document_id@) {
                assert(omitted_upto(hits, st, n).last() == (
                    hits[i].document_id@,
                    reported_reason(st, hits[i].document_id@),
                ));
            }
        }
    }
}

/// Every retrieved hit is accounted for: its document shipped as an item,
/// or the delivery report lists it as omitted with its last refusal.
pub proof fn law_every_hit_accounted(search: SearchResult, budget: nat)
    ensures
        ({
            let st = final_state(search, budget);
            let hits = search.hits@;
            forall|i: int|
                0 <= i < hits.len() ==> shipped_ids(hits, st.shipped).contains(
                    #[trigger] hits[i].document_id@,
                ) || omitted_upto(hits, st, hits.len() as nat).contains(
                    (hits[i].document_id@, reported_reason(st, hits[i].document_id@)),
                )
        }),
{
    law_pack_dedup(search, budget);
    let st = final_state(search, budget);
    lemma_omitted_covers(search.hits@, st, search.hits@.len() as nat);
}

} // verus!
