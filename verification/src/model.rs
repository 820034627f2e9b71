//! The vocabulary shared by planning, search and packing: query intents,
//! retrieval routes, graph-expansion policies and index views.

use vstd::prelude::*;

verus! {

/// What a query asks for.
#[derive(Clone, Copy, Debug, PartialEq, Eq, Structural)]
pub enum QueryIntent {
    ExactEntity,
    NaturalLanguageBehavior,
    IssueLocalization,
    Trace,
    Impact,
    Architecture,
    History,
    PreciseDataflow,
    Unknown,
}

/// A retrieval channel.
#[derive(Clone, Copy, Debug, PartialEq, Eq, Structural)]
pub enum SearchRoute {
    ExactSymbol,
    Lexical,
    DenseRaw,
    DenseSummary,
    Hybrid,
    Structure,
    Knowledge,
    History,
    Diff,
}

/// How far results may be expanded along the relation graph.
#[derive(Clone, Copy, Debug, PartialEq, Eq, Structural)]
pub enum GraphPolicy {
    Disabled,
    Opportunistic,
    IncomingImpact,
    OutgoingTrace,
    ArchitectureBoundary,
    DataflowRequired,
}

/// An index view whose readiness a plan can depend on.
#[derive(Clone, Copy, Debug, PartialEq, Eq, Structural)]
pub enum ViewKind {
    Source,
    Lexical,
    Symbols,
    Dense,
    Graph,
    Knowledge,
    History,
    Dataflow,
    Zoekt,
}

/// Debug spelling of an intent.
pub open spec fn intent_label(i: QueryIntent) -> Seq<char> {
    match i {
        QueryIntent::ExactEntity => "ExactEntity"@,
        QueryIntent::NaturalLanguageBehavior => "NaturalLanguageBehavior"@,
        QueryIntent::IssueLocalization => "IssueLocalization"@,
        QueryIntent::Trace => "Trace"@,
        QueryIntent::Impact => "Impact"@,
        QueryIntent::Architecture => "Architecture"@,
        QueryIntent::History => "History"@,
        QueryIntent::PreciseDataflow => "PreciseDataflow"@,
        QueryIntent::Unknown => "Unknown"@,
    }
}

/// Debug spelling of a route.
pub open spec fn route_label(r: SearchRoute) -> Seq<char> {
    match r {
        SearchRoute::ExactSymbol => "ExactSymbol"@,
        SearchRoute::Lexical => "Lexical"@,
        SearchRoute::DenseRaw => "DenseRaw"@,
        SearchRoute::DenseSummary => "DenseSummary"@,
        SearchRoute::Hybrid => "Hybrid"@,
        SearchRoute::Structure => "Structural"@,
        SearchRoute::Knowledge => "Knowledge"@,
        SearchRoute::History => "History"@,
        SearchRoute::Diff => "Diff"@,
    }
}

/// Display spelling of a view kind.
pub open spec fn view_label(v: ViewKind) -> Seq<char> {
    match v {
        ViewKind::Source => "source"@,
        ViewKind::Lexical => "lexical"@,
        ViewKind::Symbols => "symbols"@,
        ViewKind::Dense => "dense"@,
        ViewKind::Graph => "graph"@,
        ViewKind::Knowledge => "knowledge"@,
        ViewKind::History => "history"@,
        ViewKind::Dataflow => "dataflow"@,
        ViewKind::Zoekt => "zoekt"@,
    }
}

/// The Debug spelling of `intent`.
pub fn intent_name(intent: QueryIntent) -> (r: &'static str)
    ensures
        r@ == intent_label(intent),
{
    match intent {
        QueryIntent::ExactEntity => "ExactEntity",
        QueryIntent::NaturalLanguageBehavior => "NaturalLanguageBehavior",
        QueryIntent::IssueLocalization => "IssueLocalization",
        QueryIntent::Trace => "Trace",
        QueryIntent::Impact => "Impact",
        QueryIntent::Architecture => "Architecture",
        QueryIntent::History => "History",
        QueryIntent::PreciseDataflow => "PreciseDataflow",
        QueryIntent::Unknown => "Unknown",
    }
}

/// The Debug spelling of `route`.
pub fn route_name(route: SearchRoute) -> (r: &'static str)
    ensures
        r@ == route_label(route),
{
    match route {
        SearchRoute::ExactSymbol => "ExactSymbol",
        SearchRoute::Lexical => "Lexical",
        SearchRoute::DenseRaw => "DenseRaw",
        SearchRoute::DenseSummary => "DenseSummary",
        SearchRoute::Hybrid => "Hybrid",
        SearchRoute::Structure => "Structural",
        SearchRoute::Knowledge => "Knowledge",
        SearchRoute::History => "History",
        SearchRoute::Diff => "Diff",
    }
}

/// The Display spelling of `view`.
pub fn view_name(view: ViewKind) -> (r: &'static str)
    ensures
        r@ == view_label(view),
{
    match view {
        ViewKind::Source => "source",
        ViewKind::Lexical => "lexical",
        ViewKind::Symbols => "symbols",
        ViewKind::Dense => "dense",
        ViewKind::Graph => "graph",
        ViewKind::Knowledge => "knowledge",
        ViewKind::History => "history",
        ViewKind::Dataflow => "dataflow",
        ViewKind::Zoekt => "zoekt",
    }
}

} // verus!
