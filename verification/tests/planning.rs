use cce_engine::model::{GraphPolicy, QueryIntent, SearchRoute};
use cce_engine::planner::QueryPlanner;

#[test]
fn inferred_intent_labels_without_routing() {
    let plan = QueryPlanner::new().plan("改 Attempt.status 会影响哪些 UI？", None);
    assert_eq!(plan.intent, QueryIntent::Impact);
    assert_eq!(plan.graph_policy, GraphPolicy::Disabled);
    assert!(plan.routes.contains(&SearchRoute::Lexical));
    assert!(!plan.routes.contains(&SearchRoute::Structure));
}

#[test]
fn explicit_impact_keeps_incoming_expansion() {
    let plan = QueryPlanner::new().plan("改 Attempt.status 会影响哪些 UI？", Some(QueryIntent::Impact));
    assert_eq!(plan.graph_policy, GraphPolicy::IncomingImpact);
    assert!(plan.routes.contains(&SearchRoute::Structure));
}

#[test]
fn issue_localization_shares_behavior_plan() {
    let issue = QueryPlanner::new().plan("search fails", Some(QueryIntent::IssueLocalization));
    let behavior =
        QueryPlanner::new().plan("search fails", Some(QueryIntent::NaturalLanguageBehavior));
    assert_eq!(issue.routes, behavior.routes);
    assert_eq!(issue.graph_policy, GraphPolicy::Disabled);
}

#[test]
fn routes_plain_behavior_without_graph() {
    let plan = QueryPlanner::new().plan("用户退出之后消息仍然恢复", None);
    assert_eq!(plan.graph_policy, GraphPolicy::Disabled);
}

#[test]
fn natural_language_where_is_not_exact_entity() {
    let plan = QueryPlanner::new().plan("where is snapshot freshness decided?", None);
    assert_eq!(plan.intent, QueryIntent::NaturalLanguageBehavior);
}

#[test]
fn where_is_with_identifier_is_exact_entity() {
    let plan = QueryPlanner::new().plan("where is SnapshotIdentity defined?", None);
    assert_eq!(plan.intent, QueryIntent::ExactEntity);
    let plan = QueryPlanner::new().plan("MetadataStore::commit_snapshot", None);
    assert_eq!(plan.intent, QueryIntent::ExactEntity);
    let plan = QueryPlanner::new().plan("engine.rs", None);
    assert_eq!(plan.intent, QueryIntent::ExactEntity);
}

#[test]
fn inflected_breaks_if_is_impact() {
    let plan = QueryPlanner::new().plan(
        "What breaks if ContextPack stops carrying snapshot identity?",
        None,
    );
    assert_eq!(plan.intent, QueryIntent::Impact);
    let plan = QueryPlanner::new().plan("how does the line break rendering work", None);
    assert_eq!(plan.intent, QueryIntent::NaturalLanguageBehavior);
}

#[test]
fn bare_why_probe_is_behavior_not_history() {
    let plan = QueryPlanner::new().plan("为什么函数调用关系的置信度低于导入关系", None);
    assert_eq!(plan.intent, QueryIntent::NaturalLanguageBehavior);
    let plan =
        QueryPlanner::new().plan("why is call confidence lower than import confidence", None);
    assert_eq!(plan.intent, QueryIntent::NaturalLanguageBehavior);
}

#[test]
fn why_with_change_anchor_is_history() {
    let plan = QueryPlanner::new().plan("why was the quarantine path added?", None);
    assert_eq!(plan.intent, QueryIntent::History);
    let plan = QueryPlanner::new().plan("为什么引入 quarantine 路径", None);
    assert_eq!(plan.intent, QueryIntent::History);
}

// ---- further cases -----------------------------------------------------------

#[test]
fn guessed_intent_is_recorded_but_union_plan_runs() {
    let guessed = QueryPlanner::new().plan("why was the quarantine path added?", None);
    let other = QueryPlanner::new().plan("where is snapshot freshness decided?", None);
    assert_eq!(guessed.routes, other.routes);
    assert_eq!(guessed.graph_policy, GraphPolicy::Disabled);
    assert!(guessed.reasons.iter().any(|r| r.contains("History")));
}

#[test]
fn explicit_trace_uses_outgoing_expansion() {
    let plan = QueryPlanner::new().plan("how is a request routed", Some(QueryIntent::Trace));
    assert_eq!(plan.intent, QueryIntent::Trace);
    assert_eq!(plan.graph_policy, GraphPolicy::OutgoingTrace);
}

#[test]
fn explicit_dataflow_requires_dataflow_policy() {
    let plan = QueryPlanner::new().plan("where does input flow", Some(QueryIntent::PreciseDataflow));
    assert_eq!(plan.graph_policy, GraphPolicy::DataflowRequired);
}
