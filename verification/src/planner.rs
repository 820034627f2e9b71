//! Deterministic query planner: text → `QueryPlan`. Heuristics only label
//! intent; they never silently narrow routes.

use vstd::prelude::*;
use crate::model::{GraphPolicy, QueryIntent, SearchRoute, ViewKind, intent_label, intent_name};
use crate::text::{
    Separator, chars_of, contains_char, contains_str, contains_seq, has_char, is_ascii_alnum,
    is_lowercase, is_uppercase, last_index_of, lower, lower_all, owned, push_str, rfind_char,
    split, split_on, string_of, unicode_lowercase, unicode_uppercase, ascii_alnum,
};

verus! {

/// The planner's output: which routes to run, how much graph expansion is
/// allowed, which views are required, and why.
#[derive(Debug, Clone, PartialEq, Eq)]
pub struct QueryPlan {
    /// Classified intent (caller-supplied wins over guessing).
    pub intent: QueryIntent,
    /// Retrieval routes to execute.
    pub routes: Vec<SearchRoute>,
    /// Graph expansion policy.
    pub graph_policy: GraphPolicy,
    /// Views that must be Ready for the plan to be satisfiable.
    pub required_views: Vec<ViewKind>,
    /// Human-readable rationale for the plan.
    pub reasons: Vec<String>,
}

/// A plan as mathematical values.
pub struct PlanSpec {
    pub intent: QueryIntent,
    pub routes: Seq<SearchRoute>,
    pub graph_policy: GraphPolicy,
    pub required_views: Seq<ViewKind>,
    pub reasons: Seq<Seq<char>>,
}

impl QueryPlan {
    /// The plan's mathematical content.
    pub open spec fn spec(&self) -> PlanSpec {
        PlanSpec {
            intent: self.intent,
            routes: self.routes@,
            graph_policy: self.graph_policy,
            required_views: self.required_views@,
            reasons: self.reasons@.map_values(|r: String| r@),
        }
    }
}

/// Deterministic query planner.
#[derive(Debug, Clone, Copy, Default)]
pub struct QueryPlanner;

// ---- specification -------------------------------------------------------

/// Word tokens of `q`: maximal runs of alphanumerics and `_`.
pub open spec fn word_tokens(q: Seq<char>) -> Seq<Seq<char>> {
    split_on(q, Separator::NonWord)
}

/// `w` is one of the word tokens of `q` (whole-word match).
pub open spec fn has_word(q: Seq<char>, w: Seq<char>) -> bool {
    exists|i: int| 0 <= i < word_tokens(q).len() && word_tokens(q)[i] == w
}

/// Some word of `words` is a whole word of `q`.
pub open spec fn has_any_word_spec(q: Seq<char>, words: Seq<Seq<char>>) -> bool {
    exists|j: int| 0 <= j < words.len() && has_word(q, words[j])
}

/// Some needle occurs in `v`.
pub open spec fn contains_any_spec(v: Seq<char>, needles: Seq<Seq<char>>) -> bool {
    exists|j: int| 0 <= j < needles.len() && contains_seq(v, needles[j])
}

/// `name.ext` shape: a non-empty stem before the last `.`, and an
/// extension of one to five ASCII letters or digits after it.
pub open spec fn file_shaped(t: Seq<char>) -> bool {
    match last_index_of(t, '.') {
        Some(i) => {
            let ext = t.skip(i + 1);
            &&& i > 0
            &&& 0 < ext.len() <= 5
            &&& forall|k: int| 0 <= k < ext.len() ==> ascii_alnum(#[trigger] ext[k])
        },
        None => false,
    }
}

/// A token shaped like code rather than prose: contains `_` or `::`, has a
/// lower→upper transition (camelCase), or looks like `name.ext`.
pub open spec fn code_shaped(t: Seq<char>) -> bool {
    ||| has_char(t, '_')
    ||| contains_seq(t, "::"@)
    ||| exists|i: int| 1 <= i < t.len() && unicode_lowercase(t[i - 1]) && unicode_uppercase(t[i])
    ||| file_shaped(t)
}

/// Number of non-empty pieces.
pub open spec fn count_nonempty(ps: Seq<Seq<char>>) -> nat
    decreases ps.len(),
{
    if ps.len() == 0 {
        0
    } else {
        count_nonempty(ps.drop_last()) + if ps.last().len() > 0 { 1nat } else { 0nat }
    }
}

/// Number of code-shaped pieces.
pub open spec fn count_code(ps: Seq<Seq<char>>) -> nat
    decreases ps.len(),
{
    if ps.len() == 0 {
        0
    } else {
        count_code(ps.drop_last()) + if code_shaped(ps.last()) { 1nat } else { 0nat }
    }
}

/// Exact-entity routing: code-shaped tokens make up at least half of the
/// white-space separated tokens, or at least one is code-shaped and the
/// query asks where something is defined or referenced.
pub open spec fn exact_entity(original: Seq<char>, query: Seq<char>) -> bool {
    let pieces = split_on(original, Separator::Whitespace);
    let n = count_nonempty(pieces);
    let code = count_code(pieces);
    &&& n > 0
    &&& {
        ||| code * 2 >= n
        ||| (code > 0 && (has_any_word_spec(
            query,
            seq!["defined"@, "definition"@, "references"@, "implemented"@, "decided"@],
        ) || contains_any_spec(
            query,
            seq!["where is"@, "在哪定义"@, "谁引用"@, "在哪里"@, "定义"@, "引用"@],
        )))
    }
}

/// Keyword classification of a query; `query` is the ASCII-lower-cased
/// form of `original`.
pub open spec fn classify_spec(original: Seq<char>, query: Seq<char>) -> QueryIntent {
    if has_any_word_spec(query, seq!["taint"@, "taints"@]) || contains_any_spec(
        query,
        seq!["source to sink"@, "source→sink"@, "污点"@, "用户输入"@, "shell 参数"@],
    ) {
        QueryIntent::PreciseDataflow
    } else if has_any_word_spec(
        query,
        seq!["history"@, "commit"@, "commits"@, "committed"@, "blame"@],
    ) || contains_any_spec(query, seq!["历史"@, "什么时候改"@, "何时改"@, "谁改"@, "提交"@])
        || (has_any_word_spec(query, seq!["why"@]) && has_any_word_spec(
        query,
        seq![
            "added"@,
            "changed"@,
            "introduced"@,
            "removed"@,
            "deprecated"@,
            "renamed"@,
            "deleted"@,
            "modified"@,
            "reverted"@,
        ],
    )) || (contains_any_spec(query, seq!["为什么"@, "为何"@]) && contains_any_spec(
        query,
        seq!["修改"@, "改动"@, "引入"@, "添加"@, "删除"@, "重命名"@, "弃用"@],
    )) {
        QueryIntent::History
    } else if has_any_word_spec(query, seq!["impact"@, "affected"@]) || (has_any_word_spec(
        query,
        seq!["break"@, "breaks"@],
    ) && has_any_word_spec(query, seq!["if"@, "when"@])) || contains_any_spec(
        query,
        seq!["影响"@, "会破坏"@, "哪些地方会"@],
    ) {
        QueryIntent::Impact
    } else if has_any_word_spec(query, seq!["trace"@, "traces"@, "lifecycle"@])
        || contains_any_spec(
        query,
        seq!["data movement"@, "调用链"@, "链路"@, "流向"@, "生命周期"@],
    ) {
        QueryIntent::Trace
    } else if has_any_word_spec(
        query,
        seq!["architecture"@, "subsystem"@, "boundary"@, "responsibility"@],
    ) || contains_any_spec(query, seq!["架构"@, "模块"@, "职责"@, "边界"@]) {
        QueryIntent::Architecture
    } else if has_any_word_spec(
        query,
        seq!["bug"@, "fail"@, "fails"@, "failure"@, "error"@, "broken"@, "occasionally"@],
    ) || contains_any_spec(query, seq!["错误"@, "失败"@, "偶发"@, "不生效"@]) {
        QueryIntent::IssueLocalization
    } else if exact_entity(original, query) {
        QueryIntent::ExactEntity
    } else {
        QueryIntent::NaturalLanguageBehavior
    }
}

/// Routes of the conservative union plan.
pub open spec fn union_routes() -> Seq<SearchRoute> {
    seq![
        SearchRoute::ExactSymbol,
        SearchRoute::Lexical,
        SearchRoute::DenseRaw,
        SearchRoute::DenseSummary,
        SearchRoute::Hybrid,
        SearchRoute::Knowledge,
        SearchRoute::History,
    ]
}

/// Required views of the conservative union plan.
pub open spec fn union_views() -> Seq<ViewKind> {
    seq![ViewKind::Symbols, ViewKind::Lexical, ViewKind::Dense]
}

/// The union plan for `intent` with the given rationale.
pub open spec fn union_plan_spec(intent: QueryIntent, reasons: Seq<Seq<char>>) -> PlanSpec {
    PlanSpec {
        intent,
        routes: union_routes(),
        graph_policy: GraphPolicy::Disabled,
        required_views: union_views(),
        reasons,
    }
}

/// The plan for a caller-supplied intent.
pub open spec fn requested_plan(intent: QueryIntent) -> PlanSpec {
    match intent {
        QueryIntent::ExactEntity => PlanSpec {
            intent,
            routes: seq![SearchRoute::ExactSymbol, SearchRoute::Lexical],
            graph_policy: GraphPolicy::Disabled,
            required_views: seq![ViewKind::Symbols, ViewKind::Lexical],
            reasons: seq!["identifier-shaped or definition/reference query"@],
        },
        QueryIntent::NaturalLanguageBehavior | QueryIntent::IssueLocalization => PlanSpec {
            intent,
            routes: seq![
                SearchRoute::Lexical,
                SearchRoute::DenseRaw,
                SearchRoute::DenseSummary,
                SearchRoute::Hybrid,
            ],
            graph_policy: GraphPolicy::Disabled,
            required_views: seq![ViewKind::Lexical, ViewKind::Dense],
            reasons: seq![
                if intent == QueryIntent::IssueLocalization {
                    "issue localization shares the behavior plan; no reranker is configured"@
                } else {
                    "behavior query crosses natural-language and source-code vocabularies"@
                },
            ],
        },
        QueryIntent::Trace => PlanSpec {
            intent,
            routes: seq![
                SearchRoute::ExactSymbol,
                SearchRoute::Lexical,
                SearchRoute::DenseRaw,
                SearchRoute::Structure,
            ],
            graph_policy: GraphPolicy::OutgoingTrace,
            required_views: seq![ViewKind::Symbols, ViewKind::Lexical, ViewKind::Graph],
            reasons: seq!["trace query requires direction-preserving structural expansion"@],
        },
        QueryIntent::Impact => PlanSpec {
            intent,
            routes: seq![
                SearchRoute::ExactSymbol,
                SearchRoute::Lexical,
                SearchRoute::DenseRaw,
                SearchRoute::Structure,
            ],
            graph_policy: GraphPolicy::IncomingImpact,
            required_views: seq![ViewKind::Symbols, ViewKind::Lexical, ViewKind::Graph],
            reasons: seq!["impact query traverses incoming references and containment"@],
        },
        QueryIntent::Architecture => PlanSpec {
            intent,
            routes: seq![
                SearchRoute::Knowledge,
                SearchRoute::DenseSummary,
                SearchRoute::Structure,
                SearchRoute::Lexical,
            ],
            graph_policy: GraphPolicy::ArchitectureBoundary,
            required_views: seq![ViewKind::Knowledge, ViewKind::Graph, ViewKind::Lexical],
            reasons: seq![
                "architecture query needs hierarchy plus representative source evidence"@,
            ],
        },
        QueryIntent::History => PlanSpec {
            intent,
            routes: seq![SearchRoute::History, SearchRoute::Lexical, SearchRoute::DenseSummary],
            graph_policy: GraphPolicy::Disabled,
            required_views: seq![ViewKind::History, ViewKind::Lexical],
            reasons: seq!["why/history query must not infer rationale from current source alone"@],
        },
        QueryIntent::PreciseDataflow => PlanSpec {
            intent,
            routes: seq![SearchRoute::ExactSymbol, SearchRoute::Structure],
            graph_policy: GraphPolicy::DataflowRequired,
            required_views: seq![ViewKind::Dataflow, ViewKind::Symbols],
            reasons: seq!["precise dataflow requires an evidence-backed analysis view"@],
        },
        QueryIntent::Unknown => union_plan_spec(
            QueryIntent::Unknown,
            seq!["unknown intent uses conservative union recall without graph expansion"@],
        ),
    }
}

/// The full planning function.
pub open spec fn plan_spec(query: Seq<char>, requested: Option<QueryIntent>) -> PlanSpec {
    match requested {
        Some(intent) => requested_plan(intent),
        None => {
            let guessed = classify_spec(query, lower(query));
            union_plan_spec(
                guessed,
                seq![
                    "intent not supplied; conservative union recall without graph expansion"@,
                    "keyword classifier guessed "@ + intent_label(guessed)
                        + " (label only, not routed on)"@,
                ],
            )
        },
    }
}

// ---- implementation ------------------------------------------------------

/// Whether some token equals `w`.
fn has_token(tokens: &Vec<Vec<char>>, w: &str) -> (r: bool)
    ensures
        r == exists|i: int| 0 <= i < tokens@.len() && tokens@[i]@ == w@,
{
    let wv = chars_of(w);
    for i in 0..tokens.len()
        invariant
            wv@ == w@,
            forall|k: int| 0 <= k < i ==> tokens@[k]@ != w@,
    {
        if crate::text::eq_chars(&tokens[i], &wv) {
            return true;
        }
    }
    false
}

/// Whole-word keyword match: tokens are runs of alphanumerics plus `_`, so
/// `commit_snapshot` does not match the keyword `commit`.
pub fn has_any_word(query: &str, words: &[&str]) -> (r: bool)
    ensures
        r == has_any_word_spec(query@, words@.map_values(|w: &str| w@)),
{
    let tokens = split(&chars_of(query), Separator::NonWord);
    let ghost ws = words@.map_values(|w: &str| w@);
    for j in 0..words.len()
        invariant
            tokens@.len() == word_tokens(query@).len(),
            forall|k: int| 0 <= k < tokens@.len() ==> #[trigger] tokens@[k]@ == word_tokens(query@)[k],
            ws == words@.map_values(|w: &str| w@),
            forall|k: int| 0 <= k < j ==> !has_word(query@, #[trigger] ws[k]),
    {
        assert(ws[j as int] == words@[j as int]@);
        if has_token(&tokens, words[j]) {
            assert(has_word(query@, ws[j as int]));
            return true;
        }
        assert forall|i: int| 0 <= i < word_tokens(query@).len() implies word_tokens(query@)[i]
            != ws[j as int] by {
            assert(tokens@[i]@ == word_tokens(query@)[i]);
        }
    }
    false
}

/// Whether any needle occurs in `value`.
pub fn contains_any(value: &str, needles: &[&str]) -> (r: bool)
    ensures
        r == contains_any_spec(value@, needles@.map_values(|n: &str| n@)),
{
    let v = chars_of(value);
    let ghost ns = needles@.map_values(|n: &str| n@);
    for j in 0..needles.len()
        invariant
            v@ == value@,
            ns == needles@.map_values(|n: &str| n@),
            forall|k: int| 0 <= k < j ==> !contains_seq(value@, #[trigger] ns[k]),
    {
        assert(ns[j as int] == needles@[j as int]@);
        if contains_str(&v, needles[j]) {
            assert(contains_seq(value@, ns[j as int]));
            return true;
        }
    }
    false
}


/// Whether some word of `words` is one of `tokens`, which are the word
/// tokens of `q`.
fn any_token(tokens: &Vec<Vec<char>>, words: &[&str], Ghost(q): Ghost<Seq<char>>) -> (r: bool)
    requires
        tokens@.len() == word_tokens(q).len(),
        forall|k: int| 0 <= k < tokens@.len() ==> #[trigger] tokens@[k]@ == word_tokens(q)[k],
    ensures
        r == has_any_word_spec(q, words@.map_values(|w: &str| w@)),
{
    let ghost ws = words@.map_values(|w: &str| w@);
    for j in 0..words.len()
        invariant
            tokens@.len() == word_tokens(q).len(),
            forall|k: int| 0 <= k < tokens@.len() ==> #[trigger] tokens@[k]@ == word_tokens(q)[k],
            ws == words@.map_values(|w: &str| w@),
            forall|k: int| 0 <= k < j ==> !has_word(q, #[trigger] ws[k]),
    {
        assert(ws[j as int] == words@[j as int]@);
        if has_token(tokens, words[j]) {
            assert(has_word(q, ws[j as int]));
            return true;
        }
        assert forall|i: int| 0 <= i < word_tokens(q).len() implies word_tokens(q)[i]
            != ws[j as int] by {
            assert(tokens@[i]@ == word_tokens(q)[i]);
        }
    }
    false
}

/// Whether any needle occurs in `v`.
fn any_substring(v: &[char], needles: &[&str]) -> (r: bool)
    ensures
        r == contains_any_spec(v@, needles@.map_values(|n: &str| n@)),
{
    let ghost ns = needles@.map_values(|n: &str| n@);
    for j in 0..needles.len()
        invariant
            ns == needles@.map_values(|n: &str| n@),
            forall|k: int| 0 <= k < j ==> !contains_seq(v@, #[trigger] ns[k]),
    {
        assert(ns[j as int] == needles@[j as int]@);
        if contains_str(v, needles[j]) {
            assert(contains_seq(v@, ns[j as int]));
            return true;
        }
    }
    false
}

/// A token that looks like a code identifier or path rather than a natural
/// language word: contains `_`, `::`, an interior lower→upper transition
/// (camelCase), or a `name.ext` file shape.
pub fn looks_like_code(token: &str) -> (r: bool)
    ensures
        r == code_shaped(token@),
{
    let t = chars_of(token);
    code_shaped_chars(&t)
}

fn code_shaped_chars(t: &[char]) -> (r: bool)
    ensures
        r == code_shaped(t@),
{
    if contains_char(t, '_') || contains_str(t, "::") {
        return true;
    }
    let mut previous_lower = false;
    for i in 0..t.len()
        invariant
            !has_char(t@, '_'),
            !contains_seq(t@, "::"@),
            previous_lower == (i > 0 && unicode_lowercase(t@[i - 1])),
            forall|k: int| 1 <= k < i ==> !(unicode_lowercase(t@[k - 1]) && unicode_uppercase(t@[k])),
    {
        if previous_lower && is_uppercase(t[i]) {
            return true;
        }
        previous_lower = is_lowercase(t[i]);
    }
    match rfind_char(t, '.') {
        Some(i) => {
            if i == 0 {
                return false;
            }
            let ext_len = t.len() - (i + 1);
            if ext_len == 0 || ext_len > 5 {
                return false;
            }
            let ghost ext = t@.skip(i + 1);
            for k in i + 1..t.len()
                invariant
                    i + 1 <= t.len(),
                    ext == t@.skip(i + 1),
                    !has_char(t@, '_'),
                    !contains_seq(t@, "::"@),
                    forall|m: int| 1 <= m < t@.len() ==> !(unicode_lowercase(t@[m - 1]) && unicode_uppercase(t@[m])),
                    last_index_of(t@, '.') == Some(i as int),
                    forall|m: int| 0 <= m < k - (i + 1) ==> ascii_alnum(#[trigger] ext[m]),
            {
                if !is_ascii_alnum(t[k]) {
                    assert(ext[k - (i + 1)] == t@[k as int]);
                    assert(!ascii_alnum(ext[k - (i + 1)]));
                    return false;
                }
            }
            true
        },
        None => false,
    }
}

/// Counts of non-empty and code-shaped pieces.
fn count_tokens(pieces: &Vec<Vec<char>>, Ghost(ps): Ghost<Seq<Seq<char>>>) -> (r: (usize, usize))
    requires
        pieces@.len() == ps.len(),
        forall|k: int| 0 <= k < ps.len() ==> #[trigger] pieces@[k]@ == ps[k],
    ensures
        r.0 == count_nonempty(ps),
        r.1 == count_code(ps),
{
    let mut n: usize = 0;
    let mut code: usize = 0;
    for i in 0..pieces.len()
        invariant
            pieces@.len() == ps.len(),
            forall|k: int| 0 <= k < ps.len() ==> #[trigger] pieces@[k]@ == ps[k],
            n == count_nonempty(ps.take(i as int)),
            code == count_code(ps.take(i as int)),
            n <= i,
            code <= i,
    {
        assert(ps.take(i + 1).drop_last() =~= ps.take(i as int));
        assert(pieces@[i as int]@ == ps[i as int]);
        if pieces[i].len() > 0 {
            n = n + 1;
        }
        if code_shaped_chars(&pieces[i]) {
            code = code + 1;
        }
    }
    assert(ps.take(pieces.len() as int) =~= ps);
    (n, code)
}

/// Exact-entity routing requires code-shaped tokens (`snake_case`,
/// `CamelCase`, `::` paths, `file.ext`) — natural-language questions must
/// not be misrouted just because they are all alphanumeric words.
pub fn is_exact_entity_query(original: &str, query: &str) -> (r: bool)
    ensures
        r == exact_entity(original@, query@),
{
    let o = chars_of(original);
    let q = chars_of(query);
    let tokens = split(&q, Separator::NonWord);
    exact_entity_chars(&o, &q, &tokens)
}

fn exact_entity_chars(o: &[char], q: &[char], tokens: &Vec<Vec<char>>) -> (r: bool)
    requires
        tokens@.len() == word_tokens(q@).len(),
        forall|k: int| 0 <= k < tokens@.len() ==> #[trigger] tokens@[k]@ == word_tokens(q@)[k],
    ensures
        r == exact_entity(o@, q@),
{
    let pieces = split(o, Separator::Whitespace);
    let (n, code) = count_tokens(&pieces, Ghost(split_on(o@, Separator::Whitespace)));
    if n == 0 {
        return false;
    }
    if code as u128 * 2 >= n as u128 {
        return true;
    }
    let words = ["defined", "definition", "references", "implemented", "decided"];
    let phrases = ["where is", "在哪定义", "谁引用", "在哪里", "定义", "引用"];
    assert(words@.map_values(|w: &str| w@) =~= seq![
        "defined"@,
        "definition"@,
        "references"@,
        "implemented"@,
        "decided"@,
    ]);
    assert(phrases@.map_values(|w: &str| w@) =~= seq![
        "where is"@,
        "在哪定义"@,
        "谁引用"@,
        "在哪里"@,
        "定义"@,
        "引用"@,
    ]);
    code > 0 && (any_token(tokens, &words, Ghost(q@)) || any_substring(q, &phrases))
}


/// Keyword classification. Single ASCII keywords match on word boundaries
/// (so `commit_snapshot` does not trip "commit"); multiword phrases and
/// CJK terms match as substrings. `query` is the lower-cased `original`.
pub fn classify(original: &str, query: &str) -> (r: QueryIntent)
    ensures
        r == classify_spec(original@, query@),
{
    let o = chars_of(original);
    let q = chars_of(query);
    let t = split(&q, Separator::NonWord);
    let w1 = ["taint", "taints"];
    let p1 = ["source to sink", "source→sink", "污点", "用户输入", "shell 参数"];
    assert(w1@.map_values(|w: &str| w@) =~= seq!["taint"@, "taints"@]);
    assert(p1@.map_values(|w: &str| w@) =~= seq![
        "source to sink"@,
        "source→sink"@,
        "污点"@,
        "用户输入"@,
        "shell 参数"@,
    ]);
    if any_token(&t, &w1, Ghost(q@)) || any_substring(&q, &p1) {
        return QueryIntent::PreciseDataflow;
    }
    let w2 = ["history", "commit", "commits", "committed", "blame"];
    let p2 = ["历史", "什么时候改", "何时改", "谁改", "提交"];
    let w3 = ["why"];
    let w4 = [
        "added",
        "changed",
        "introduced",
        "removed",
        "deprecated",
        "renamed",
        "deleted",
        "modified",
        "reverted",
    ];
    let p3 = ["为什么", "为何"];
    let p4 = ["修改", "改动", "引入", "添加", "删除", "重命名", "弃用"];
    assert(w2@.map_values(|w: &str| w@) =~= seq![
        "history"@,
        "commit"@,
        "commits"@,
        "committed"@,
        "blame"@,
    ]);
    assert(p2@.map_values(|w: &str| w@) =~= seq!["历史"@, "什么时候改"@, "何时改"@, "谁改"@, "提交"@]);
    assert(w3@.map_values(|w: &str| w@) =~= seq!["why"@]);
    assert(w4@.map_values(|w: &str| w@) =~= seq![
        "added"@,
        "changed"@,
        "introduced"@,
        "removed"@,
        "deprecated"@,
        "renamed"@,
        "deleted"@,
        "modified"@,
        "reverted"@,
    ]);
    assert(p3@.map_values(|w: &str| w@) =~= seq!["为什么"@, "为何"@]);
    assert(p4@.map_values(|w: &str| w@) =~= seq![
        "修改"@,
        "改动"@,
        "引入"@,
        "添加"@,
        "删除"@,
        "重命名"@,
        "弃用"@,
    ]);
    if any_token(&t, &w2, Ghost(q@)) || any_substring(&q, &p2) || (any_token(&t, &w3, Ghost(q@))
        && any_token(&t, &w4, Ghost(q@))) || (any_substring(&q, &p3) && any_substring(&q, &p4)) {
        return QueryIntent::History;
    }
    let w5 = ["impact", "affected"];
    let w6 = ["break", "breaks"];
    let w7 = ["if", "when"];
    let p5 = ["影响", "会破坏", "哪些地方会"];
    assert(w5@.map_values(|w: &str| w@) =~= seq!["impact"@, "affected"@]);
    assert(w6@.map_values(|w: &str| w@) =~= seq!["break"@, "breaks"@]);
    assert(w7@.map_values(|w: &str| w@) =~= seq!["if"@, "when"@]);
    assert(p5@.map_values(|w: &str| w@) =~= seq!["影响"@, "会破坏"@, "哪些地方会"@]);
    if any_token(&t, &w5, Ghost(q@)) || (any_token(&t, &w6, Ghost(q@)) && any_token(
        &t,
        &w7,
        Ghost(q@),
    )) || any_substring(&q, &p5) {
        return QueryIntent::Impact;
    }
    let w8 = ["trace", "traces", "lifecycle"];
    let p6 = ["data movement", "调用链", "链路", "流向", "生命周期"];
    assert(w8@.map_values(|w: &str| w@) =~= seq!["trace"@, "traces"@, "lifecycle"@]);
    assert(p6@.map_values(|w: &str| w@) =~= seq![
        "data movement"@,
        "调用链"@,
        "链路"@,
        "流向"@,
        "生命周期"@,
    ]);
    if any_token(&t, &w8, Ghost(q@)) || any_substring(&q, &p6) {
        return QueryIntent::Trace;
    }
    let w9 = ["architecture", "subsystem", "boundary", "responsibility"];
    let p7 = ["架构", "模块", "职责", "边界"];
    assert(w9@.map_values(|w: &str| w@) =~= seq![
        "architecture"@,
        "subsystem"@,
        "boundary"@,
        "responsibility"@,
    ]);
    assert(p7@.map_values(|w: &str| w@) =~= seq!["架构"@, "模块"@, "职责"@, "边界"@]);
    if any_token(&t, &w9, Ghost(q@)) || any_substring(&q, &p7) {
        return QueryIntent::Architecture;
    }
    let w10 = ["bug", "fail", "fails", "failure", "error", "broken", "occasionally"];
    let p8 = ["错误", "失败", "偶发", "不生效"];
    assert(w10@.map_values(|w: &str| w@) =~= seq![
        "bug"@,
        "fail"@,
        "fails"@,
        "failure"@,
        "error"@,
        "broken"@,
        "occasionally"@,
    ]);
    assert(p8@.map_values(|w: &str| w@) =~= seq!["错误"@, "失败"@, "偶发"@, "不生效"@]);
    if any_token(&t, &w10, Ghost(q@)) || any_substring(&q, &p8) {
        return QueryIntent::IssueLocalization;
    }
    if exact_entity_chars(&o, &q, &t) {
        return QueryIntent::ExactEntity;
    }
    QueryIntent::NaturalLanguageBehavior
}

/// Assembles a plan from its parts.
fn make_plan(
    intent: QueryIntent,
    routes: Vec<SearchRoute>,
    graph_policy: GraphPolicy,
    required_views: Vec<ViewKind>,
    reasons: Vec<String>,
) -> (r: QueryPlan)
    ensures
        r.intent == intent,
        r.routes@ == routes@,
        r.graph_policy == graph_policy,
        r.required_views@ == required_views@,
        r.reasons@ == reasons@,
{
    QueryPlan { intent, routes, graph_policy, required_views, reasons }
}

/// Safe default: every cheap retrieval channel runs and reciprocal-rank
/// fusion sorts it out.
fn union_plan(intent: QueryIntent, reasons: Vec<String>) -> (r: QueryPlan)
    ensures
        r.spec() == union_plan_spec(intent, reasons@.map_values(|s: String| s@)),
{
    let plan = make_plan(
        intent,
        vec![
            SearchRoute::ExactSymbol,
            SearchRoute::Lexical,
            SearchRoute::DenseRaw,
            SearchRoute::DenseSummary,
            SearchRoute::Hybrid,
            SearchRoute::Knowledge,
            SearchRoute::History,
        ],
        GraphPolicy::Disabled,
        vec![ViewKind::Symbols, ViewKind::Lexical, ViewKind::Dense],
        reasons,
    );
    assert(plan.routes@ =~= union_routes());
    assert(plan.required_views@ =~= union_views());
    plan
}

/// One reason string.
fn one_reason(text: &str) -> (r: Vec<String>)
    ensures
        r@.map_values(|s: String| s@) == seq![text@],
{
    let r = vec![owned(text)];
    assert(r@.map_values(|s: String| s@) =~= seq![text@]);
    r
}

impl QueryPlanner {
    /// Create a planner.
    pub fn new() -> (r: Self) {
        QueryPlanner
    }

    /// Plan routes and graph policy for a query. A supplied intent selects
    /// its plan; without one the keyword guess is recorded as a label and
    /// the conservative union plan runs.
    pub fn plan(&self, query: &str, requested_intent: Option<QueryIntent>) -> (r: QueryPlan)
        ensures
            r.spec() == plan_spec(query@, requested_intent),
    {
        match requested_intent {
            None => {
                let normalized = string_of(&lower_all(&chars_of(query)));
                let guessed = classify(query, normalized.as_str());
                let mut second: Vec<char> = Vec::new();
                push_str(&mut second, "keyword classifier guessed ");
                push_str(&mut second, intent_name(guessed));
                push_str(&mut second, " (label only, not routed on)");
                let reasons = vec![
                    owned("intent not supplied; conservative union recall without graph expansion"),
                    string_of(&second),
                ];
                assert(reasons@.map_values(|s: String| s@) =~= seq![
                    "intent not supplied; conservative union recall without graph expansion"@,
                    "keyword classifier guessed "@ + intent_label(guessed)
                        + " (label only, not routed on)"@,
                ]);
                union_plan(guessed, reasons)
            },
            Some(intent) => {
                let plan = match intent {
                    QueryIntent::ExactEntity => make_plan(
                        intent,
                        vec![SearchRoute::ExactSymbol, SearchRoute::Lexical],
                        GraphPolicy::Disabled,
                        vec![ViewKind::Symbols, ViewKind::Lexical],
                        one_reason("identifier-shaped or definition/reference query"),
                    ),
                    QueryIntent::NaturalLanguageBehavior | QueryIntent::IssueLocalization => {
                        let text = match intent {
                            QueryIntent::IssueLocalization => "issue localization shares the behavior plan; no reranker is configured",
                            _ => "behavior query crosses natural-language and source-code vocabularies",
                        };
                        make_plan(
                            intent,
                            vec![
                                SearchRoute::Lexical,
                                SearchRoute::DenseRaw,
                                SearchRoute::DenseSummary,
                                SearchRoute::Hybrid,
                            ],
                            GraphPolicy::Disabled,
                            vec![ViewKind::Lexical, ViewKind::Dense],
                            one_reason(text),
                        )
                    },
                    QueryIntent::Trace => make_plan(
                        intent,
                        vec![
                            SearchRoute::ExactSymbol,
                            SearchRoute::Lexical,
                            SearchRoute::DenseRaw,
                            SearchRoute::Structure,
                        ],
                        GraphPolicy::OutgoingTrace,
                        vec![ViewKind::Symbols, ViewKind::Lexical, ViewKind::Graph],
                        one_reason("trace query requires direction-preserving structural expansion"),
                    ),
                    QueryIntent::Impact => make_plan(
                        intent,
                        vec![
                            SearchRoute::ExactSymbol,
                            SearchRoute::Lexical,
                            SearchRoute::DenseRaw,
                            SearchRoute::Structure,
                        ],
                        GraphPolicy::IncomingImpact,
                        vec![ViewKind::Symbols, ViewKind::Lexical, ViewKind::Graph],
                        one_reason("impact query traverses incoming references and containment"),
                    ),
                    QueryIntent::Architecture => make_plan(
                        intent,
                        vec![
                            SearchRoute::Knowledge,
                            SearchRoute::DenseSummary,
                            SearchRoute::Structure,
                            SearchRoute::Lexical,
                        ],
                        GraphPolicy::ArchitectureBoundary,
                        vec![ViewKind::Knowledge, ViewKind::Graph, ViewKind::Lexical],
                        one_reason(
                            "architecture query needs hierarchy plus representative source evidence",
                        ),
                    ),
                    QueryIntent::History => make_plan(
                        intent,
                        vec![SearchRoute::History, SearchRoute::Lexical, SearchRoute::DenseSummary],
                        GraphPolicy::Disabled,
                        vec![ViewKind::History, ViewKind::Lexical],
                        one_reason(
                            "why/history query must not infer rationale from current source alone",
                        ),
                    ),
                    QueryIntent::PreciseDataflow => make_plan(
                        intent,
                        vec![SearchRoute::ExactSymbol, SearchRoute::Structure],
                        GraphPolicy::DataflowRequired,
                        vec![ViewKind::Dataflow, ViewKind::Symbols],
                        one_reason("precise dataflow requires an evidence-backed analysis view"),
                    ),
                    QueryIntent::Unknown => union_plan(
                        QueryIntent::Unknown,
                        one_reason(
                            "unknown intent uses conservative union recall without graph expansion",
                        ),
                    ),
                };
                assert(plan.spec().routes =~= requested_plan(intent).routes);
                assert(plan.spec().required_views =~= requested_plan(intent).required_views);
                plan
            },
        }
    }
}

/// Inferred intent is a label, never a routing decision: without a
/// supplied intent every query gets the union routes, no graph expansion
/// and the union views, whatever its wording.
pub proof fn law_inferred_intent_never_routes(query: Seq<char>)
    ensures
        plan_spec(query, None).routes == union_routes(),
        plan_spec(query, None).graph_policy == GraphPolicy::Disabled,
        plan_spec(query, None).required_views == union_views(),
        plan_spec(query, None).intent == classify_spec(query, lower(query)),
{
}

/// Issue localization shares the behavior plan: the same routes, graph
/// policy and required views.
pub proof fn law_issue_localization_shares_behavior_plan(q1: Seq<char>, q2: Seq<char>)
    ensures
        plan_spec(q1, Some(QueryIntent::IssueLocalization)).routes == plan_spec(
            q2,
            Some(QueryIntent::NaturalLanguageBehavior),
        ).routes,
        plan_spec(q1, Some(QueryIntent::IssueLocalization)).graph_policy == GraphPolicy::Disabled,
        plan_spec(q1, Some(QueryIntent::IssueLocalization)).required_views == plan_spec(
            q2,
            Some(QueryIntent::NaturalLanguageBehavior),
        ).required_views,
{
}

/// A supplied intent is always the plan's intent, and only the intents
/// that traverse structure (trace, impact, architecture, precise
/// dataflow) expand along the graph.
pub proof fn law_requested_intent_is_kept(query: Seq<char>, intent: QueryIntent)
    ensures
        plan_spec(query, Some(intent)).intent == intent,
        (plan_spec(query, Some(intent)).graph_policy != GraphPolicy::Disabled) <==> (intent
            == QueryIntent::Trace || intent == QueryIntent::Impact || intent
            == QueryIntent::Architecture || intent == QueryIntent::PreciseDataflow),
{
}

/// Every plan reads the views it requires through a route that serves
/// them, and a supplied intent always runs the route that intent is named
/// after: a history plan runs the history route, an exact-entity plan the
/// exact-symbol route, an architecture plan the knowledge route, trace and
/// impact plans the structure route. Required history, knowledge, symbol,
/// lexical and graph views come with the history, knowledge, exact-symbol,
/// lexical and structure routes, and a required dense view with a dense
/// route. Each supplied intent also requires the view its route reads:
/// history, symbols, knowledge and graph, graph, dataflow, dense.
pub proof fn law_plans_run_the_routes_they_need(query: Seq<char>, requested: Option<QueryIntent>)
    ensures
        ({
            let p = plan_spec(query, requested);
            &&& requested == Some(QueryIntent::History) ==> p.routes.contains(SearchRoute::History)
            &&& requested == Some(QueryIntent::ExactEntity) ==> p.routes.contains(SearchRoute::ExactSymbol)
            &&& requested == Some(QueryIntent::Architecture) ==> p.routes.contains(SearchRoute::Knowledge)
            &&& (requested == Some(QueryIntent::Trace) || requested == Some(QueryIntent::Impact))
                ==> p.routes.contains(SearchRoute::Structure)
            &&& requested == Some(QueryIntent::History) ==> p.required_views.contains(ViewKind::History)
            &&& requested == Some(QueryIntent::ExactEntity) ==> p.required_views.contains(ViewKind::Symbols)
            &&& requested == Some(QueryIntent::Architecture) ==> p.required_views.contains(ViewKind::Knowledge)
                && p.required_views.contains(ViewKind::Graph)
            &&& (requested == Some(QueryIntent::Trace) || requested == Some(QueryIntent::Impact))
                ==> p.required_views.contains(ViewKind::Graph)
            &&& requested == Some(QueryIntent::PreciseDataflow) ==> p.required_views.contains(ViewKind::Dataflow)
            &&& (requested == Some(QueryIntent::NaturalLanguageBehavior) || requested == Some(
                QueryIntent::IssueLocalization,
            )) ==> p.required_views.contains(ViewKind::Dense)
            &&& p.required_views.contains(ViewKind::History) ==> p.routes.contains(SearchRoute::History)
            &&& p.required_views.contains(ViewKind::Knowledge) ==> p.routes.contains(SearchRoute::Knowledge)
            &&& p.required_views.contains(ViewKind::Symbols) ==> p.routes.contains(SearchRoute::ExactSymbol)
            &&& p.required_views.contains(ViewKind::Lexical) ==> p.routes.contains(SearchRoute::Lexical)
            &&& p.required_views.contains(ViewKind::Graph) ==> p.routes.contains(SearchRoute::Structure)
            &&& p.required_views.contains(ViewKind::Dense) ==> (p.routes.contains(SearchRoute::DenseRaw)
                || p.routes.contains(SearchRoute::DenseSummary))
        }),
{
    let p = plan_spec(query, requested);
    let r = p.routes;
    let v = p.required_views;
    assert forall|x: SearchRoute, k: int| 0 <= k < r.len() && r[k] == x implies r.contains(x) by {}
    assert forall|x: ViewKind| v.contains(x) implies exists|k: int| 0 <= k < v.len() && v[k] == x by {}
    match requested {
        Some(QueryIntent::ExactEntity) => {
            assert(r[0] == SearchRoute::ExactSymbol && r[1] == SearchRoute::Lexical);
            assert(v[0] == ViewKind::Symbols);
        },
        Some(QueryIntent::NaturalLanguageBehavior) | Some(QueryIntent::IssueLocalization) => {
            assert(r[0] == SearchRoute::Lexical && r[1] == SearchRoute::DenseRaw);
            assert(v[1] == ViewKind::Dense);
        },
        Some(QueryIntent::Trace) | Some(QueryIntent::Impact) => {
            assert(r[0] == SearchRoute::ExactSymbol && r[1] == SearchRoute::Lexical && r[3]
                == SearchRoute::Structure);
            assert(v[2] == ViewKind::Graph);
        },
        Some(QueryIntent::Architecture) => {
            assert(r[0] == SearchRoute::Knowledge && r[2] == SearchRoute::Structure && r[3]
                == SearchRoute::Lexical);
            assert(v[0] == ViewKind::Knowledge && v[1] == ViewKind::Graph);
        },
        Some(QueryIntent::History) => {
            assert(r[0] == SearchRoute::History && r[1] == SearchRoute::Lexical);
            assert(v[0] == ViewKind::History);
        },
        Some(QueryIntent::PreciseDataflow) => {
            assert(r[0] == SearchRoute::ExactSymbol);
            assert(v[0] == ViewKind::Dataflow);
        },
        _ => {
            assert(r[0] == SearchRoute::ExactSymbol && r[1] == SearchRoute::Lexical && r[2]
                == SearchRoute::DenseRaw && r[5] == SearchRoute::Knowledge && r[6]
                == SearchRoute::History);
        },
    }
}

} // verus!
