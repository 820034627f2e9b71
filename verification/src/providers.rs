//! External code-intelligence providers: per-provider reports, the
//! decisions taken on each detection and run outcome, diagnostics tails,
//! and the secret-environment policy for provider subprocesses.

use vstd::prelude::*;
use crate::history::{utf8_len, utf8_width};
use crate::text::{
    chars_of, contains_seq, copy_opt_string, copy_string, decimal, is_suffix, owned, push_decimal,
    push_str, slice_vec, string_of, trim, trim_chars, upper, upper_of,
};

verus! {

/// Lifecycle state of one provider.
#[derive(Debug, Clone, Copy, PartialEq, Eq, Structural)]
pub enum ProviderState {
    /// Toolchain found / artifact produced; ran successfully.
    Ready,
    /// Applicable to the repo but the tool is not installed.
    Missing,
    /// Provider does not apply to this repository.
    NotApplicable,
    /// Execution or ingestion failed; `message` carries diagnostics.
    Failed,
}

/// Per-provider outcome.
#[derive(Debug, Clone)]
pub struct ProviderReport {
    /// Provider identifier (`scip:rust-analyzer`, ...).
    pub provider_id: String,
    /// Final lifecycle state.
    pub state: ProviderState,
    /// Resolved tool path/command when applicable.
    pub tool: Option<String>,
    /// Diagnostic or remediation message.
    pub message: Option<String>,
    /// Content digest of the stored provider artifact.
    pub artifact_digest: Option<String>,
    /// Wall-clock execution time.
    pub duration_ms: Option<u64>,
    /// SCIP documents seen during ingest.
    pub scip_documents: usize,
    /// SCIP definitions resolved to entities.
    pub scip_definitions: usize,
    /// SCIP reference edges emitted.
    pub scip_reference_edges: usize,
}

impl ProviderReport {
    /// A fresh report: not applicable, nothing recorded.
    pub fn new(provider_id: &str) -> (r: Self)
        ensures
            r.provider_id@ == provider_id@,
            r.state == ProviderState::NotApplicable,
            r.tool is None,
            r.message is None,
            r.artifact_digest is None,
            r.duration_ms is None,
            r.scip_documents == 0,
            r.scip_definitions == 0,
            r.scip_reference_edges == 0,
    {
        ProviderReport {
            provider_id: owned(provider_id),
            state: ProviderState::NotApplicable,
            tool: None,
            message: None,
            artifact_digest: None,
            duration_ms: None,
            scip_documents: 0,
            scip_definitions: 0,
            scip_reference_edges: 0,
        }
    }
}

/// What detecting a provider found.
#[derive(Debug, Clone)]
pub enum DetectState {
    /// The tool (by path) is present; `detail` describes it.
    Ready { tool: String, detail: String, note: Option<String> },
    /// Applicable, but the tool is missing.
    Missing { remediation: String },
    /// The provider does not apply.
    NotApplicable { reason: String },
}

/// The report a detection yields, and the tool to run when it is ready.
pub fn detected(provider_id: &str, state: DetectState) -> (r: (ProviderReport, Option<String>))
    ensures
        r.0.provider_id@ == provider_id@,
        r.0.artifact_digest is None,
        r.0.duration_ms is None,
        r.0.scip_documents == 0 && r.0.scip_definitions == 0 && r.0.scip_reference_edges == 0,
        match state {
            DetectState::Ready { tool, detail, note } => r.0.state == ProviderState::Ready
                && r.0.tool == Some(detail) && r.0.message == note && r.1 == Some(tool),
            DetectState::Missing { remediation } => r.0.state == ProviderState::Missing
                && r.0.tool is None && r.0.message == Some(remediation) && r.1 is None,
            DetectState::NotApplicable { reason } => r.0.state == ProviderState::NotApplicable
                && r.0.tool is None && r.0.message == Some(reason) && r.1 is None,
        },
{
    let mut report = ProviderReport::new(provider_id);
    match state {
        DetectState::Ready { tool, detail, note } => {
            report.state = ProviderState::Ready;
            report.tool = Some(detail);
            report.message = note;
            (report, Some(tool))
        },
        DetectState::Missing { remediation } => {
            report.state = ProviderState::Missing;
            report.message = Some(remediation);
            (report, None)
        },
        DetectState::NotApplicable { reason } => {
            report.state = ProviderState::NotApplicable;
            report.message = Some(reason);
            (report, None)
        },
    }
}

/// A ready provider's run: its duration, or the error it failed with.
pub enum RunOutcome {
    /// Ran to completion in `duration_ms`.
    Completed { duration_ms: u64 },
    /// Failed; the message is the error's rendering.
    Failed { message: String },
}

/// Records a run's outcome on a ready report: a completed run keeps the
/// state and records its duration; a failed run turns the report
/// `Failed` with the error message.
pub fn record_run(report: ProviderReport, outcome: RunOutcome) -> (r: ProviderReport)
    ensures
        r.provider_id == report.provider_id,
        r.tool == report.tool,
        r.artifact_digest == report.artifact_digest,
        match outcome {
            RunOutcome::Completed { duration_ms } => r.state == report.state && r.message
                == report.message && r.duration_ms == Some(duration_ms),
            RunOutcome::Failed { message } => r.state == ProviderState::Failed && r.message == Some(
                message,
            ) && r.duration_ms == report.duration_ms,
        },
{
    let mut r = report;
    match outcome {
        RunOutcome::Completed { duration_ms } => {
            r.duration_ms = Some(duration_ms);
        },
        RunOutcome::Failed { message } => {
            r.state = ProviderState::Failed;
            r.message = Some(message);
        },
    }
    r
}

/// The last 2 KiB (on a char boundary) of a subprocess's trimmed stderr.
pub open spec fn tail_of(text: Seq<char>, result: Seq<char>) -> bool {
    let t = trim(text);
    if utf8_len(t) <= 2048 {
        result == t
    } else {
        exists|k: int|
            0 < k <= t.len() && utf8_len(#[trigger] t.skip(k)) <= 2048 && utf8_len(t.skip(k - 1))
                > 2048 && result == t.skip(k)
    }
}

proof fn lemma_utf8_len_skip(s: Seq<char>, k: int)
    requires
        0 <= k < s.len(),
    ensures
        utf8_len(s.skip(k)) == utf8_width(s[k]) + utf8_len(s.skip(k + 1)),
    decreases s.len(),
{
    if k == s.len() - 1 {
        assert(s.skip(k).drop_last() =~= Seq::<char>::empty());
        assert(s.skip(k + 1) =~= Seq::<char>::empty());
    } else {
        assert(s.skip(k).drop_last() =~= s.drop_last().skip(k));
        assert(s.skip(k + 1).drop_last() =~= s.drop_last().skip(k + 1));
        lemma_utf8_len_skip(s.drop_last(), k);
    }
}

/// Captured subprocess output.
pub struct CommandOutput {
    pub code: Option<i32>,
    pub stdout: String,
    pub stderr: String,
    pub timed_out: bool,
}

impl CommandOutput {
    /// The tail of stderr used in diagnostics.
    pub fn stderr_tail(&self) -> (r: String)
        ensures
            tail_of(self.stderr@, r@),
    {
        let t = trim_chars(&chars_of(self.stderr.as_str()));
        let ghost tv = t@;
        // Walk from the end, keeping chars while the tail fits.
        let mut k = t.len();
        let mut acc: usize = 0;
        assert(t@.skip(k as int) =~= Seq::<char>::empty());
        while k > 0
            invariant
                k <= t@.len(),
                tv == t@,
                t@ == trim(self.stderr@),
                acc == utf8_len(t@.skip(k as int)),
                acc <= 2048,
            decreases k,
        {
            let w: usize = if (t[k - 1] as u32) < 0x80 {
                1
            } else if (t[k - 1] as u32) < 0x800 {
                2
            } else if (t[k - 1] as u32) < 0x10000 {
                3
            } else {
                4
            };
            proof {
                lemma_utf8_len_skip(t@, k - 1);
            }
            assert(w == utf8_width(t@[k - 1]));
            if w > 2048 - acc {
                let r = slice_vec(&t, k, t.len());
                assert(r@ =~= t@.skip(k as int));
                proof {
                    lemma_utf8_len_suffix_bound(t@, k as int);
                    assert(0 < k <= t@.len() && utf8_len(t@.skip(k as int)) <= 2048 && utf8_len(
                        t@.skip(k - 1),
                    ) > 2048 && r@ == t@.skip(k as int));
                }
                return string_of(&r);
            }
            acc = acc + w;
            k = k - 1;
        }
        assert(t@.skip(0) =~= t@);
        string_of(&t)
    }
}

proof fn lemma_utf8_len_suffix_bound(s: Seq<char>, k: int)
    requires
        0 < k <= s.len(),
        utf8_len(s.skip(k - 1)) > 2048,
    ensures
        utf8_len(s) > 2048,
    decreases k,
{
    if k > 1 {
        lemma_utf8_len_skip(s, k - 2);
        lemma_utf8_len_suffix_bound(s, k - 1);
    } else {
        assert(s.skip(0) =~= s);
    }
}

/// Environment variable names withheld from provider subprocesses: any
/// containing `SECRET`, `TOKEN`, `PASSWORD`, `CREDENTIAL` or `PRIVATE_KEY`,
/// or ending in `_KEY` (ASCII case-insensitive).
pub open spec fn secret_env(name: Seq<char>) -> bool {
    let u = upper(name);
    ||| contains_seq(u, "SECRET"@)
    ||| contains_seq(u, "TOKEN"@)
    ||| contains_seq(u, "PASSWORD"@)
    ||| contains_seq(u, "CREDENTIAL"@)
    ||| contains_seq(u, "PRIVATE_KEY"@)
    ||| is_suffix("_KEY"@, u)
}

/// Whether an environment variable is secret-shaped.
pub fn is_secret_env(name: &str) -> (r: bool)
    ensures
        r == secret_env(name@),
{
    let v = chars_of(name);
    let mut u: Vec<char> = Vec::new();
    for i in 0..v.len()
        invariant
            u@ =~= upper(v@).take(i as int),
    {
        u.push(upper_of(v[i]));
    }
    assert(u@ =~= upper(name@));
    crate::text::contains_str(&u, "SECRET") || crate::text::contains_str(&u, "TOKEN")
        || crate::text::contains_str(&u, "PASSWORD") || crate::text::contains_str(&u, "CREDENTIAL")
        || crate::text::contains_str(&u, "PRIVATE_KEY") || crate::text::ends_with_str(&u, "_KEY")
}

// ---- the TypeScript project --------------------------------------------------------

/// Where the TypeScript indexer runs: the chosen workspace candidate (or
/// the repository root when `candidate` is `None`), its display form, and
/// why it won.
#[derive(Debug)]
pub struct TsProjectChoice {
    /// Position of the chosen workspace project; `None` for the root.
    pub candidate: Option<usize>,
    /// Repository-relative display form (`.` for the root).
    pub display: String,
    /// Why this root won.
    pub note: String,
}

/// `a` sorts before `b` as paths, component by component: at the first
/// difference `/` sorts before any other char.
pub open spec fn path_lt(a: Seq<char>, b: Seq<char>) -> bool
    decreases a.len(),
{
    if a.len() == 0 {
        b.len() > 0
    } else if b.len() == 0 {
        false
    } else if a[0] == b[0] {
        path_lt(a.skip(1), b.skip(1))
    } else if a[0] == '/' {
        true
    } else if b[0] == '/' {
        false
    } else {
        a[0] < b[0]
    }
}

/// Candidate `c` ranks above `b`: more TypeScript sources, or as many and
/// an earlier path.
pub open spec fn ranks_above(c: (Seq<char>, usize), b: (Seq<char>, usize)) -> bool {
    c.1 > b.1 || (c.1 == b.1 && path_lt(c.0, b.0))
}

/// The best of the first `n` candidates (the first among equals).
pub open spec fn best_project(cs: Seq<(Seq<char>, usize)>, n: int) -> Option<int>
    decreases n,
{
    if n <= 0 {
        None
    } else {
        match best_project(cs, n - 1) {
            None => Some(n - 1),
            Some(b) => if ranks_above(cs[n - 1], cs[b]) {
                Some(n - 1)
            } else {
                Some(b)
            },
        }
    }
}

/// Why the repository root was not used.
pub open spec fn root_gap(root_tsconfig: bool) -> Seq<char> {
    if root_tsconfig {
        "repository tsconfig.json is a solution file with no inputs"@
    } else {
        "no tsconfig.json at the repository root"@
    }
}

/// The project choice as values: candidate, display, note.
pub open spec fn ts_project_of(
    root_tsconfig: bool,
    root_indexes_nothing: bool,
    cs: Seq<(Seq<char>, usize)>,
) -> Option<(Option<int>, Seq<char>, Seq<char>)> {
    if root_tsconfig && !root_indexes_nothing {
        Some(
            (
                None,
                "."@,
                if cs.len() == 0 {
                    "project root: repository root"@
                } else {
                    "project root: repository root"@ + " ("@ + decimal(cs.len())
                        + " workspace tsconfig.json project(s) not indexed — v1 runs a single project)"@
                },
            ),
        )
    } else {
        match best_project(cs, cs.len() as int) {
            Some(b) => Some(
                (
                    Some(b),
                    cs[b].0,
                    "project root `"@ + cs[b].0 + "`: largest of "@ + decimal(cs.len())
                        + " workspace tsconfig.json candidate(s) ("@ + decimal(cs[b].1 as nat)
                        + " TS sources; "@ + root_gap(root_tsconfig) + ")"@,
                ),
            ),
            None => if root_tsconfig {
                Some((None, "."@, "project root: repository root ("@ + root_gap(root_tsconfig) + ")"@))
            } else {
                None
            },
        }
    }
}

fn path_less(a: &Vec<char>, b: &Vec<char>) -> (r: bool)
    ensures
        r == path_lt(a@, b@),
{
    let mut i: usize = 0;
    assert(a@.skip(0) =~= a@ && b@.skip(0) =~= b@);
    while i < a.len() && i < b.len() && a[i] == b[i]
        invariant
            i <= a@.len(),
            i <= b@.len(),
            path_lt(a@, b@) == path_lt(a@.skip(i as int), b@.skip(i as int)),
        decreases a@.len() - i,
    {
        assert(a@.skip(i as int).skip(1) =~= a@.skip(i + 1));
        assert(b@.skip(i as int).skip(1) =~= b@.skip(i + 1));
        i = i + 1;
    }
    if i == a.len() {
        assert(a@.skip(i as int).len() == 0);
        assert(b@.skip(i as int).len() == b@.len() - i);
        i < b.len()
    } else if i == b.len() {
        assert(b@.skip(i as int).len() == 0);
        assert(a@.skip(i as int).len() > 0);
        false
    } else {
        assert(a@.skip(i as int)[0] == a@[i as int] && b@.skip(i as int)[0] == b@[i as int]);
        assert(a@[i as int] != b@[i as int]);
        let (x, y) = (a[i], b[i]);
        if x == '/' {
            true
        } else if y == '/' {
            false
        } else {
            x < y
        }
    }
}

/// The candidates as values.
pub open spec fn candidate_views(cs: Seq<(String, usize)>) -> Seq<(Seq<char>, usize)> {
    cs.map_values(|c: (String, usize)| (c.0@, c.1))
}

/// Chooses the single TypeScript project to index: the repository root
/// when its `tsconfig.json` has inputs; else the workspace candidate with
/// the most TypeScript sources (the earliest path among equals); else a
/// hollow root `tsconfig.json`, which still signals TypeScript; else none.
/// `candidates` are the workspace projects' display paths and source
/// counts.
pub fn choose_ts_project(root_tsconfig: bool, root_indexes_nothing: bool, candidates: &Vec<(String, usize)>) -> (r:
    Option<TsProjectChoice>)
    ensures
        match ts_project_of(root_tsconfig, root_indexes_nothing, candidate_views(candidates@)) {
            None => r is None,
            Some((c, d, n)) => r matches Some(t) && (match t.candidate {
                Some(i) => c == Some(i as int),
                None => c is None,
            }) && t.display@ == d && t.note@ == n,
        },
{
    let ghost cs = candidate_views(candidates@);
    if root_tsconfig && !root_indexes_nothing {
        let mut note = chars_of("project root: repository root");
        if candidates.len() > 0 {
            push_str(&mut note, " (");
            push_decimal(&mut note, candidates.len() as u64);
            push_str(&mut note, " workspace tsconfig.json project(s) not indexed — v1 runs a single project)");
        }
        return Some(TsProjectChoice { candidate: None, display: owned("."), note: string_of(&note) });
    }
    let gap = if root_tsconfig {
        "repository tsconfig.json is a solution file with no inputs"
    } else {
        "no tsconfig.json at the repository root"
    };
    let mut best: Option<usize> = None;
    for k in 0..candidates.len()
        invariant
            cs == candidate_views(candidates@),
            match best {
                Some(b) => best_project(cs, k as int) == Some(b as int) && b < k,
                None => best_project(cs, k as int) is None && k == 0,
            },
    {
        best = match best {
            None => Some(k),
            Some(b) => {
                let above = candidates[k].1 > candidates[b].1 || (candidates[k].1 == candidates[b].1
                    && path_less(&chars_of(candidates[k].0.as_str()), &chars_of(candidates[b].0.as_str())));
                if above {
                    Some(k)
                } else {
                    Some(b)
                }
            },
        };
    }
    match best {
        Some(b) => {
            let display = copy_string(&candidates[b].0);
            let mut note = chars_of("project root `");
            push_str(&mut note, display.as_str());
            push_str(&mut note, "`: largest of ");
            push_decimal(&mut note, candidates.len() as u64);
            push_str(&mut note, " workspace tsconfig.json candidate(s) (");
            push_decimal(&mut note, candidates[b].1 as u64);
            push_str(&mut note, " TS sources; ");
            push_str(&mut note, gap);
            push_str(&mut note, ")");
            Some(TsProjectChoice { candidate: Some(b), display, note: string_of(&note) })
        },
        None => {
            if root_tsconfig {
                let mut note = chars_of("project root: repository root (");
                push_str(&mut note, gap);
                push_str(&mut note, ")");
                Some(TsProjectChoice { candidate: None, display: owned("."), note: string_of(&note) })
            } else {
                None
            }
        },
    }
}

} // verus!
