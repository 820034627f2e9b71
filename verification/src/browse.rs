//! Code-browser, export and grep report shapes, and the per-file and
//! per-match rules that fill them.

use vstd::prelude::*;
use crate::history::utf8_len;
use crate::descriptor::{lemma_utf8_len_strict, longest_fitting_prefix, prefix_within};
use crate::matching::{char_boundary, char_offset, compile_regex, regex_compiles, regex_find_starts, regex_match_starts, CompiledRegex};
use crate::text::{
    chars_of, copy_string, eq_chars, is_prefix, lines, lines_of, lower, lower_all, push_str,
    slice_vec, starts_with, string_of, trim, trim_chars,
};

verus! {

/// Content shown for a file is capped at 1 MiB.
pub const FILE_CONTENT_CAP: usize = 1048576;

/// A grep match line is capped at this many chars.
pub const LINE_CAP: usize = 240;

/// One indexed file of the browser listing.
#[derive(Debug, Clone)]
pub struct FileListEntry {
    /// Repository-relative path.
    pub path: String,
    /// Detected language, when known.
    pub language: Option<String>,
}

/// The indexed file set of the current snapshot.
#[derive(Debug, Clone)]
pub struct FileListReport {
    /// Snapshot the listing is scoped to.
    pub snapshot_id: String,
    /// Ordered by path.
    pub files: Vec<FileListEntry>,
}

/// Full file content from the source view.
#[derive(Debug, Clone)]
pub struct FileContent {
    /// Snapshot the bytes belong to.
    pub snapshot_id: String,
    /// Repository-relative path that was requested.
    pub path: String,
    /// Detected language, when known.
    pub language: Option<String>,
    /// UTF-8 text of the file, cut back to a char boundary within the
    /// content cap; empty when `binary`.
    pub content: String,
    /// True when the file exceeded the content cap.
    pub truncated: bool,
    /// True when the stored bytes are not valid UTF-8.
    pub binary: bool,
}

/// The browser view of a stored file: `binary` and empty when the stored
/// bytes are not UTF-8, else their text cut back to the last char boundary
/// within `FILE_CONTENT_CAP` bytes; `truncated` when the bytes exceed the cap.
pub fn file_content(snapshot_id: String, path: String, language: Option<String>, bytes: &[u8]) -> (r:
    FileContent)
    ensures
        r.snapshot_id == snapshot_id,
        r.path == path,
        r.language == language,
        r.truncated == (bytes@.len() > FILE_CONTENT_CAP),
        r.binary == !vstd::utf8::valid_utf8(bytes@),
        r.binary ==> r.content@.len() == 0,
        !r.binary ==> longest_fitting_prefix(
            r.content@,
            vstd::utf8::decode_utf8(bytes@),
            FILE_CONTENT_CAP as nat,
        ),
{
    let truncated = bytes.len() > FILE_CONTENT_CAP;
    let (content, binary) = match crate::text::utf8_text(bytes) {
        Some(text) => (string_of(&prefix_within(&chars_of(text.as_str()), FILE_CONTENT_CAP)), false),
        None => (string_of(&Vec::new()), true),
    };
    FileContent { snapshot_id, path, language, content, truncated, binary }
}

/// Row counts of the snapshot an export reads.
#[derive(Debug, Clone)]
pub struct ExportSummary {
    /// Snapshot the counts were read from.
    pub snapshot_id: String,
    /// Committed entity rows.
    pub entity_count: usize,
    /// Committed relation rows.
    pub relation_count: usize,
    /// Committed region rows.
    pub region_count: usize,
}

/// One grep match.
#[derive(Debug, Clone)]
pub struct GrepHit {
    /// Repository-relative path.
    pub path: String,
    /// 1-based line number.
    pub line: u64,
    /// 1-based column (char offset) of the match start.
    pub column: usize,
    /// The matched line, trimmed and capped at `LINE_CAP` chars.
    pub text: String,
}

/// Result of a worktree grep.
#[derive(Debug, Clone)]
pub struct GrepReport {
    /// The pattern that ran.
    pub pattern: String,
    /// Ordered matches, capped at the request limit.
    pub matches: Vec<GrepHit>,
    /// True when the limit cut the list short.
    pub truncated: bool,
    /// Files actually scanned.
    pub files_scanned: usize,
    /// Files skipped because their bytes were not UTF-8 text.
    pub skipped_binary: usize,
    /// Always `worktree`: grep reads live files.
    pub freshness: &'static str,
}

/// A matched line as shown: trimmed, and cut to `LINE_CAP` chars with `…`
/// when longer.
pub open spec fn shown_line(line: Seq<char>) -> Seq<char> {
    let t = trim(line);
    if t.len() > LINE_CAP {
        t.take(LINE_CAP as int) + "…"@
    } else {
        t
    }
}

/// The 1-based char column of byte offset `start` of `line`.
pub open spec fn column_of(line: Seq<char>, start: nat) -> nat {
    (choose|k: int| 0 <= k <= line.len() && #[trigger] utf8_len(line.take(k)) == start) as nat + 1
}

/// The hit for a match starting at byte `start` of line `line_index`
/// (0-based) of `path`; `start` must fall on a char boundary.
pub fn grep_hit(path: &str, line_index: usize, line_text: &str, start: usize) -> (r: GrepHit)
    requires
        char_boundary(line_text@, start as nat),
        start < usize::MAX,
        line_index < u64::MAX,
    ensures
        r.path@ == path@,
        r.line == line_index + 1,
        r.column == column_of(line_text@, start as nat),
        utf8_len(line_text@.take(r.column - 1)) == start,
        r.text@ == shown_line(line_text@),
{
    let v = chars_of(line_text);
    let k = char_offset(&v, start);
    proof {
        let c = choose|c: int| 0 <= c <= v@.len() && #[trigger] utf8_len(v@.take(c)) == start;
        if c < k {
            lemma_utf8_len_strict(v@, c, k as int);
        } else if c > k {
            lemma_utf8_len_strict(v@, k as int, c);
        }
    }
    let t = trim_chars(&v);
    let text = if t.len() > LINE_CAP {
        let mut cut = slice_vec(&t, 0, LINE_CAP);
        push_str(&mut cut, "…");
        string_of(&cut)
    } else {
        string_of(&t)
    };
    GrepHit { path: crate::text::owned(path), line: line_index as u64 + 1, column: k + 1, text }
}


// ---- worktree grep ---------------------------------------------------------------------

/// Default maximum matches returned by one grep call.
pub const DEFAULT_GREP_LIMIT: usize = 200;

/// Per-file match cap, so one generated file cannot crowd out the tree.
pub const PER_FILE_CAP: usize = 100;

/// A worktree grep request.
#[derive(Debug, Clone)]
pub struct GrepRequest {
    /// Regular expression.
    pub pattern: String,
    /// Only paths starting with this prefix.
    pub path_prefix: Option<String>,
    /// Only files of this language (ASCII case-insensitive).
    pub language: Option<String>,
    /// Match cap across the whole tree.
    pub limit: usize,
    /// ASCII case-insensitive matching.
    pub ignore_case: bool,
}

/// One scanned file as grep sees it: its text, or `None` when its bytes
/// are not UTF-8.
#[derive(Debug, Clone)]
pub struct GrepFile {
    pub path: String,
    pub language: Option<String>,
    pub text: Option<String>,
}

/// Why a grep could not run.
#[derive(Debug, PartialEq, Eq)]
pub enum GrepError {
    /// The pattern is not a valid regular expression.
    InvalidPattern(String),
}

/// Where a grep stands: hits so far as `(path, line, column, text)`,
/// whether the limit cut it short, file counts, and hits in the current
/// file.
pub struct GrepState {
    pub hits: Seq<(Seq<char>, nat, nat, Seq<char>)>,
    pub truncated: bool,
    pub files_scanned: nat,
    pub skipped_binary: nat,
    pub per_file: nat,
}

/// The hit for a match at byte `start` of line `index` (0-based).
pub open spec fn hit_of(path: Seq<char>, index: nat, line: Seq<char>, start: nat) -> (
    Seq<char>,
    nat,
    nat,
    Seq<char>,
) {
    (path, index + 1, column_of(line, start), shown_line(line))
}

/// The matches of one line, in order: the limit check comes first (and
/// ends the whole grep), then the per-file cap (which ends the line).
pub open spec fn line_scan(
    st: GrepState,
    limit: nat,
    path: Seq<char>,
    index: nat,
    line: Seq<char>,
    starts: Seq<usize>,
) -> GrepState
    decreases starts.len(),
{
    if starts.len() == 0 {
        st
    } else if st.hits.len() >= limit {
        GrepState { truncated: true, ..st }
    } else if st.per_file >= PER_FILE_CAP {
        st
    } else {
        line_scan(
            GrepState {
                hits: st.hits.push(hit_of(path, index, line, starts[0] as nat)),
                per_file: st.per_file + 1,
                ..st
            },
            limit,
            path,
            index,
            line,
            starts.drop_first(),
        )
    }
}

/// The lines of one file from `from` on, until the limit ends the grep or
/// the file reaches its cap.
pub open spec fn lines_scan(
    st: GrepState,
    limit: nat,
    path: Seq<char>,
    lines: Seq<Seq<char>>,
    from: nat,
    pattern: Seq<char>,
    ignore_case: bool,
) -> GrepState
    decreases lines.len() - from,
{
    if from >= lines.len() {
        st
    } else {
        let next = line_scan(
            st,
            limit,
            path,
            from,
            lines[from as int],
            regex_match_starts(pattern, ignore_case, lines[from as int]),
        );
        if next.truncated || next.per_file >= PER_FILE_CAP {
            next
        } else {
            lines_scan(next, limit, path, lines, from + 1, pattern, ignore_case)
        }
    }
}

/// Whether the request's path and language filters keep a file.
pub open spec fn grep_selects(f: GrepFile, request: GrepRequest) -> bool {
    &&& (match request.path_prefix {
        Some(p) => is_prefix(p@, f.path@),
        None => true,
    })
    &&& (match request.language {
        Some(l) => f.language is Some && lower(f.language->0@) == lower(l@),
        None => true,
    })
}

/// The files from `from` on, until the limit ends the grep.
pub open spec fn files_scan(st: GrepState, request: GrepRequest, files: Seq<GrepFile>, from: nat) -> GrepState
    decreases files.len() - from,
{
    if from >= files.len() {
        st
    } else {
        let f = files[from as int];
        if !grep_selects(f, request) {
            files_scan(st, request, files, from + 1)
        } else {
            match f.text {
                None => files_scan(
                    GrepState { skipped_binary: st.skipped_binary + 1, ..st },
                    request,
                    files,
                    from + 1,
                ),
                Some(t) => {
                    let next = lines_scan(
                        GrepState { files_scanned: st.files_scanned + 1, per_file: 0, ..st },
                        request.limit as nat,
                        f.path@,
                        lines_of(t@),
                        0,
                        request.pattern@,
                        request.ignore_case,
                    );
                    if next.truncated {
                        next
                    } else {
                        files_scan(next, request, files, from + 1)
                    }
                },
            }
        }
    }
}

/// The grep's final state.
pub open spec fn grep_outcome(request: GrepRequest, files: Seq<GrepFile>) -> GrepState {
    files_scan(
        GrepState { hits: Seq::empty(), truncated: false, files_scanned: 0, skipped_binary: 0, per_file: 0 },
        request,
        files,
        0,
    )
}

/// A hit as values.
pub open spec fn hit_view(h: GrepHit) -> (Seq<char>, nat, nat, Seq<char>) {
    (h.path@, h.line as nat, h.column as nat, h.text@)
}

/// The running state of a grep.
struct Progress {
    hits: Vec<GrepHit>,
    truncated: bool,
    files_scanned: usize,
    skipped_binary: usize,
    per_file: usize,
}

impl Progress {
    spec fn state(&self) -> GrepState {
        GrepState {
            hits: self.hits@.map_values(|h: GrepHit| hit_view(h)),
            truncated: self.truncated,
            files_scanned: self.files_scanned as nat,
            skipped_binary: self.skipped_binary as nat,
            per_file: self.per_file as nat,
        }
    }
}

fn scan_line(
    progress: &mut Progress,
    limit: usize,
    path: &str,
    index: usize,
    line: &str,
    starts: &Vec<usize>,
)
    requires
        old(progress).per_file <= PER_FILE_CAP,
        index < u64::MAX,
        forall|i: int|
            0 <= i < starts@.len() ==> char_boundary(line@, #[trigger] starts@[i] as nat)
                && starts@[i] < usize::MAX,
    ensures
        final(progress).state() == line_scan(old(progress).state(), limit as nat, path@, index as nat, line@, starts@),
        final(progress).per_file <= PER_FILE_CAP,
        final(progress).files_scanned == old(progress).files_scanned,
        final(progress).skipped_binary == old(progress).skipped_binary,
{
    let ghost goal = line_scan(old(progress).state(), limit as nat, path@, index as nat, line@, starts@);
    let mut j: usize = 0;
    assert(starts@.skip(0) =~= starts@);
    while j < starts.len()
        invariant
            j <= starts@.len(),
            progress.per_file <= PER_FILE_CAP,
            index < u64::MAX,
            forall|i: int|
                0 <= i < starts@.len() ==> char_boundary(line@, #[trigger] starts@[i] as nat)
                    && starts@[i] < usize::MAX,
            line_scan(progress.state(), limit as nat, path@, index as nat, line@, starts@.skip(j as int))
                == goal,
            goal == line_scan(old(progress).state(), limit as nat, path@, index as nat, line@, starts@),
            progress.files_scanned == old(progress).files_scanned,
            progress.skipped_binary == old(progress).skipped_binary,
        decreases starts@.len() - j,
    {
        let ghost rest = starts@.skip(j as int);
        let ghost st = progress.state();
        assert(rest[0] == starts@[j as int]);
        assert(rest.drop_first() =~= starts@.skip(j + 1));
        if progress.hits.len() >= limit {
            progress.truncated = true;
            assert(line_scan(st, limit as nat, path@, index as nat, line@, rest) == GrepState {
                truncated: true,
                ..st
            });
            assert(progress.state() == GrepState { truncated: true, ..st });
            return;
        }
        if progress.per_file >= PER_FILE_CAP {
            assert(line_scan(st, limit as nat, path@, index as nat, line@, rest) == st);
            return;
        }
        let hit = grep_hit(path, index, line, starts[j]);
        let ghost before = progress.hits@.map_values(|h: GrepHit| hit_view(h));
        progress.hits.push(hit);
        assert(progress.hits@.map_values(|h: GrepHit| hit_view(h)) =~= before.push(
            hit_of(path@, index as nat, line@, starts@[j as int] as nat),
        ));
        progress.per_file = progress.per_file + 1;
        j = j + 1;
    }
    assert(starts@.skip(j as int) =~= Seq::<usize>::empty());
}

fn scan_lines(
    progress: &mut Progress,
    limit: usize,
    path: &str,
    text: &str,
    regex: &CompiledRegex,
)
    requires
        old(progress).per_file == 0,
    ensures
        final(progress).state() == lines_scan(
            old(progress).state(),
            limit as nat,
            path@,
            lines_of(text@),
            0,
            regex.source(),
            regex.folds_case(),
        ),
        final(progress).files_scanned == old(progress).files_scanned,
        final(progress).skipped_binary == old(progress).skipped_binary,
{
    let all = lines(&chars_of(text));
    let ghost ls = all@.map_values(|v: Vec<char>| v@);
    let ghost goal = lines_scan(old(progress).state(), limit as nat, path@, ls, 0, regex.source(), regex.folds_case());
    for i in 0..all.len()
        invariant
            ls == all@.map_values(|v: Vec<char>| v@),
            ls == lines_of(text@),
            progress.per_file <= PER_FILE_CAP,
            lines_scan(progress.state(), limit as nat, path@, ls, i as nat, regex.source(), regex.folds_case())
                == goal,
            goal == lines_scan(old(progress).state(), limit as nat, path@, ls, 0, regex.source(), regex.folds_case()),
            progress.files_scanned == old(progress).files_scanned,
            progress.skipped_binary == old(progress).skipped_binary,
    {
        let line = string_of(&all[i]);
        assert(ls[i as int] == all@[i as int]@);
        let starts = regex_find_starts(regex, line.as_str());
        let ghost before = progress.state();
        scan_line(progress, limit, path, i, line.as_str(), &starts);
        assert(lines_scan(before, limit as nat, path@, ls, i as nat, regex.source(), regex.folds_case())
            == if progress.state().truncated || progress.state().per_file >= PER_FILE_CAP {
            progress.state()
        } else {
            lines_scan(progress.state(), limit as nat, path@, ls, (i + 1) as nat, regex.source(), regex.folds_case())
        });
        if progress.truncated || progress.per_file >= PER_FILE_CAP {
            return;
        }
    }
    assert(lines_scan(progress.state(), limit as nat, path@, ls, all@.len() as nat, regex.source(), regex.folds_case())
        == progress.state());
}

/// Runs `request` against the scanned files, in order: files outside the
/// path and language filters are passed over, files that are not UTF-8
/// counted and skipped, and every line's matches collected, at most
/// `PER_FILE_CAP` per file and `limit` in all (`truncated` records the
/// cut).
pub fn grep(files: &Vec<GrepFile>, request: &GrepRequest) -> (r: Result<GrepReport, GrepError>)
    ensures
        match r {
            Err(GrepError::InvalidPattern(p)) => !regex_compiles(request.pattern@, request.ignore_case)
                && p@ == request.pattern@,
            Ok(report) => {
                let outcome = grep_outcome(*request, files@);
                &&& regex_compiles(request.pattern@, request.ignore_case)
                &&& report.pattern@ == request.pattern@
                &&& report.matches@.map_values(|h: GrepHit| hit_view(h)) == outcome.hits
                &&& report.truncated == outcome.truncated
                &&& report.files_scanned == outcome.files_scanned
                &&& report.skipped_binary == outcome.skipped_binary
                &&& report.freshness@ == "worktree"@
            },
        },
{
    let regex = match compile_regex(request.pattern.as_str(), request.ignore_case) {
        Some(r) => r,
        None => return Err(GrepError::InvalidPattern(copy_string(&request.pattern))),
    };
    let mut progress = Progress {
        hits: Vec::new(),
        truncated: false,
        files_scanned: 0,
        skipped_binary: 0,
        per_file: 0,
    };
    assert(progress.state().hits =~= Seq::<(Seq<char>, nat, nat, Seq<char>)>::empty());
    let ghost goal = grep_outcome(*request, files@);
    let prefix = match &request.path_prefix {
        Some(p) => Some(chars_of(p.as_str())),
        None => None,
    };
    let language = match &request.language {
        Some(l) => Some(lower_all(&chars_of(l.as_str()))),
        None => None,
    };
    let mut i: usize = 0;
    while i < files.len()
        invariant_except_break
            !progress.truncated,
            files_scan(progress.state(), *request, files@, i as nat) == goal,
            progress.files_scanned + progress.skipped_binary <= i,
        invariant
            goal == grep_outcome(*request, files@),
            i <= files@.len(),
            regex.source() == request.pattern@,
            regex.folds_case() == request.ignore_case,
            prefix matches Some(p) ==> request.path_prefix is Some && p@ == request.path_prefix->0@,
            prefix is None ==> request.path_prefix is None,
            language matches Some(l) ==> request.language is Some && l@ == lower(request.language->0@),
            language is None ==> request.language is None,
        ensures
            progress.state() == goal,
        decreases files@.len() - i,
    {
        let f = &files[i];
        let ghost st = progress.state();
        let path = chars_of(f.path.as_str());
        let by_path = match &prefix {
            Some(p) => starts_with(&path, p),
            None => true,
        };
        let by_language = match &language {
            Some(l) => match &f.language {
                Some(fl) => eq_chars(&lower_all(&chars_of(fl.as_str())), l),
                None => false,
            },
            None => true,
        };
        assert((by_path && by_language) == grep_selects(*f, *request));
        if by_path && by_language {
            match &f.text {
                None => {
                    progress.skipped_binary = progress.skipped_binary + 1;
                    assert(progress.state() == GrepState { skipped_binary: st.skipped_binary + 1, ..st });
                },
                Some(t) => {
                    progress.files_scanned = progress.files_scanned + 1;
                    progress.per_file = 0;
                    let ghost opened = progress.state();
                    assert(opened == GrepState { files_scanned: st.files_scanned + 1, per_file: 0, ..st });
                    scan_lines(&mut progress, request.limit, f.path.as_str(), t.as_str(), &regex);
                    if progress.truncated {
                        break;
                    }
                },
            }
        }
        i = i + 1;
    }
    proof {
        if !progress.truncated {
            assert(files_scan(progress.state(), *request, files@, files@.len() as nat) == progress.state());
        }
    }
    Ok(GrepReport {
        pattern: copy_string(&request.pattern),
        matches: progress.hits,
        truncated: progress.truncated,
        files_scanned: progress.files_scanned,
        skipped_binary: progress.skipped_binary,
        freshness: "worktree",
    })
}

} // verus!
