//! Commit-diff extraction for lineage queries: histogram diffs of two file
//! texts reduced to capped patch text, changed line ranges, and the
//! identifier-carrying changed lines that feed full-text search.

use vstd::prelude::*;
use imara_diff::{Algorithm, BasicLineDiffPrinter, Diff, InternedInput, Token, UnifiedDiffConfig};
use crate::context::SourceAddress;
use crate::ignore::{builtin_skip_reason, final_component, is_sensitive, is_sensitive_name, skip_reason};
use crate::relations::basename;
use crate::repository::{is_probably_binary, lemma_newline_count_le_len, newline_count, probably_binary};
use vstd::utf8::{decode_utf8, encode_utf8};
use crate::text::{
    copy_string, decimal, is_prefix, lines, lines_of, push_decimal, utf8_text, chars_of, owned, push_all, push_str, slice_vec, string_of, trim_end, trim_end_chars,
    word_char, is_alphanumeric,
};

verus! {

/// Per-file cap on the rendered patch text.
pub const MAX_FILE_PATCH_BYTES: usize = 8192;

/// Identifier-carrying changed lines kept per file and side.
pub const MAX_BODY_LINES_PER_FILE: usize = 32;

// ---- identifier-ish lines --------------------------------------------------------

/// A run of at least three identifier chars (alphanumeric or `_`).
pub open spec fn identifierish(line: Seq<char>) -> bool {
    exists|i: int|
        0 <= i && i + 2 < line.len() && word_char(#[trigger] line[i]) && word_char(line[i + 1])
            && word_char(line[i + 2])
}

/// Whether a diff line carries an identifier-ish run of three or more
/// chars; punctuation-only churn does not.
pub fn is_identifierish(line: &str) -> (r: bool)
    ensures
        r == identifierish(line@),
{
    let v = chars_of(line);
    let mut run: usize = 0;
    for i in 0..v.len()
        invariant
            v@ == line@,
            run <= i,
            run <= 2,
            forall|k: int| i - run <= k < i ==> word_char(#[trigger] v@[k]),
            run < i ==> !word_char(v@[i - run - 1]),
            forall|j: int|
                0 <= j && j + 2 < i ==> !(word_char(#[trigger] v@[j]) && word_char(v@[j + 1])
                    && word_char(v@[j + 2])),
    {
        let c = v[i];
        if is_alphanumeric(c) || c == '_' {
            run = run + 1;
            if run >= 3 {
                assert(word_char(v@[i - 2]) && word_char(v@[i - 1]) && word_char(v@[i as int]));
                return true;
            }
        } else {
            run = 0;
        }
    }
    false
}

// ---- UTF-8 aware truncation ---------------------------------------------------------

/// Bytes of `c` in UTF-8.
pub open spec fn utf8_width(c: char) -> nat {
    if (c as u32) < 0x80 {
        1
    } else if (c as u32) < 0x800 {
        2
    } else if (c as u32) < 0x10000 {
        3
    } else {
        4
    }
}

/// Bytes of `s` in UTF-8 (`str::len`).
pub open spec fn utf8_len(s: Seq<char>) -> nat
    decreases s.len(),
{
    if s.len() == 0 {
        0
    } else {
        utf8_len(s.drop_last()) + utf8_width(s.last())
    }
}

/// Bytes of `c` in UTF-8.
pub fn utf8_width_of(c: char) -> (r: usize)
    ensures
        r == utf8_width(c),
{
    if (c as u32) < 0x80 {
        1
    } else if (c as u32) < 0x800 {
        2
    } else if (c as u32) < 0x10000 {
        3
    } else {
        4
    }
}

/// The longest prefix of `text` of at most `maximum` UTF-8 bytes.
pub open spec fn utf8_prefix(text: Seq<char>, maximum: nat) -> Seq<char>
    decreases text.len(),
{
    if utf8_len(text) <= maximum {
        text
    } else {
        utf8_prefix(text.drop_last(), maximum)
    }
}

/// `text` cut to at most `maximum` UTF-8 bytes on a char boundary, with
/// `marker` appended when anything was cut.
pub open spec fn truncate_text(text: Seq<char>, maximum: nat, marker: Seq<char>) -> Seq<char> {
    if utf8_len(text) <= maximum {
        text
    } else {
        utf8_prefix(text, maximum) + marker
    }
}

/// The cut falls after the last char that still fits.
pub proof fn lemma_utf8_prefix(t: Seq<char>, m: nat, k: int)
    requires
        0 <= k < t.len(),
        utf8_len(t.take(k)) <= m,
        utf8_len(t.take(k + 1)) > m,
    ensures
        utf8_prefix(t, m) == t.take(k),
    decreases t.len(),
{
    lemma_utf8_len_monotone(t, k + 1, t.len() as int);
    assert(t.take(t.len() as int) =~= t);
    assert(utf8_len(t) > m);
    assert(utf8_prefix(t, m) == utf8_prefix(t.drop_last(), m));
    if k + 1 == t.len() {
        assert(t.drop_last() =~= t.take(k));
        assert(utf8_len(t.drop_last()) <= m);
    } else {
        assert(t.drop_last().take(k) =~= t.take(k));
        assert(t.drop_last().take(k + 1) =~= t.take(k + 1));
        lemma_utf8_prefix(t.drop_last(), m, k);
    }
}

/// Cut `text` to at most `maximum` bytes on a `char` boundary, appending
/// `marker` when truncation happened.
pub fn truncate_utf8(text: &mut String, maximum: usize, marker: &str)
    ensures
        final(text)@ == truncate_text(old(text)@, maximum as nat, marker@),
{
    let cs = chars_of(text.as_str());
    assert(cs@ == old(text)@);
    let mut acc: usize = 0;
    let mut k: usize = 0;
    while k < cs.len()
        invariant
            k <= cs@.len(),
            text@ == old(text)@,
            cs@ == old(text)@,
            acc == utf8_len(cs@.take(k as int)),
            acc <= maximum,
        decreases cs@.len() - k,
    {
        let w = utf8_width_of(cs[k]);
        assert(cs@.take(k + 1).drop_last() =~= cs@.take(k as int));
        if w > maximum - acc {
            assert(utf8_len(cs@.take(k + 1)) > maximum);
            proof {
                lemma_utf8_len_monotone(cs@, k + 1, cs@.len() as int);
                assert(cs@.take(cs@.len() as int) =~= cs@);
            }
            let mut v = slice_vec(&cs, 0, k);
            push_str(&mut v, marker);
            assert(v@ =~= cs@.take(k as int) + marker@);
            *text = string_of(&v);
            assert(utf8_len(cs@) > maximum);
            proof {
                lemma_utf8_prefix(cs@, maximum as nat, k as int);
            }
            return;
        }
        acc = acc + w;
        k = k + 1;
    }
    assert(cs@.take(cs@.len() as int) =~= cs@);
    assert(utf8_len(old(text)@) <= maximum);
    assert(text@ == old(text)@);
}

proof fn lemma_utf8_len_monotone(s: Seq<char>, a: int, b: int)
    requires
        0 <= a <= b <= s.len(),
    ensures
        utf8_len(s.take(a)) <= utf8_len(s.take(b)),
    decreases b - a,
{
    if a < b {
        assert(s.take(b).drop_last() =~= s.take(b - 1));
        lemma_utf8_len_monotone(s, a, b - 1);
    }
}

// ---- per-file extraction ------------------------------------------------------------

/// The extracted content of one file's diff between two texts.
#[derive(Debug)]
pub struct FileExtraction {
    /// Rendered unified-diff hunks, capped at `MAX_FILE_PATCH_BYTES`.
    pub patch: String,
    /// Identifier-carrying added lines (trailing white space trimmed).
    pub added_lines: Vec<String>,
    /// Identifier-carrying removed lines (trailing white space trimmed).
    pub removed_lines: Vec<String>,
    /// 1-based inclusive new-file line ranges covering added lines.
    pub added_ranges: Vec<(u32, u32)>,
    /// 1-based inclusive old-file line ranges covering removed lines.
    pub removed_ranges: Vec<(u32, u32)>,
}

/// `+line\n` for each line, then `-line\n` for each line.
pub open spec fn signed_lines(lines: Seq<Seq<char>>, sign: char) -> Seq<char>
    decreases lines.len(),
{
    if lines.len() == 0 {
        Seq::empty()
    } else {
        signed_lines(lines.drop_last(), sign) + seq![sign] + lines.last() + "\n"@
    }
}

/// The document-body section of one file.
pub open spec fn line_section(path: Seq<char>, e: FileExtraction) -> Seq<char> {
    "### "@ + path + "\n"@ + signed_lines(e.added_lines@.map_values(|s: String| s@), '+')
        + signed_lines(e.removed_lines@.map_values(|s: String| s@), '-')
}

fn push_signed(v: &mut Vec<char>, lines: &Vec<String>, sign: char)
    ensures
        final(v)@ == old(v)@ + signed_lines(lines@.map_values(|s: String| s@), sign),
{
    let ghost views = lines@.map_values(|s: String| s@);
    let ghost start = v@;
    for i in 0..lines.len()
        invariant
            views == lines@.map_values(|s: String| s@),
            v@ == start + signed_lines(views.take(i as int), sign),
    {
        assert(views.take(i + 1).drop_last() =~= views.take(i as int));
        v.push(sign);
        push_str(v, lines[i].as_str());
        push_str(v, "\n");
        assert(v@ =~= start + signed_lines(views.take(i + 1), sign));
    }
    assert(views.take(lines.len() as int) =~= views);
}

/// The document-body section for one file: identifier-carrying `+`/`-`
/// lines only.
pub fn render_line_section(path: &str, extraction: &FileExtraction) -> (r: String)
    ensures
        r@ == line_section(path@, *extraction),
{
    let mut v: Vec<char> = Vec::new();
    push_str(&mut v, "### ");
    push_str(&mut v, path);
    push_str(&mut v, "\n");
    push_signed(&mut v, &extraction.added_lines, '+');
    push_signed(&mut v, &extraction.removed_lines, '-');
    string_of(&v)
}

/// A histogram line diff of two texts, as the diff library reports it:
/// its unified-diff rendering (three lines of context, hunk sliders
/// post-processed as `git diff` does), its hunks as token ranges
/// `(before.start, before.end, after.start, after.end)`, and the line
/// tokens (terminators included) of each side.
pub uninterp spec fn histogram_diff_of(before: Seq<char>, after: Seq<char>) -> (
    Seq<char>,
    Seq<(u32, u32, u32, u32)>,
    Seq<Seq<char>>,
    Seq<Seq<char>>,
);

struct DiffOutput {
    patch: String,
    hunks: Vec<(u32, u32, u32, u32)>,
    before_lines: Vec<String>,
    after_lines: Vec<String>,
}

/// Fewer line tokens than the diff library accepts on one side: it splits
/// a text after each `\n`, and refuses `i32::MAX` tokens or more.
pub open spec fn diffable(text: Seq<char>) -> bool {
    newline_count(encode_utf8(text)) + 1 < i32::MAX
}

/// `imara_diff`'s line diff of two texts: one deterministic operation of
/// that crate made of several calls (`InternedInput::new`,
/// `Diff::compute` with the histogram algorithm, `postprocess_lines`,
/// `unified_diff`, `hunks` and the interner's token texts). The result is
/// named, not stated. `Diff::compute` panics at `i32::MAX` tokens on a
/// side, hence the bound.
#[verifier::external_body]
fn histogram_diff(before: &str, after: &str) -> (r: DiffOutput)
    requires
        diffable(before@),
        diffable(after@),
    ensures
        (r.patch@, r.hunks@, r.before_lines@.map_values(|s: String| s@), r.after_lines@.map_values(
            |s: String| s@,
        )) == histogram_diff_of(before@, after@),
{
    let input = InternedInput::new(before, after);
    let mut diff = Diff::compute(Algorithm::Histogram, &input);
    diff.postprocess_lines(&input);
    let printer = BasicLineDiffPrinter(&input.interner);
    let patch = diff.unified_diff(&printer, UnifiedDiffConfig::default(), &input).to_string();
    let hunks = diff.hunks().map(|h| (h.before.start, h.before.end, h.after.start, h.after.end));
    let side = |tokens: &[Token]| tokens.iter().map(|t| input.interner[*t].to_string()).collect();
    DiffOutput { patch, hunks: hunks.collect(), before_lines: side(&input.before), after_lines: side(&input.after) }
}

/// The 1-based inclusive ranges of the non-empty sides `(start, end)`.
pub open spec fn side_ranges(sides: Seq<(u32, u32)>) -> Seq<(u32, u32)>
    decreases sides.len(),
{
    if sides.len() == 0 {
        Seq::empty()
    } else {
        let prev = side_ranges(sides.drop_last());
        let (s, e) = sides.last();
        if s < e {
            prev.push(((s + 1) as u32, e))
        } else {
            prev
        }
    }
}

/// Lines `i..e` of `tokens` appended to `sink` while it has room: each
/// with trailing white space trimmed, identifier-ish ones only.
pub open spec fn collect_range(sink: Seq<Seq<char>>, tokens: Seq<Seq<char>>, i: int, e: int) -> Seq<
    Seq<char>,
>
    decreases e - i,
{
    if i >= e || sink.len() >= MAX_BODY_LINES_PER_FILE {
        sink
    } else {
        let l = trim_end(tokens[i]);
        let next = if identifierish(l) {
            sink.push(l)
        } else {
            sink
        };
        collect_range(next, tokens, i + 1, e)
    }
}

/// The changed lines of one side over all hunk ranges of that side.
pub open spec fn collect_sides(tokens: Seq<Seq<char>>, sides: Seq<(u32, u32)>) -> Seq<Seq<char>>
    decreases sides.len(),
{
    if sides.len() == 0 {
        Seq::empty()
    } else {
        let prev = collect_sides(tokens, sides.drop_last());
        let (s, e) = sides.last();
        if s <= e && e <= tokens.len() {
            collect_range(prev, tokens, s as int, e as int)
        } else {
            prev
        }
    }
}

/// The `before` sides of hunks.
pub open spec fn before_sides(hunks: Seq<(u32, u32, u32, u32)>) -> Seq<(u32, u32)> {
    hunks.map_values(|h: (u32, u32, u32, u32)| (h.0, h.1))
}

/// The `after` sides of hunks.
pub open spec fn after_sides(hunks: Seq<(u32, u32, u32, u32)>) -> Seq<(u32, u32)> {
    hunks.map_values(|h: (u32, u32, u32, u32)| (h.2, h.3))
}

fn collect_lines(tokens: &Vec<String>, start: u32, end: u32, sink: &mut Vec<String>)
    ensures
        final(sink)@.map_values(|s: String| s@) == if start <= end && end <= tokens@.len() {
            collect_range(
                old(sink)@.map_values(|s: String| s@),
                tokens@.map_values(|s: String| s@),
                start as int,
                end as int,
            )
        } else {
            old(sink)@.map_values(|s: String| s@)
        },
{
    if start > end || end as usize > tokens.len() {
        return;
    }
    let ghost tv = tokens@.map_values(|s: String| s@);
    let ghost target = collect_range(sink@.map_values(|s: String| s@), tv, start as int, end as int);
    let mut i = start as usize;
    while i < end as usize
        invariant
            start as int <= i <= end,
            end <= tokens@.len(),
            tv == tokens@.map_values(|s: String| s@),
            target == collect_range(sink@.map_values(|s: String| s@), tv, i as int, end as int),
            target == collect_range(
                old(sink)@.map_values(|s: String| s@),
                tv,
                start as int,
                end as int,
            ),
        decreases end - i,
    {
        if sink.len() >= MAX_BODY_LINES_PER_FILE {
            assert(sink@.map_values(|s: String| s@).len() >= MAX_BODY_LINES_PER_FILE);
            return;
        }
        let line = string_of(&trim_end_chars(&chars_of(tokens[i].as_str())));
        assert(line@ == trim_end(tv[i as int]));
        if is_identifierish(line.as_str()) {
            let ghost before = sink@;
            sink.push(line);
            assert(sink@.map_values(|s: String| s@) =~= before.map_values(|s: String| s@).push(
                trim_end(tv[i as int]),
            ));
        }
        i = i + 1;
    }
}

/// `extraction` is the reduction of the diff of `before` and `after`.
pub open spec fn extraction_of(before: Seq<char>, after: Seq<char>, e: FileExtraction) -> bool {
    let (patch, hunks, before_lines, after_lines) = histogram_diff_of(before, after);
    &&& e.patch@ == truncate_text(patch, MAX_FILE_PATCH_BYTES as nat, "… [diff truncated]\n"@)
    &&& e.removed_ranges@ == side_ranges(before_sides(hunks))
    &&& e.added_ranges@ == side_ranges(after_sides(hunks))
    &&& e.removed_lines@.map_values(|s: String| s@) == collect_sides(
        before_lines,
        before_sides(hunks),
    )
    &&& e.added_lines@.map_values(|s: String| s@) == collect_sides(after_lines, after_sides(hunks))
}

/// Histogram-diff two file texts, render the capped unified hunks, and
/// collect the identifier-carrying changed lines plus their line ranges.
pub fn diff_texts(before: &str, after: &str) -> (r: FileExtraction)
    requires
        diffable(before@),
        diffable(after@),
    ensures
        extraction_of(before@, after@, r),
{
    let d = histogram_diff(before, after);
    let mut patch = d.patch;
    truncate_utf8(&mut patch, MAX_FILE_PATCH_BYTES, "… [diff truncated]\n");
    let mut extraction = FileExtraction {
        patch,
        added_lines: Vec::new(),
        removed_lines: Vec::new(),
        added_ranges: Vec::new(),
        removed_ranges: Vec::new(),
    };
    let ghost hs = d.hunks@;
    let ghost capped = extraction.patch@;
    for k in 0..d.hunks.len()
        invariant
            hs == d.hunks@,
            extraction.patch@ == capped,
            extraction.removed_ranges@ == side_ranges(before_sides(hs.take(k as int))),
            extraction.added_ranges@ == side_ranges(after_sides(hs.take(k as int))),
            extraction.removed_lines@.map_values(|s: String| s@) == collect_sides(
                d.before_lines@.map_values(|s: String| s@),
                before_sides(hs.take(k as int)),
            ),
            extraction.added_lines@.map_values(|s: String| s@) == collect_sides(
                d.after_lines@.map_values(|s: String| s@),
                after_sides(hs.take(k as int)),
            ),
    {
        let (bs, be, a_s, ae) = d.hunks[k];
        proof {
            assert(before_sides(hs.take(k + 1)).drop_last() =~= before_sides(hs.take(k as int)));
            assert(after_sides(hs.take(k + 1)).drop_last() =~= after_sides(hs.take(k as int)));
            assert(before_sides(hs.take(k + 1)).last() == (bs, be));
            assert(after_sides(hs.take(k + 1)).last() == (a_s, ae));
        }
        if bs < be {
            extraction.removed_ranges.push((bs + 1, be));
        }
        if a_s < ae {
            extraction.added_ranges.push((a_s + 1, ae));
        }
        collect_lines(&d.before_lines, bs, be, &mut extraction.removed_lines);
        collect_lines(&d.after_lines, a_s, ae, &mut extraction.added_lines);
    }
    assert(hs.take(hs.len() as int) =~= hs);
    let ghost dv = histogram_diff_of(before@, after@);
    assert(dv.1 == hs);
    assert(dv.2 == d.before_lines@.map_values(|s: String| s@));
    assert(dv.3 == d.after_lines@.map_values(|s: String| s@));
    extraction
}


// ---- commit documents ---------------------------------------------------------------

/// Files past this count still list their path but contribute no patch
/// section, which bounds mass commits.
pub const MAX_PATCHED_FILES_PER_COMMIT: usize = 512;
/// Whole-body cap for one commit document; the artifact keeps the full
/// patch.
pub const MAX_DOCUMENT_BODY_BYTES: usize = 16384;
/// Commit-message bytes folded into the document body.
pub const MAX_MESSAGE_BYTES: usize = 1024;
/// Evidence addresses kept per commit document.
pub const MAX_EVIDENCE_PER_COMMIT: usize = 128;

/// What the commit walk does with one changed path.
#[derive(Debug, PartialEq, Eq)]
pub enum ChangeAction {
    /// A credential-shaped name: neither the path nor its content enters
    /// a history document.
    Withhold,
    /// Listed with this note, not diffed.
    List(String),
    /// Both sides are loaded and diffed.
    Extract,
}

/// The note a kept path is listed with instead of being diffed: the
/// built-in skip reason, then the ignore rules, then the patch budget.
pub open spec fn skip_note(path: Seq<char>, ignored: bool, patched_files: nat) -> Option<Seq<char>> {
    match skip_reason(final_component(path)) {
        Some(reason) => Some(path + " ("@ + reason + ")"@),
        None => if ignored {
            Some(path + " (ignored)"@)
        } else if patched_files >= MAX_PATCHED_FILES_PER_COMMIT {
            Some(path + " (patch budget exhausted)"@)
        } else {
            None
        },
    }
}

/// Decides one changed path of a commit, given whether the ignore rules
/// match it and how many files were diffed so far.
pub fn classify_change(path: &str, include_sensitive: bool, ignored: bool, patched_files: usize) -> (r:
    ChangeAction)
    ensures
        (r == ChangeAction::Withhold) == (!include_sensitive && is_sensitive(final_component(path@))),
        r matches ChangeAction::List(note) ==> skip_note(path@, ignored, patched_files as nat) == Some(
            note@,
        ),
        r == ChangeAction::Extract ==> skip_note(path@, ignored, patched_files as nat) is None,
        r != ChangeAction::Withhold ==> (r == ChangeAction::Extract <==> skip_note(
            path@,
            ignored,
            patched_files as nat,
        ) is None),
{
    let name = basename(path);
    if !include_sensitive && is_sensitive_name(name.as_str()) {
        return ChangeAction::Withhold;
    }
    let mut note: Vec<char> = Vec::new();
    push_str(&mut note, path);
    match builtin_skip_reason(name.as_str()) {
        Some(reason) => {
            push_str(&mut note, " (");
            push_str(&mut note, reason);
            push_str(&mut note, ")");
        },
        None => {
            if ignored {
                push_str(&mut note, " (ignored)");
            } else if patched_files >= MAX_PATCHED_FILES_PER_COMMIT {
                push_str(&mut note, " (patch budget exhausted)");
            } else {
                return ChangeAction::Extract;
            }
        },
    }
    ChangeAction::List(string_of(&note))
}

/// What became of one kept path.
#[derive(Debug)]
pub enum FileOutcome {
    /// Listed with this note only.
    Listed(String),
    /// Diffed; `before`/`after` say which sides exist.
    Diffed { path: String, before: bool, after: bool, extraction: FileExtraction },
    /// A side could not be loaded, for this reason.
    Failed { path: String, reason: String },
}

/// How a path appears in the changed-paths list.
pub open spec fn outcome_note(o: FileOutcome) -> Seq<char> {
    match o {
        FileOutcome::Listed(note) => note@,
        FileOutcome::Diffed { path, .. } => path@,
        FileOutcome::Failed { path, reason } => path@ + " ("@ + reason@ + ")"@,
    }
}

/// The `diff --git` and `---`/`+++` header lines of one file.
pub open spec fn patch_header(path: Seq<char>, before: bool, after: bool) -> Seq<char> {
    "diff --git a/"@ + path + " b/"@ + path + "\n"@ + (if !before && after {
        "--- /dev/null\n+++ b/"@ + path
    } else if before && !after {
        "--- a/"@ + path + "\n+++ /dev/null"@
    } else {
        "--- a/"@ + path + "\n+++ b/"@ + path
    }) + "\n"@
}

/// The commit's patch: each diffed file's header and hunks, in order.
pub open spec fn commit_patch(files: Seq<FileOutcome>) -> Seq<char>
    decreases files.len(),
{
    if files.len() == 0 {
        Seq::empty()
    } else {
        commit_patch(files.drop_last()) + match files.last() {
            FileOutcome::Diffed { path, before, after, extraction } => patch_header(
                path@,
                before,
                after,
            ) + extraction.patch@,
            _ => Seq::empty(),
        }
    }
}

/// The changed-paths list: `- note` lines.
pub open spec fn notes_block(files: Seq<FileOutcome>) -> Seq<char>
    decreases files.len(),
{
    if files.len() == 0 {
        Seq::empty()
    } else {
        notes_block(files.drop_last()) + "- "@ + outcome_note(files.last()) + "\n"@
    }
}

/// The line sections of the diffed files, concatenated.
pub open spec fn sections_block(files: Seq<FileOutcome>) -> Seq<char>
    decreases files.len(),
{
    if files.len() == 0 {
        Seq::empty()
    } else {
        sections_block(files.drop_last()) + match files.last() {
            FileOutcome::Diffed { path, extraction, .. } => line_section(path@, extraction),
            _ => Seq::empty(),
        }
    }
}

/// Some file was diffed.
pub open spec fn any_diffed(files: Seq<FileOutcome>) -> bool {
    exists|i: int| 0 <= i < files.len() && #[trigger] files[i] is Diffed
}

/// The smallest start and largest end of non-empty `ranges`.
pub open spec fn range_span(ranges: Seq<(u32, u32)>) -> (u32, u32)
    decreases ranges.len(),
{
    if ranges.len() <= 1 {
        ranges[0]
    } else {
        let (s, e) = range_span(ranges.drop_last());
        let (s2, e2) = ranges.last();
        (if s2 < s {
            s2
        } else {
            s
        }, if e2 > e {
            e2
        } else {
            e
        })
    }
}

/// One covering `(path, first line, last line)` for a side's ranges,
/// while fewer than `MAX_EVIDENCE_PER_COMMIT` are kept.
pub open spec fn side_evidence(
    kept: Seq<(Seq<char>, u32, u32)>,
    path: Seq<char>,
    ranges: Seq<(u32, u32)>,
) -> Seq<(Seq<char>, u32, u32)> {
    if ranges.len() == 0 || kept.len() >= MAX_EVIDENCE_PER_COMMIT {
        kept
    } else {
        kept.push((path, range_span(ranges).0, range_span(ranges).1))
    }
}

/// The evidence of a commit: per diffed file, its added side, then its
/// removed side.
pub open spec fn commit_evidence(files: Seq<FileOutcome>) -> Seq<(Seq<char>, u32, u32)>
    decreases files.len(),
{
    if files.len() == 0 {
        Seq::empty()
    } else {
        let kept = commit_evidence(files.drop_last());
        match files.last() {
            FileOutcome::Diffed { path, extraction, .. } => side_evidence(
                side_evidence(kept, path@, extraction.added_ranges@),
                path@,
                extraction.removed_ranges@,
            ),
            _ => kept,
        }
    }
}

/// The decimal spelling of a signed number.
pub open spec fn signed_decimal(t: int) -> Seq<char> {
    if t < 0 {
        "-"@ + decimal((-t) as nat)
    } else {
        decimal(t as nat)
    }
}

/// The first line of `s`, empty when it has none.
pub open spec fn first_line(s: Seq<char>) -> Seq<char> {
    if lines_of(s).len() > 0 {
        lines_of(s)[0]
    } else {
        Seq::empty()
    }
}

/// The commit document body before its cap: id, date, the capped message,
/// the changed paths and, when any file was diffed, its diff lines.
pub open spec fn commit_body_text(
    id: Seq<char>,
    message: Seq<char>,
    timestamp: int,
    files: Seq<FileOutcome>,
) -> Seq<char> {
    "commit "@ + id + "\ndate: "@ + signed_decimal(timestamp) + "\n\n"@ + truncate_text(
        message,
        MAX_MESSAGE_BYTES as nat,
        Seq::empty(),
    ) + "\n\nchanged paths:\n"@ + notes_block(files) + if any_diffed(files) {
        "\ndiff lines:\n"@ + sections_block(files)
    } else {
        Seq::empty()
    }
}

/// One commit's diff content prepared for indexing: `body` feeds full-text
/// search while `patch` carries the unified diff for the artifact store.
#[derive(Debug)]
pub struct CommitDiff {
    /// Full commit id (hex).
    pub id: String,
    /// Committer timestamp, seconds since the epoch.
    pub timestamp: i64,
    /// First line of the commit message.
    pub subject: String,
    /// Document body: message, changed paths, identifier-ish diff lines.
    pub body: String,
    /// Per-file patch sections.
    pub patch: String,
    /// One covering address per changed file side.
    pub evidence: Vec<SourceAddress>,
}

/// Appends the decimal spelling of a signed number.
pub fn push_signed_decimal(v: &mut Vec<char>, t: i64)
    ensures
        final(v)@ == old(v)@ + signed_decimal(t as int),
{
    if t < 0 {
        v.push('-');
        let magnitude: u64 = (-(t as i128)) as u64;
        push_decimal(v, magnitude);
        proof {
            reveal_strlit("-");
        }
        assert(final(v)@ =~= old(v)@ + signed_decimal(t as int)) by {
            reveal_strlit("-");
        }
    } else {
        push_decimal(v, t as u64);
    }
}

fn span_of(ranges: &Vec<(u32, u32)>) -> (r: (u32, u32))
    requires
        ranges@.len() > 0,
    ensures
        r == range_span(ranges@),
{
    let mut span = ranges[0];
    assert(ranges@.take(1) =~= seq![ranges@[0]]);
    for i in 1..ranges.len()
        invariant
            ranges@.len() > 0,
            span == range_span(ranges@.take(i as int)),
    {
        let (s2, e2) = ranges[i];
        assert(ranges@.take(i + 1).drop_last() =~= ranges@.take(i as int));
        assert(ranges@.take(i + 1).last() == (s2, e2));
        let s = if s2 < span.0 {
            s2
        } else {
            span.0
        };
        let e = if e2 > span.1 {
            e2
        } else {
            span.1
        };
        span = (s, e);
    }
    assert(ranges@.take(ranges@.len() as int) =~= ranges@);
    span
}

/// The evidence addresses of `kept` in `repository_id`/`snapshot_id`:
/// whole-line ranges without byte offsets.
pub open spec fn addresses_match(
    evidence: Seq<SourceAddress>,
    repository_id: Seq<char>,
    snapshot_id: Seq<char>,
    kept: Seq<(Seq<char>, u32, u32)>,
) -> bool {
    &&& evidence.len() == kept.len()
    &&& forall|i: int|
        0 <= i < evidence.len() ==> {
            let a = #[trigger] evidence[i];
            &&& a.repository_id@ == repository_id
            &&& a.snapshot_id@ == snapshot_id
            &&& a.path@ == kept[i].0
            &&& a.start_byte == 0 && a.end_byte == 0
            &&& a.start_line == kept[i].1 && a.end_line == kept[i].2
            &&& a.symbol_id is None
        }
}

fn push_side_evidence(
    evidence: &mut Vec<SourceAddress>,
    repository_id: &str,
    snapshot_id: &str,
    path: &str,
    ranges: &Vec<(u32, u32)>,
    Ghost(kept): Ghost<Seq<(Seq<char>, u32, u32)>>,
)
    requires
        addresses_match(old(evidence)@, repository_id@, snapshot_id@, kept),
    ensures
        addresses_match(final(evidence)@, repository_id@, snapshot_id@, side_evidence(kept, path@, ranges@)),
{
    if ranges.len() == 0 || evidence.len() >= MAX_EVIDENCE_PER_COMMIT {
        return;
    }
    let (start, end) = span_of(ranges);
    evidence.push(SourceAddress {
        repository_id: owned(repository_id),
        snapshot_id: owned(snapshot_id),
        path: owned(path),
        start_byte: 0,
        end_byte: 0,
        start_line: start,
        end_line: end,
        symbol_id: None,
    });
    let ghost next = side_evidence(kept, path@, ranges@);
    assert forall|i: int| 0 <= i < evidence@.len() implies {
        let a = #[trigger] evidence@[i];
        &&& a.repository_id@ == repository_id@
        &&& a.snapshot_id@ == snapshot_id@
        &&& a.path@ == next[i].0
        &&& a.start_byte == 0 && a.end_byte == 0
        &&& a.start_line == next[i].1 && a.end_line == next[i].2
        &&& a.symbol_id is None
    } by {
        if i < kept.len() {
            assert(evidence@[i] == old(evidence)@[i]);
        }
    }
}

fn push_patch_header(patch: &mut Vec<char>, path: &str, has_before: bool, has_after: bool)
    ensures
        final(patch)@ == old(patch)@ + patch_header(path@, has_before, has_after),
{
    let ghost start = patch@;
    push_str(patch, "diff --git a/");
    push_str(patch, path);
    push_str(patch, " b/");
    push_str(patch, path);
    push_str(patch, "\n");
    if !has_before && has_after {
        push_str(patch, "--- /dev/null\n+++ b/");
        push_str(patch, path);
    } else if has_before && !has_after {
        push_str(patch, "--- a/");
        push_str(patch, path);
        push_str(patch, "\n+++ /dev/null");
    } else {
        push_str(patch, "--- a/");
        push_str(patch, path);
        push_str(patch, "\n+++ b/");
        push_str(patch, path);
    }
    push_str(patch, "\n");
    assert(patch@ =~= start + patch_header(path@, has_before, has_after));
}

fn patch_of(files: &Vec<FileOutcome>) -> (r: Vec<char>)
    ensures
        r@ == commit_patch(files@),
{
    let mut patch: Vec<char> = Vec::new();
    for i in 0..files.len()
        invariant
            patch@ == commit_patch(files@.take(i as int)),
    {
        assert(files@.take(i + 1).drop_last() =~= files@.take(i as int));
        assert(files@.take(i + 1).last() == files@[i as int]);
        let ghost before = patch@;
        match &files[i] {
            FileOutcome::Diffed { path, before: has_before, after: has_after, extraction } => {
                push_patch_header(&mut patch, path.as_str(), *has_before, *has_after);
                push_str(&mut patch, extraction.patch.as_str());
                assert(patch@ =~= before + patch_header(path@, *has_before, *has_after)
                    + extraction.patch@);
            },
            _ => {
                assert(patch@ =~= before + Seq::<char>::empty());
            },
        }
    }
    assert(files@.take(files@.len() as int) =~= files@);
    patch
}

fn notes_of(files: &Vec<FileOutcome>) -> (r: Vec<char>)
    ensures
        r@ == notes_block(files@),
{
    let mut notes: Vec<char> = Vec::new();
    for i in 0..files.len()
        invariant
            notes@ == notes_block(files@.take(i as int)),
    {
        assert(files@.take(i + 1).drop_last() =~= files@.take(i as int));
        assert(files@.take(i + 1).last() == files@[i as int]);
        let ghost before = notes@;
        push_str(&mut notes, "- ");
        match &files[i] {
            FileOutcome::Listed(note) => {
                push_str(&mut notes, note.as_str());
            },
            FileOutcome::Diffed { path, .. } => {
                push_str(&mut notes, path.as_str());
            },
            FileOutcome::Failed { path, reason } => {
                push_str(&mut notes, path.as_str());
                push_str(&mut notes, " (");
                push_str(&mut notes, reason.as_str());
                push_str(&mut notes, ")");
            },
        }
        push_str(&mut notes, "\n");
        assert(notes@ =~= before + "- "@ + outcome_note(files@[i as int]) + "\n"@);
    }
    assert(files@.take(files@.len() as int) =~= files@);
    notes
}

fn sections_of(files: &Vec<FileOutcome>) -> (r: (Vec<char>, bool))
    ensures
        r.0@ == sections_block(files@),
        r.1 == any_diffed(files@),
{
    let mut sections: Vec<char> = Vec::new();
    let mut diffed = false;
    for i in 0..files.len()
        invariant
            sections@ == sections_block(files@.take(i as int)),
            diffed == any_diffed(files@.take(i as int)),
    {
        let ghost prefix = files@.take(i as int);
        let ghost next = files@.take(i + 1);
        assert(next.drop_last() =~= prefix);
        assert(next.last() == files@[i as int]);
        let ghost before = sections@;
        match &files[i] {
            FileOutcome::Diffed { path, extraction, .. } => {
                let section = render_line_section(path.as_str(), extraction);
                push_str(&mut sections, section.as_str());
                diffed = true;
                assert(next[i as int] is Diffed);
            },
            _ => {
                assert(sections@ =~= before + Seq::<char>::empty());
                proof {
                    if any_diffed(next) {
                        let k = choose|k: int| 0 <= k < next.len() && #[trigger] next[k] is Diffed;
                        assert(prefix[k] is Diffed);
                    }
                }
            },
        }
        proof {
            if any_diffed(prefix) {
                let k = choose|k: int| 0 <= k < prefix.len() && #[trigger] prefix[k] is Diffed;
                assert(next[k] is Diffed);
            }
        }
    }
    assert(files@.take(files@.len() as int) =~= files@);
    (sections, diffed)
}

fn evidence_of(files: &Vec<FileOutcome>, repository_id: &str, snapshot_id: &str) -> (r: Vec<
    SourceAddress,
>)
    ensures
        addresses_match(r@, repository_id@, snapshot_id@, commit_evidence(files@)),
{
    let mut evidence: Vec<SourceAddress> = Vec::new();
    for i in 0..files.len()
        invariant
            addresses_match(
                evidence@,
                repository_id@,
                snapshot_id@,
                commit_evidence(files@.take(i as int)),
            ),
    {
        let ghost prefix = files@.take(i as int);
        assert(files@.take(i + 1).drop_last() =~= prefix);
        assert(files@.take(i + 1).last() == files@[i as int]);
        let ghost kept = commit_evidence(prefix);
        match &files[i] {
            FileOutcome::Diffed { path, extraction, .. } => {
                push_side_evidence(
                    &mut evidence,
                    repository_id,
                    snapshot_id,
                    path.as_str(),
                    &extraction.added_ranges,
                    Ghost(kept),
                );
                push_side_evidence(
                    &mut evidence,
                    repository_id,
                    snapshot_id,
                    path.as_str(),
                    &extraction.removed_ranges,
                    Ghost(side_evidence(kept, path@, extraction.added_ranges@)),
                );
            },
            _ => {},
        }
    }
    assert(files@.take(files@.len() as int) =~= files@);
    evidence
}

/// Assembles one commit document from what became of each kept path:
/// the patch of the diffed files, one covering evidence address per
/// changed side, and the capped body and subject.
pub fn assemble_commit_diff(
    commit_id: &str,
    message: &str,
    timestamp: i64,
    repository_id: &str,
    snapshot_id: &str,
    files: &Vec<FileOutcome>,
) -> (r: CommitDiff)
    ensures
        r.id@ == commit_id@,
        r.timestamp == timestamp,
        r.patch@ == commit_patch(files@),
        addresses_match(r.evidence@, repository_id@, snapshot_id@, commit_evidence(files@)),
        r.body@ == truncate_text(
            commit_body_text(commit_id@, message@, timestamp as int, files@),
            MAX_DOCUMENT_BODY_BYTES as nat,
            "\n… [document body truncated]\n"@,
        ),
        r.subject@ == truncate_text(
            first_line(truncate_text(message@, MAX_MESSAGE_BYTES as nat, Seq::empty())),
            160,
            "…"@,
        ),
{
    let patch = patch_of(files);
    let notes = notes_of(files);
    let (sections, diffed) = sections_of(files);
    let evidence = evidence_of(files, repository_id, snapshot_id);
    let mut msg = owned(message);
    truncate_utf8(&mut msg, MAX_MESSAGE_BYTES, "");
    proof {
        reveal_strlit("");
    }
    let mut body: Vec<char> = Vec::new();
    push_str(&mut body, "commit ");
    push_str(&mut body, commit_id);
    push_str(&mut body, "\ndate: ");
    push_signed_decimal(&mut body, timestamp);
    push_str(&mut body, "\n\n");
    push_str(&mut body, msg.as_str());
    push_str(&mut body, "\n\nchanged paths:\n");
    push_all(&mut body, &notes);
    if diffed {
        push_str(&mut body, "\ndiff lines:\n");
        push_all(&mut body, &sections);
    }
    let mut body_text = string_of(&body);
    proof {
        let expected = commit_body_text(commit_id@, message@, timestamp as int, files@);
        assert(body_text@ =~= expected);
    }
    truncate_utf8(&mut body_text, MAX_DOCUMENT_BODY_BYTES, "\n… [document body truncated]\n");
    let msg_lines = lines(&chars_of(msg.as_str()));
    let mut subject = if msg_lines.len() > 0 {
        string_of(&msg_lines[0])
    } else {
        string_of(&Vec::new())
    };
    truncate_utf8(&mut subject, 160, "…");
    CommitDiff {
        id: owned(commit_id),
        timestamp,
        subject,
        body: body_text,
        patch: string_of(&patch),
        evidence,
    }
}


// ---- commit diff pipeline -------------------------------------------------------------

/// Blobs larger than this are listed, not diffed.
pub const MAX_DIFF_BLOB_BYTES: usize = 204800;

/// The text of one side of a change: empty when the side does not exist,
/// refused as `too large` or `binary` otherwise.
pub open spec fn blob_text_of(bytes: Option<Seq<u8>>) -> Result<Seq<char>, Seq<char>> {
    match bytes {
        None => Ok(Seq::empty()),
        Some(b) => if b.len() > MAX_DIFF_BLOB_BYTES {
            Err("too large"@)
        } else if probably_binary(b) {
            Err("binary"@)
        } else {
            Ok(decode_utf8(b))
        },
    }
}

/// A loaded blob's text is small enough to diff.
proof fn lemma_blob_text_diffable(bytes: Option<Seq<u8>>)
    ensures
        blob_text_of(bytes) matches Ok(t) ==> diffable(t),
{
    match bytes {
        None => {
            assert(encode_utf8(Seq::<char>::empty()) =~= Seq::<u8>::empty());
        },
        Some(b) => {
            if b.len() <= MAX_DIFF_BLOB_BYTES && !probably_binary(b) && vstd::utf8::valid_utf8(b) {
                vstd::utf8::decode_utf8_encode_utf8(b);
                lemma_newline_count_le_len(b);
            }
        },
    }
}

/// A blob's UTF-8 text, or the empty text when the side does not exist;
/// `Err` gives the short reason recorded next to the path.
pub fn load_text(bytes: &Option<Vec<u8>>) -> (r: Result<String, &'static str>)
    ensures
        match r {
            Ok(t) => blob_text_of(opt_bytes(*bytes)) == Ok::<Seq<char>, Seq<char>>(t@),
            Err(reason) => blob_text_of(opt_bytes(*bytes)) == Err::<Seq<char>, Seq<char>>(
                reason@,
            ),
        },
{
    match bytes {
        None => Ok(string_of(&Vec::new())),
        Some(b) => {
            if b.len() > MAX_DIFF_BLOB_BYTES {
                return Err("too large");
            }
            if is_probably_binary(b.as_slice()) {
                return Err("binary");
            }
            match utf8_text(b.as_slice()) {
                Some(t) => Ok(t),
                None => Err("binary"),
            }
        },
    }
}

/// Optional bytes as an optional byte sequence.
pub open spec fn opt_bytes(b: Option<Vec<u8>>) -> Option<Seq<u8>> {
    match b {
        Some(v) => Some(v@),
        None => None,
    }
}

/// One changed path of a commit against its first parent: the bytes of
/// each side that exists, and whether the history ignore rules match it.
#[derive(Debug)]
pub struct TreeChange {
    pub path: String,
    pub before: Option<Vec<u8>>,
    pub after: Option<Vec<u8>>,
    pub ignored: bool,
}

/// `files` is what becomes of `changes`, with `patched` files diffed
/// before them: withheld paths vanish, skipped ones are listed, the rest
/// are diffed or listed with the reason a side could not be loaded.
pub open spec fn outcomes_from(
    changes: Seq<TreeChange>,
    include_sensitive: bool,
    patched: nat,
    files: Seq<FileOutcome>,
) -> bool
    decreases changes.len(),
{
    if changes.len() == 0 {
        files.len() == 0
    } else {
        let c = changes[0];
        let rest = changes.drop_first();
        if !include_sensitive && is_sensitive(final_component(c.path@)) {
            outcomes_from(rest, include_sensitive, patched, files)
        } else if files.len() == 0 {
            false
        } else {
            let tail = files.drop_first();
            match skip_note(c.path@, c.ignored, patched) {
                Some(note) => files[0] matches FileOutcome::Listed(n) && n@ == note && outcomes_from(
                    rest,
                    include_sensitive,
                    patched,
                    tail,
                ),
                None => match (blob_text_of(opt_bytes(c.before)), blob_text_of(opt_bytes(c.after))) {
                    (Ok(b), Ok(a)) => {
                        &&& files[0] matches FileOutcome::Diffed { path, before, after, extraction }
                            && path@ == c.path@ && before == c.before is Some && after
                            == c.after is Some && extraction_of(b, a, extraction)
                        &&& outcomes_from(rest, include_sensitive, patched + 1, tail)
                    },
                    (Err(reason), _) => files[0] matches FileOutcome::Failed { path, reason: r }
                        && path@ == c.path@ && r@ == reason && outcomes_from(
                        rest,
                        include_sensitive,
                        patched,
                        tail,
                    ),
                    (Ok(_), Err(reason)) => files[0] matches FileOutcome::Failed { path, reason: r }
                        && path@ == c.path@ && r@ == reason && outcomes_from(
                        rest,
                        include_sensitive,
                        patched,
                        tail,
                    ),
                },
            }
        }
    }
}

/// `d` is the commit document of `files`.
pub open spec fn commit_diff_of(
    d: CommitDiff,
    commit_id: Seq<char>,
    message: Seq<char>,
    timestamp: i64,
    repository_id: Seq<char>,
    snapshot_id: Seq<char>,
    files: Seq<FileOutcome>,
) -> bool {
    &&& d.id@ == commit_id
    &&& d.timestamp == timestamp
    &&& d.patch@ == commit_patch(files)
    &&& addresses_match(d.evidence@, repository_id, snapshot_id, commit_evidence(files))
    &&& d.body@ == truncate_text(
        commit_body_text(commit_id, message, timestamp as int, files),
        MAX_DOCUMENT_BODY_BYTES as nat,
        "\n… [document body truncated]\n"@,
    )
    &&& d.subject@ == truncate_text(
        first_line(truncate_text(message, MAX_MESSAGE_BYTES as nat, Seq::empty())),
        160,
        "…"@,
    )
}

/// Loads and diffs both sides of a change.
pub fn extract_file(change: &TreeChange) -> (r: Result<FileExtraction, &'static str>)
    ensures
        match (blob_text_of(opt_bytes(change.before)), blob_text_of(opt_bytes(change.after))) {
            (Ok(b), Ok(a)) => r matches Ok(e) && extraction_of(b, a, e),
            (Err(reason), _) => r matches Err(x) && x@ == reason,
            (Ok(_), Err(reason)) => r matches Err(x) && x@ == reason,
        },
{
    let before = match load_text(&change.before) {
        Ok(t) => t,
        Err(reason) => return Err(reason),
    };
    let after = match load_text(&change.after) {
        Ok(t) => t,
        Err(reason) => return Err(reason),
    };
    proof {
        lemma_blob_text_diffable(opt_bytes(change.before));
        lemma_blob_text_diffable(opt_bytes(change.after));
    }
    Ok(diff_texts(before.as_str(), after.as_str()))
}

/// One commit's document from its changed paths: credential-shaped paths
/// withheld, skipped ones listed with their reason, at most
/// `MAX_PATCHED_FILES_PER_COMMIT` files diffed, then assembled.
pub fn build_commit_diff(
    commit_id: &str,
    message: &str,
    timestamp: i64,
    repository_id: &str,
    snapshot_id: &str,
    include_sensitive: bool,
    changes: &Vec<TreeChange>,
) -> (r: CommitDiff)
    ensures
        exists|files: Seq<FileOutcome>|
            outcomes_from(changes@, include_sensitive, 0, files) && commit_diff_of(
                r,
                commit_id@,
                message@,
                timestamp,
                repository_id@,
                snapshot_id@,
                files,
            ),
{
    let mut files: Vec<FileOutcome> = Vec::new();
    let mut patched: usize = 0;
    assert forall|rest: Seq<FileOutcome>|
        outcomes_from(changes@.skip(0), include_sensitive, 0, rest) implies #[trigger] outcomes_from(
        changes@,
        include_sensitive,
        0,
        files@ + rest,
    ) by {
        assert(changes@.skip(0) =~= changes@);
        assert(files@ + rest =~= rest);
    }
    for i in 0..changes.len()
        invariant
            patched <= i,
            forall|rest: Seq<FileOutcome>|
                outcomes_from(changes@.skip(i as int), include_sensitive, patched as nat, rest)
                    ==> #[trigger] outcomes_from(changes@, include_sensitive, 0, files@ + rest),
    {
        let c = &changes[i];
        let ghost built = files@;
        let ghost here = changes@.skip(i as int);
        assert(here[0] == changes@[i as int]);
        assert(here.drop_first() =~= changes@.skip(i + 1));
        match classify_change(c.path.as_str(), include_sensitive, c.ignored, patched) {
            ChangeAction::Withhold => {
                assert forall|rest: Seq<FileOutcome>|
                    outcomes_from(changes@.skip(i + 1), include_sensitive, patched as nat, rest)
                        implies #[trigger] outcomes_from(changes@, include_sensitive, 0, files@ + rest) by {
                    assert(outcomes_from(here, include_sensitive, patched as nat, rest));
                }
            },
            ChangeAction::List(note) => {
                let ghost nv = note@;
                files.push(FileOutcome::Listed(note));
                assert forall|rest: Seq<FileOutcome>|
                    outcomes_from(changes@.skip(i + 1), include_sensitive, patched as nat, rest)
                        implies #[trigger] outcomes_from(changes@, include_sensitive, 0, files@ + rest) by {
                    let whole = seq![files@.last()] + rest;
                    assert(whole[0] == files@.last());
                    assert(whole.drop_first() =~= rest);
                    assert(outcomes_from(here, include_sensitive, patched as nat, whole));
                    assert(built + whole =~= files@ + rest);
                }
            },
            ChangeAction::Extract => {
                let outcome = match extract_file(c) {
                    Ok(extraction) => FileOutcome::Diffed {
                        path: copy_string(&c.path),
                        before: c.before.is_some(),
                        after: c.after.is_some(),
                        extraction,
                    },
                    Err(reason) => FileOutcome::Failed {
                        path: copy_string(&c.path),
                        reason: owned(reason),
                    },
                };
                let diffed = outcome.is_diffed();
                files.push(outcome);
                let ghost before_count = patched;
                if diffed {
                    patched = patched + 1;
                }
                assert forall|rest: Seq<FileOutcome>|
                    outcomes_from(changes@.skip(i + 1), include_sensitive, patched as nat, rest)
                        implies #[trigger] outcomes_from(changes@, include_sensitive, 0, files@ + rest) by {
                    let whole = seq![files@.last()] + rest;
                    assert(whole[0] == files@.last());
                    assert(whole.drop_first() =~= rest);
                    assert(outcomes_from(here, include_sensitive, before_count as nat, whole));
                    assert(built + whole =~= files@ + rest);
                }
            },
        }
    }
    proof {
        let ghost empty = Seq::<FileOutcome>::empty();
        assert(changes@.skip(changes@.len() as int) =~= Seq::<TreeChange>::empty());
        assert(outcomes_from(changes@.skip(changes@.len() as int), include_sensitive, patched as nat, empty));
        assert(outcomes_from(changes@, include_sensitive, 0, files@ + empty));
        assert(files@ + empty =~= files@);
        assert(outcomes_from(changes@, include_sensitive, 0, files@));
    }
    let r = assemble_commit_diff(commit_id, message, timestamp, repository_id, snapshot_id, &files);
    r
}

impl FileOutcome {
    /// Whether the file was diffed.
    pub fn is_diffed(&self) -> (r: bool)
        ensures
            r == self is Diffed,
    {
        match self {
            FileOutcome::Diffed { .. } => true,
            _ => false,
        }
    }
}


/// The changes the commit walk keeps, in order: all of them when
/// sensitive files are included, else those whose file name is not
/// credential-shaped.
pub open spec fn kept_changes(changes: Seq<TreeChange>, include_sensitive: bool) -> Seq<TreeChange>
    decreases changes.len(),
{
    if changes.len() == 0 {
        Seq::empty()
    } else {
        (if !include_sensitive && is_sensitive(final_component(changes[0].path@)) {
            Seq::empty()
        } else {
            seq![changes[0]]
        }) + kept_changes(changes.drop_first(), include_sensitive)
    }
}

/// Outcome `o` is about change `c`: it names its path.
pub open spec fn outcome_of_change(o: FileOutcome, c: TreeChange) -> bool {
    match o {
        FileOutcome::Listed(note) => is_prefix(c.path@, note@),
        FileOutcome::Diffed { path, .. } => path@ == c.path@,
        FileOutcome::Failed { path, .. } => path@ == c.path@,
    }
}

proof fn lemma_prefix_of_concat(a: Seq<char>, b: Seq<char>)
    ensures
        is_prefix(a, a + b),
{
    assert((a + b).subrange(0, a.len() as int) =~= a);
}

/// Credential-shaped paths never enter a commit document: the outcomes
/// are exactly one per kept change, in order, each about its change, and
/// without sensitive files included no kept change has a sensitive name.
pub proof fn law_withheld_paths_leave_no_trace(
    changes: Seq<TreeChange>,
    include_sensitive: bool,
    patched: nat,
    files: Seq<FileOutcome>,
)
    requires
        outcomes_from(changes, include_sensitive, patched, files),
    ensures
        files.len() == kept_changes(changes, include_sensitive).len(),
        forall|i: int|
            0 <= i < files.len() ==> outcome_of_change(
                #[trigger] files[i],
                kept_changes(changes, include_sensitive)[i],
            ),
        forall|i: int|
            0 <= i < files.len() ==> include_sensitive || !is_sensitive(
                final_component(#[trigger] kept_changes(changes, include_sensitive)[i].path@),
            ),
    decreases changes.len(),
{
    if changes.len() > 0 {
        let c = changes[0];
        let rest = changes.drop_first();
        let kept = kept_changes(changes, include_sensitive);
        let kept_rest = kept_changes(rest, include_sensitive);
        if !include_sensitive && is_sensitive(final_component(c.path@)) {
            law_withheld_paths_leave_no_trace(rest, include_sensitive, patched, files);
            assert(kept =~= kept_rest);
        } else {
            let tail = files.drop_first();
            let next_patched = match skip_note(c.path@, c.ignored, patched) {
                Some(_) => patched,
                None => match (blob_text_of(opt_bytes(c.before)), blob_text_of(opt_bytes(c.after))) {
                    (Ok(_), Ok(_)) => patched + 1,
                    _ => patched,
                },
            };
            law_withheld_paths_leave_no_trace(rest, include_sensitive, next_patched, tail);
            assert(kept =~= seq![c] + kept_rest);
            assert(outcome_of_change(files[0], c)) by {
                let p = c.path@;
                match skip_reason(final_component(p)) {
                    Some(reason) => {
                        lemma_prefix_of_concat(p, " ("@ + reason + ")"@);
                        assert(p + " ("@ + reason + ")"@ =~= p + (" ("@ + reason + ")"@));
                    },
                    None => {
                        lemma_prefix_of_concat(p, " (ignored)"@);
                        lemma_prefix_of_concat(p, " (patch budget exhausted)"@);
                    },
                }
                match skip_note(p, c.ignored, patched) {
                    Some(note) => {
                        assert(is_prefix(p, note));
                        assert(files[0] matches FileOutcome::Listed(n) && n@ == note);
                    },
                    None => {
                        match (blob_text_of(opt_bytes(c.before)), blob_text_of(opt_bytes(c.after))) {
                            (Ok(b), Ok(a)) => {
                                assert(files[0] matches FileOutcome::Diffed { path, .. } && path@ == p);
                            },
                            _ => {
                                assert(files[0] matches FileOutcome::Failed { path, .. } && path@ == p);
                            },
                        }
                    },
                }
            }
            assert forall|i: int| 0 <= i < files.len() implies outcome_of_change(
                #[trigger] files[i],
                kept[i],
            ) by {
                if i > 0 {
                    assert(files[i] == tail[i - 1]);
                    assert(kept[i] == kept_rest[i - 1]);
                }
            }
            assert forall|i: int| 0 <= i < files.len() implies include_sensitive || !is_sensitive(
                final_component(#[trigger] kept[i].path@),
            ) by {
                if i > 0 {
                    assert(kept[i] == kept_rest[i - 1]);
                }
            }
        }
    }
}

} // verus!
