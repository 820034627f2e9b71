//! Commit-diff search helpers: unified-diff hunk headers.

use vstd::prelude::*;
use crate::context::{RetrievalRepresentation, SearchHit, SourceAddress};
use crate::descriptor::{lex_less, lex_lt, lemma_utf8_len_strict};
use crate::history::{push_signed_decimal, signed_decimal, utf8_len, utf8_width_of};
use crate::model::SearchRoute;
use crate::matching::{compile_regex, regex_compiles, regex_is_match, regex_matches, CompiledRegex};
use crate::text::{
    decimal, owned, push_decimal, push_str, chars_of, copy_string, drop_empty, eq_chars, is_prefix, lines, lines_of, parse_u32,
    parse_u32_spec, slice_vec, split, split_nonempty, split_on, starts_with_str, string_of,
    Separator,
};

verus! {

/// The line a `-`/`+` token of a hunk header names: the text before its
/// first `,`, parsed as a `u32`.
pub open spec fn header_number(rest: Seq<char>) -> Option<u32> {
    parse_u32_spec(split_on(rest, Separator::Char(','))[0])
}

/// The `(old, new)` numbers seen after the first `n` tokens: each `-x`
/// token sets the old start, each `+y` token the new start (an
/// unparsable number clears it).
pub open spec fn header_scan(tokens: Seq<Seq<char>>) -> (Option<u32>, Option<u32>)
    decreases tokens.len(),
{
    if tokens.len() == 0 {
        (None, None)
    } else {
        let (old, new) = header_scan(tokens.drop_last());
        let t = tokens.last();
        if t.len() > 0 && t[0] == '-' {
            (header_number(t.skip(1)), new)
        } else if t.len() > 0 && t[0] == '+' {
            (old, header_number(t.skip(1)))
        } else {
            (old, new)
        }
    }
}

/// The first line number of each image named by a hunk header's
/// `-<old>[,<n>] +<new>[,<n>]` tokens.
pub open spec fn hunk_header_of(header: Seq<char>) -> Option<(u32, u32)> {
    match header_scan(drop_empty(split_on(header, Separator::Whitespace))) {
        (Some(o), Some(n)) => Some((o, n)),
        _ => None,
    }
}

fn number_before_comma(rest: &[char]) -> (r: Option<u32>)
    ensures
        r == header_number(rest@),
{
    let pieces = split(rest, Separator::Char(','));
    proof {
        crate::text::lemma_split_nonempty(rest@, Separator::Char(','));
    }
    parse_u32(&pieces[0])
}

/// Parse the `-<old>[,<n>] +<new>[,<n>]` portion of a hunk header into the
/// first line number of each image.
pub fn parse_hunk_header(header: &str) -> (r: Option<(u32, u32)>)
    ensures
        r == hunk_header_of(header@),
{
    let tokens = split_nonempty(&chars_of(header), Separator::Whitespace);
    let ghost ts = drop_empty(split_on(header@, Separator::Whitespace));
    let mut old: Option<u32> = None;
    let mut new: Option<u32> = None;
    for i in 0..tokens.len()
        invariant
            tokens@.map_values(|v: Vec<char>| v@) == ts,
            header_scan(ts.take(i as int)) == (old, new),
    {
        let t = &tokens[i];
        assert(ts.take(i + 1).drop_last() =~= ts.take(i as int));
        assert(ts.take(i + 1).last() == t@);
        if t.len() > 0 && t[0] == '-' {
            let rest = slice_vec(t, 1, t.len());
            assert(rest@ =~= t@.skip(1));
            old = number_before_comma(&rest);
        } else if t.len() > 0 && t[0] == '+' {
            let rest = slice_vec(t, 1, t.len());
            assert(rest@ =~= t@.skip(1));
            new = number_before_comma(&rest);
        }
    }
    assert(ts.take(tokens.len() as int) =~= ts);
    match (old, new) {
        (Some(o), Some(n)) => Some((o, n)),
        _ => None,
    }
}


// ---- patch scanning --------------------------------------------------------------------

/// Default maximum number of `(commit, file)` hits a diff search returns.
pub const DEFAULT_DIFF_LIMIT: usize = 20;

/// Matched `+`/`-` lines kept per file; further matches are only counted.
pub const MAX_MATCHED_LINES_PER_FILE: usize = 32;

/// One matched patch line: its number in the matching image (post-image
/// for `+`, pre-image for `-`), its side, and its text without the sign.
#[derive(Debug)]
pub struct DiffMatch {
    pub line: u32,
    pub added: bool,
    pub text: String,
}

/// The matches found in one file section of a patch.
#[derive(Debug)]
pub struct FileMatches {
    pub path: String,
    pub matches: Vec<DiffMatch>,
    /// Matches dropped by `MAX_MATCHED_LINES_PER_FILE`.
    pub truncated: usize,
}

/// A match as values.
pub open spec fn match_view(m: DiffMatch) -> (u32, bool, Seq<char>) {
    (m.line, m.added, m.text@)
}

/// A file section as values: path, matches, truncated count.
pub open spec fn section_view(f: FileMatches) -> (Seq<char>, Seq<(u32, bool, Seq<char>)>, nat) {
    (f.path@, f.matches@.map_values(|m: DiffMatch| match_view(m)), f.truncated as nat)
}

/// The sections of a vector, as values.
pub open spec fn sections_view(v: Seq<FileMatches>) -> Seq<(Seq<char>, Seq<(u32, bool, Seq<char>)>, nat)> {
    v.map_values(|f: FileMatches| section_view(f))
}

/// Where the scan of a patch stands: the current file, the next line
/// number of each image, and the sections in order of first match.
pub struct ScanState {
    pub path: Seq<char>,
    pub old_line: u32,
    pub new_line: u32,
    pub sections: Seq<(Seq<char>, Seq<(u32, bool, Seq<char>)>, nat)>,
}

/// The post-image path of a `diff --git a/<path> b/<path>` line: the last
/// white-space separated token without its `b/`, or empty.
pub open spec fn git_header_path(line: Seq<char>) -> Seq<char> {
    let tokens = drop_empty(split_on(line.skip(11), Separator::Whitespace));
    if tokens.len() > 0 && is_prefix("b/"@, tokens.last()) {
        tokens.last().skip(2)
    } else {
        Seq::empty()
    }
}

/// The next line number (wrapping at the top of `u32`).
pub open spec fn bump(x: u32) -> u32 {
    if x == u32::MAX {
        0
    } else {
        (x + 1) as u32
    }
}

/// The first section for `path`, if any.
pub open spec fn path_index(
    secs: Seq<(Seq<char>, Seq<(u32, bool, Seq<char>)>, nat)>,
    path: Seq<char>,
) -> Option<int>
    decreases secs.len(),
{
    if secs.len() == 0 {
        None
    } else {
        match path_index(secs.drop_last(), path) {
            Some(k) => Some(k),
            None => if secs.last().0 == path {
                Some(secs.len() - 1)
            } else {
                None
            },
        }
    }
}

/// A section with one more match, kept while under the cap, else counted.
pub open spec fn with_match(
    sec: (Seq<char>, Seq<(u32, bool, Seq<char>)>, nat),
    m: (u32, bool, Seq<char>),
) -> (Seq<char>, Seq<(u32, bool, Seq<char>)>, nat) {
    if sec.1.len() >= MAX_MATCHED_LINES_PER_FILE {
        (sec.0, sec.1, sec.2 + 1)
    } else {
        (sec.0, sec.1.push(m), sec.2)
    }
}

/// The sections after a match on `path`.
pub open spec fn record_match(
    secs: Seq<(Seq<char>, Seq<(u32, bool, Seq<char>)>, nat)>,
    path: Seq<char>,
    m: (u32, bool, Seq<char>),
) -> Seq<(Seq<char>, Seq<(u32, bool, Seq<char>)>, nat)> {
    match path_index(secs, path) {
        Some(k) => secs.update(k, with_match(secs[k], m)),
        None => secs.push(with_match((path, Seq::empty(), 0), m)),
    }
}

/// One line of the scan: file headers switch the path, hunk headers set
/// both line numbers, context lines advance both, and `+`/`-` lines
/// advance their image and are recorded when the regex matches them.
pub open spec fn scan_step(st: ScanState, line: Seq<char>, pattern: Seq<char>, ignore_case: bool) -> ScanState {
    if is_prefix("diff --git "@, line) {
        ScanState { path: git_header_path(line), old_line: st.old_line, new_line: st.new_line, sections: st.sections }
    } else if is_prefix("@@ "@, line) {
        match hunk_header_of(line.skip(3)) {
            Some((o, n)) => ScanState { path: st.path, old_line: o, new_line: n, sections: st.sections },
            None => st,
        }
    } else if is_prefix("--- "@, line) || is_prefix("+++ "@, line) || is_prefix("\\"@, line)
        || line.len() == 0 {
        st
    } else if line[0] == ' ' {
        ScanState { path: st.path, old_line: bump(st.old_line), new_line: bump(st.new_line), sections: st.sections }
    } else if line[0] == '+' {
        ScanState {
            path: st.path,
            old_line: st.old_line,
            new_line: bump(st.new_line),
            sections: if regex_is_match(pattern, ignore_case, line.skip(1)) {
                record_match(st.sections, st.path, (st.new_line, true, line.skip(1)))
            } else {
                st.sections
            },
        }
    } else if line[0] == '-' {
        ScanState {
            path: st.path,
            old_line: bump(st.old_line),
            new_line: st.new_line,
            sections: if regex_is_match(pattern, ignore_case, line.skip(1)) {
                record_match(st.sections, st.path, (st.old_line, false, line.skip(1)))
            } else {
                st.sections
            },
        }
    } else {
        st
    }
}

/// The scan state after `lines`.
pub open spec fn scan_lines(lines: Seq<Seq<char>>, pattern: Seq<char>, ignore_case: bool) -> ScanState
    decreases lines.len(),
{
    if lines.len() == 0 {
        ScanState { path: Seq::empty(), old_line: 0, new_line: 0, sections: Seq::empty() }
    } else {
        scan_step(scan_lines(lines.drop_last(), pattern, ignore_case), lines.last(), pattern, ignore_case)
    }
}

/// A line inside a hunk: a context, added or removed line, not a file
/// header.
pub open spec fn hunk_body_line(l: Seq<char>) -> bool {
    &&& l.len() > 0
    &&& l[0] == ' ' || l[0] == '+' || l[0] == '-'
    &&& !is_prefix("--- "@, l)
    &&& !is_prefix("+++ "@, l)
}

/// How many lines of `ls` belong to the pre-image: context and removed
/// lines.
pub open spec fn pre_image_lines(ls: Seq<Seq<char>>) -> nat
    decreases ls.len(),
{
    if ls.len() == 0 {
        0
    } else {
        pre_image_lines(ls.drop_last()) + if ls.last()[0] == ' ' || ls.last()[0] == '-' {
            1nat
        } else {
            0nat
        }
    }
}

/// How many lines of `ls` belong to the post-image: context and added
/// lines.
pub open spec fn post_image_lines(ls: Seq<Seq<char>>) -> nat
    decreases ls.len(),
{
    if ls.len() == 0 {
        0
    } else {
        post_image_lines(ls.drop_last()) + if ls.last()[0] == ' ' || ls.last()[0] == '+' {
            1nat
        } else {
            0nat
        }
    }
}

proof fn lemma_not_prefix_by_first(p: Seq<char>, l: Seq<char>)
    requires
        p.len() > 0,
        l.len() > 0,
        p[0] != l[0],
    ensures
        !is_prefix(p, l),
{
    if is_prefix(p, l) {
        assert(l.subrange(0, p.len() as int)[0] == l[0]);
    }
}

/// Inside a hunk whose header names pre-image line `o` and post-image line
/// `n`, the scan's next pre-image line is `o` plus the context and removed
/// lines seen so far, and its next post-image line is `n` plus the context
/// and added lines seen so far: a context line advances both counters, a
/// removed line only the pre-image's, an added line only the post-image's.
/// The file being scanned does not change inside a hunk.
pub proof fn law_hunk_lines_advance_their_images(
    pre: Seq<Seq<char>>,
    h: Seq<char>,
    ls: Seq<Seq<char>>,
    o: u32,
    n: u32,
    pattern: Seq<char>,
    ignore_case: bool,
)
    requires
        is_prefix("@@ "@, h),
        hunk_header_of(h.skip(3)) == Some((o, n)),
        forall|k: int| 0 <= k < ls.len() ==> hunk_body_line(#[trigger] ls[k]),
        o + pre_image_lines(ls) <= u32::MAX,
        n + post_image_lines(ls) <= u32::MAX,
    ensures
        scan_lines(pre.push(h) + ls, pattern, ignore_case).old_line == o + pre_image_lines(ls),
        scan_lines(pre.push(h) + ls, pattern, ignore_case).new_line == n + post_image_lines(ls),
        scan_lines(pre.push(h) + ls, pattern, ignore_case).path == scan_lines(pre, pattern, ignore_case).path,
    decreases ls.len(),
{
    reveal_strlit("@@ ");
    reveal_strlit("diff --git ");
    reveal_strlit("--- ");
    reveal_strlit("+++ ");
    reveal_strlit("\\");
    if ls.len() == 0 {
        assert(pre.push(h) + ls =~= pre.push(h));
        assert(h.subrange(0, 3)[0] == h[0]);
        lemma_not_prefix_by_first("diff --git "@, h);
        assert(scan_lines(pre.push(h), pattern, ignore_case) == scan_step(
            scan_lines(pre, pattern, ignore_case),
            h,
            pattern,
            ignore_case,
        )) by {
            assert(pre.push(h).drop_last() =~= pre);
        }
    } else {
        let init = ls.drop_last();
        let l = ls.last();
        assert forall|k: int| 0 <= k < init.len() implies hunk_body_line(#[trigger] init[k]) by {
            assert(init[k] == ls[k]);
        }
        assert(hunk_body_line(ls[ls.len() - 1]));
        law_hunk_lines_advance_their_images(pre, h, init, o, n, pattern, ignore_case);
        assert((pre.push(h) + ls).drop_last() =~= pre.push(h) + init);
        assert((pre.push(h) + ls).last() == l);
        lemma_not_prefix_by_first("diff --git "@, l);
        lemma_not_prefix_by_first("@@ "@, l);
        lemma_not_prefix_by_first("\\"@, l);
    }
}

/// A removed line the pattern matches, inside such a hunk, is recorded for
/// the current file at its pre-image line: `o` plus the context and
/// removed lines before it; an added line at its post-image line: `n` plus
/// the context and added lines before it.
pub proof fn law_hunk_matches_carry_their_lines(
    pre: Seq<Seq<char>>,
    h: Seq<char>,
    ls: Seq<Seq<char>>,
    l: Seq<char>,
    o: u32,
    n: u32,
    pattern: Seq<char>,
    ignore_case: bool,
)
    requires
        is_prefix("@@ "@, h),
        hunk_header_of(h.skip(3)) == Some((o, n)),
        forall|k: int| 0 <= k < ls.len() ==> hunk_body_line(#[trigger] ls[k]),
        hunk_body_line(l),
        l[0] != ' ',
        o + pre_image_lines(ls) <= u32::MAX,
        n + post_image_lines(ls) <= u32::MAX,
        regex_is_match(pattern, ignore_case, l.skip(1)),
    ensures
        ({
            let before = scan_lines(pre.push(h) + ls, pattern, ignore_case);
            let line = if l[0] == '-' {
                (o + pre_image_lines(ls)) as u32
            } else {
                (n + post_image_lines(ls)) as u32
            };
            scan_lines((pre.push(h) + ls).push(l), pattern, ignore_case).sections == record_match(
                before.sections,
                scan_lines(pre, pattern, ignore_case).path,
                (line, l[0] == '+', l.skip(1)),
            )
        }),
{
    reveal_strlit("diff --git ");
    reveal_strlit("@@ ");
    reveal_strlit("\\");
    law_hunk_lines_advance_their_images(pre, h, ls, o, n, pattern, ignore_case);
    assert((pre.push(h) + ls).push(l).drop_last() =~= pre.push(h) + ls);
    lemma_not_prefix_by_first("diff --git "@, l);
    lemma_not_prefix_by_first("@@ "@, l);
    lemma_not_prefix_by_first("\\"@, l);
}

/// `secs` with `sec` inserted after every section whose path does not
/// sort after its own.
pub open spec fn insert_by_path(
    secs: Seq<(Seq<char>, Seq<(u32, bool, Seq<char>)>, nat)>,
    sec: (Seq<char>, Seq<(u32, bool, Seq<char>)>, nat),
) -> Seq<(Seq<char>, Seq<(u32, bool, Seq<char>)>, nat)>
    decreases secs.len(),
{
    if secs.len() > 0 && lex_lt(sec.0, secs.last().0) {
        insert_by_path(secs.drop_last(), sec).push(secs.last())
    } else {
        secs.push(sec)
    }
}

/// The sections ordered by path (insertion sort).
pub open spec fn sort_by_path(
    secs: Seq<(Seq<char>, Seq<(u32, bool, Seq<char>)>, nat)>,
) -> Seq<(Seq<char>, Seq<(u32, bool, Seq<char>)>, nat)>
    decreases secs.len(),
{
    if secs.len() == 0 {
        secs
    } else {
        insert_by_path(sort_by_path(secs.drop_last()), secs.last())
    }
}

/// Inserting at the computed position is the recursive insertion.
proof fn lemma_insert_by_path(
    secs: Seq<(Seq<char>, Seq<(u32, bool, Seq<char>)>, nat)>,
    sec: (Seq<char>, Seq<(u32, bool, Seq<char>)>, nat),
    p: int,
)
    requires
        0 <= p <= secs.len(),
        forall|k: int| p <= k < secs.len() ==> lex_lt(sec.0, #[trigger] secs[k].0),
        p == 0 || !lex_lt(sec.0, secs[p - 1].0),
    ensures
        insert_by_path(secs, sec) == secs.insert(p, sec),
    decreases secs.len(),
{
    if secs.len() > 0 && lex_lt(sec.0, secs.last().0) {
        lemma_insert_by_path(secs.drop_last(), sec, p);
        assert(secs.drop_last().insert(p, sec).push(secs.last()) =~= secs.insert(p, sec));
    } else {
        assert(secs.push(sec) =~= secs.insert(p, sec));
    }
}

fn copy_matches(v: &Vec<DiffMatch>) -> (r: Vec<DiffMatch>)
    ensures
        r@.map_values(|m: DiffMatch| match_view(m)) == v@.map_values(|m: DiffMatch| match_view(m)),
{
    let mut r: Vec<DiffMatch> = Vec::new();
    for i in 0..v.len()
        invariant
            r@.map_values(|m: DiffMatch| match_view(m)) == v@.map_values(
                |m: DiffMatch| match_view(m),
            ).take(i as int),
    {
        let m = DiffMatch { line: v[i].line, added: v[i].added, text: copy_string(&v[i].text) };
        assert(match_view(m) == match_view(v@[i as int]));
        let ghost before = r@.map_values(|m: DiffMatch| match_view(m));
        r.push(m);
        assert(r@.map_values(|m: DiffMatch| match_view(m)) =~= before.push(match_view(m)));
        assert(r@.map_values(|m: DiffMatch| match_view(m)) =~= v@.map_values(
            |m: DiffMatch| match_view(m),
        ).take(i + 1));
    }
    assert(v@.map_values(|m: DiffMatch| match_view(m)).take(v@.len() as int) =~= v@.map_values(
        |m: DiffMatch| match_view(m),
    ));
    r
}

/// `path_index` finds the first section with the path.
proof fn lemma_path_index(secs: Seq<(Seq<char>, Seq<(u32, bool, Seq<char>)>, nat)>, path: Seq<char>)
    ensures
        match path_index(secs, path) {
            Some(k) => 0 <= k < secs.len() && secs[k].0 == path && forall|j: int|
                0 <= j < k ==> #[trigger] secs[j].0 != path,
            None => forall|j: int| 0 <= j < secs.len() ==> #[trigger] secs[j].0 != path,
        },
    decreases secs.len(),
{
    if secs.len() > 0 {
        lemma_path_index(secs.drop_last(), path);
        assert forall|j: int| 0 <= j < secs.len() - 1 implies #[trigger] secs[j] == secs.drop_last()[j] by {}
    }
}

/// Records a match on `path` in `sections`.
fn record(sections: &mut Vec<FileMatches>, path: &String, m: DiffMatch, Ghost(bound): Ghost<nat>)
    requires
        bound < usize::MAX,
        forall|k: int| 0 <= k < old(sections)@.len() ==> #[trigger] old(sections)@[k].truncated <= bound,
    ensures
        sections_view(final(sections)@) == record_match(
            sections_view(old(sections)@),
            path@,
            match_view(m),
        ),
        forall|k: int| 0 <= k < final(sections)@.len() ==> #[trigger] final(sections)@[k].truncated
            <= bound + 1,
{
    let ghost sv = sections_view(sections@);
    let ghost mv = match_view(m);
    proof {
        lemma_path_index(sv, path@);
    }
    let key = chars_of(path.as_str());
    let mut k: usize = 0;
    while k < sections.len() && !eq_chars(&chars_of(sections[k].path.as_str()), &key)
        invariant
            k <= sections@.len(),
            key@ == path@,
            sv == sections_view(sections@),
            forall|j: int| 0 <= j < k ==> #[trigger] sv[j].0 != path@,
        decreases sections@.len() - k,
    {
        k = k + 1;
    }
    if k < sections.len() {
        assert(sv[k as int].0 == path@);
        assert(path_index(sv, path@) == Some(k as int));
        let mut taken = FileMatches { path: string_of(&Vec::new()), matches: Vec::new(), truncated: 0 };
        sections.set_and_swap(k, &mut taken);
        assert(section_view(taken) == sv[k as int]);
        if taken.matches.len() >= MAX_MATCHED_LINES_PER_FILE {
            taken.truncated = taken.truncated + 1;
        } else {
            let ghost before = taken.matches@.map_values(|x: DiffMatch| match_view(x));
            taken.matches.push(m);
            assert(taken.matches@.map_values(|x: DiffMatch| match_view(x)) =~= before.push(mv));
        }
        assert(section_view(taken) == with_match(sv[k as int], mv));
        sections.set(k, taken);
        assert(sections_view(sections@) =~= sv.update(k as int, with_match(sv[k as int], mv)));
    } else {
        assert(path_index(sv, path@) is None);
        let mut fresh = FileMatches { path: copy_string(path), matches: Vec::new(), truncated: 0 };
        fresh.matches.push(m);
        assert(fresh.matches@.map_values(|x: DiffMatch| match_view(x)) =~= seq![mv]);
        assert(section_view(fresh) == with_match((path@, Seq::empty(), 0), mv));
        sections.push(fresh);
        assert(sections_view(sections@) =~= sv.push(with_match((path@, Seq::empty(), 0), mv)));
    }
}

/// The path of a `diff --git` line.
fn git_path(line: &Vec<char>) -> (r: Vec<char>)
    requires
        is_prefix("diff --git "@, line@),
    ensures
        r@ == git_header_path(line@),
{
    proof {
        reveal_strlit("diff --git ");
    }
    let rest = slice_vec(line, 11, line.len());
    assert(rest@ =~= line@.skip(11));
    let tokens = split_nonempty(&rest, Separator::Whitespace);
    if tokens.len() > 0 && starts_with_str(&tokens[tokens.len() - 1], "b/") {
        proof {
            reveal_strlit("b/");
        }
        let last = &tokens[tokens.len() - 1];
        let p = slice_vec(last, 2, last.len());
        assert(p@ =~= last@.skip(2));
        p
    } else {
        Vec::new()
    }
}

fn bump_line(x: u32) -> (r: u32)
    ensures
        r == bump(x),
{
    if x == u32::MAX {
        0
    } else {
        x + 1
    }
}

/// Walks a patch, tracking the current file and both images' line
/// numbers, and collects the `+`/`-` lines the regex matches per file,
/// ordered by path.
pub fn scan_patch(patch: &str, regex: &CompiledRegex) -> (r: Vec<FileMatches>)
    ensures
        sections_view(r@) == sort_by_path(
            scan_lines(lines_of(patch@), regex.source(), regex.folds_case()).sections,
        ),
{
    let all = lines(&chars_of(patch));
    let ghost ls = all@.map_values(|v: Vec<char>| v@);
    let ghost pattern = regex.source();
    let mut path = string_of(&Vec::new());
    let mut old_line: u32 = 0;
    let mut new_line: u32 = 0;
    let mut sections: Vec<FileMatches> = Vec::new();
    proof {
        reveal_strlit("diff --git ");
        reveal_strlit("@@ ");
        reveal_strlit("--- ");
        reveal_strlit("+++ ");
        reveal_strlit("\\");
    }
    for i in 0..all.len()
        invariant
            ls == all@.map_values(|v: Vec<char>| v@),
            ls == lines_of(patch@),
            pattern == regex.source(),
            scan_lines(ls.take(i as int), pattern, regex.folds_case()).path == path@,
            scan_lines(ls.take(i as int), pattern, regex.folds_case()).old_line == old_line,
            scan_lines(ls.take(i as int), pattern, regex.folds_case()).new_line == new_line,
            scan_lines(ls.take(i as int), pattern, regex.folds_case()).sections == sections_view(sections@),
            forall|k: int| 0 <= k < sections@.len() ==> #[trigger] sections@[k].truncated <= i,
    {
        let line = &all[i];
        proof {
            reveal_strlit("diff --git ");
            reveal_strlit("@@ ");
            reveal_strlit("--- ");
            reveal_strlit("+++ ");
            reveal_strlit("\\");
        }
        assert(ls.take(i + 1).drop_last() =~= ls.take(i as int));
        assert(ls.take(i + 1).last() == line@);
        if starts_with_str(line, "diff --git ") {
            path = string_of(&git_path(line));
        } else if starts_with_str(line, "@@ ") {
            let header = slice_vec(line, 3, line.len());
            assert(header@ =~= line@.skip(3));
            match parse_hunk_header(string_of(&header).as_str()) {
                Some((o, n)) => {
                    old_line = o;
                    new_line = n;
                },
                None => {},
            }
        } else if starts_with_str(line, "--- ") || starts_with_str(line, "+++ ") || starts_with_str(
            line,
            "\\",
        ) || line.len() == 0 {
        } else if line[0] == ' ' {
            old_line = bump_line(old_line);
            new_line = bump_line(new_line);
        } else if line[0] == '+' || line[0] == '-' {
            let added = line[0] == '+';
            let number = if added {
                new_line
            } else {
                old_line
            };
            if added {
                new_line = bump_line(new_line);
            } else {
                old_line = bump_line(old_line);
            }
            let body = slice_vec(line, 1, line.len());
            assert(body@ =~= line@.skip(1));
            let text = string_of(&body);
            if regex_matches(regex, text.as_str()) {
                record(&mut sections, &path, DiffMatch { line: number, added, text }, Ghost(i as nat));
            }
        }
    }
    assert(ls.take(all@.len() as int) =~= ls);
    let ghost unsorted = sections_view(sections@);
    let mut sorted: Vec<FileMatches> = Vec::new();
    for i in 0..sections.len()
        invariant
            unsorted == sections_view(sections@),
            sections_view(sorted@) == sort_by_path(unsorted.take(i as int)),
    {
        let entry = FileMatches {
            path: copy_string(&sections[i].path),
            matches: copy_matches(&sections[i].matches),
            truncated: sections[i].truncated,
        };
        assert(section_view(entry) == unsorted[i as int]);
        let key = chars_of(entry.path.as_str());
        let ghost sv = sections_view(sorted@);
        let mut p: usize = sorted.len();
        while p > 0 && lex_less(&key, &chars_of(sorted[p - 1].path.as_str()))
            invariant
                p <= sorted@.len(),
                sv == sections_view(sorted@),
                key@ == entry.path@,
                forall|k: int| p <= k < sv.len() ==> lex_lt(key@, #[trigger] sv[k].0),
            decreases p,
        {
            p = p - 1;
        }
        proof {
            lemma_insert_by_path(sv, section_view(entry), p as int);
            assert(unsorted.take(i + 1).drop_last() =~= unsorted.take(i as int));
        }
        sorted.insert(p, entry);
        assert(sections_view(sorted@) =~= sv.insert(p as int, section_view(entry)));
    }
    assert(unsorted.take(sections@.len() as int) =~= unsorted);
    sorted
}


// ---- diff search ------------------------------------------------------------------------

/// A stored commit patch with the commit it belongs to.
#[derive(Debug)]
pub struct CommitPatch {
    /// Commit id (the entity's name).
    pub commit: String,
    /// Committer time, seconds since the epoch.
    pub timestamp: i64,
    /// The commit entity's id.
    pub entity_id: String,
    /// The unified-diff text of the commit.
    pub text: String,
}

/// Why a diff search could not run.
#[derive(Debug, PartialEq, Eq)]
pub enum DiffGrepError {
    /// The pattern is not a valid regular expression.
    InvalidPattern(String),
}

/// A matched file section of one commit, as values: committer time,
/// commit, path, entity id, matches and truncated count.
pub type SectionSpec = (i64, Seq<char>, Seq<char>, Seq<char>, Seq<(u32, bool, Seq<char>)>, nat);

/// The file sections with matches, tagged with their commit.
pub open spec fn tagged(
    d: CommitPatch,
    fs: Seq<(Seq<char>, Seq<(u32, bool, Seq<char>)>, nat)>,
) -> Seq<SectionSpec>
    decreases fs.len(),
{
    if fs.len() == 0 {
        Seq::empty()
    } else {
        tagged(d, fs.drop_last()) + if fs.last().1.len() > 0 {
            seq![(d.timestamp, d.commit@, fs.last().0, d.entity_id@, fs.last().1, fs.last().2)]
        } else {
            Seq::empty()
        }
    }
}

/// The matched file sections of one patch, ordered by path.
pub open spec fn patch_sections(d: CommitPatch, pattern: Seq<char>) -> Seq<SectionSpec> {
    tagged(d, sort_by_path(scan_lines(lines_of(d.text@), pattern, false).sections))
}

/// The matched file sections of all patches, in document order.
pub open spec fn doc_sections(docs: Seq<CommitPatch>, pattern: Seq<char>) -> Seq<SectionSpec>
    decreases docs.len(),
{
    if docs.len() == 0 {
        Seq::empty()
    } else {
        doc_sections(docs.drop_last(), pattern) + patch_sections(docs.last(), pattern)
    }
}

/// `a` sorts after `b`: older commits later, then by commit, then by path.
pub open spec fn section_after(a: SectionSpec, b: SectionSpec) -> bool {
    a.0 < b.0 || (a.0 == b.0 && (lex_lt(b.1, a.1) || (b.1 == a.1 && lex_lt(b.2, a.2))))
}

/// `secs` with `x` inserted after every section it does not sort before.
pub open spec fn insert_section(secs: Seq<SectionSpec>, x: SectionSpec) -> Seq<SectionSpec>
    decreases secs.len(),
{
    if secs.len() > 0 && section_after(secs.last(), x) {
        insert_section(secs.drop_last(), x).push(secs.last())
    } else {
        secs.push(x)
    }
}

/// The sections in search order: a stable insertion sort, most recent
/// commits first.
pub open spec fn sort_sections(secs: Seq<SectionSpec>) -> Seq<SectionSpec>
    decreases secs.len(),
{
    if secs.len() == 0 {
        secs
    } else {
        insert_section(sort_sections(secs.drop_last()), secs.last())
    }
}

proof fn lemma_insert_section(secs: Seq<SectionSpec>, x: SectionSpec, p: int)
    requires
        0 <= p <= secs.len(),
        forall|k: int| p <= k < secs.len() ==> section_after(#[trigger] secs[k], x),
        p == 0 || !section_after(secs[p - 1], x),
    ensures
        insert_section(secs, x) == secs.insert(p, x),
    decreases secs.len(),
{
    if secs.len() > 0 && section_after(secs.last(), x) {
        lemma_insert_section(secs.drop_last(), x, p);
        assert(secs.drop_last().insert(p, x).push(secs.last()) =~= secs.insert(p, x));
    } else {
        assert(secs.push(x) =~= secs.insert(p, x));
    }
}

/// The first line span of the matches on one side, if any.
pub open spec fn side_span(ms: Seq<(u32, bool, Seq<char>)>, added: bool) -> Option<(u32, u32)>
    decreases ms.len(),
{
    if ms.len() == 0 {
        None
    } else {
        let m = ms.last();
        let prev = side_span(ms.drop_last(), added);
        if m.1 == added {
            Some(
                match prev {
                    None => (m.0, m.0),
                    Some((s, e)) => (if m.0 < s {
                        m.0
                    } else {
                        s
                    }, if m.0 > e {
                        m.0
                    } else {
                        e
                    }),
                },
            )
        } else {
            prev
        }
    }
}

/// The primary span of a hit: the added side's when there is one, else
/// the removed side's.
pub open spec fn hit_span(ms: Seq<(u32, bool, Seq<char>)>) -> (u32, u32) {
    match side_span(ms, true) {
        Some(x) => x,
        None => match side_span(ms, false) {
            Some(x) => x,
            None => (0, 0),
        },
    }
}

/// The matched lines, each with its sign.
pub open spec fn snippet_of(ms: Seq<(u32, bool, Seq<char>)>) -> Seq<char>
    decreases ms.len(),
{
    if ms.len() == 0 {
        Seq::empty()
    } else {
        snippet_of(ms.drop_last()) + seq![if ms.last().1 { '+' } else { '-' }] + ms.last().2
            + "\n"@
    }
}

/// The first twelve bytes of a commit id when that is a char boundary,
/// else the whole id.
pub open spec fn short_commit(c: Seq<char>) -> Seq<char> {
    if exists|k: int| 0 <= k <= c.len() && #[trigger] utf8_len(c.take(k)) == 12 {
        c.take(choose|k: int| 0 <= k <= c.len() && #[trigger] utf8_len(c.take(k)) == 12)
    } else {
        c
    }
}

/// `hit` is the rendering of section `s` in `repository_id`/`snapshot_id`.
pub open spec fn renders(hit: SearchHit, repository_id: Seq<char>, snapshot_id: Seq<char>, s: SectionSpec) -> bool {
    let short = short_commit(s.1);
    let span = hit_span(s.4);
    &&& hit.document_id@ == "diff:"@ + s.3 + ":"@ + s.2
    &&& hit.entity_id@ == s.3
    &&& hit.region_id is None
    &&& hit.symbol_name matches Some(n) && n@ == "commit:"@ + short
    &&& hit.representation == RetrievalRepresentation::CommitDiff
    &&& hit.route == SearchRoute::Diff
    &&& hit.rank == 0
    &&& hit.score == 0
    &&& hit.contributing_routes@ == seq![SearchRoute::Diff]
    &&& hit.address matches Some(a) && a.repository_id@ == repository_id && a.snapshot_id@ == snapshot_id
        && a.path@ == s.2 && a.start_byte == 0 && a.end_byte == 0 && a.start_line == span.0
        && a.end_line == span.1 && a.symbol_id is None
    &&& hit.evidence@.len() == s.4.len()
    &&& forall|i: int|
        0 <= i < s.4.len() ==> {
            let a = #[trigger] hit.evidence@[i];
            &&& a.repository_id@ == repository_id && a.snapshot_id@ == snapshot_id
            &&& a.path@ == s.2 && a.start_byte == 0 && a.end_byte == 0
            &&& a.start_line == s.4[i].0 && a.end_line == s.4[i].0 && a.symbol_id is None
        }
    &&& hit.snippet@ == snippet_of(s.4)
    &&& !hit.verified_current
    &&& hit.explanation@.map_values(|e: String| e@) == seq![
        "regex matched "@ + decimal(s.4.len()) + " line(s) in the stored patch of commit "@ + short
            + " (committer time "@ + signed_decimal(s.0 as int) + "); post-/pre-image line numbers"@,
    ] + if s.5 > 0 {
        seq![decimal(s.5) + " further matched line(s) truncated"@]
    } else {
        Seq::empty()
    }
}


/// A matched file section of one commit.
#[derive(Debug)]
pub struct DiffSection {
    pub timestamp: i64,
    pub commit: String,
    pub path: String,
    pub entity_id: String,
    pub matches: Vec<DiffMatch>,
    pub truncated: usize,
}

/// A section as values.
pub open spec fn diff_section_view(d: DiffSection) -> SectionSpec {
    (
        d.timestamp,
        d.commit@,
        d.path@,
        d.entity_id@,
        d.matches@.map_values(|m: DiffMatch| match_view(m)),
        d.truncated as nat,
    )
}

fn short_commit_of(commit: &str) -> (r: Vec<char>)
    ensures
        r@ == short_commit(commit@),
{
    let c = chars_of(commit);
    let mut acc: usize = 0;
    let mut k: usize = 0;
    while k < c.len() && acc < 12
        invariant
            k <= c@.len(),
            c@ == commit@,
            acc == utf8_len(c@.take(k as int)),
            forall|j: int| 0 <= j < k ==> #[trigger] utf8_len(c@.take(j)) < 12,
        decreases c@.len() - k,
    {
        assert(c@.take(k + 1).drop_last() =~= c@.take(k as int));
        acc = acc + utf8_width_of(c[k]);
        k = k + 1;
    }
    if acc == 12 {
        proof {
            assert forall|j: int| 0 <= j <= c@.len() && #[trigger] utf8_len(c@.take(j)) == 12 implies j
                == k by {
                if j < k {
                } else if j > k {
                    lemma_utf8_len_strict(c@, k as int, j);
                }
            }
        }
        slice_vec(&c, 0, k)
    } else {
        proof {
            assert forall|j: int| 0 <= j <= c@.len() implies #[trigger] utf8_len(c@.take(j)) != 12 by {
                if j > k {
                    lemma_utf8_len_strict(c@, k as int, j);
                }
            }
        }
        slice_vec(&c, 0, c.len())
    }
}

fn address_at(
    repository_id: &str,
    snapshot_id: &str,
    path: &str,
    start_line: u32,
    end_line: u32,
) -> (r: SourceAddress)
    ensures
        r.repository_id@ == repository_id@,
        r.snapshot_id@ == snapshot_id@,
        r.path@ == path@,
        r.start_byte == 0,
        r.end_byte == 0,
        r.start_line == start_line,
        r.end_line == end_line,
        r.symbol_id is None,
{
    SourceAddress {
        repository_id: owned(repository_id),
        snapshot_id: owned(snapshot_id),
        path: owned(path),
        start_byte: 0,
        end_byte: 0,
        start_line,
        end_line,
        symbol_id: None,
    }
}

fn widen(span: Option<(u32, u32)>, line: u32) -> (r: Option<(u32, u32)>)
    ensures
        r == Some(
            match span {
                None => (line, line),
                Some((s, e)) => (if line < s {
                    line
                } else {
                    s
                }, if line > e {
                    line
                } else {
                    e
                }),
            },
        ),
{
    match span {
        None => Some((line, line)),
        Some((s, e)) => Some((if line < s { line } else { s }, if line > e { line } else { e })),
    }
}

/// Renders one `(commit, file)` match group as a search hit: the covering
/// range is the primary address and every matched line an evidence
/// address, numbered in its own image.
pub fn render_hit(snapshot_id: &str, repository_id: &str, section: &DiffSection) -> (r: SearchHit)
    ensures
        renders(r, repository_id@, snapshot_id@, diff_section_view(*section)),
{
    let ghost ms = section.matches@.map_values(|m: DiffMatch| match_view(m));
    let mut evidence: Vec<SourceAddress> = Vec::new();
    let mut added_range: Option<(u32, u32)> = None;
    let mut removed_range: Option<(u32, u32)> = None;
    let mut snippet: Vec<char> = Vec::new();
    for i in 0..section.matches.len()
        invariant
            ms == section.matches@.map_values(|m: DiffMatch| match_view(m)),
            added_range == side_span(ms.take(i as int), true),
            removed_range == side_span(ms.take(i as int), false),
            snippet@ == snippet_of(ms.take(i as int)),
            evidence@.len() == i,
            forall|k: int|
                0 <= k < i ==> {
                    let a = #[trigger] evidence@[k];
                    &&& a.repository_id@ == repository_id@ && a.snapshot_id@ == snapshot_id@
                    &&& a.path@ == section.path@ && a.start_byte == 0 && a.end_byte == 0
                    &&& a.start_line == ms[k].0 && a.end_line == ms[k].0 && a.symbol_id is None
                },
    {
        let m = &section.matches[i];
        assert(ms.take(i + 1).drop_last() =~= ms.take(i as int));
        assert(ms.take(i + 1).last() == match_view(*m));
        if m.added {
            added_range = widen(added_range, m.line);
        } else {
            removed_range = widen(removed_range, m.line);
        }
        evidence.push(address_at(repository_id, snapshot_id, section.path.as_str(), m.line, m.line));
        let ghost before = snippet@;
        snippet.push(if m.added { '+' } else { '-' });
        push_str(&mut snippet, m.text.as_str());
        push_str(&mut snippet, "\n");
        assert(snippet@ =~= before + seq![if m.added { '+' } else { '-' }] + m.text@ + "\n"@);
    }
    assert(ms.take(ms.len() as int) =~= ms);
    let (start, end) = match added_range {
        Some(x) => x,
        None => match removed_range {
            Some(x) => x,
            None => (0, 0),
        },
    };
    let short = short_commit_of(section.commit.as_str());
    let mut first: Vec<char> = Vec::new();
    push_str(&mut first, "regex matched ");
    push_decimal(&mut first, section.matches.len() as u64);
    push_str(&mut first, " line(s) in the stored patch of commit ");
    crate::text::push_all(&mut first, &short);
    push_str(&mut first, " (committer time ");
    push_signed_decimal(&mut first, section.timestamp);
    push_str(&mut first, "); post-/pre-image line numbers");
    let mut explanation: Vec<String> = Vec::new();
    explanation.push(string_of(&first));
    if section.truncated > 0 {
        let mut second: Vec<char> = Vec::new();
        push_decimal(&mut second, section.truncated as u64);
        push_str(&mut second, " further matched line(s) truncated");
        explanation.push(string_of(&second));
    }
    let mut document_id: Vec<char> = Vec::new();
    push_str(&mut document_id, "diff:");
    push_str(&mut document_id, section.entity_id.as_str());
    push_str(&mut document_id, ":");
    push_str(&mut document_id, section.path.as_str());
    let mut symbol: Vec<char> = Vec::new();
    push_str(&mut symbol, "commit:");
    crate::text::push_all(&mut symbol, &short);
    let hit = SearchHit {
        document_id: string_of(&document_id),
        entity_id: copy_string(&section.entity_id),
        region_id: None,
        symbol_name: Some(string_of(&symbol)),
        representation: RetrievalRepresentation::CommitDiff,
        route: SearchRoute::Diff,
        rank: 0,
        score: 0,
        contributing_routes: vec![SearchRoute::Diff],
        address: Some(address_at(repository_id, snapshot_id, section.path.as_str(), start, end)),
        evidence,
        snippet: string_of(&snippet),
        verified_current: false,
        explanation,
    };
    proof {
        let s = diff_section_view(*section);
        assert(s.4 == ms);
        assert(hit.document_id@ == "diff:"@ + s.3 + ":"@ + s.2);
        assert(hit.symbol_name->0@ == "commit:"@ + short_commit(s.1));
        assert(hit.contributing_routes@ =~= seq![SearchRoute::Diff]);
        assert((start, end) == hit_span(s.4));
        assert(hit.snippet@ == snippet_of(s.4));
        assert(hit.evidence@.len() == s.4.len());
        assert(hit.explanation@.map_values(|e: String| e@) =~= seq![
            "regex matched "@ + decimal(s.4.len()) + " line(s) in the stored patch of commit "@
                + short_commit(s.1) + " (committer time "@ + signed_decimal(s.0 as int)
                + "); post-/pre-image line numbers"@,
        ] + if s.5 > 0 {
            seq![decimal(s.5) + " further matched line(s) truncated"@]
        } else {
            Seq::empty()
        });
    }
    hit
}


fn section_is_after(a: &DiffSection, b: &DiffSection) -> (r: bool)
    ensures
        r == section_after(diff_section_view(*a), diff_section_view(*b)),
{
    if a.timestamp < b.timestamp {
        return true;
    }
    if a.timestamp != b.timestamp {
        return false;
    }
    let ac = chars_of(a.commit.as_str());
    let bc = chars_of(b.commit.as_str());
    if lex_less(&bc, &ac) {
        return true;
    }
    eq_chars(&bc, &ac) && lex_less(&chars_of(b.path.as_str()), &chars_of(a.path.as_str()))
}

/// Scans every stored commit patch for `pattern` and returns one hit per
/// `(commit, file)` with matches, most recent commits first, then by
/// commit and path, at most `limit` of them (at least one).
pub fn diff_grep(
    documents: &Vec<CommitPatch>,
    snapshot_id: &str,
    repository_id: &str,
    pattern: &str,
    limit: usize,
) -> (r: Result<Vec<SearchHit>, DiffGrepError>)
    ensures
        match r {
            Err(DiffGrepError::InvalidPattern(p)) => !regex_compiles(pattern@, false) && p@ == pattern@,
            Ok(hits) => regex_compiles(pattern@, false) && {
                let all = sort_sections(doc_sections(documents@, pattern@));
                let n: int = if limit == 0 {
                    1
                } else {
                    limit as int
                };
                &&& hits@.len() == if all.len() < n {
                    all.len() as int
                } else {
                    n
                }
                &&& forall|i: int|
                    0 <= i < hits@.len() ==> renders(
                        #[trigger] hits@[i],
                        repository_id@,
                        snapshot_id@,
                        all[i],
                    )
            },
        },
{
    let regex = match compile_regex(pattern, false) {
        Some(r) => r,
        None => return Err(DiffGrepError::InvalidPattern(owned(pattern))),
    };
    let ghost pat = pattern@;
    let mut sections: Vec<DiffSection> = Vec::new();
    for d in 0..documents.len()
        invariant
            regex.source() == pat,
            !regex.folds_case(),
            sections@.map_values(|x: DiffSection| diff_section_view(x)) == sort_sections(
                doc_sections(documents@.take(d as int), pat),
            ),
    {
        let doc = &documents[d];
        let files = scan_patch(doc.text.as_str(), &regex);
        let ghost fv = sections_view(files@);
        let ghost base = doc_sections(documents@.take(d as int), pat);
        for j in 0..files.len()
            invariant
                fv == sections_view(files@),
                sections@.map_values(|x: DiffSection| diff_section_view(x)) == sort_sections(
                    base + tagged(*doc, fv.take(j as int)),
                ),
        {
            let f = &files[j];
            let ghost produced = base + tagged(*doc, fv.take(j as int));
            assert(fv.take(j + 1).drop_last() =~= fv.take(j as int));
            assert(fv.take(j + 1).last() == section_view(*f));
            if f.matches.len() > 0 {
                let x = DiffSection {
                    timestamp: doc.timestamp,
                    commit: copy_string(&doc.commit),
                    path: copy_string(&f.path),
                    entity_id: copy_string(&doc.entity_id),
                    matches: copy_matches(&f.matches),
                    truncated: f.truncated,
                };
                let ghost xv = diff_section_view(x);
                let ghost sv = sections@.map_values(|s: DiffSection| diff_section_view(s));
                let mut p: usize = sections.len();
                while p > 0 && section_is_after(&sections[p - 1], &x)
                    invariant
                        p <= sections@.len(),
                        sv == sections@.map_values(|s: DiffSection| diff_section_view(s)),
                        xv == diff_section_view(x),
                        forall|k: int| p <= k < sv.len() ==> section_after(#[trigger] sv[k], xv),
                    decreases p,
                {
                    p = p - 1;
                }
                proof {
                    lemma_insert_section(sv, xv, p as int);
                    assert((produced + seq![xv]).drop_last() =~= produced);
                    assert(base + tagged(*doc, fv.take(j + 1)) =~= produced + seq![xv]);
                }
                sections.insert(p, x);
                assert(sections@.map_values(|s: DiffSection| diff_section_view(s)) =~= sv.insert(
                    p as int,
                    xv,
                ));
            } else {
                assert(base + tagged(*doc, fv.take(j + 1)) =~= produced);
            }
        }
        proof {
            assert(fv.take(fv.len() as int) =~= fv);
            assert(documents@.take(d + 1).drop_last() =~= documents@.take(d as int));
            assert(documents@.take(d + 1).last() == *doc);
        }
    }
    assert(documents@.take(documents@.len() as int) =~= documents@);
    let ghost all = sort_sections(doc_sections(documents@, pat));
    let n = if limit == 0 {
        1
    } else {
        limit
    };
    let count = if sections.len() < n {
        sections.len()
    } else {
        n
    };
    let mut hits: Vec<SearchHit> = Vec::new();
    for i in 0..count
        invariant
            count <= sections@.len(),
            all == sections@.map_values(|x: DiffSection| diff_section_view(x)),
            hits@.len() == i,
            forall|k: int|
                0 <= k < i ==> renders(#[trigger] hits@[k], repository_id@, snapshot_id@, all[k]),
    {
        hits.push(render_hit(snapshot_id, repository_id, &sections[i]));
    }
    Ok(hits)
}

} // verus!
