//! Deterministic retrieval descriptors built at index time without a
//! model: the doc comment above a unit, file-level routing documents,
//! symbol descriptors and per-file role summaries.

use vstd::prelude::*;
use crate::history::{utf8_len, utf8_width_of};
use crate::indexing::{qualified_name, qualified_name_of};
use crate::parser::{kind_label, kind_name, EntityKind, ParsedCall, ParsedFile, ParsedUnit};
use crate::repository::ScannedFile;
use crate::text::{
    copy_string, eq_chars, owned, join_strings, lower, lower_all, push_all, push_str, trim_start, trim_start_chars,
    chars_of, contains_seq, contains_str, is_prefix, is_suffix, join, join_chars, last_index_of,
    lines, lines_of, rfind_char, slice_vec, starts_with_str, ends_with_str, string_of, trim,
    trim_chars, trim_end_all, trim_end_matches, trim_start_all, trim_start_matches,
};

verus! {

// ---- doc comments ---------------------------------------------------------------------

/// The text of a line comment after its marker: `///`, `//!`, `//`, `--`
/// or `#`, tried in that order.
pub open spec fn comment_body(t: Seq<char>) -> Option<Seq<char>> {
    if is_prefix("///"@, t) {
        Some(t.skip(3))
    } else if is_prefix("//!"@, t) {
        Some(t.skip(3))
    } else if is_prefix("//"@, t) {
        Some(t.skip(2))
    } else if is_prefix("--"@, t) {
        Some(t.skip(2))
    } else if is_prefix("#"@, t) {
        Some(t.skip(1))
    } else {
        None
    }
}

/// `s` without its leading spaces and `=` signs.
pub open spec fn skip_space_eq(s: Seq<char>) -> Seq<char>
    decreases s.len(),
{
    if s.len() > 0 && (s[0] == ' ' || s[0] == '=') {
        skip_space_eq(s.skip(1))
    } else {
        s
    }
}

/// The second piece from the right of `s` split at `c`, if `s` has one.
pub open spec fn second_last_piece(s: Seq<char>, c: char) -> Option<Seq<char>> {
    match last_index_of(s, c) {
        None => None,
        Some(l) => {
            let before = s.take(l);
            match last_index_of(before, c) {
                Some(m) => Some(before.skip(m + 1)),
                None => Some(before),
            }
        },
    }
}

/// The quoted text of a `#[doc = "..."]` line.
pub open spec fn doc_attr_text(t: Seq<char>) -> Option<Seq<char>> {
    if is_prefix("#[doc"@, t) {
        let rest = skip_space_eq(t.skip(5));
        if rest.len() > 0 && rest[0] == '"' {
            second_last_piece(rest.skip(1), '"')
        } else {
            None
        }
    } else {
        None
    }
}

/// What a line of a block comment contributes: the line without `*/`
/// closers, `/*` openers and leading `*`, trimmed.
pub open spec fn block_line_body(inner: Seq<char>) -> Seq<char> {
    trim(trim_start_all(trim_start_all(trim_end_all(inner, "*/"@), "/*"@), "*"@))
}

/// Walks a block comment upward from line `cursor` (its last line) to
/// the line that opens it, collecting non-empty line bodies; gives the
/// line above the opener and the bodies collected.
pub open spec fn block_walk(lines: Seq<Seq<char>>, cursor: int, collected: Seq<Seq<char>>) -> (
    int,
    Seq<Seq<char>>,
)
    decreases cursor,
{
    if cursor <= 0 || cursor >= lines.len() {
        (cursor, collected)
    } else {
        let inner = trim(lines[cursor]);
        let body = block_line_body(inner);
        let next = if body.len() > 0 {
            collected.push(body)
        } else {
            collected
        };
        if contains_seq(inner, "/*"@) {
            (cursor - 1, next)
        } else {
            block_walk(lines, cursor - 1, next)
        }
    }
}

/// The walk never moves below line zero nor above where it started.
pub proof fn lemma_block_walk(lines: Seq<Seq<char>>, cursor: int, collected: Seq<Seq<char>>)
    requires
        0 <= cursor,
    ensures
        0 <= block_walk(lines, cursor, collected).0 <= cursor,
    decreases cursor,
{
    if 0 < cursor < lines.len() {
        let inner = trim(lines[cursor]);
        let body = block_line_body(inner);
        let next = if body.len() > 0 {
            collected.push(body)
        } else {
            collected
        };
        lemma_block_walk(lines, cursor - 1, next);
    }
}

/// The comment lines collected walking up from the line above `cursor`:
/// blank lines are skipped until something is collected, then end the
/// walk; attribute lines are skipped (a `#[doc]` one contributes its
/// text); line comments contribute their text; a line ending a block
/// comment contributes the block; decorators are skipped; anything else
/// ends the walk, as do four collected lines.
pub open spec fn doc_scan(lines: Seq<Seq<char>>, cursor: int, collected: Seq<Seq<char>>) -> Seq<
    Seq<char>,
>
    decreases cursor,
{
    if cursor <= 0 || collected.len() >= 4 {
        collected
    } else {
        let c = cursor - 1;
        if c >= lines.len() {
            collected
        } else {
            let t = trim(lines[c]);
            if t.len() == 0 {
                if collected.len() == 0 {
                    doc_scan(lines, c, collected)
                } else {
                    collected
                }
            } else if is_prefix("#["@, t) {
                doc_scan(
                    lines,
                    c,
                    match doc_attr_text(t) {
                        Some(q) => collected.push(trim(q)),
                        None => collected,
                    },
                )
            } else if comment_body(t) is Some {
                doc_scan(lines, c, collected.push(trim(comment_body(t)->0)))
            } else if is_suffix("*/"@, t) {
                proof {
                    lemma_block_walk(lines, c, collected);
                }
                let walked = block_walk(lines, c, collected);
                doc_scan(lines, walked.0, walked.1)
            } else if is_prefix("@"@, t) {
                doc_scan(lines, c, collected)
            } else {
                collected
            }
        }
    }
}

/// The 0-based index of the 1-based line `start_line` (0 for line 0).
pub open spec fn line_index(start_line: nat) -> int {
    if start_line == 0 {
        0
    } else {
        start_line - 1
    }
}

/// The doc comment above the 1-based line `start_line` of `text`: the
/// collected lines in file order, joined by spaces and cut to 400 chars;
/// `None` when that is empty.
pub open spec fn doc_comment_of(text: Seq<char>, start_line: nat) -> Option<Seq<char>> {
    let collected = doc_scan(lines_of(text), line_index(start_line), Seq::empty());
    let doc = join(collected.reverse(), " "@);
    let capped = if doc.len() > 400 {
        doc.take(400)
    } else {
        doc
    };
    if capped.len() == 0 {
        None
    } else {
        Some(capped)
    }
}

fn comment_text(t: &Vec<char>) -> (r: Option<Vec<char>>)
    ensures
        match r {
            Some(b) => comment_body(t@) == Some(b@),
            None => comment_body(t@) is None,
        },
{
    proof {
        reveal_strlit("///");
        reveal_strlit("//!");
        reveal_strlit("//");
        reveal_strlit("--");
        reveal_strlit("#");
    }
    if starts_with_str(t, "///") || starts_with_str(t, "//!") {
        Some(slice_vec(t, 3, t.len()))
    } else if starts_with_str(t, "//") || starts_with_str(t, "--") {
        Some(slice_vec(t, 2, t.len()))
    } else if starts_with_str(t, "#") {
        Some(slice_vec(t, 1, t.len()))
    } else {
        None
    }
}

fn doc_attr(t: &Vec<char>) -> (r: Option<Vec<char>>)
    ensures
        match r {
            Some(q) => doc_attr_text(t@) == Some(q@),
            None => doc_attr_text(t@) is None,
        },
{
    if !starts_with_str(t, "#[doc") {
        return None;
    }
    proof {
        reveal_strlit("#[doc");
    }
    let mut k: usize = 5;
    while k < t.len() && (t[k] == ' ' || t[k] == '=')
        invariant
            5 <= k <= t@.len(),
            skip_space_eq(t@.skip(5)) == skip_space_eq(t@.skip(k as int)),
        decreases t@.len() - k,
    {
        assert(t@.skip(k as int).skip(1) =~= t@.skip(k + 1));
        k = k + 1;
    }
    assert(skip_space_eq(t@.skip(k as int)) == t@.skip(k as int));
    if k >= t.len() || t[k] != '"' {
        return None;
    }
    let body = slice_vec(t, k + 1, t.len());
    assert(body@ =~= t@.skip(k as int).skip(1));
    match rfind_char(&body, '"') {
        None => None,
        Some(l) => {
            let before = slice_vec(&body, 0, l);
            assert(before@ =~= body@.take(l as int));
            match rfind_char(&before, '"') {
                Some(m) => {
                    let q = slice_vec(&before, m + 1, l);
                    assert(q@ =~= before@.skip(m + 1));
                    Some(q)
                },
                None => Some(before),
            }
        },
    }
}

fn block_body(inner: &Vec<char>) -> (r: Vec<char>)
    ensures
        r@ == block_line_body(inner@),
{
    let a = trim_end_matches(inner, "*/");
    let b = trim_start_matches(&a, "/*");
    let c = trim_start_matches(&b, "*");
    trim_chars(&c)
}

fn walk_block(all: &Vec<Vec<char>>, cursor: usize, collected: &mut Vec<Vec<char>>) -> (r: usize)
    requires
        cursor < all@.len(),
    ensures
        (r as int, final(collected)@.map_values(|v: Vec<char>| v@)) == block_walk(
            all@.map_values(|v: Vec<char>| v@),
            cursor as int,
            old(collected)@.map_values(|v: Vec<char>| v@),
        ),
{
    let ghost ls = all@.map_values(|v: Vec<char>| v@);
    let mut cur = cursor;
    while cur > 0
        invariant
            cur <= cursor < all@.len(),
            ls == all@.map_values(|v: Vec<char>| v@),
            block_walk(ls, cur as int, collected@.map_values(|v: Vec<char>| v@)) == block_walk(
                ls,
                cursor as int,
                old(collected)@.map_values(|v: Vec<char>| v@),
            ),
        decreases cur,
    {
        let inner = trim_chars(&all[cur]);
        assert(ls[cur as int] == all@[cur as int]@);
        let is_open = contains_str(&inner, "/*");
        let body = block_body(&inner);
        let ghost before = collected@.map_values(|v: Vec<char>| v@);
        if body.len() > 0 {
            collected.push(body);
            assert(collected@.map_values(|v: Vec<char>| v@) =~= before.push(block_line_body(
                inner@,
            )));
        }
        cur = cur - 1;
        if is_open {
            return cur;
        }
    }
    cur
}

/// Leading doc/comment lines above a unit starting on the 1-based line
/// `start_line`, language-agnostic: contiguous `///`, `//!`, `//`, `#`,
/// `--` or `#[doc = "..."]` lines, or a block comment walked back to its
/// opener; at most a few lines, joined and cut to 400 chars.
pub fn leading_doc_comment(file_text: &str, start_line: u32) -> (r: Option<String>)
    ensures
        match r {
            Some(d) => doc_comment_of(file_text@, start_line as nat) == Some(d@),
            None => doc_comment_of(file_text@, start_line as nat) is None,
        },
{
    let all = lines(&chars_of(file_text));
    let ghost ls = all@.map_values(|v: Vec<char>| v@);
    let ghost goal = doc_scan(ls, line_index(start_line as nat), Seq::empty());
    let mut cursor: usize = if start_line == 0 {
        0
    } else {
        (start_line - 1) as usize
    };
    let mut collected: Vec<Vec<char>> = Vec::new();
    assert(collected@.map_values(|v: Vec<char>| v@) =~= Seq::<Seq<char>>::empty());
    loop
        invariant_except_break
            doc_scan(ls, cursor as int, collected@.map_values(|v: Vec<char>| v@)) == goal,
        invariant
            ls == all@.map_values(|v: Vec<char>| v@),
            ls == lines_of(file_text@),
        ensures
            collected@.map_values(|v: Vec<char>| v@) == goal,
        decreases cursor,
    {
        let ghost col = collected@.map_values(|v: Vec<char>| v@);
        if cursor == 0 || collected.len() >= 4 {
            break;
        }
        cursor = cursor - 1;
        if cursor >= all.len() {
            break;
        }
        assert(ls[cursor as int] == all@[cursor as int]@);
        let t = trim_chars(&all[cursor]);
        if t.len() == 0 {
            if collected.len() == 0 {
                continue;
            }
            break;
        }
        if starts_with_str(&t, "#[") {
            match doc_attr(&t) {
                Some(q) => {
                    collected.push(trim_chars(&q));
                    assert(collected@.map_values(|v: Vec<char>| v@) =~= col.push(trim(q@)));
                },
                None => {},
            }
            continue;
        }
        match comment_text(&t) {
            Some(b) => {
                collected.push(trim_chars(&b));
                assert(collected@.map_values(|v: Vec<char>| v@) =~= col.push(trim(b@)));
                continue;
            },
            None => {},
        }
        if ends_with_str(&t, "*/") {
            proof {
                lemma_block_walk(ls, cursor as int, col);
            }
            cursor = walk_block(&all, cursor, &mut collected);
            continue;
        }
        if starts_with_str(&t, "@") {
            continue;
        }
        break;
    }
    let mut reversed: Vec<Vec<char>> = Vec::new();
    let n = collected.len();
    for i in 0..n
        invariant
            n == collected@.len(),
            reversed@.map_values(|v: Vec<char>| v@) == goal.reverse().take(i as int),
            collected@.map_values(|v: Vec<char>| v@) == goal,
    {
        let piece = slice_vec(&collected[n - 1 - i], 0, collected[n - 1 - i].len());
        let ghost before = reversed@.map_values(|v: Vec<char>| v@);
        reversed.push(piece);
        assert(piece@ =~= goal[n - 1 - i]);
        assert(goal.reverse()[i as int] == goal[n - 1 - i]);
        assert(goal.reverse().take(i + 1) =~= goal.reverse().take(i as int).push(goal[n - 1 - i]));
        assert(reversed@.map_values(|v: Vec<char>| v@) =~= goal.reverse().take(i + 1));
    }
    assert(goal.reverse().take(n as int) =~= goal.reverse());
    let doc = join_chars(&reversed, " ");
    let capped = if doc.len() > 400 {
        slice_vec(&doc, 0, 400)
    } else {
        doc
    };
    if capped.len() == 0 {
        None
    } else {
        Some(string_of(&capped))
    }
}


// ---- file descriptors ------------------------------------------------------------------

/// Longest file descriptor, in UTF-8 bytes.
pub const MAX_DESCRIPTOR_BYTES: usize = 2048;

/// At most the first `n` items of `s`.
pub open spec fn first_n<T>(s: Seq<T>, n: nat) -> Seq<T> {
    if s.len() > n {
        s.take(n as int)
    } else {
        s
    }
}

/// A leading line that carries module intent or dependency facts: a
/// comment, attribute or import.
pub open spec fn head_line(l: Seq<char>) -> bool {
    let t = trim_start(l);
    is_prefix("//"@, t) || is_prefix("#"@, t) || is_prefix("use "@, t) || is_prefix("import "@, t)
        || is_prefix("from "@, t) || is_prefix("mod "@, t)
}

/// The head lines among `ls`, in order.
pub open spec fn head_lines_of(ls: Seq<Seq<char>>) -> Seq<Seq<char>>
    decreases ls.len(),
{
    if ls.len() == 0 {
        Seq::empty()
    } else {
        head_lines_of(ls.drop_last()) + if head_line(ls.last()) {
            seq![ls.last()]
        } else {
            Seq::empty()
        }
    }
}

/// The head block: the head lines among the first 24 lines, at most 12.
pub open spec fn head_block(text: Seq<char>) -> Seq<char> {
    join(first_n(head_lines_of(first_n(lines_of(text), 24)), 12), "\n"@)
}

/// A top-level unit's line: its trimmed signature, or `Kind name` when it
/// has none or only white space.
pub open spec fn signature_line(u: ParsedUnit) -> Seq<char> {
    if u.signature is Some && trim(u.signature->0@).len() > 0 {
        trim(u.signature->0@)
    } else {
        kind_label(u.kind) + " "@ + u.name@
    }
}

/// The lines of the top-level units, in order.
pub open spec fn signature_lines(units: Seq<ParsedUnit>) -> Seq<Seq<char>>
    decreases units.len(),
{
    if units.len() == 0 {
        Seq::empty()
    } else {
        signature_lines(units.drop_last()) + if units.last().parent_unit is None {
            seq![signature_line(units.last())]
        } else {
            Seq::empty()
        }
    }
}

/// An optional string as an optional char sequence.
pub open spec fn opt_view(s: Option<String>) -> Option<Seq<char>> {
    match s {
        Some(t) => Some(t@),
        None => None,
    }
}

/// The descriptor before the length cap: `path (language)`, then the head
/// block and the top-level signatures (at most 24), each when non-empty,
/// separated by blank lines.
pub open spec fn descriptor_text(
    path: Seq<char>,
    language: Option<Seq<char>>,
    text: Seq<char>,
    units: Seq<ParsedUnit>,
) -> Seq<char> {
    let header = path + " ("@ + (match language {
        Some(l) => l,
        None => "text"@,
    }) + ")"@;
    let head = head_block(text);
    let sigs = join(first_n(signature_lines(units), 24), "\n"@);
    join(
        seq![header] + (if head.len() > 0 {
            seq![head]
        } else {
            Seq::empty()
        }) + (if sigs.len() > 0 {
            seq![sigs]
        } else {
            Seq::empty()
        }),
        "\n\n"@,
    )
}

/// `r` is the longest prefix of `s` that fits in `n` UTF-8 bytes.
pub open spec fn longest_fitting_prefix(r: Seq<char>, s: Seq<char>, n: nat) -> bool {
    &&& r.len() <= s.len()
    &&& r == s.take(r.len() as int)
    &&& utf8_len(r) <= n
    &&& (r.len() == s.len() || utf8_len(s.take(r.len() + 1int)) > n)
}

/// Each further char adds at least one byte.
pub proof fn lemma_utf8_len_strict(s: Seq<char>, a: int, b: int)
    requires
        0 <= a < b <= s.len(),
    ensures
        utf8_len(s.take(a)) < utf8_len(s.take(b)),
    decreases b - a,
{
    assert(s.take(b).drop_last() =~= s.take(b - 1));
    if a < b - 1 {
        lemma_utf8_len_strict(s, a, b - 1);
    }
}

fn head_line_exec(l: &Vec<char>) -> (r: bool)
    ensures
        r == head_line(l@),
{
    let t = trim_start_chars(l);
    starts_with_str(&t, "//") || starts_with_str(&t, "#") || starts_with_str(&t, "use ")
        || starts_with_str(&t, "import ") || starts_with_str(&t, "from ") || starts_with_str(
        &t,
        "mod ",
    )
}

fn head_block_exec(text: &str) -> (r: Vec<char>)
    ensures
        r@ == head_block(text@),
{
    let all = lines(&chars_of(text));
    let ghost ls = all@.map_values(|v: Vec<char>| v@);
    let m = if all.len() > 24 {
        24
    } else {
        all.len()
    };
    let ghost first = first_n(ls, 24);
    assert(first =~= ls.take(m as int));
    let mut heads: Vec<Vec<char>> = Vec::new();
    for i in 0..m
        invariant
            m <= all@.len(),
            ls == all@.map_values(|v: Vec<char>| v@),
            first == ls.take(m as int),
            heads@.map_values(|v: Vec<char>| v@) == first_n(head_lines_of(first.take(i as int)), 12),
    {
        let ghost before = head_lines_of(first.take(i as int));
        assert(first.take(i + 1).drop_last() =~= first.take(i as int));
        assert(first.take(i + 1).last() == all@[i as int]@);
        if head_line_exec(&all[i]) {
            if heads.len() < 12 {
                let ghost hv = heads@.map_values(|v: Vec<char>| v@);
                let line = slice_vec(&all[i], 0, all[i].len());
                assert(line@ =~= all@[i as int]@);
                heads.push(line);
                assert(heads@.map_values(|v: Vec<char>| v@) =~= hv.push(all@[i as int]@));
                assert(first_n(before.push(all@[i as int]@), 12) =~= first_n(before, 12).push(
                    all@[i as int]@,
                ));
            } else {
                assert(first_n(before.push(all@[i as int]@), 12) =~= first_n(before, 12));
            }
        }
    }
    assert(first.take(m as int) =~= first);
    join_chars(&heads, "\n")
}

fn signature_block(units: &Vec<ParsedUnit>) -> (r: Vec<char>)
    ensures
        r@ == join(first_n(signature_lines(units@), 24), "\n"@),
{
    let mut sigs: Vec<Vec<char>> = Vec::new();
    for i in 0..units.len()
        invariant
            sigs@.map_values(|v: Vec<char>| v@) == first_n(signature_lines(units@.take(i as int)), 24),
    {
        let ghost before = signature_lines(units@.take(i as int));
        assert(units@.take(i + 1).drop_last() =~= units@.take(i as int));
        assert(units@.take(i + 1).last() == units@[i as int]);
        let u = &units[i];
        if u.parent_unit.is_none() {
            let line = match &u.signature {
                Some(sig) => {
                    let t = trim_chars(&chars_of(sig.as_str()));
                    if t.len() > 0 {
                        t
                    } else {
                        kind_line(u)
                    }
                },
                None => kind_line(u),
            };
            assert(line@ == signature_line(*u));
            if sigs.len() < 24 {
                let ghost sv = sigs@.map_values(|v: Vec<char>| v@);
                sigs.push(line);
                assert(sigs@.map_values(|v: Vec<char>| v@) =~= sv.push(signature_line(*u)));
                assert(first_n(before.push(signature_line(*u)), 24) =~= first_n(before, 24).push(
                    signature_line(*u),
                ));
            } else {
                assert(first_n(before.push(signature_line(*u)), 24) =~= first_n(before, 24));
            }
        }
    }
    assert(units@.take(units@.len() as int) =~= units@);
    join_chars(&sigs, "\n")
}

fn kind_line(u: &ParsedUnit) -> (r: Vec<char>)
    ensures
        r@ == kind_label(u.kind) + " "@ + u.name@,
{
    let mut v: Vec<char> = Vec::new();
    push_str(&mut v, kind_name(u.kind));
    push_str(&mut v, " ");
    push_str(&mut v, u.name.as_str());
    v
}

/// Compact file-level retrieval document: path and language, the leading
/// comment/import block, and the top-level symbol signatures, cut back to
/// the last char boundary within `MAX_DESCRIPTOR_BYTES` bytes.
pub fn file_descriptor(file: &ScannedFile, text: &str, parsed: &ParsedFile) -> (r: String)
    ensures
        longest_fitting_prefix(
            r@,
            descriptor_text(file.relative_path@, opt_view(file.language), text@, parsed.units@),
            MAX_DESCRIPTOR_BYTES as nat,
        ),
{
    let ghost d = descriptor_text(file.relative_path@, opt_view(file.language), text@, parsed.units@);
    let mut header: Vec<char> = Vec::new();
    push_str(&mut header, file.relative_path.as_str());
    push_str(&mut header, " (");
    match &file.language {
        Some(l) => push_str(&mut header, l.as_str()),
        None => push_str(&mut header, "text"),
    }
    push_str(&mut header, ")");
    let head = head_block_exec(text);
    let sigs = signature_block(&parsed.units);
    let mut parts: Vec<Vec<char>> = Vec::new();
    parts.push(header);
    let ghost p1 = parts@.map_values(|v: Vec<char>| v@);
    if head.len() > 0 {
        parts.push(head);
    }
    let ghost p2 = parts@.map_values(|v: Vec<char>| v@);
    if sigs.len() > 0 {
        parts.push(sigs);
    }
    proof {
        let language = opt_view(file.language);
        let hdr = file.relative_path@ + " ("@ + (match language {
            Some(l) => l,
            None => "text"@,
        }) + ")"@;
        assert(p1 =~= seq![hdr]);
        let hb = head_block(text@);
        assert(p2 =~= seq![hdr] + (if hb.len() > 0 {
            seq![hb]
        } else {
            Seq::empty()
        }));
        let sb = join(first_n(signature_lines(parsed.units@), 24), "\n"@);
        assert(parts@.map_values(|v: Vec<char>| v@) =~= seq![hdr] + (if hb.len() > 0 {
            seq![hb]
        } else {
            Seq::empty()
        }) + (if sb.len() > 0 {
            seq![sb]
        } else {
            Seq::empty()
        }));
    }
    let body = join_chars(&parts, "\n\n");
    assert(body@ == d);
    string_of(&prefix_within(&body, MAX_DESCRIPTOR_BYTES))
}

/// `body` cut back to the last char boundary within `cap` UTF-8 bytes.
pub(crate) fn prefix_within(body: &Vec<char>, cap: usize) -> (r: Vec<char>)
    ensures
        longest_fitting_prefix(r@, body@, cap as nat),
{
    let mut acc: usize = 0;
    let mut k: usize = 0;
    while k < body.len()
        invariant
            k <= body@.len(),
            acc == utf8_len(body@.take(k as int)),
            acc <= cap,
        decreases body@.len() - k,
    {
        let w = utf8_width_of(body[k]);
        assert(body@.take(k + 1).drop_last() =~= body@.take(k as int));
        if w > cap - acc {
            let r = slice_vec(body, 0, k);
            assert(r@ =~= body@.take(k as int));
            return r;
        }
        acc = acc + w;
        k = k + 1;
    }
    assert(body@.take(body@.len() as int) =~= body@);
    slice_vec(body, 0, body.len())
}


// ---- role summaries ----------------------------------------------------------------------

/// Entity kinds in the order of their lower-case names.
pub open spec fn kinds_by_name() -> Seq<EntityKind> {
    seq![
        EntityKind::Class,
        EntityKind::Commit,
        EntityKind::Constant,
        EntityKind::Directory,
        EntityKind::Enum,
        EntityKind::Field,
        EntityKind::File,
        EntityKind::Function,
        EntityKind::Interface,
        EntityKind::Method,
        EntityKind::Module,
        EntityKind::Package,
        EntityKind::Repository,
        EntityKind::Route,
        EntityKind::Schema,
        EntityKind::Struct,
        EntityKind::Trait,
        EntityKind::Unknown,
    ]
}

/// The names of the units of kind `k`, in unit order.
pub open spec fn names_of_kind(units: Seq<ParsedUnit>, k: EntityKind) -> Seq<Seq<char>>
    decreases units.len(),
{
    if units.len() == 0 {
        Seq::empty()
    } else {
        names_of_kind(units.drop_last(), k) + if units.last().kind == k {
            seq![units.last().name@]
        } else {
            Seq::empty()
        }
    }
}

/// `kind: name, name, ...` for each of `kinds` that has units.
pub open spec fn kind_groups(units: Seq<ParsedUnit>, kinds: Seq<EntityKind>) -> Seq<Seq<char>>
    decreases kinds.len(),
{
    if kinds.len() == 0 {
        Seq::empty()
    } else {
        let k = kinds.last();
        let names = names_of_kind(units, k);
        kind_groups(units, kinds.drop_last()) + if names.len() > 0 {
            seq![lower(kind_label(k)) + ": "@ + join(names, ", "@)]
        } else {
            Seq::empty()
        }
    }
}

/// The deterministic role summary of a file.
pub open spec fn role_summary_of(
    path: Seq<char>,
    language: Option<Seq<char>>,
    units: Seq<ParsedUnit>,
    parsed: bool,
    has_syntax_errors: bool,
) -> Seq<char> {
    let definitions = join(kind_groups(units, kinds_by_name()), "; "@);
    "File `"@ + path + "` is a "@ + (match language {
        Some(l) => l,
        None => "unknown-language"@,
    }) + " source artifact. Parser status: "@ + (if parsed {
        "parsed"@
    } else {
        "file-level only"@
    }) + (if has_syntax_errors {
        " with syntax errors"@
    } else {
        ""@
    }) + ". Defined entities: "@ + (if definitions.len() == 0 {
        "none extracted"@
    } else {
        definitions
    })
        + ". This summary is deterministic navigation metadata and must be verified against the cited source."@
}

fn names_exec(units: &Vec<ParsedUnit>, k: EntityKind) -> (r: Vec<String>)
    ensures
        r@.map_values(|s: String| s@) == names_of_kind(units@, k),
{
    let mut r: Vec<String> = Vec::new();
    for i in 0..units.len()
        invariant
            r@.map_values(|s: String| s@) == names_of_kind(units@.take(i as int), k),
    {
        assert(units@.take(i + 1).drop_last() =~= units@.take(i as int));
        assert(units@.take(i + 1).last() == units@[i as int]);
        if units[i].kind == k {
            let ghost before = r@.map_values(|s: String| s@);
            r.push(copy_string(&units[i].name));
            assert(r@.map_values(|s: String| s@) =~= before.push(units@[i as int].name@));
        }
    }
    assert(units@.take(units@.len() as int) =~= units@);
    r
}

/// A one-paragraph summary of what a file defines, grouped by kind in
/// name order, with its parse status; deterministic navigation metadata.
pub fn deterministic_role_summary(file: &ScannedFile, parsed: &ParsedFile) -> (r: String)
    ensures
        r@ == role_summary_of(
            file.relative_path@,
            opt_view(file.language),
            parsed.units@,
            parsed.parsed,
            parsed.has_syntax_errors,
        ),
{
    let kinds = [
        EntityKind::Class,
        EntityKind::Commit,
        EntityKind::Constant,
        EntityKind::Directory,
        EntityKind::Enum,
        EntityKind::Field,
        EntityKind::File,
        EntityKind::Function,
        EntityKind::Interface,
        EntityKind::Method,
        EntityKind::Module,
        EntityKind::Package,
        EntityKind::Repository,
        EntityKind::Route,
        EntityKind::Schema,
        EntityKind::Struct,
        EntityKind::Trait,
        EntityKind::Unknown,
    ];
    assert(kinds@ =~= kinds_by_name());
    let mut groups: Vec<Vec<char>> = Vec::new();
    for j in 0..18
        invariant
            kinds@ == kinds_by_name(),
            groups@.map_values(|v: Vec<char>| v@) == kind_groups(parsed.units@, kinds@.take(j as int)),
    {
        let k = kinds[j];
        assert(kinds@.take(j + 1).drop_last() =~= kinds@.take(j as int));
        assert(kinds@.take(j + 1).last() == k);
        let names = names_exec(&parsed.units, k);
        if names.len() > 0 {
            let mut g = lower_all(&chars_of(kind_name(k)));
            push_str(&mut g, ": ");
            let joined = join_strings(&names, ", ");
            push_all(&mut g, &joined);
            let ghost before = groups@.map_values(|v: Vec<char>| v@);
            groups.push(g);
            assert(groups@.map_values(|v: Vec<char>| v@) =~= before.push(
                lower(kind_label(k)) + ": "@ + join(names_of_kind(parsed.units@, k), ", "@),
            ));
        }
    }
    assert(kinds@.take(18) =~= kinds@);
    let definitions = join_chars(&groups, "; ");
    let mut v: Vec<char> = Vec::new();
    push_str(&mut v, "File `");
    push_str(&mut v, file.relative_path.as_str());
    push_str(&mut v, "` is a ");
    match &file.language {
        Some(l) => push_str(&mut v, l.as_str()),
        None => push_str(&mut v, "unknown-language"),
    }
    push_str(&mut v, " source artifact. Parser status: ");
    if parsed.parsed {
        push_str(&mut v, "parsed");
    } else {
        push_str(&mut v, "file-level only");
    }
    if parsed.has_syntax_errors {
        push_str(&mut v, " with syntax errors");
    } else {
        push_str(&mut v, "");
    }
    push_str(&mut v, ". Defined entities: ");
    if definitions.len() == 0 {
        push_str(&mut v, "none extracted");
    } else {
        push_all(&mut v, &definitions);
    }
    push_str(
        &mut v,
        ". This summary is deterministic navigation metadata and must be verified against the cited source.",
    );
    string_of(&v)
}


// ---- symbol descriptors --------------------------------------------------------------------

/// The char sequences of a vector of char vectors.
pub open spec fn views(v: Seq<Vec<char>>) -> Seq<Seq<char>> {
    v.map_values(|e: Vec<char>| e@)
}

/// `a` sorts strictly before `b`: code-point lexicographic order, which is
/// the byte order of their UTF-8 encodings.
pub open spec fn lex_lt(a: Seq<char>, b: Seq<char>) -> bool
    decreases a.len(),
{
    if a.len() == 0 {
        b.len() > 0
    } else if b.len() == 0 {
        false
    } else if a[0] < b[0] {
        true
    } else if a[0] == b[0] {
        lex_lt(a.skip(1), b.skip(1))
    } else {
        false
    }
}

/// The order is strict and total.
pub proof fn lemma_lex_total(a: Seq<char>, b: Seq<char>)
    ensures
        lex_lt(a, b) ==> !lex_lt(b, a) && a != b,
        a != b ==> lex_lt(a, b) || lex_lt(b, a),
    decreases a.len(),
{
    if a.len() > 0 && b.len() > 0 {
        lemma_lex_total(a.skip(1), b.skip(1));
        if a[0] != b[0] {
            assert(a[0] < b[0] || b[0] < a[0]);
        }
        if a[0] == b[0] && a.skip(1) == b.skip(1) {
            assert(a =~= seq![a[0]] + a.skip(1));
            assert(b =~= seq![b[0]] + b.skip(1));
        }
    } else if a.len() == 0 && b.len() == 0 {
        assert(a =~= b);
    }
}

/// The order is transitive.
pub proof fn lemma_lex_trans(a: Seq<char>, b: Seq<char>, c: Seq<char>)
    requires
        lex_lt(a, b),
        lex_lt(b, c),
    ensures
        lex_lt(a, c),
    decreases a.len(),
{
    if a.len() > 0 && b.len() > 0 && c.len() > 0 && a[0] == b[0] && b[0] == c[0] {
        lemma_lex_trans(a.skip(1), b.skip(1), c.skip(1));
    }
}

/// Strictly increasing, hence without repeats.
pub open spec fn sorted_distinct(s: Seq<Seq<char>>) -> bool {
    forall|i: int, j: int| 0 <= i < j < s.len() ==> lex_lt(#[trigger] s[i], #[trigger] s[j])
}

/// The callee spellings of the calls made from unit `index`, in order.
pub open spec fn callee_names(calls: Seq<ParsedCall>, index: nat) -> Seq<Seq<char>>
    decreases calls.len(),
{
    if calls.len() == 0 {
        Seq::empty()
    } else {
        callee_names(calls.drop_last(), index) + if calls.last().caller == Some(index as usize) {
            seq![calls.last().name@]
        } else {
            Seq::empty()
        }
    }
}

/// The descriptor of unit `index` given the sorted distinct callee names:
/// `kind qualified in path`, the split identifier words when they differ
/// from the lower-cased name, the signature, the doc comment, at most
/// twelve callees and the type references.
pub open spec fn symbol_descriptor_with(
    path: Seq<char>,
    text: Seq<char>,
    units: Seq<ParsedUnit>,
    index: int,
    split_words: Seq<char>,
    callees: Seq<Seq<char>>,
) -> Seq<char> {
    if index < 0 || index >= units.len() {
        path
    } else {
        let u = units[index];
        let base = lower(kind_label(u.kind)) + " "@ + qualified_name_of(path, units, index) + " in "@
            + path;
        let with_words = if split_words.len() > 0 && split_words != lower(u.name@) {
            base + " ("@ + split_words + ")"@
        } else {
            base
        };
        let with_signature = match u.signature {
            Some(sig) => with_words + " — "@ + sig@,
            None => with_words,
        };
        let with_doc = match doc_comment_of(text, u.start_line as nat) {
            Some(doc) => with_signature + "\n"@ + doc,
            None => with_signature,
        };
        let shown = first_n(callees, 12);
        let with_calls = if shown.len() > 0 {
            with_doc + "\ncalls: "@ + join(shown, ", "@)
        } else {
            with_doc
        };
        if u.type_references@.len() > 0 {
            with_calls + "\nuses types: "@ + join(
                u.type_references@.map_values(|t: String| t@),
                ", "@,
            )
        } else {
            with_calls
        }
    }
}

/// Whether `a` sorts strictly before `b`.
pub fn lex_less(a: &Vec<char>, b: &Vec<char>) -> (r: bool)
    ensures
        r == lex_lt(a@, b@),
{
    let mut i: usize = 0;
    assert(a@.skip(0) =~= a@ && b@.skip(0) =~= b@);
    while i < a.len() && i < b.len() && a[i] == b[i]
        invariant
            i <= a@.len(),
            i <= b@.len(),
            lex_lt(a@, b@) == lex_lt(a@.skip(i as int), b@.skip(i as int)),
        decreases a@.len() - i,
    {
        assert(a@.skip(i as int).skip(1) =~= a@.skip(i + 1));
        assert(b@.skip(i as int).skip(1) =~= b@.skip(i + 1));
        i = i + 1;
    }
    if i == a.len() {
        i < b.len()
    } else if i == b.len() {
        false
    } else {
        assert(a@.skip(i as int)[0] == a@[i as int] && b@.skip(i as int)[0] == b@[i as int]);
        a[i] < b[i]
    }
}

/// Inserts `x` into the sorted distinct `v` unless it is there already.
pub(crate) fn insert_sorted(v: &mut Vec<Vec<char>>, x: Vec<char>)
    requires
        sorted_distinct(views(old(v)@)),
    ensures
        sorted_distinct(views(final(v)@)),
        forall|y: Seq<char>|
            #![trigger views(final(v)@).contains(y)]
            views(final(v)@).contains(y) <==> (old(v)@.map_values(
                |e: Vec<char>| e@,
            ).contains(y) || y == x@),
{
    let ghost ov = views(v@);
    let mut p: usize = 0;
    while p < v.len() && lex_less(&v[p], &x)
        invariant
            p <= v@.len(),
            views(v@) == ov,
            forall|i: int| 0 <= i < p ==> lex_lt(#[trigger] ov[i], x@),
        decreases v@.len() - p,
    {
        p = p + 1;
    }
    if p < v.len() && eq_chars(&v[p], &x) {
        assert(ov[p as int] == x@);
        assert forall|y: Seq<char>| ov.contains(y) <==> (ov.contains(y) || y == x@) by {
            if y == x@ {
                assert(ov[p as int] == y);
            }
        }
        return;
    }
    let ghost xv = x@;
    v.insert(p, x);
    let ghost nv = views(v@);
    assert(nv =~= ov.insert(p as int, xv));
    proof {
        if p < ov.len() {
            lemma_lex_total(ov[p as int], xv);
            assert(lex_lt(xv, ov[p as int]));
        }
        assert forall|i: int, j: int| 0 <= i < j < nv.len() implies lex_lt(
            #[trigger] nv[i],
            #[trigger] nv[j],
        ) by {
            if j < p {
                assert(nv[i] == ov[i] && nv[j] == ov[j]);
            } else if j == p {
                assert(nv[i] == ov[i]);
            } else if i > p {
                assert(nv[i] == ov[i - 1] && nv[j] == ov[j - 1]);
            } else if i == p {
                assert(nv[j] == ov[j - 1]);
                if j - 1 > p {
                    lemma_lex_trans(xv, ov[p as int], ov[j - 1]);
                }
            } else {
                assert(nv[i] == ov[i] && nv[j] == ov[j - 1]);
                lemma_lex_trans(ov[i], xv, ov[p as int]);
                if j - 1 > p {
                    lemma_lex_trans(ov[i], ov[p as int], ov[j - 1]);
                }
            }
        }
        assert forall|y: Seq<char>| nv.contains(y) <==> (ov.contains(y) || y == xv) by {
            if nv.contains(y) {
                let k = choose|k: int| 0 <= k < nv.len() && nv[k] == y;
                if k < p {
                    assert(ov[k] == y);
                } else if k > p {
                    assert(ov[k - 1] == y);
                }
            }
            if ov.contains(y) {
                let k = choose|k: int| 0 <= k < ov.len() && ov[k] == y;
                if k < p {
                    assert(nv[k] == y);
                } else {
                    assert(nv[k + 1] == y);
                }
            }
            if y == xv {
                assert(nv[p as int] == y);
            }
        }
    }
}

/// Deterministic contextual descriptor for unit `index`: its kind,
/// qualified name and path, the words hidden in its identifier
/// (`split_words`, as the identifier splitter gives them), its signature
/// and doc comment, the distinct callees it names in sorted order (at most
/// twelve) and the types it references; the path alone for an index past
/// the units.
pub fn symbol_descriptor(
    path: &str,
    file_text: &str,
    parsed: &ParsedFile,
    index: usize,
    split_words: &str,
) -> (r: String)
    requires
        crate::parser::parents_enclose(parsed.units@),
    ensures
        index >= parsed.units@.len() ==> r@ == path@,
        index < parsed.units@.len() ==> exists|callees: Seq<Seq<char>>|
            {
                &&& sorted_distinct(callees)
                &&& forall|y: Seq<char>|
                    callees.contains(y) <==> callee_names(parsed.calls@, index as nat).contains(y)
                &&& r@ == symbol_descriptor_with(
                    path@,
                    file_text@,
                    parsed.units@,
                    index as int,
                    split_words@,
                    callees,
                )
            },
{
    if index >= parsed.units.len() {
        return owned(path);
    }
    let u = &parsed.units[index];
    let mut d = lower_all(&chars_of(kind_name(u.kind)));
    push_str(&mut d, " ");
    let qualified = qualified_name(path, parsed, index);
    push_str(&mut d, qualified.as_str());
    push_str(&mut d, " in ");
    push_str(&mut d, path);
    let words = chars_of(split_words);
    let lowered = lower_all(&chars_of(u.name.as_str()));
    if words.len() > 0 && !eq_chars(&words, &lowered) {
        push_str(&mut d, " (");
        push_all(&mut d, &words);
        push_str(&mut d, ")");
    }
    match &u.signature {
        Some(sig) => {
            push_str(&mut d, " — ");
            push_str(&mut d, sig.as_str());
        },
        None => {},
    }
    match leading_doc_comment(file_text, u.start_line) {
        Some(doc) => {
            push_str(&mut d, "\n");
            push_str(&mut d, doc.as_str());
        },
        None => {},
    }
    let mut callees: Vec<Vec<char>> = Vec::new();
    for i in 0..parsed.calls.len()
        invariant
            sorted_distinct(views(callees@)),
            forall|y: Seq<char>|
                views(callees@).contains(y) <==> callee_names(
                    parsed.calls@.take(i as int),
                    index as nat,
                ).contains(y),
    {
        let ghost before = callee_names(parsed.calls@.take(i as int), index as nat);
        assert(parsed.calls@.take(i + 1).drop_last() =~= parsed.calls@.take(i as int));
        assert(parsed.calls@.take(i + 1).last() == parsed.calls@[i as int]);
        let call = &parsed.calls[i];
        match call.caller {
            Some(c) => {
                if c == index {
                    let name = chars_of(call.name.as_str());
                    let ghost pushed = before.push(call.name@);
                    assert(callee_names(parsed.calls@.take(i + 1), index as nat) == pushed);
                    let ghost cv = views(callees@);
                    insert_sorted(&mut callees, name);
                    assert forall|y: Seq<char>| views(callees@).contains(y) <==> callee_names(
                        parsed.calls@.take(i + 1),
                        index as nat,
                    ).contains(y) by {
                        assert(views(callees@).contains(y) <==> (cv.contains(y) || y == call.name@));
                        assert(cv.contains(y) <==> before.contains(y));
                        if pushed.contains(y) {
                            let k = choose|k: int| 0 <= k < pushed.len() && pushed[k] == y;
                            if k < before.len() {
                                assert(before[k] == y);
                            }
                        }
                        if before.contains(y) {
                            let k = choose|k: int| 0 <= k < before.len() && before[k] == y;
                            assert(pushed[k] == y);
                        }
                        if y == call.name@ {
                            assert(pushed[before.len() as int] == y);
                        }
                    }
                } else {
                    assert(callee_names(parsed.calls@.take(i + 1), index as nat) == before);
                }
            },
            None => {
                assert(callee_names(parsed.calls@.take(i + 1), index as nat) == before);
            },
        }
    }
    assert(parsed.calls@.take(parsed.calls@.len() as int) =~= parsed.calls@);
    let ghost sorted = views(callees@);
    let shown_count = if callees.len() > 12 {
        12
    } else {
        callees.len()
    };
    let mut shown: Vec<Vec<char>> = Vec::new();
    for i in 0..shown_count
        invariant
            shown_count <= callees@.len(),
            sorted == views(callees@),
            views(shown@) == sorted.take(i as int),
    {
        let piece = slice_vec(&callees[i], 0, callees[i].len());
        let ghost sv = views(shown@);
        assert(piece@ =~= sorted[i as int]);
        shown.push(piece);
        assert(views(shown@) =~= sv.push(piece@));
        assert(views(shown@) =~= sorted.take(i + 1));
    }
    assert(sorted.take(shown_count as int) =~= first_n(sorted, 12));
    if shown.len() > 0 {
        push_str(&mut d, "\ncalls: ");
        let joined = join_chars(&shown, ", ");
        push_all(&mut d, &joined);
    }
    if u.type_references.len() > 0 {
        push_str(&mut d, "\nuses types: ");
        let joined = join_strings(&u.type_references, ", ");
        push_all(&mut d, &joined);
    }
    proof {
        let words_view = split_words@;
        assert(d@ =~= symbol_descriptor_with(
            path@,
            file_text@,
            parsed.units@,
            index as int,
            split_words@,
            sorted,
        ));
    }
    string_of(&d)
}

} // verus!
