//! Aligning a node a dataflow generator reports (a 1-based line, maybe a
//! column and the node's code text) with a byte range of the source file.

use vstd::prelude::*;

use crate::history::utf8_len;
use crate::text::{
    chars_of, contains_seq, find, matches_at, occurs_at, slice_vec, trim_end, trim_end_chars,
    trim_start, trim_start_chars,
};

verus! {

// ---- aligning a reported node with its source ----------------------------------------

/// Char position of the first `\n` at or after `from`, if any.
pub open spec fn newline_from(t: Seq<char>, from: int) -> Option<int>
    decreases t.len() - from,
{
    if from < 0 || from >= t.len() {
        None
    } else if t[from] == '\n' {
        Some(from)
    } else {
        newline_from(t, from + 1)
    }
}

/// Char position where 0-based line `n` starts, if the text has that line.
pub open spec fn line_start(t: Seq<char>, n: nat) -> Option<int>
    decreases n,
{
    if n == 0 {
        Some(0)
    } else {
        match line_start(t, (n - 1) as nat) {
            Some(s) => match newline_from(t, s) {
                Some(p) => Some(p + 1),
                None => None,
            },
            None => None,
        }
    }
}

/// Char position where the line starting at `s` ends (its `\n`, or the end).
pub open spec fn line_end(t: Seq<char>, s: int) -> int {
    match newline_from(t, s) {
        Some(p) => p,
        None => t.len() as int,
    }
}

/// Byte offset of char position `k`.
pub open spec fn byte_at(t: Seq<char>, k: int) -> nat {
    utf8_len(t.take(k))
}

/// Char position a column points at within the line `ls..le`: the
/// column-th char, or the line's end when the line is shorter.
pub open spec fn column_char(ls: int, le: int, c: nat) -> int {
    if c < le - ls {
        ls + c
    } else {
        le
    }
}

/// Where `p` first occurs in `s` (meaningful when it occurs).
pub open spec fn first_at(s: Seq<char>, p: Seq<char>) -> int {
    choose|i: int| occurs_at(s, p, i) && forall|j: int| 0 <= j < i ==> !occurs_at(s, p, j)
}

/// Leading white-space chars of `s`.
pub open spec fn leading_ws(s: Seq<char>) -> int {
    s.len() - trim_start(s).len()
}

/// Bytes `at..at + |code|`: where a code text found at char `at` lies.
pub open spec fn hit_range(t: Seq<char>, at: int, code: Seq<char>) -> (usize, usize) {
    ((byte_at(t, at)) as usize, (byte_at(t, at) + utf8_len(code)) as usize)
}

/// Where the code text lies in the line `ls..le`: starting at the reported
/// column or the one before it, else at its first occurrence in the line.
pub open spec fn code_aligned(
    t: Seq<char>,
    ls: int,
    le: int,
    column: Option<usize>,
    cd: Seq<char>,
) -> Option<(usize, usize)> {
    let by_column = match column {
        Some(c) => {
            let a1 = column_char(ls, le, c as nat);
            let a2 = column_char(ls, le, if c == 0 { 0nat } else { (c - 1) as nat });
            if occurs_at(t, cd, a1) {
                Some(hit_range(t, a1, cd))
            } else if occurs_at(t, cd, a2) {
                Some(hit_range(t, a2, cd))
            } else {
                None
            }
        },
        None => None,
    };
    if by_column is Some {
        by_column
    } else if contains_seq(t.subrange(ls, le), cd) {
        Some(hit_range(t, ls + first_at(t.subrange(ls, le), cd), cd))
    } else {
        None
    }
}

/// The line `ls..le` without its surrounding white space, unless blank.
pub open spec fn trimmed_line(t: Seq<char>, ls: int, le: int) -> Option<(usize, usize)> {
    let lt = t.subrange(ls, le);
    let lead = byte_at(lt, leading_ws(lt));
    let trail = utf8_len(trim_end(lt));
    if lead < trail {
        Some(((byte_at(t, ls) + lead) as usize, (byte_at(t, ls) + trail) as usize))
    } else {
        None
    }
}

/// The byte range a reported node covers: on 1-based `line`, the code
/// text at the reported column (or the one before it), else the code's
/// first occurrence in the line, else the line without its surrounding
/// white space (`None` when the line is blank or absent).
pub open spec fn aligned_range(
    t: Seq<char>,
    line: u32,
    column: Option<usize>,
    code: Option<Seq<char>>,
) -> Option<(usize, usize)> {
    if line == 0 {
        None
    } else {
        match line_start(t, (line - 1) as nat) {
            None => None,
            Some(ls) => {
                let le = line_end(t, ls);
                let by_code = match code {
                    Some(cd) => code_aligned(t, ls, le, column, cd),
                    None => None,
                };
                if by_code is Some {
                    by_code
                } else {
                    trimmed_line(t, ls, le)
                }
            },
        }
    }
}

// ---- lemmas about byte lengths and trimming ------------------------------------------

/// Byte lengths add up over concatenation.
pub proof fn lemma_utf8_add(a: Seq<char>, b: Seq<char>)
    ensures
        utf8_len(a + b) == utf8_len(a) + utf8_len(b),
    decreases b.len(),
{
    if b.len() > 0 {
        lemma_utf8_add(a, b.drop_last());
        assert((a + b).drop_last() =~= a + b.drop_last());
    } else {
        assert(a + b =~= a);
    }
}

proof fn lemma_utf8_take_le(s: Seq<char>, k: int)
    requires
        0 <= k <= s.len(),
    ensures
        utf8_len(s.take(k)) <= utf8_len(s),
{
    assert(s =~= s.take(k) + s.skip(k));
    lemma_utf8_add(s.take(k), s.skip(k));
}

/// Trimming the end keeps a prefix.
pub proof fn lemma_trim_end_prefix(s: Seq<char>)
    ensures
        trim_end(s).len() <= s.len(),
        trim_end(s) == s.take(trim_end(s).len() as int),
    decreases s.len(),
{
    if s.len() > 0 && crate::text::unicode_whitespace(s.last()) {
        lemma_trim_end_prefix(s.drop_last());
        assert(s.drop_last().take(trim_end(s).len() as int) =~= s.take(trim_end(s).len() as int));
    } else {
        assert(s.take(s.len() as int) =~= s);
    }
}

/// Trimming the start keeps a suffix.
pub proof fn lemma_trim_start_suffix(s: Seq<char>)
    ensures
        trim_start(s).len() <= s.len(),
        trim_start(s) == s.skip(s.len() - trim_start(s).len()),
    decreases s.len(),
{
    if s.len() > 0 && crate::text::unicode_whitespace(s[0]) {
        lemma_trim_start_suffix(s.skip(1));
        assert(s.skip(1).skip(s.skip(1).len() - trim_start(s).len()) =~= s.skip(
            s.len() - trim_start(s).len(),
        ));
    } else {
        assert(s.skip(0) =~= s);
    }
}

proof fn lemma_line_start_none(t: Seq<char>, a: nat, b: nat)
    requires
        a <= b,
        line_start(t, a) is None,
    ensures
        line_start(t, b) is None,
    decreases b - a,
{
    if a < b {
        lemma_line_start_none(t, a, (b - 1) as nat);
    }
}

proof fn lemma_newline_from_bounds(t: Seq<char>, from: int)
    ensures
        newline_from(t, from) matches Some(p) ==> from <= p < t.len() && t[p] == '\n',
    decreases t.len() - from,
{
    if 0 <= from < t.len() && t[from] != '\n' {
        lemma_newline_from_bounds(t, from + 1);
    }
}

// ---- exec --------------------------------------------------------------------------

fn newline_after(t: &Vec<char>, from: usize) -> (r: Option<usize>)
    ensures
        match r {
            Some(p) => newline_from(t@, from as int) == Some(p as int) && from <= p < t@.len(),
            None => newline_from(t@, from as int) is None,
        },
{
    let mut i = from;
    while i < t.len()
        invariant
            from <= i,
            newline_from(t@, from as int) == newline_from(t@, i as int),
        decreases t@.len() - i,
    {
        if t[i] == '\n' {
            return Some(i);
        }
        i = i + 1;
    }
    None
}

fn byte_offset(t: &Vec<char>, k: usize) -> (r: usize)
    requires
        k <= t@.len(),
        utf8_len(t@) < usize::MAX,
    ensures
        r == byte_at(t@, k as int),
{
    let mut acc: usize = 0;
    let mut i: usize = 0;
    while i < k
        invariant
            i <= k <= t@.len(),
            utf8_len(t@) < usize::MAX,
            acc == utf8_len(t@.take(i as int)),
        decreases k - i,
    {
        proof {
            assert(t@.take(i + 1).drop_last() =~= t@.take(i as int));
            lemma_utf8_take_le(t@, i + 1);
        }
        acc = acc + crate::history::utf8_width_of(t[i]);
        i = i + 1;
    }
    acc
}

fn code_hit(t: &Vec<char>, at: usize, cd: &Vec<char>) -> (r: (usize, usize))
    requires
        occurs_at(t@, cd@, at as int),
        utf8_len(t@) < usize::MAX,
    ensures
        r == hit_range(t@, at as int, cd@),
{
    let n = t.len();
    proof {
        assert(t@.take(at + cd@.len()) =~= t@.take(at as int) + cd@);
        lemma_utf8_add(t@.take(at as int), cd@);
        lemma_utf8_take_le(t@, at + cd@.len());
    }
    (byte_offset(t, at), byte_offset(t, at + cd.len()))
}

fn locate_line(t: &Vec<char>, line: u32) -> (r: Option<(usize, usize)>)
    requires
        line > 0,
    ensures
        match r {
            Some(b) => line_start(t@, (line - 1) as nat) == Some(b.0 as int) && b.1 as int
                == line_end(t@, b.0 as int) && b.0 <= b.1 <= t@.len(),
            None => line_start(t@, (line - 1) as nat) is None,
        },
{
    let total = t.len();
    let mut ls: usize = 0;
    let mut n: u32 = 0;
    while n < line - 1
        invariant
            total == t@.len(),
            0 < line,
            n <= line - 1,
            line_start(t@, n as nat) == Some(ls as int),
            ls <= t@.len(),
        decreases line - 1 - n,
    {
        match newline_after(t, ls) {
            Some(p) => {
                ls = p + 1;
            },
            None => {
                proof {
                    assert(line_start(t@, (n + 1) as nat) is None);
                    lemma_line_start_none(t@, (n + 1) as nat, (line - 1) as nat);
                }
                return None;
            },
        }
        n = n + 1;
    }
    let le = match newline_after(t, ls) {
        Some(p) => p,
        None => t.len(),
    };
    Some((ls, le))
}

fn code_range(t: &Vec<char>, ls: usize, le: usize, column: Option<usize>, cd: &Vec<char>) -> (r: Option<
    (usize, usize),
>)
    requires
        ls <= le <= t@.len(),
        utf8_len(t@) < usize::MAX,
    ensures
        r == code_aligned(t@, ls as int, le as int, column, cd@),
{
    if let Some(c) = column {
        let a1 = if c < le - ls {
            ls + c
        } else {
            le
        };
        if matches_at(t, cd, a1) {
            return Some(code_hit(t, a1, cd));
        }
        let c1 = if c == 0 {
            0
        } else {
            c - 1
        };
        let a2 = if c1 < le - ls {
            ls + c1
        } else {
            le
        };
        if matches_at(t, cd, a2) {
            return Some(code_hit(t, a2, cd));
        }
    }
    let lt = slice_vec(t, ls, le);
    match find(&lt, cd) {
        Some(k) => {
            proof {
                let f = first_at(lt@, cd@);
                assert(occurs_at(lt@, cd@, k as int));
                if f < k {
                } else if f > k {
                    assert(!occurs_at(lt@, cd@, k as int));
                }
                assert(t@.subrange(ls + k, ls + k + cd@.len()) =~= lt@.subrange(
                    k as int,
                    k + cd@.len(),
                ));
            }
            Some(code_hit(t, ls + k, cd))
        },
        None => None,
    }
}

fn trimmed_range(t: &Vec<char>, ls: usize, le: usize) -> (r: Option<(usize, usize)>)
    requires
        ls <= le <= t@.len(),
        utf8_len(t@) < usize::MAX,
    ensures
        r == trimmed_line(t@, ls as int, le as int),
{
    let lt = slice_vec(t, ls, le);
    let ts = trim_start_chars(&lt);
    let te = trim_end_chars(&lt);
    proof {
        lemma_trim_start_suffix(lt@);
        lemma_trim_end_prefix(lt@);
        assert(t@.take(le as int) =~= t@.take(ls as int) + lt@);
        lemma_utf8_add(t@.take(ls as int), lt@);
        lemma_utf8_take_le(t@, le as int);
        lemma_utf8_take_le(t@, ls as int);
        lemma_utf8_take_le(lt@, te@.len() as int);
        lemma_utf8_take_le(lt@, lt@.len() - ts@.len());
    }
    let lead_chars = lt.len() - ts.len();
    let start_b = byte_offset(t, ls);
    let lead = byte_offset(&lt, lead_chars);
    let trail = byte_offset(&lt, te.len());
    assert(lt@.take(te@.len() as int) == te@);
    assert(lt@.take(lt@.len() as int) =~= lt@);
    if lead < trail {
        Some((start_b + lead, start_b + trail))
    } else {
        None
    }
}

/// The byte range a reported node covers (see `aligned_range`): on 1-based
/// `line`, where the node's code text starts at the reported column or the
/// one before it, else where it first occurs in the line, else the line
/// without surrounding white space; `None` for line 0, a line past the end,
/// or a blank line.
pub fn align_source_range(text: &str, line: u32, column: Option<usize>, code: Option<&str>) -> (r:
    Option<(usize, usize)>)
    requires
        utf8_len(text@) < usize::MAX,
    ensures
        r == aligned_range(
            text@,
            line,
            column,
            match code {
                Some(c) => Some(c@),
                None => None,
            },
        ),
{
    if line == 0 {
        return None;
    }
    let t = chars_of(text);
    let Some((ls, le)) = locate_line(&t, line) else {
        return None;
    };
    if let Some(cs) = code {
        let cd = chars_of(cs);
        if let Some(hit) = code_range(&t, ls, le, column, &cd) {
            return Some(hit);
        }
    }
    trimmed_range(&t, ls, le)
}

} // verus!
