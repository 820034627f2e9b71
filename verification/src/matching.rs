//! Regular expressions for prefilters and text scans. Compilation and
//! matching are the `regex` crate's; a compiled expression keeps the
//! pattern it came from, so every match result is tied to its pattern.

use vstd::prelude::*;
use crate::descriptor::lemma_utf8_len_strict;
use crate::history::utf8_len;

verus! {

#[verifier::external_type_specification]
#[verifier::external_body]
pub struct ExRegex(regex::Regex);

/// Whether `pattern` compiles, case-insensitively when `ignore_case`,
/// with the builder's other settings at their defaults.
pub uninterp spec fn regex_compiles(pattern: Seq<char>, ignore_case: bool) -> bool;

/// Whether the expression `pattern` (case-insensitive when `ignore_case`)
/// matches somewhere in `text`.
pub uninterp spec fn regex_is_match(pattern: Seq<char>, ignore_case: bool, text: Seq<char>) -> bool;

/// The byte offsets where the successive non-overlapping matches of the
/// expression `pattern` start in `text`.
pub uninterp spec fn regex_match_starts(pattern: Seq<char>, ignore_case: bool, text: Seq<char>) -> Seq<
    usize,
>;

/// Byte offset `n` of `text` falls between two chars (or at an end).
pub open spec fn char_boundary(text: Seq<char>, n: nat) -> bool {
    exists|k: int| 0 <= k <= text.len() && #[trigger] utf8_len(text.take(k)) == n
}

proof fn lemma_utf8_len_monotone_take(s: Seq<char>, a: int, b: int)
    requires
        0 <= a <= b <= s.len(),
    ensures
        utf8_len(s.take(a)) <= utf8_len(s.take(b)),
    decreases b - a,
{
    if a < b {
        assert(s.take(b).drop_last() =~= s.take(b - 1));
        lemma_utf8_len_monotone_take(s, a, b - 1);
    }
}

/// The char position at which byte offset `byte` of `text` falls; `byte`
/// must lie on a char boundary.
pub fn char_offset(text: &Vec<char>, byte: usize) -> (k: usize)
    requires
        char_boundary(text@, byte as nat),
    ensures
        k <= text@.len(),
        k <= byte,
        utf8_len(text@.take(k as int)) == byte,
{
    let mut k: usize = 0;
    let mut acc: usize = 0;
    while k < text.len() && acc < byte
        invariant
            k <= text@.len(),
            k <= acc,
            acc == utf8_len(text@.take(k as int)),
            acc <= byte,
            exists|j: int| k <= j <= text@.len() && utf8_len(text@.take(j)) == byte,
        decreases text@.len() - k,
    {
        let c = text[k];
        let w: usize = if (c as u32) < 0x80 {
            1
        } else if (c as u32) < 0x800 {
            2
        } else if (c as u32) < 0x10000 {
            3
        } else {
            4
        };
        assert(text@.take(k + 1).drop_last() =~= text@.take(k as int));
        proof {
            let j = choose|j: int| k <= j <= text@.len() && utf8_len(text@.take(j)) == byte;
            if j > k {
                lemma_utf8_len_monotone_take(text@, k + 1, j);
            }
        }
        acc = acc + w;
        k = k + 1;
    }
    proof {
        let j = choose|j: int| k <= j <= text@.len() && utf8_len(text@.take(j)) == byte;
        if j > k {
            lemma_utf8_len_strict(text@, k as int, j);
        }
    }
    k
}

/// The char position of byte offset `n` of `text` (meaningful on a char
/// boundary, where it is unique).
pub open spec fn char_at_byte(text: Seq<char>, n: nat) -> int {
    choose|k: int| 0 <= k <= text.len() && #[trigger] utf8_len(text.take(k)) == n
}

/// The chars between byte offsets `s` and `e` of `text`.
pub open spec fn byte_span(text: Seq<char>, s: nat, e: nat) -> Seq<char> {
    text.subrange(char_at_byte(text, s), char_at_byte(text, e))
}

/// A char position whose prefix spans `n` bytes is the one `char_at_byte` names.
pub proof fn lemma_char_at_byte(text: Seq<char>, n: nat, k: int)
    requires
        0 <= k <= text.len(),
        utf8_len(text.take(k)) == n,
    ensures
        char_at_byte(text, n) == k,
{
    let c = char_at_byte(text, n);
    if c < k {
        lemma_utf8_len_strict(text, c, k);
    } else if c > k {
        lemma_utf8_len_strict(text, k, c);
    }
}

/// The chars of `text` between two byte offsets on char boundaries.
pub fn byte_slice(text: &Vec<char>, s: usize, e: usize) -> (r: Vec<char>)
    requires
        char_boundary(text@, s as nat),
        char_boundary(text@, e as nat),
        s <= e,
    ensures
        r@ == byte_span(text@, s as nat, e as nat),
{
    let a = char_offset(text, s);
    let b = char_offset(text, e);
    proof {
        lemma_char_at_byte(text@, s as nat, a as int);
        lemma_char_at_byte(text@, e as nat, b as int);
        if b < a {
            lemma_utf8_len_strict(text@, b as int, a as int);
        }
    }
    crate::text::slice_vec(text, a, b)
}

/// A compiled expression with the pattern and case mode it was compiled
/// from. Only `compile_regex` builds one, so they always agree.
pub struct CompiledRegex {
    regex: regex::Regex,
    pattern: String,
    ignore_case: bool,
}

impl CompiledRegex {
    /// The pattern this expression was compiled from.
    pub closed spec fn source(&self) -> Seq<char> {
        self.pattern@
    }

    /// Whether it matches case-insensitively.
    pub closed spec fn folds_case(&self) -> bool {
        self.ignore_case
    }
}

/// `regex::RegexBuilder::build` with `case_insensitive(ignore_case)`:
/// `Some` exactly when the pattern compiles, holding the compiled
/// expression together with its pattern and case mode.
#[verifier::external_body]
pub(crate) fn compile_regex(pattern: &str, ignore_case: bool) -> (r: Option<CompiledRegex>)
    ensures
        r is Some == regex_compiles(pattern@, ignore_case),
        r matches Some(c) ==> c.source() == pattern@ && c.folds_case() == ignore_case,
{
    match regex::RegexBuilder::new(pattern).case_insensitive(ignore_case).build() {
        Ok(regex) => Some(CompiledRegex { regex, pattern: pattern.to_string(), ignore_case }),
        Err(_) => None,
    }
}

/// `regex::Regex::is_match`: whether the expression matches anywhere in
/// `text`, which depends on the pattern, the case mode and the text alone.
#[verifier::external_body]
pub(crate) fn regex_matches(expression: &CompiledRegex, text: &str) -> (r: bool)
    ensures
        r == regex_is_match(expression.source(), expression.folds_case(), text@),
{
    expression.regex.is_match(text)
}

/// `regex::Regex::find_iter`, each match by its start: the starts of the
/// successive matches, each on a char boundary of `text` (the crate
/// guarantees match offsets on UTF-8 boundaries) and inside it, so below
/// `isize::MAX`.
#[verifier::external_body]
pub(crate) fn regex_find_starts(expression: &CompiledRegex, text: &str) -> (r: Vec<usize>)
    ensures
        r@ == regex_match_starts(expression.source(), expression.folds_case(), text@),
        forall|i: int|
            0 <= i < r@.len() ==> char_boundary(text@, #[trigger] r@[i] as nat) && r@[i]
                < usize::MAX,
{
    expression.regex.find_iter(text).map(|found| found.start()).collect()
}

/// For each successive match of the expression `pattern` in `text`, the
/// byte span of every capture group (group 0 the whole match, `None` for a
/// group that took no part).
pub uninterp spec fn regex_capture_spans(pattern: Seq<char>, ignore_case: bool, text: Seq<char>) -> Seq<
    Seq<Option<(usize, usize)>>,
>;

/// Every span of a capture list starts on a char boundary of `text`, ends
/// on one, and does not end before it starts.
pub open spec fn spans_well_placed(text: Seq<char>, m: Seq<Option<(usize, usize)>>) -> bool {
    forall|g: int|
        0 <= g < m.len() && #[trigger] m[g] is Some ==> m[g].unwrap().0 <= m[g].unwrap().1
            && char_boundary(text, m[g].unwrap().0 as nat) && char_boundary(
            text,
            m[g].unwrap().1 as nat,
        )
}

/// `regex::Regex::captures_iter`, each `Captures` by the spans of its
/// groups in order (`Captures::iter`). Group 0 is always present, and every
/// span starts and ends on UTF-8 boundaries of `text`, start not after end,
/// as the crate documents for `Match`.
#[verifier::external_body]
pub(crate) fn regex_captures(expression: &CompiledRegex, text: &str) -> (r: Vec<Vec<Option<(usize, usize)>>>)
    ensures
        r@.map_values(|m: Vec<Option<(usize, usize)>>| m@) == regex_capture_spans(
            expression.source(),
            expression.folds_case(),
            text@,
        ),
        forall|i: int|
            0 <= i < r@.len() ==> #[trigger] r@[i]@.len() >= 1 && r@[i]@[0] is Some
                && spans_well_placed(text@, r@[i]@),
{
    expression
        .regex
        .captures_iter(text)
        .map(|caps| caps.iter().map(|group| group.map(|m| (m.start(), m.end()))).collect())
        .collect()
}

/// The chars the regex syntax gives a meaning (`regex_syntax::is_meta_character`).
pub open spec fn regex_meta(c: char) -> bool {
    c == '\\' || c == '.' || c == '+' || c == '*' || c == '?' || c == '(' || c == ')' || c == '|'
        || c == '[' || c == ']' || c == '{' || c == '}' || c == '^' || c == '$' || c == '#'
        || c == '&' || c == '-' || c == '~'
}

/// `text` with a `\` before every meta char, so it matches literally.
pub open spec fn escaped(text: Seq<char>) -> Seq<char>
    decreases text.len(),
{
    if text.len() == 0 {
        Seq::empty()
    } else {
        escaped(text.drop_last()) + if regex_meta(text.last()) {
            seq!['\\', text.last()]
        } else {
            seq![text.last()]
        }
    }
}

/// `regex::escape`: each meta char of `text` preceded by a backslash.
#[verifier::external_body]
pub(crate) fn regex_escape(text: &str) -> (r: String)
    ensures
        r@ == escaped(text@),
{
    regex::escape(text)
}

} // verus!
