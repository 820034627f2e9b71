//! Structural-search templates: comby-style spellings translated to
//! metavariable syntax, and byte offsets mapped to lines.

use vstd::prelude::*;
use vstd::utf8::encode_utf8;
use crate::repository::newline_count;
use crate::matching::{CompiledRegex, compile_regex, escaped, regex_compiles, regex_escape, regex_is_match, regex_matches};
use crate::text::{
    ascii_alnum, ascii_alpha, chars_of, find_char, first_index_of, is_alphanumeric, is_ascii_alnum,
    is_whitespace, lemma_first_index_of, push_str, slice_vec, string_of, unicode_alphanumeric,
    unicode_whitespace,
};

verus! {

/// A template hole's name char as a metavariable char: ASCII letters and
/// digits upper-cased, `_` kept, anything else `_`.
pub open spec fn meta_char(c: char) -> char {
    if ('a' <= c <= 'z') {
        ((c as u32) - 32) as char
    } else if ('A' <= c <= 'Z') || ('0' <= c <= '9') || c == '_' {
        c
    } else {
        '_'
    }
}

/// Offset of the first `]` at or after `from`, relative to `from`.
pub open spec fn close_offset(t: Seq<char>, from: int) -> Option<int> {
    match crate::text::first_index_of(t.skip(from), ']') {
        Some(k) => Some(k),
        None => None,
    }
}

/// The translation of `t` from position `i`: `:[name]` becomes `$NAME`
/// (with a leading `_` when the name is empty or starts with `_`), `...`
/// becomes `$$$`, every other char is kept.
pub open spec fn translate_from(t: Seq<char>, i: int) -> Seq<char>
    decreases t.len() - i,
{
    if i < 0 || i >= t.len() {
        Seq::empty()
    } else if t[i] == ':' && i + 1 < t.len() && t[i + 1] == '[' && close_offset(t, i + 2) is Some
        && close_offset(t, i + 2)->0 >= 0 {
        proof {
            crate::text::lemma_first_index_of(t.skip(i + 2), ']');
        }
        let close = close_offset(t, i + 2)->0;
        let name = t.subrange(i + 2, i + 2 + close).map_values(|c: char| meta_char(c));
        let lead = if name.len() == 0 || name[0] == '_' {
            seq!['$', '_']
        } else {
            seq!['$']
        };
        lead + name + translate_from(t, i + 2 + close + 1)
    } else if t[i] == '.' && i + 2 < t.len() && t[i + 1] == '.' && t[i + 2] == '.' {
        seq!['$', '$', '$'] + translate_from(t, i + 3)
    } else {
        seq![t[i]] + translate_from(t, i + 1)
    }
}

fn meta_char_of(c: char) -> (r: char)
    ensures
        r == meta_char(c),
{
    if 'a' <= c && c <= 'z' {
        ((c as u8) - 32) as char
    } else if ('A' <= c && c <= 'Z') || ('0' <= c && c <= '9') || c == '_' {
        c
    } else {
        '_'
    }
}

/// The metavariable spelling of a hole's name: the first `close` chars
/// of `rest`, each through `meta_char`.
fn hole_name(rest: &[char], close: usize) -> (r: Vec<char>)
    requires
        close <= rest@.len(),
    ensures
        r@ == rest@.take(close as int).map_values(|c: char| meta_char(c)),
{
    let mut name: Vec<char> = Vec::new();
    for k in 0..close
        invariant
            close <= rest@.len(),
            name@ == rest@.take(k as int).map_values(|c: char| meta_char(c)),
    {
        name.push(meta_char_of(rest[k]));
        assert(name@ =~= rest@.take(k + 1).map_values(|c: char| meta_char(c)));
    }
    name
}

proof fn lemma_translate_hole(t: Seq<char>, i: int, close: int, before: Seq<char>, out: Seq<char>)
    requires
        0 <= i,
        i + 1 < t.len(),
        t[i] == ':',
        t[i + 1] == '[',
        0 <= close < t.len() - (i + 2),
        crate::text::first_index_of(t.skip(i + 2), ']') == Some(close),
        ({
            let name = t.skip(i + 2).take(close).map_values(|c: char| meta_char(c));
            let lead = if name.len() == 0 || name[0] == '_' {
                seq!['$', '_']
            } else {
                seq!['$']
            };
            out == before + lead + name
        }),
    ensures
        out + translate_from(t, i + 2 + close + 1) == before + translate_from(t, i),
{
    let name = t.subrange(i + 2, i + 2 + close).map_values(|c: char| meta_char(c));
    assert(t.skip(i + 2).take(close).map_values(|c: char| meta_char(c)) =~= name);
}

/// Translates comby-style template syntax into metavariable spelling:
/// `:[name]` becomes `$NAME`, `...` becomes `$$$`, existing `$X`/`$$$X`
/// pass through.
pub fn translate_template(template: &str) -> (r: String)
    ensures
        r@ == translate_from(template@, 0),
{
    let t = chars_of(template);
    let mut out: Vec<char> = Vec::new();
    let mut i: usize = 0;
    while i < t.len()
        invariant
            t@ == template@,
            i <= t@.len(),
            out@ + translate_from(t@, i as int) == translate_from(t@, 0),
        decreases t@.len() - i,
    {
        let c = t[i];
        if c == ':' && i + 1 < t.len() && t[i + 1] == '[' {
            let rest = crate::text::slice_vec(&t, i + 2, t.len());
            assert(rest@ =~= t@.skip(i + 2));
            if let Some(close) = crate::text::find_char(&rest, ']') {
                let name = hole_name(&rest, close);
                let ghost before = out@;
                out.push('$');
                if name.len() == 0 || name[0] == '_' {
                    out.push('_');
                }
                crate::text::push_all(&mut out, &name);
                proof {
                    let lead = if name@.len() == 0 || name@[0] == '_' {
                        seq!['$', '_']
                    } else {
                        seq!['$']
                    };
                    assert(out@ =~= before + lead + name@);
                    lemma_translate_hole(t@, i as int, close as int, before, out@);
                }
                i = i + 2 + close + 1;
                continue;
            }
        }
        if c == '.' && t.len() - i > 2 && t[i + 1] == '.' && t[i + 2] == '.' {
            let ghost before = out@;
            out.push('$');
            out.push('$');
            out.push('$');
            assert(out@ + translate_from(t@, i + 3) =~= before + translate_from(t@, i as int));
            i = i + 3;
            continue;
        }
        let ghost before = out@;
        out.push(c);
        assert(out@ + translate_from(t@, i + 1) =~= before + translate_from(t@, i as int));
        i = i + 1;
    }
    assert(out@ =~= translate_from(t@, 0));
    string_of(&out)
}

/// 1-based line of byte `offset` in `bytes`: one more than the `\n`
/// bytes before it (offsets past the end count the whole text).
pub open spec fn line_at(bytes: Seq<u8>, offset: nat) -> nat {
    newline_count(bytes.take(if offset < bytes.len() { offset as int } else { bytes.len() as int }))
        + 1
}

/// The 1-based line of a byte offset of `bytes`.
pub fn line_in_bytes(bytes: &[u8], offset: usize) -> (r: u32)
    requires
        newline_count(bytes@) < u32::MAX,
    ensures
        r == line_at(bytes@, offset as nat),
{
    let end = if offset < bytes.len() {
        offset
    } else {
        bytes.len()
    };
    let mut count: u32 = 0;
    for i in 0..end
        invariant
            end <= bytes@.len(),
            count == newline_count(bytes@.take(i as int)),
            newline_count(bytes@) < u32::MAX,
    {
        assert(bytes@.take(i + 1).drop_last() =~= bytes@.take(i as int));
        proof {
            crate::repository::lemma_newline_count_prefix(bytes@, i + 1);
        }
        if bytes[i] == 10 {
            count = count + 1;
        }
    }
    proof {
        crate::repository::lemma_newline_count_prefix(bytes@, end as int);
    }
    count + 1
}

/// 1-based line of a byte offset of `source`.
pub fn line_of_byte(source: &str, byte: usize) -> (r: u32)
    requires
        newline_count(encode_utf8(source@)) < u32::MAX,
    ensures
        r == line_at(encode_utf8(source@), byte as nat),
{
    line_in_bytes(source.as_bytes(), byte)
}


// ---- literal-anchor prefilter ------------------------------------------------------

/// Length of the run of `$` starting at `i`.
pub open spec fn dollar_run(t: Seq<char>, i: int) -> nat
    decreases t.len() - i,
{
    if 0 <= i < t.len() && t[i] == '$' {
        1 + dollar_run(t, i + 1)
    } else {
        0
    }
}

/// Length of the run of ASCII letters, digits and `_` starting at `i`.
pub open spec fn name_run(t: Seq<char>, i: int) -> nat
    decreases t.len() - i,
{
    if 0 <= i < t.len() && (ascii_alnum(t[i]) || t[i] == '_') {
        1 + name_run(t, i + 1)
    } else {
        0
    }
}

/// Both runs end inside the template.
pub proof fn lemma_runs_bounded(t: Seq<char>, i: int)
    requires
        0 <= i <= t.len(),
    ensures
        dollar_run(t, i) <= t.len() - i,
        name_run(t, i) <= t.len() - i,
    decreases t.len() - i,
{
    if i < t.len() {
        lemma_runs_bounded(t, i + 1);
    }
}

/// Length of the hole or metavariable starting at `i`, if one does:
/// `:[name]` (through its `]`), `...`, or a run of `$` that is at least
/// three long or followed by a name start, together with that name.
pub open spec fn hole_len(t: Seq<char>, i: int) -> Option<nat> {
    if !(0 <= i < t.len()) {
        None
    } else if t[i] == ':' && i + 1 < t.len() && t[i + 1] == '[' {
        match first_index_of(t.skip(i + 2), ']') {
            Some(k) => Some((k + 3) as nat),
            None => None,
        }
    } else if t[i] == '.' && i + 2 < t.len() && t[i + 1] == '.' && t[i + 2] == '.' {
        Some(3)
    } else if t[i] == '$' {
        let run = dollar_run(t, i);
        if run >= 3 || (i + run < t.len() && (ascii_alpha(t[i + run]) || t[i + run] == '_')) {
            Some(run + name_run(t, i + run))
        } else {
            None
        }
    } else {
        None
    }
}

/// A hole is at least one char long and ends inside the template.
pub proof fn lemma_hole_len(t: Seq<char>, i: int)
    ensures
        hole_len(t, i) matches Some(n) ==> 1 <= n && i + n <= t.len(),
{
    if 0 <= i < t.len() {
        if t[i] == ':' && i + 1 < t.len() && t[i + 1] == '[' {
            lemma_first_index_of(t.skip(i + 2), ']');
        } else if t[i] == '$' {
            lemma_runs_bounded(t, i);
            let run = dollar_run(t, i);
            lemma_runs_bounded(t, i + run);
        }
    }
}

/// The fragment in progress, as a list of at most one fragment.
pub open spec fn flush(cur: Seq<char>) -> Seq<Seq<char>> {
    if cur.len() > 0 {
        seq![cur]
    } else {
        Seq::empty()
    }
}

/// The literal fragments of `t` from `i` on: the runs of chars between
/// holes, `cur` being the run in progress.
pub open spec fn fragments_from(t: Seq<char>, i: int, cur: Seq<char>) -> Seq<Seq<char>>
    decreases t.len() - i,
{
    if i < 0 || i >= t.len() {
        flush(cur)
    } else {
        match hole_len(t, i) {
            Some(n) => {
                proof {
                    lemma_hole_len(t, i);
                }
                flush(cur) + fragments_from(t, i + n, Seq::empty())
            },
            None => fragments_from(t, i + 1, cur.push(t[i])),
        }
    }
}

/// Some char of `f` is alphanumeric.
pub open spec fn has_alnum(f: Seq<char>) -> bool {
    exists|k: int| 0 <= k < f.len() && unicode_alphanumeric(#[trigger] f[k])
}

/// The fragments that carry a letter or digit, in order.
pub open spec fn anchored(frags: Seq<Seq<char>>) -> Seq<Seq<char>>
    decreases frags.len(),
{
    if frags.len() == 0 {
        Seq::empty()
    } else {
        anchored(frags.drop_last()) + if has_alnum(frags.last()) {
            seq![frags.last()]
        } else {
            Seq::empty()
        }
    }
}

/// The literal anchors of a template, in order.
pub open spec fn template_anchors(t: Seq<char>) -> Seq<Seq<char>> {
    anchored(fragments_from(t, 0, Seq::empty()))
}

/// What one char of a fragment contributes to the regex: a word char
/// stands for itself, a white space char becomes `\s*` alone (so any
/// amount of white space, none included, matches it), and any other char
/// is `\s*` followed by the char escaped.
pub open spec fn char_regex(c: char) -> Seq<char> {
    if unicode_alphanumeric(c) || c == '_' {
        escaped(seq![c])
    } else if unicode_whitespace(c) {
        seq!['\\', 's', '*']
    } else {
        seq!['\\', 's', '*'] + escaped(seq![c])
    }
}

/// One fragment as a regex, white space elastic at every non-word char.
pub open spec fn fragment_regex(f: Seq<char>) -> Seq<char>
    decreases f.len(),
{
    if f.len() == 0 {
        Seq::empty()
    } else {
        fragment_regex(f.drop_last()) + char_regex(f.last())
    }
}

/// The lazy any-span between two anchors.
pub open spec fn any_span() -> Seq<char> {
    seq!['[', '\\', 's', '\\', 'S', ']', '*', '?']
}

/// The anchors as one regex: fragments in order, joined by lazy any-spans.
pub open spec fn anchors_regex(anchors: Seq<Seq<char>>) -> Seq<char>
    decreases anchors.len(),
{
    if anchors.len() == 0 {
        Seq::empty()
    } else if anchors.len() == 1 {
        fragment_regex(anchors[0])
    } else {
        anchors_regex(anchors.drop_last()) + any_span() + fragment_regex(anchors.last())
    }
}

/// Regex prefilter for candidate files: every structural match of the
/// template lies in a file the regex matches.
pub struct RegexPrefilter {
    regex: Option<CompiledRegex>,
    /// Literal anchors extracted from the template, in order; empty for a
    /// template made of holes only.
    pub anchors: Vec<String>,
}

impl RegexPrefilter {
    /// The anchors as char sequences.
    pub closed spec fn anchor_texts(&self) -> Seq<Seq<char>> {
        self.anchors@.map_values(|s: String| s@)
    }

    /// The pattern and case mode of the compiled regex, if there is one.
    pub closed spec fn regex_source(&self) -> Option<(Seq<char>, bool)> {
        match self.regex {
            Some(c) => Some((c.source(), c.folds_case())),
            None => None,
        }
    }

    /// Whether a file may hold a match: always without a regex, else
    /// whether the regex matches its text.
    pub fn is_file_candidate(&self, text: &str) -> (r: bool)
        ensures
            r == match self.regex_source() {
                None => true,
                Some(p) => regex_is_match(p.0, p.1, text@),
            },
    {
        match &self.regex {
            None => true,
            Some(c) => regex_matches(c, text),
        }
    }
}

/// The hole at `t[i]`, if one starts there, and its length.
fn hole_at(t: &Vec<char>, i: usize) -> (r: Option<usize>)
    requires
        i < t@.len(),
    ensures
        match r {
            Some(n) => hole_len(t@, i as int) == Some(n as nat),
            None => hole_len(t@, i as int) is None,
        },
{
    let c = t[i];
    if c == ':' && t.len() - i > 1 && t[i + 1] == '[' {
        let rest = slice_vec(t, i + 2, t.len());
        assert(rest@ =~= t@.skip(i + 2));
        return match find_char(&rest, ']') {
            Some(k) => Some(k + 3),
            None => None,
        };
    }
    if c == '.' && t.len() - i > 2 && t[i + 1] == '.' && t[i + 2] == '.' {
        return Some(3);
    }
    if c != '$' {
        return None;
    }
    let mut run: usize = 0;
    while run < t.len() - i && t[i + run] == '$'
        invariant
            i + run <= t@.len(),
            dollar_run(t@, i as int) == run + dollar_run(t@, (i + run) as int),
        decreases t@.len() - i - run,
    {
        run = run + 1;
    }
    let s = i + run;
    let named = s < t.len() && (('a' <= t[s] && t[s] <= 'z') || ('A' <= t[s] && t[s] <= 'Z')
        || t[s] == '_');
    if !(run >= 3 || named) {
        return None;
    }
    let mut name: usize = 0;
    while name < t.len() - s && (is_ascii_alnum(t[s + name]) || t[s + name] == '_')
        invariant
            s + name <= t@.len(),
            name_run(t@, s as int) == name + name_run(t@, (s + name) as int),
        decreases t@.len() - s - name,
    {
        name = name + 1;
    }
    proof {
        lemma_runs_bounded(t@, s as int);
    }
    Some(run + name)
}

/// Whether some char of `f` is alphanumeric.
fn any_alnum(f: &Vec<char>) -> (r: bool)
    ensures
        r == has_alnum(f@),
{
    for k in 0..f.len()
        invariant
            forall|j: int| 0 <= j < k ==> !unicode_alphanumeric(#[trigger] f@[j]),
    {
        if is_alphanumeric(f[k]) {
            return true;
        }
    }
    false
}

/// Appends the regex of fragment `f` to `pattern`.
fn push_fragment_regex(pattern: &mut Vec<char>, f: &Vec<char>)
    ensures
        final(pattern)@ == old(pattern)@ + fragment_regex(f@),
{
    for k in 0..f.len()
        invariant
            pattern@ == old(pattern)@ + fragment_regex(f@.take(k as int)),
    {
        let c = f[k];
        let ghost before = pattern@;
        let word = is_alphanumeric(c) || c == '_';
        let space = !word && is_whitespace(c);
        if !word {
            push_str(pattern, "\\s*");
            proof {
                reveal_strlit("\\s*");
            }
        }
        let one = vec![c];
        assert(one@ =~= seq![c]);
        if !space {
            let piece = regex_escape(string_of(&one).as_str());
            push_str(pattern, piece.as_str());
        }
        assert(f@.take(k + 1).drop_last() =~= f@.take(k as int));
        assert(f@.take(k + 1).last() == c);
        assert(one@ =~= seq![c]);
        assert(pattern@ =~= old(pattern)@ + fragment_regex(f@.take(k + 1)));
    }
    assert(f@.take(f@.len() as int) =~= f@);
}

/// Extracts the literal anchors of a template and builds the prefilter
/// regex from them. A template with no anchor gets no regex, which
/// accepts every file.
pub fn literal_anchors(template: &str) -> (r: RegexPrefilter)
    ensures
        r.anchor_texts() == template_anchors(template@),
        template_anchors(template@).len() == 0 ==> r.regex_source() is None,
        template_anchors(template@).len() > 0 ==> (r.regex_source() is Some == regex_compiles(
            anchors_regex(template_anchors(template@)),
            false,
        )),
        r.regex_source() matches Some(p) ==> p == (anchors_regex(template_anchors(template@)), false),
{
    let t = chars_of(template);
    let mut frags: Vec<Vec<char>> = Vec::new();
    let mut cur: Vec<char> = Vec::new();
    let mut i: usize = 0;
    while i < t.len()
        invariant
            t@ == template@,
            i <= t@.len(),
            frags@.map_values(|v: Vec<char>| v@) + fragments_from(t@, i as int, cur@)
                == fragments_from(t@, 0, Seq::empty()),
        decreases t@.len() - i,
    {
        let ghost fv = frags@.map_values(|v: Vec<char>| v@);
        match hole_at(&t, i) {
            Some(n) => {
                proof {
                    lemma_hole_len(t@, i as int);
                }
                if cur.len() > 0 {
                    let done = cur;
                    frags.push(done);
                    assert(frags@.map_values(|v: Vec<char>| v@) =~= fv + flush(done@));
                } else {
                    assert(frags@.map_values(|v: Vec<char>| v@) =~= fv + flush(cur@));
                }
                cur = Vec::new();
                assert(cur@ =~= Seq::<char>::empty());
                i = i + n;
            },
            None => {
                cur.push(t[i]);
                i = i + 1;
            },
        }
    }
    let ghost fv = frags@.map_values(|v: Vec<char>| v@);
    if cur.len() > 0 {
        let done = cur;
        frags.push(done);
        assert(frags@.map_values(|v: Vec<char>| v@) =~= fv + flush(done@));
    } else {
        assert(frags@.map_values(|v: Vec<char>| v@) =~= fv + flush(cur@));
    }
    let ghost all = frags@.map_values(|v: Vec<char>| v@);
    assert(all == fragments_from(t@, 0, Seq::empty()));
    let mut anchors: Vec<String> = Vec::new();
    let mut pattern: Vec<char> = Vec::new();
    for j in 0..frags.len()
        invariant
            all == frags@.map_values(|v: Vec<char>| v@),
            anchors@.map_values(|s: String| s@) == anchored(all.take(j as int)),
            pattern@ == anchors_regex(anchored(all.take(j as int))),
    {
        let ghost kept = anchored(all.take(j as int));
        assert(all.take(j + 1).drop_last() =~= all.take(j as int));
        assert(all.take(j + 1).last() == frags@[j as int]@);
        if any_alnum(&frags[j]) {
            if anchors.len() > 0 {
                push_str(&mut pattern, "[\\s\\S]*?");
                proof {
                    reveal_strlit("[\\s\\S]*?");
                    assert("[\\s\\S]*?"@ =~= any_span());
                }
            }
            push_fragment_regex(&mut pattern, &frags[j]);
            let ghost before = anchors@.map_values(|s: String| s@);
            anchors.push(string_of(&frags[j]));
            assert(anchors@.map_values(|s: String| s@) =~= before.push(frags@[j as int]@));
            assert(kept.push(frags@[j as int]@).drop_last() =~= kept);
            assert(anchored(all.take(j + 1)) =~= kept.push(frags@[j as int]@));
        } else {
            assert(anchored(all.take(j + 1)) =~= kept);
        }
    }
    assert(all.take(frags@.len() as int) =~= all);
    if anchors.len() == 0 {
        return RegexPrefilter { regex: None, anchors };
    }
    let source = string_of(&pattern);
    let regex = compile_regex(source.as_str(), false);
    RegexPrefilter { regex, anchors }
}

} // verus!
