//! Dataflow import from Joern GraphML: the XML tokenizer and entity
//! decoding, GraphML node/edge/property collection, and the Joern label
//! and path conventions that map graph elements onto repository files.

use vstd::prelude::*;
use crate::parser::EntityKind;
use crate::text::{
    trim_start_all, trim_start_matches,
    chars_of, copy_string, first_index_of, is_prefix, is_suffix, last_index_of, lower, lower_all,
    owned, parse_u32, parse_u32_spec, push_all, push_str, slice_vec, string_of, trim, trim_chars,
    upper, upper_of,
};

verus! {

/// What went wrong reading GraphML.
#[derive(Debug, Clone, Copy, PartialEq, Eq, Structural)]
pub enum GraphmlErrorKind {
    /// An `&` without a closing `;`.
    UnterminatedEntity,
    /// A numeric entity whose number does not parse.
    InvalidEntity,
    /// A numeric entity naming no Unicode scalar.
    InvalidScalar,
    /// A named entity other than the five XML ones.
    UnsupportedEntity,
    /// An attribute without `=`.
    AttributeLacksEquals,
    /// An attribute value without quotes.
    AttributeNotQuoted,
    /// An attribute value without its closing quote.
    AttributeUnterminated,
    /// A comment without `-->`.
    UnterminatedComment,
    /// A processing instruction without `?>`.
    UnterminatedInstruction,
    /// A CDATA section without `]]>`.
    UnterminatedCdata,
    /// A declaration without `>`.
    UnterminatedDeclaration,
    /// A tag without `>`.
    UnterminatedTag,
    /// Text, CDATA or a tag that is not UTF-8.
    NotUtf8,
}

/// Why GraphML could not be read, with the entity or attribute name
/// concerned (empty where there is none).
#[derive(Debug, Clone)]
pub struct GraphmlError {
    pub kind: GraphmlErrorKind,
    pub detail: String,
}

/// An error as plain values.
pub open spec fn err_view(e: GraphmlError) -> (GraphmlErrorKind, Seq<char>) {
    (e.kind, e.detail@)
}

fn graphml_error(kind: GraphmlErrorKind, detail: &[char]) -> (r: GraphmlError)
    ensures
        err_view(r) == (kind, detail@),
{
    GraphmlError { kind, detail: string_of(detail) }
}

// ---- small helpers -------------------------------------------------------------

/// The first `maximum` chars of a diagnostic.
pub fn truncate_diagnostic(value: &str, maximum: usize) -> (r: String)
    ensures
        r@ == value@.take(if maximum < value@.len() { maximum as int } else { value@.len() as int }),
{
    let v = chars_of(value);
    let end = if maximum < v.len() {
        maximum
    } else {
        v.len()
    };
    string_of(&slice_vec(&v, 0, end))
}

/// Where the tag that continues at `pos` ends: the first `>` outside a
/// quoted attribute value.
pub open spec fn tag_end_from(b: Seq<u8>, pos: int, quote: Option<u8>) -> Option<int>
    decreases b.len() - pos,
{
    if pos < 0 || pos >= b.len() {
        None
    } else {
        match quote {
            None => if b[pos] == 39 || b[pos] == 34 {
                tag_end_from(b, pos + 1, Some(b[pos]))
            } else if b[pos] == 62 {
                Some(pos)
            } else {
                tag_end_from(b, pos + 1, None)
            },
            Some(q) => if b[pos] == q {
                tag_end_from(b, pos + 1, None)
            } else {
                tag_end_from(b, pos + 1, quote)
            },
        }
    }
}

/// Index of the `>` closing the tag that continues at `position`.
pub fn find_tag_end(bytes: &[u8], position: usize) -> (r: Option<usize>)
    ensures
        match r {
            Some(i) => tag_end_from(bytes@, position as int, None) == Some(i as int),
            None => tag_end_from(bytes@, position as int, None) is None,
        },
{
    let mut quote: Option<u8> = None;
    let mut pos = position;
    while pos < bytes.len()
        invariant
            tag_end_from(bytes@, position as int, None) == tag_end_from(bytes@, pos as int, quote),
        decreases bytes@.len() - pos,
    {
        let b = bytes[pos];
        match quote {
            None => {
                if b == 39 || b == 34 {
                    quote = Some(b);
                } else if b == 62 {
                    return Some(pos);
                }
            },
            Some(q) => {
                if b == q {
                    quote = None;
                }
            },
        }
        pos = pos + 1;
    }
    None
}

/// The first occurrence of `needle` at or after `start`.
pub open spec fn bytes_at(h: Seq<u8>, needle: Seq<u8>, i: int) -> bool {
    0 <= i && i + needle.len() <= h.len() && h.subrange(i, i + needle.len()) == needle
}

/// Index of the first occurrence of a non-empty `needle` in `haystack` at
/// or after `start`.
pub fn find_bytes(haystack: &[u8], start: usize, needle: &[u8]) -> (r: Option<usize>)
    requires
        needle@.len() > 0,
    ensures
        match r {
            Some(i) => start <= i && bytes_at(haystack@, needle@, i as int) && forall|j: int|
                start <= j < i ==> !bytes_at(haystack@, needle@, j),
            None => forall|j: int| start <= j ==> !bytes_at(haystack@, needle@, j),
        },
{
    if start > haystack.len() || needle.len() > haystack.len() - start {
        return None;
    }
    let hlen = haystack.len();
    let last = hlen - needle.len();
    let mut i = start;
    while i <= last
        invariant
            hlen == haystack@.len(),
            needle@.len() > 0,
            last + needle@.len() == haystack@.len(),
            start <= i <= last + 1,
            forall|j: int| start <= j < i ==> !bytes_at(haystack@, needle@, j),
        decreases last + 1 - i,
    {
        let mut k: usize = 0;
        let mut same = true;
        while k < needle.len()
            invariant
                hlen == haystack@.len(),
                i <= last,
                last + needle@.len() == haystack@.len(),
                k <= needle@.len(),
                same == (forall|m: int| 0 <= m < k ==> haystack@[i + m] == needle@[m]),
            decreases needle@.len() - k,
        {
            if haystack[i + k] != needle[k] {
                same = false;
            }
            k = k + 1;
        }
        if same {
            assert(haystack@.subrange(i as int, i + needle@.len()) =~= needle@);
            return Some(i);
        } else {
            assert(!bytes_at(haystack@, needle@, i as int)) by {
                let m = choose|m: int| 0 <= m < needle@.len() && haystack@[i + m] != needle@[m];
                assert(haystack@.subrange(i as int, i + needle@.len())[m] != needle@[m]);
            }
        }
        i = i + 1;
    }
    None
}

// ---- properties and Joern labels ----------------------------------------------------

/// One GraphML node: its id and its properties in first-insertion order
/// (a later value for a key replaces the earlier one in place).
#[derive(Debug, Clone)]
pub struct GraphNode {
    pub id: String,
    pub properties: Vec<(String, String)>,
}

/// One GraphML edge.
#[derive(Debug, Clone)]
pub struct GraphEdge {
    pub id: String,
    pub source: String,
    pub target: String,
    pub properties: Vec<(String, String)>,
}

/// The properties as plain values.
pub open spec fn props_view(p: Seq<(String, String)>) -> Seq<(Seq<char>, Seq<char>)> {
    p.map_values(|e: (String, String)| (e.0@, e.1@))
}

/// Whether `key` equals one of `names`, ASCII case-insensitively.
pub open spec fn key_matches(key: Seq<char>, names: Seq<Seq<char>>) -> bool {
    exists|j: int| 0 <= j < names.len() && lower(key) == lower(#[trigger] names[j])
}

/// The value of the first property whose key matches one of `names`.
pub open spec fn property_of(props: Seq<(Seq<char>, Seq<char>)>, names: Seq<Seq<char>>) -> Option<
    Seq<char>,
>
    decreases props.len(),
{
    if props.len() == 0 {
        None
    } else if key_matches(props[0].0, names) {
        Some(props[0].1)
    } else {
        property_of(props.drop_first(), names)
    }
}

fn matches_any(key: &[char], names: &[&str]) -> (r: bool)
    ensures
        r == key_matches(key@, names@.map_values(|n: &str| n@)),
{
    let lk = lower_all(key);
    let ghost nv = names@.map_values(|n: &str| n@);
    for j in 0..names.len()
        invariant
            nv == names@.map_values(|n: &str| n@),
            lk@ == lower(key@),
            forall|m: int| 0 <= m < j ==> lower(key@) != lower(#[trigger] nv[m]),
    {
        let ln = lower_all(&chars_of(names[j]));
        if crate::text::eq_chars(&lk, &ln) {
            assert(lower(key@) == lower(nv[j as int]));
            return true;
        }
    }
    false
}

/// The value of the first property named (case-insensitively) by any of
/// `names`.
pub fn graph_property(properties: &Vec<(String, String)>, names: &[&str]) -> (r: Option<String>)
    ensures
        match r {
            Some(v) => property_of(props_view(properties@), names@.map_values(|n: &str| n@)) == Some(
                v@,
            ),
            None => property_of(props_view(properties@), names@.map_values(|n: &str| n@)) is None,
        },
{
    let ghost pv = props_view(properties@);
    let ghost nv = names@.map_values(|n: &str| n@);
    let mut i: usize = 0;
    assert(pv.skip(0) =~= pv);
    while i < properties.len()
        invariant
            pv == props_view(properties@),
            nv == names@.map_values(|n: &str| n@),
            i <= properties@.len(),
            property_of(pv, nv) == property_of(pv.skip(i as int), nv),
        decreases properties@.len() - i,
    {
        assert(pv.skip(i as int).drop_first() =~= pv.skip(i + 1));
        assert(pv.skip(i as int)[0] == (properties@[i as int].0@, properties@[i as int].1@));
        if matches_any(&chars_of(properties[i].0.as_str()), names) {
            return Some(copy_string(&properties[i].1));
        }
        i = i + 1;
    }
    None
}

/// Precise dataflow edge kinds.
#[derive(Debug, Clone, Copy, PartialEq, Eq, Structural)]
pub enum ArtifactEdgeKind {
    Data,
    Taint,
    Control,
}

/// The edge kind a Joern edge label maps to: reaching definitions and DDG
/// edges are data flow, CDG edges control flow; anything else is not
/// imported.
pub open spec fn edge_kind_of(label: Option<Seq<char>>) -> Option<ArtifactEdgeKind> {
    match label {
        None => None,
        Some(l) => {
            let u = upper(trim(l));
            if u == "REACHING_DEF"@ || u == "DDG"@ {
                Some(ArtifactEdgeKind::Data)
            } else if u == "CDG"@ {
                Some(ArtifactEdgeKind::Control)
            } else {
                None
            }
        },
    }
}

fn upper_all(v: &[char]) -> (r: Vec<char>)
    ensures
        r@ == upper(v@),
{
    let mut u: Vec<char> = Vec::new();
    for i in 0..v.len()
        invariant
            u@ =~= upper(v@).take(i as int),
    {
        u.push(upper_of(v[i]));
    }
    u
}

/// The label property names an edge is read from.
pub open spec fn edge_label_names() -> Seq<Seq<char>> {
    seq!["labelE"@, "label"@, "TYPE"@, ":TYPE"@]
}

/// The dataflow kind of a Joern edge, by its label.
pub fn joern_edge_kind(edge: &GraphEdge) -> (r: Option<ArtifactEdgeKind>)
    ensures
        r == edge_kind_of(property_of(props_view(edge.properties@), edge_label_names())),
{
    let names = ["labelE", "label", "TYPE", ":TYPE"];
    assert(names@.map_values(|n: &str| n@) =~= edge_label_names());
    let label = match graph_property(&edge.properties, &names) {
        Some(l) => l,
        None => return None,
    };
    let u = upper_all(&trim_chars(&chars_of(label.as_str())));
    if crate::text::eq_str(&u, "REACHING_DEF") || crate::text::eq_str(&u, "DDG") {
        Some(ArtifactEdgeKind::Data)
    } else if crate::text::eq_str(&u, "CDG") {
        Some(ArtifactEdgeKind::Control)
    } else {
        None
    }
}

/// The artifact node kind of a Joern vertex label.
pub open spec fn node_kind_of(label: Seq<char>) -> Seq<char> {
    let u = upper(trim(label));
    if u == "METHOD"@ {
        "function"@
    } else if u == "METHOD_PARAMETER_IN"@ || u == "METHOD_PARAMETER_OUT"@ {
        "parameter"@
    } else if u == "MEMBER"@ {
        "field"@
    } else if u == "LOCAL"@ {
        "local"@
    } else {
        "expression"@
    }
}

/// The artifact node kind of a Joern vertex label.
pub fn joern_node_kind(label: &str) -> (r: &'static str)
    ensures
        r@ == node_kind_of(label@),
{
    let u = upper_all(&trim_chars(&chars_of(label)));
    if crate::text::eq_str(&u, "METHOD") {
        "function"
    } else if crate::text::eq_str(&u, "METHOD_PARAMETER_IN") || crate::text::eq_str(
        &u,
        "METHOD_PARAMETER_OUT",
    ) {
        "parameter"
    } else if crate::text::eq_str(&u, "MEMBER") {
        "field"
    } else if crate::text::eq_str(&u, "LOCAL") {
        "local"
    } else {
        "expression"
    }
}

/// The entity kind an artifact node kind stands for: functions, methods,
/// fields and constants are entities; every other kind is `Unknown`.
pub open spec fn node_entity_kind_of(kind: Seq<char>) -> EntityKind {
    if kind == "function"@ {
        EntityKind::Function
    } else if kind == "method"@ {
        EntityKind::Method
    } else if kind == "field"@ {
        EntityKind::Field
    } else if kind == "constant"@ {
        EntityKind::Constant
    } else {
        EntityKind::Unknown
    }
}

/// The entity kind of an artifact node kind.
pub fn node_entity_kind(kind: &str) -> (r: EntityKind)
    ensures
        r == node_entity_kind_of(kind@),
{
    let k = chars_of(kind);
    if crate::text::eq_str(&k, "function") {
        EntityKind::Function
    } else if crate::text::eq_str(&k, "method") {
        EntityKind::Method
    } else if crate::text::eq_str(&k, "field") {
        EntityKind::Field
    } else if crate::text::eq_str(&k, "constant") {
        EntityKind::Constant
    } else {
        EntityKind::Unknown
    }
}

/// The 1-based line of byte `offset` of `text` (offsets past the end
/// count the whole text).
pub fn line_for_offset(text: &str, offset: usize) -> (r: u32)
    requires
        crate::repository::newline_count(vstd::utf8::encode_utf8(text@)) < u32::MAX,
    ensures
        r == crate::pattern::line_at(vstd::utf8::encode_utf8(text@), offset as nat),
{
    crate::pattern::line_in_bytes(text.as_bytes(), offset)
}

// ---- Joern paths ---------------------------------------------------------------------

/// `s` with every `\` replaced by `/`.
pub open spec fn forward_slashes(s: Seq<char>) -> Seq<char> {
    s.map_values(|c: char| if c == '\\' { '/' } else { c })
}


/// A Joern file name as a repository-relative path: `file://` stripped,
/// separators made `/`, and the repository root (or leading `./`)
/// removed; kept when it names a scanned file, else the unique scanned
/// path the raw name ends with.
pub open spec fn joern_path_of(raw: Seq<char>, root: Seq<char>, files: Seq<Seq<char>>) -> Option<
    Seq<char>,
> {
    let relative = joern_relative(raw, root);
    if files.contains(relative) {
        Some(relative)
    } else {
        let matches = files.filter(|p: Seq<char>| is_suffix(trim_start_all(p, "/"@), joern_raw(raw)));
        if matches.len() == 1 {
            Some(matches[0])
        } else {
            None
        }
    }
}

/// A raw Joern file name without `file://` and with `/` separators.
pub open spec fn joern_raw(raw: Seq<char>) -> Seq<char> {
    forward_slashes(
        if is_prefix("file://"@, raw) {
            raw.skip(7)
        } else {
            raw
        },
    )
}

/// The raw name relative to the repository root (or without leading
/// `./` when it is not under the root).
pub open spec fn joern_relative(raw: Seq<char>, root: Seq<char>) -> Seq<char> {
    let r = joern_raw(raw);
    let rt = forward_slashes(root);
    if is_prefix(rt, r) {
        trim_start_all(r.skip(rt.len() as int), "/"@)
    } else {
        trim_start_all(r, "./"@)
    }
}

fn slashes(s: &[char]) -> (r: Vec<char>)
    ensures
        r@ == forward_slashes(s@),
{
    let mut v: Vec<char> = Vec::new();
    for i in 0..s.len()
        invariant
            v@ =~= forward_slashes(s@).take(i as int),
    {
        v.push(if s[i] == '\\' { '/' } else { s[i] });
    }
    v
}


/// A Joern file name resolved against the scanned repository paths.
pub fn normalize_joern_path(raw: &str, repository_root: &str, files: &Vec<String>) -> (r: Option<
    String,
>)
    ensures
        match r {
            Some(p) => joern_path_of(raw@, repository_root@, files@.map_values(|s: String| s@))
                == Some(p@),
            None => joern_path_of(raw@, repository_root@, files@.map_values(|s: String| s@)) is None,
        },
{
    let ghost fv = files@.map_values(|s: String| s@);
    let rawv = chars_of(raw);
    proof {
        reveal_strlit("file://");
    }
    let unprefixed = if crate::text::starts_with_str(&rawv, "file://") {
        slice_vec(&rawv, 7, rawv.len())
    } else {
        slice_vec(&rawv, 0, rawv.len())
    };
    assert(unprefixed@ =~= if is_prefix("file://"@, raw@) {
        raw@.skip(7)
    } else {
        raw@
    });
    let r = slashes(&unprefixed);
    let rt = slashes(&chars_of(repository_root));
    let relative = if crate::text::starts_with(&r, &rt) {
        let rest = slice_vec(&r, rt.len(), r.len());
        assert(rest@ =~= r@.skip(rt@.len() as int));
        trim_start_matches(&rest, "/")
    } else {
        trim_start_matches(&r, "./")
    };
    assert(r@ == joern_raw(raw@));
    assert(relative@ == joern_relative(raw@, repository_root@));
    // exact key lookup
    let mut k: usize = 0;
    while k < files.len()
        invariant
            fv == files@.map_values(|s: String| s@),
            relative@ == joern_relative(raw@, repository_root@),
            k <= files@.len(),
            forall|m: int| 0 <= m < k ==> fv[m] != relative@,
        decreases files@.len() - k,
    {
        if crate::text::eq_chars(&chars_of(files[k].as_str()), &relative) {
            assert(fv[k as int] == relative@);
            assert(fv.contains(relative@));
            return Some(string_of(&relative));
        }
        k = k + 1;
    }
    assert(!fv.contains(relative@));
    // unique suffix match
    let mut found: Option<usize> = None;
    let mut count: usize = 0;
    let ghost pred = |p: Seq<char>| is_suffix(trim_start_all(p, "/"@), r@);
    for j in 0..files.len()
        invariant
            fv == files@.map_values(|s: String| s@),
            pred == (|p: Seq<char>| is_suffix(trim_start_all(p, "/"@), r@)),
            r@ == joern_raw(raw@),
            count == fv.take(j as int).filter(pred).len(),
            count <= j,
            count >= 1 ==> (found matches Some(f) && f < j && fv.take(j as int).filter(pred)[0]
                == fv[f as int]),
            count == 0 ==> found is None,
    {
        let p = chars_of(files[j].as_str());
        let trimmed = trim_start_matches(&p, "/");
        let hit = crate::text::ends_with(&r, &trimmed);
        proof {
            assert(fv.take(j + 1).drop_last() =~= fv.take(j as int));
            fv.take(j as int).lemma_filter_push(fv[j as int], pred);
            assert(fv.take(j as int).push(fv[j as int]) =~= fv.take(j + 1));
        }
        if hit {
            if count == 0 {
                found = Some(j);
            }
            count = count + 1;
        }
    }
    assert(fv.take(files.len() as int) =~= fv);
    if count == 1 {
        match found {
            Some(f) => Some(copy_string(&files[f])),
            None => None,
        }
    } else {
        None
    }
}


// ---- XML entities ----------------------------------------------------------------

/// An ASCII hexadecimal digit's value.
pub open spec fn hex_value(c: char) -> nat {
    if '0' <= c <= '9' {
        ((c as u32) - 48) as nat
    } else if 'a' <= c <= 'f' {
        ((c as u32) - 87) as nat
    } else {
        ((c as u32) - 55) as nat
    }
}

/// The value of a run of hexadecimal digits.
pub open spec fn hex_digits_value(s: Seq<char>) -> nat
    decreases s.len(),
{
    if s.len() == 0 {
        0
    } else {
        hex_digits_value(s.drop_last()) * 16 + hex_value(s.last())
    }
}

/// `u32::from_str_radix(s, 16)`: an optional `+`, then one or more hex
/// digits (either case) whose value fits in 32 bits.
pub open spec fn parse_hex_spec(s: Seq<char>) -> Option<u32> {
    let digits = crate::text::u32_digits(s);
    if digits.len() == 0 || exists|i: int|
        0 <= i < digits.len() && !crate::text::ascii_hex(#[trigger] digits[i]) {
        None
    } else if hex_digits_value(digits) > u32::MAX {
        None
    } else {
        Some(hex_digits_value(digits) as u32)
    }
}

proof fn lemma_hex_prefix(s: Seq<char>, k: int)
    requires
        0 <= k <= s.len(),
    ensures
        hex_digits_value(s.take(k)) <= hex_digits_value(s),
    decreases s.len() - k,
{
    if k < s.len() {
        assert(s.drop_last().take(k) =~= s.take(k));
        lemma_hex_prefix(s.drop_last(), k);
    } else {
        assert(s.take(k) =~= s);
    }
}

/// Parses hexadecimal as `u32::from_str_radix(_, 16)` does.
pub fn parse_hex_u32(s: &[char]) -> (r: Option<u32>)
    ensures
        r == parse_hex_spec(s@),
{
    let start: usize = if s.len() > 0 && s[0] == '+' {
        1
    } else {
        0
    };
    let ghost digits = s@.skip(start as int);
    assert(digits =~= crate::text::u32_digits(s@));
    if start == s.len() {
        return None;
    }
    let mut value: u64 = 0;
    let mut i = start;
    while i < s.len()
        invariant
            start <= i <= s@.len(),
            start < s@.len(),
            digits == s@.skip(start as int),
            digits == crate::text::u32_digits(s@),
            forall|k: int| 0 <= k < i - start ==> crate::text::ascii_hex(#[trigger] digits[k]),
            value == hex_digits_value(digits.take(i - start)),
            value <= u32::MAX,
        decreases s@.len() - i,
    {
        let c = s[i];
        let d: u64 = if '0' <= c && c <= '9' {
            (c as u32 - 48) as u64
        } else if 'a' <= c && c <= 'f' {
            (c as u32 - 87) as u64
        } else if 'A' <= c && c <= 'F' {
            (c as u32 - 55) as u64
        } else {
            assert(digits[i - start] == c);
            assert(exists|j: int| 0 <= j < digits.len() && !crate::text::ascii_hex(#[trigger] digits[j]));
            return None;
        };
        assert(digits.take(i - start + 1).drop_last() =~= digits.take(i - start));
        assert(digits.take(i - start + 1).last() == c);
        let next = value * 16 + d;
        if next > 0xFFFF_FFFF {
            proof {
                lemma_hex_prefix(digits, i - start + 1);
            }
            return None;
        }
        value = next;
        i = i + 1;
    }
    assert(digits.take(s@.len() - start) =~= digits);
    Some(value as u32)
}

/// Code points that are Unicode scalar values.
pub open spec fn is_scalar_value(n: u32) -> bool {
    n < 0xD800 || (0xE000 <= n && n <= 0x10FFFF)
}

/// `char::from_u32`: the char with code `n`, when `n` is a Unicode scalar
/// value.
#[verifier::external_body]
fn char_from_u32(n: u32) -> (r: Option<char>)
    ensures
        match r {
            Some(c) => is_scalar_value(n) && c == (n as char) && c as u32 == n,
            None => !is_scalar_value(n),
        },
{
    char::from_u32(n)
}

/// The char an XML entity body names.
pub open spec fn entity_char(entity: Seq<char>) -> Result<char, (GraphmlErrorKind, Seq<char>)> {
    if entity == "amp"@ {
        Ok('&')
    } else if entity == "lt"@ {
        Ok('<')
    } else if entity == "gt"@ {
        Ok('>')
    } else if entity == "quot"@ {
        Ok('"')
    } else if entity == "apos"@ {
        Ok('\'')
    } else if is_prefix("#x"@, entity) {
        match parse_hex_spec(entity.skip(2)) {
            None => Err((GraphmlErrorKind::InvalidEntity, entity)),
            Some(n) => if is_scalar_value(n) {
                Ok(n as char)
            } else {
                Err((GraphmlErrorKind::InvalidScalar, entity))
            },
        }
    } else if is_prefix("#"@, entity) {
        match parse_u32_spec(entity.skip(1)) {
            None => Err((GraphmlErrorKind::InvalidEntity, entity)),
            Some(n) => if is_scalar_value(n) {
                Ok(n as char)
            } else {
                Err((GraphmlErrorKind::InvalidScalar, entity))
            },
        }
    } else {
        Err((GraphmlErrorKind::UnsupportedEntity, entity))
    }
}

fn decode_entity(entity: &[char]) -> (r: Result<char, GraphmlError>)
    ensures
        match r {
            Ok(c) => entity_char(entity@) == Ok::<char, (GraphmlErrorKind, Seq<char>)>(c),
            Err(e) => entity_char(entity@) == Err::<char, (GraphmlErrorKind, Seq<char>)>(
                err_view(e),
            ),
        },
{
    proof {
        reveal_strlit("#x");
        reveal_strlit("#");
    }
    if crate::text::eq_str(entity, "amp") {
        Ok('&')
    } else if crate::text::eq_str(entity, "lt") {
        Ok('<')
    } else if crate::text::eq_str(entity, "gt") {
        Ok('>')
    } else if crate::text::eq_str(entity, "quot") {
        Ok('"')
    } else if crate::text::eq_str(entity, "apos") {
        Ok('\'')
    } else if crate::text::starts_with_str(entity, "#x") {
        let digits = slice_vec(entity, 2, entity.len());
        assert(digits@ =~= entity@.skip(2));
        match parse_hex_u32(&digits) {
            None => Err(graphml_error(GraphmlErrorKind::InvalidEntity, entity)),
            Some(n) => match char_from_u32(n) {
                Some(c) => Ok(c),
                None => Err(graphml_error(GraphmlErrorKind::InvalidScalar, entity)),
            },
        }
    } else if crate::text::starts_with_str(entity, "#") {
        let digits = slice_vec(entity, 1, entity.len());
        assert(digits@ =~= entity@.skip(1));
        match parse_u32(&digits) {
            None => Err(graphml_error(GraphmlErrorKind::InvalidEntity, entity)),
            Some(n) => match char_from_u32(n) {
                Some(c) => Ok(c),
                None => Err(graphml_error(GraphmlErrorKind::InvalidScalar, entity)),
            },
        }
    } else {
        Err(graphml_error(GraphmlErrorKind::UnsupportedEntity, entity))
    }
}

/// XML text with its entities decoded.
pub open spec fn unescape_spec(v: Seq<char>) -> Result<Seq<char>, (GraphmlErrorKind, Seq<char>)>
    decreases v.len(),
{
    match first_index_of(v, '&') {
        None => Ok(v),
        Some(i) => {
            proof {
                crate::text::lemma_first_index_of(v, '&');
            }
            let rest = v.skip(i + 1);
            match first_index_of(rest, ';') {
                None => Err((GraphmlErrorKind::UnterminatedEntity, Seq::empty())),
                Some(e) => {
                    proof {
                        crate::text::lemma_first_index_of(rest, ';');
                    }
                    match entity_char(rest.take(e)) {
                        Err(x) => Err(x),
                        Ok(c) => match unescape_spec(rest.skip(e + 1)) {
                            Ok(t) => Ok(v.take(i).push(c) + t),
                            Err(x) => Err(x),
                        },
                    }
                },
            }
        },
    }
}

/// Decodes the XML entities of `value`.
pub fn unescape_xml(value: &[char]) -> (r: Result<Vec<char>, GraphmlError>)
    ensures
        match r {
            Ok(t) => unescape_spec(value@) == Ok::<Seq<char>, (GraphmlErrorKind, Seq<char>)>(t@),
            Err(e) => unescape_spec(value@) == Err::<Seq<char>, (GraphmlErrorKind, Seq<char>)>(
                err_view(e),
            ),
        },
{
    let mut out: Vec<char> = Vec::new();
    let mut pos: usize = 0;
    assert(value@.skip(0) =~= value@);
    loop
        invariant
            pos <= value@.len(),
            unescape_spec(value@) == match unescape_spec(value@.skip(pos as int)) {
                Ok(t) => Ok::<Seq<char>, (GraphmlErrorKind, Seq<char>)>(out@ + t),
                Err(x) => Err(x),
            },
        decreases value@.len() - pos,
    {
        let rest = slice_vec(value, pos, value.len());
        assert(rest@ =~= value@.skip(pos as int));
        match crate::text::find_char(&rest, '&') {
            None => {
                push_all(&mut out, &rest);
                return Ok(out);
            },
            Some(i) => {
                let after = slice_vec(&rest, i + 1, rest.len());
                assert(after@ =~= rest@.skip(i + 1));
                match crate::text::find_char(&after, ';') {
                    None => {
                        return Err(graphml_error(GraphmlErrorKind::UnterminatedEntity, &Vec::new()));
                    },
                    Some(e) => {
                        let entity = slice_vec(&after, 0, e);
                        assert(entity@ =~= after@.take(e as int));
                        let c = match decode_entity(&entity) {
                            Ok(c) => c,
                            Err(x) => return Err(x),
                        };
                        let ghost before = out@;
                        push_all(&mut out, &slice_vec(&rest, 0, i));
                        out.push(c);
                        proof {
                            assert(out@ =~= before + rest@.take(i as int).push(c));
                            assert(after@.skip(e + 1) =~= value@.skip(pos + i + 1 + e + 1));
                            let np = pos + i + 1 + e + 1;
                            assert(unescape_spec(rest@) == match unescape_spec(value@.skip(np)) {
                                Ok(t) => Ok::<Seq<char>, (GraphmlErrorKind, Seq<char>)>(
                                    rest@.take(i as int).push(c) + t,
                                ),
                                Err(x) => Err(x),
                            });
                            match unescape_spec(value@.skip(np)) {
                                Ok(t) => {
                                    assert(before + (rest@.take(i as int).push(c) + t) =~= out@ + t);
                                },
                                Err(_) => {},
                            }
                        }
                        pos = pos + i + 1 + e + 1;
                    },
                }
            },
        }
    }
}


// ---- XML tags and attributes ------------------------------------------------------

/// ASCII white space as `u8::is_ascii_whitespace` defines it.
pub open spec fn xml_ws(c: char) -> bool {
    c == ' ' || c == '\t' || c == '\n' || c == '\x0C' || c == '\r'
}

/// The first position at or after `pos` that is not white space.
pub open spec fn skip_ws(s: Seq<char>, pos: int) -> int
    decreases s.len() - pos,
{
    if 0 <= pos < s.len() && xml_ws(s[pos]) {
        skip_ws(s, pos + 1)
    } else {
        pos
    }
}

/// The end of the attribute name starting at `pos`.
pub open spec fn name_end(s: Seq<char>, pos: int) -> int
    decreases s.len() - pos,
{
    if 0 <= pos < s.len() && !xml_ws(s[pos]) && s[pos] != '=' {
        name_end(s, pos + 1)
    } else {
        pos
    }
}

/// The first position at or after `pos` holding `q` (or the end).
pub open spec fn until_char(s: Seq<char>, pos: int, q: char) -> int
    decreases s.len() - pos,
{
    if 0 <= pos < s.len() && s[pos] != q {
        until_char(s, pos + 1, q)
    } else {
        pos
    }
}

/// Each scan stops at or after where it starts, and within the text.
pub proof fn lemma_scans_advance(s: Seq<char>, pos: int, q: char)
    requires
        0 <= pos,
    ensures
        pos <= skip_ws(s, pos),
        pos <= name_end(s, pos),
        pos <= until_char(s, pos, q),
        pos <= s.len() ==> skip_ws(s, pos) <= s.len() && name_end(s, pos) <= s.len()
            && until_char(s, pos, q) <= s.len(),
    decreases s.len() - pos,
{
    if pos < s.len() {
        lemma_scans_advance(s, pos + 1, q);
    }
}

/// Index of key `k` among the entries.
pub open spec fn key_index(acc: Seq<(Seq<char>, Seq<char>)>, k: Seq<char>) -> Option<int>
    decreases acc.len(),
{
    if acc.len() == 0 {
        None
    } else if acc.last().0 == k {
        Some(acc.len() - 1)
    } else {
        key_index(acc.drop_last(), k)
    }
}

/// Map insertion on entries kept in first-insertion order: an existing key
/// gets the new value in place, a new key is appended.
pub open spec fn attr_insert(acc: Seq<(Seq<char>, Seq<char>)>, k: Seq<char>, v: Seq<char>) -> Seq<
    (Seq<char>, Seq<char>),
> {
    match key_index(acc, k) {
        Some(i) => acc.update(i, (k, v)),
        None => acc.push((k, v)),
    }
}

pub proof fn lemma_key_index(acc: Seq<(Seq<char>, Seq<char>)>, k: Seq<char>)
    ensures
        match key_index(acc, k) {
            Some(i) => 0 <= i < acc.len() && acc[i].0 == k,
            None => forall|j: int| 0 <= j < acc.len() ==> acc[j].0 != k,
        },
    decreases acc.len(),
{
    if acc.len() > 0 && acc.last().0 != k {
        lemma_key_index(acc.drop_last(), k);
        assert forall|j: int| 0 <= j < acc.len() - 1 implies acc.drop_last()[j] == acc[j] by {}
    }
}

/// Inserts `(k, v)` into entries kept in first-insertion order.
pub fn insert_entry(entries: &mut Vec<(String, String)>, k: String, v: String)
    ensures
        props_view(final(entries)@) == attr_insert(props_view(old(entries)@), k@, v@),
{
    let ghost pv = props_view(entries@);
    let kc = chars_of(k.as_str());
    let mut i = entries.len();
    assert(pv.take(i as int) =~= pv);
    while i > 0
        invariant
            i <= entries@.len(),
            pv == props_view(entries@),
            entries@ == old(entries)@,
            kc@ == k@,
            key_index(pv, k@) == key_index(pv.take(i as int), k@),
        decreases i,
    {
        assert(pv.take(i as int).drop_last() =~= pv.take(i - 1));
        if crate::text::eq_chars(&chars_of(entries[i - 1].0.as_str()), &kc) {
            assert(pv.take(i as int).last() == pv[i - 1]);
            assert(pv[i - 1].0 == k@);
            assert(key_index(pv, k@) == Some(i - 1));
            let ghost before = entries@;
            entries.set(i - 1, (k, v));
            assert(props_view(entries@) =~= pv.update(i - 1, (k@, v@)));
            return;
        }
        i = i - 1;
    }
    let ghost before = entries@;
    entries.push((k, v));
    assert(props_view(entries@) =~= pv.push((k@, v@)));
}

/// The attributes of a tag's text from `pos`, inserted into `acc`.
pub open spec fn attrs_from(s: Seq<char>, pos: int, acc: Seq<(Seq<char>, Seq<char>)>) -> Result<
    Seq<(Seq<char>, Seq<char>)>,
    (GraphmlErrorKind, Seq<char>),
>
    decreases s.len() - pos,
{
    if pos < 0 {
        Ok(acc)
    } else {
        proof {
            lemma_scans_advance(s, pos, '"');
        }
        let p1 = skip_ws(s, pos);
        if p1 >= s.len() {
            Ok(acc)
        } else {
            proof {
                lemma_scans_advance(s, p1, '"');
            }
            let p2 = name_end(s, p1);
            let name = s.subrange(p1, p2);
            proof {
                lemma_scans_advance(s, p2, '"');
            }
            let p3 = skip_ws(s, p2);
            if p3 >= s.len() || s[p3] != '=' {
                Err((GraphmlErrorKind::AttributeLacksEquals, name))
            } else {
                proof {
                    lemma_scans_advance(s, p3 + 1, '"');
                }
                let p4 = skip_ws(s, p3 + 1);
                if p4 >= s.len() || !(s[p4] == '\'' || s[p4] == '"') {
                    Err((GraphmlErrorKind::AttributeNotQuoted, name))
                } else {
                    let q = s[p4];
                    proof {
                        lemma_scans_advance(s, p4 + 1, q);
                    }
                    let ve = until_char(s, p4 + 1, q);
                    if ve >= s.len() {
                        Err((GraphmlErrorKind::AttributeUnterminated, name))
                    } else {
                        match unescape_spec(s.subrange(p4 + 1, ve)) {
                            Err(x) => Err(x),
                            Ok(value) => attrs_from(s, ve + 1, attr_insert(acc, name, value)),
                        }
                    }
                }
            }
        }
    }
}

fn is_xml_ws(c: char) -> (r: bool)
    ensures
        r == xml_ws(c),
{
    c == ' ' || c == '\t' || c == '\n' || c == '\x0C' || c == '\r'
}

/// Parses `name="value"` attributes (either quote), decoding entities in
/// values; a repeated name keeps its first position and the last value.
pub fn parse_xml_attributes(raw: &[char]) -> (r: Result<Vec<(String, String)>, GraphmlError>)
    ensures
        match r {
            Ok(a) => attrs_from(raw@, 0, Seq::empty()) == Ok::<
                Seq<(Seq<char>, Seq<char>)>,
                (GraphmlErrorKind, Seq<char>),
            >(props_view(a@)),
            Err(e) => attrs_from(raw@, 0, Seq::empty()) == Err::<
                Seq<(Seq<char>, Seq<char>)>,
                (GraphmlErrorKind, Seq<char>),
            >(err_view(e)),
        },
{
    let mut attributes: Vec<(String, String)> = Vec::new();
    let mut pos: usize = 0;
    assert(props_view(attributes@) =~= Seq::<(Seq<char>, Seq<char>)>::empty());
    loop
        invariant
            pos <= raw@.len(),
            attrs_from(raw@, 0, Seq::empty()) == attrs_from(raw@, pos as int, props_view(attributes@)),
        decreases raw@.len() - pos,
    {
        proof {
            lemma_scans_advance(raw@, pos as int, '"');
        }
        let mut p = pos;
        while p < raw.len() && is_xml_ws(raw[p])
            invariant
                pos <= p <= raw@.len(),
                skip_ws(raw@, pos as int) == skip_ws(raw@, p as int),
            decreases raw@.len() - p,
        {
            p = p + 1;
        }
        if p == raw.len() {
            return Ok(attributes);
        }
        let name_start = p;
        while p < raw.len() && !is_xml_ws(raw[p]) && raw[p] != '='
            invariant
                name_start <= p <= raw@.len(),
                name_end(raw@, name_start as int) == name_end(raw@, p as int),
            decreases raw@.len() - p,
        {
            p = p + 1;
        }
        let name = slice_vec(raw, name_start, p);
        let name_end_at = p;
        while p < raw.len() && is_xml_ws(raw[p])
            invariant
                name_end_at <= p <= raw@.len(),
                skip_ws(raw@, name_end_at as int) == skip_ws(raw@, p as int),
            decreases raw@.len() - p,
        {
            p = p + 1;
        }
        if p == raw.len() || raw[p] != '=' {
            return Err(graphml_error(GraphmlErrorKind::AttributeLacksEquals, &name));
        }
        p = p + 1;
        let after_eq = p;
        while p < raw.len() && is_xml_ws(raw[p])
            invariant
                after_eq <= p <= raw@.len(),
                skip_ws(raw@, after_eq as int) == skip_ws(raw@, p as int),
            decreases raw@.len() - p,
        {
            p = p + 1;
        }
        if p == raw.len() || !(raw[p] == '\'' || raw[p] == '"') {
            return Err(graphml_error(GraphmlErrorKind::AttributeNotQuoted, &name));
        }
        let quote = raw[p];
        p = p + 1;
        let value_start = p;
        while p < raw.len() && raw[p] != quote
            invariant
                value_start <= p <= raw@.len(),
                until_char(raw@, value_start as int, quote) == until_char(raw@, p as int, quote),
            decreases raw@.len() - p,
        {
            p = p + 1;
        }
        if p == raw.len() {
            return Err(graphml_error(GraphmlErrorKind::AttributeUnterminated, &name));
        }
        let value = match unescape_xml(&slice_vec(raw, value_start, p)) {
            Ok(v) => v,
            Err(e) => return Err(e),
        };
        let ghost before = props_view(attributes@);
        insert_entry(&mut attributes, string_of(&name), string_of(&value));
        pos = p + 1;
    }
}

/// A parsed XML tag: its lower-cased local name, whether it closes, and
/// its attributes.
#[derive(Debug, Clone)]
pub struct XmlTag {
    pub name: String,
    pub closing: bool,
    pub attributes: Vec<(String, String)>,
}

/// `s` without any number of trailing `c` (`trim_end_matches`).
pub open spec fn trim_end_char(s: Seq<char>, c: char) -> Seq<char>
    decreases s.len(),
{
    if s.len() > 0 && s.last() == c {
        trim_end_char(s.drop_last(), c)
    } else {
        s
    }
}

/// `s` without any number of leading `c` (`trim_start_matches`).
pub open spec fn trim_start_char(s: Seq<char>, c: char) -> Seq<char>
    decreases s.len(),
{
    if s.len() > 0 && s[0] == c {
        trim_start_char(s.drop_first(), c)
    } else {
        s
    }
}

/// Index of the first Unicode white-space char.
pub open spec fn first_space(s: Seq<char>) -> Option<int>
    decreases s.len(),
{
    if s.len() == 0 {
        None
    } else if crate::text::unicode_whitespace(s[0]) {
        Some(0)
    } else {
        match first_space(s.drop_first()) {
            Some(i) => Some(i + 1),
            None => None,
        }
    }
}

/// The tag text without slashes and surrounding white space.
pub open spec fn tag_body(raw: Seq<char>) -> Seq<char> {
    trim(trim_end_char(trim_start_char(trim(raw), '/'), '/'))
}

/// Where the tag's name ends.
pub open spec fn tag_name_end(raw: Seq<char>) -> int {
    match first_space(tag_body(raw)) {
        Some(i) => i,
        None => tag_body(raw).len() as int,
    }
}

/// The tag's local name (after the last `:`), ASCII lower-cased.
pub open spec fn tag_name(raw: Seq<char>) -> Seq<char> {
    let q = tag_body(raw).take(tag_name_end(raw));
    lower(
        match last_index_of(q, ':') {
            Some(i) => q.skip(i + 1),
            None => q,
        },
    )
}

/// Whether the tag closes an element.
pub open spec fn tag_closing(raw: Seq<char>) -> bool {
    trim(raw).len() > 0 && trim(raw)[0] == '/'
}

fn strip_lead(s: &[char], c: char) -> (r: Vec<char>)
    ensures
        r@ == trim_start_char(s@, c),
{
    let mut i: usize = 0;
    assert(s@.skip(0) =~= s@);
    while i < s.len() && s[i] == c
        invariant
            i <= s@.len(),
            trim_start_char(s@, c) == trim_start_char(s@.skip(i as int), c),
        decreases s@.len() - i,
    {
        assert(s@.skip(i as int).drop_first() =~= s@.skip(i + 1));
        i = i + 1;
    }
    slice_vec(s, i, s.len())
}

fn strip_trail(s: &[char], c: char) -> (r: Vec<char>)
    ensures
        r@ == trim_end_char(s@, c),
{
    let mut j = s.len();
    assert(s@.take(j as int) =~= s@);
    while j > 0 && s[j - 1] == c
        invariant
            j <= s@.len(),
            trim_end_char(s@, c) == trim_end_char(s@.take(j as int), c),
        decreases j,
    {
        assert(s@.take(j as int).drop_last() =~= s@.take(j - 1));
        j = j - 1;
    }
    slice_vec(s, 0, j)
}

/// Parses the text between `<` and `>`.
pub fn parse_xml_tag(raw: &[char]) -> (r: Result<XmlTag, GraphmlError>)
    ensures
        match r {
            Ok(t) => t.name@ == tag_name(raw@) && t.closing == tag_closing(raw@) && attrs_from(
                tag_body(raw@).skip(tag_name_end(raw@)),
                0,
                Seq::empty(),
            ) == Ok::<Seq<(Seq<char>, Seq<char>)>, (GraphmlErrorKind, Seq<char>)>(
                props_view(t.attributes@),
            ),
            Err(e) => attrs_from(tag_body(raw@).skip(tag_name_end(raw@)), 0, Seq::empty()) == Err::<
                Seq<(Seq<char>, Seq<char>)>,
                (GraphmlErrorKind, Seq<char>),
            >(err_view(e)),
        },
{
    let t = trim_chars(raw);
    let closing = t.len() > 0 && t[0] == '/';
    let body = trim_chars(&strip_trail(&strip_lead(&t, '/'), '/'));
    let mut ne: usize = 0;
    assert(body@.skip(0) =~= body@);
    while ne < body.len() && !crate::text::is_whitespace(body[ne])
        invariant
            ne <= body@.len(),
            body@ == tag_body(raw@),
            forall|k: int| 0 <= k < ne ==> !crate::text::unicode_whitespace(#[trigger] body@[k]),
        decreases body@.len() - ne,
    {
        ne = ne + 1;
    }
    proof {
        lemma_first_space(body@, ne as int);
    }
    let qualified = slice_vec(&body, 0, ne);
    let local = match crate::text::rfind_char(&qualified, ':') {
        Some(i) => slice_vec(&qualified, i + 1, qualified.len()),
        None => slice_vec(&qualified, 0, qualified.len()),
    };
    let name = lower_all(&local);
    let rest = slice_vec(&body, ne, body.len());
    assert(rest@ =~= tag_body(raw@).skip(tag_name_end(raw@)));
    let attributes = match parse_xml_attributes(&rest) {
        Ok(a) => a,
        Err(e) => return Err(e),
    };
    Ok(XmlTag { name: string_of(&name), closing, attributes })
}

proof fn lemma_first_space(s: Seq<char>, n: int)
    requires
        0 <= n <= s.len(),
        forall|k: int| 0 <= k < n ==> !crate::text::unicode_whitespace(#[trigger] s[k]),
        n == s.len() || crate::text::unicode_whitespace(s[n]),
    ensures
        match first_space(s) {
            Some(i) => i == n,
            None => n == s.len(),
        },
    decreases n,
{
    if n > 0 {
        assert(!crate::text::unicode_whitespace(s[0]));
        assert forall|k: int| 0 <= k < n - 1 implies !crate::text::unicode_whitespace(
            #[trigger] s.drop_first()[k],
        ) by {
            assert(s.drop_first()[k] == s[k + 1]);
        }
        lemma_first_space(s.drop_first(), n - 1);
    }
}


// ---- GraphML -------------------------------------------------------------------------

/// A node as plain values: id and properties.
pub open spec fn node_view(n: GraphNode) -> (Seq<char>, Seq<(Seq<char>, Seq<char>)>) {
    (n.id@, props_view(n.properties@))
}

/// An edge as plain values: id, source, target and properties.
pub open spec fn edge_view(e: GraphEdge) -> (Seq<char>, Seq<char>, Seq<char>, Seq<(Seq<char>, Seq<char>)>) {
    (e.id@, e.source@, e.target@, props_view(e.properties@))
}

/// The GraphML reader's state between tags, as plain values.
pub struct GraphState {
    pub keys: Seq<(Seq<char>, Seq<char>)>,
    pub nodes: Seq<(Seq<char>, Seq<(Seq<char>, Seq<char>)>)>,
    pub edges: Seq<(Seq<char>, Seq<char>, Seq<char>, Seq<(Seq<char>, Seq<char>)>)>,
    pub node: Option<(Seq<char>, Seq<(Seq<char>, Seq<char>)>)>,
    pub edge: Option<(Seq<char>, Seq<char>, Seq<char>, Seq<(Seq<char>, Seq<char>)>)>,
    pub data_key: Option<Seq<char>>,
    pub data_value: Seq<char>,
}

/// The value stored under exactly `k`.
pub open spec fn lookup(p: Seq<(Seq<char>, Seq<char>)>, k: Seq<char>) -> Option<Seq<char>> {
    match key_index(p, k) {
        Some(i) => Some(p[i].1),
        None => None,
    }
}

/// Removes `k`: its value, and the remaining entries in order.
pub open spec fn remove_key(p: Seq<(Seq<char>, Seq<char>)>, k: Seq<char>) -> (Option<Seq<char>>, Seq<
    (Seq<char>, Seq<char>),
>) {
    match key_index(p, k) {
        Some(i) => (Some(p[i].1), p.remove(i)),
        None => (None, p),
    }
}

/// The value or the empty text.
pub open spec fn or_empty(v: Option<Seq<char>>) -> Seq<char> {
    match v {
        Some(x) => x,
        None => Seq::empty(),
    }
}

/// The state after one parsed tag.
#[verifier::opaque]
pub open spec fn apply_tag(
    st: GraphState,
    name: Seq<char>,
    closing: bool,
    attrs: Seq<(Seq<char>, Seq<char>)>,
) -> Result<GraphState, (GraphmlErrorKind, Seq<char>)> {
    if !closing && name == "key"@ {
        match lookup(attrs, "id"@) {
            Some(id) => Ok(
                GraphState {
                    keys: attr_insert(
                        st.keys,
                        id,
                        match lookup(attrs, "attr.name"@) {
                            Some(n) => n,
                            None => id,
                        },
                    ),
                    ..st
                },
            ),
            None => Ok(st),
        }
    } else if !closing && name == "node"@ {
        let (id, rest) = remove_key(attrs, "id"@);
        Ok(GraphState { node: Some((or_empty(id), rest)), ..st })
    } else if !closing && name == "edge"@ {
        let (id, a1) = remove_key(attrs, "id"@);
        let (source, a2) = remove_key(a1, "source"@);
        let (target, a3) = remove_key(a2, "target"@);
        Ok(GraphState { edge: Some((or_empty(id), or_empty(source), or_empty(target), a3)), ..st })
    } else if !closing && name == "data"@ {
        Ok(GraphState { data_key: lookup(attrs, "key"@), data_value: Seq::empty(), ..st })
    } else if closing && name == "data"@ {
        match st.data_key {
            None => Ok(GraphState { data_value: Seq::empty(), ..st }),
            Some(key) => {
                let pname = match lookup(st.keys, key) {
                    Some(n) => n,
                    None => key,
                };
                match unescape_spec(trim(st.data_value)) {
                    Err(x) => Err(x),
                    Ok(value) => {
                        let cleared = GraphState { data_key: None, data_value: Seq::empty(), ..st };
                        match st.node {
                            Some(n) => Ok(
                                GraphState {
                                    node: Some((n.0, attr_insert(n.1, pname, value))),
                                    ..cleared
                                },
                            ),
                            None => match st.edge {
                                Some(e) => Ok(
                                    GraphState {
                                        edge: Some((e.0, e.1, e.2, attr_insert(e.3, pname, value))),
                                        ..cleared
                                    },
                                ),
                                None => Ok(cleared),
                            },
                        }
                    },
                }
            },
        }
    } else if closing && name == "node"@ {
        match st.node {
            Some(n) => if n.0.len() > 0 {
                Ok(GraphState { nodes: st.nodes.push(n), node: None, ..st })
            } else {
                Ok(GraphState { node: None, ..st })
            },
            None => Ok(st),
        }
    } else if closing && name == "edge"@ {
        match st.edge {
            Some(e) => if e.1.len() > 0 && e.2.len() > 0 {
                Ok(GraphState { edges: st.edges.push(e), edge: None, ..st })
            } else {
                Ok(GraphState { edge: None, ..st })
            },
            None => Ok(st),
        }
    } else {
        Ok(st)
    }
}

/// Index of the first `<` at or after `pos`.
pub open spec fn first_open(b: Seq<u8>, pos: int) -> Option<int>
    decreases b.len() - pos,
{
    if pos < 0 || pos >= b.len() {
        None
    } else if b[pos] == 60 {
        Some(pos)
    } else {
        first_open(b, pos + 1)
    }
}

/// The first occurrence of `needle` at or after `start`.
#[verifier::opaque]
pub open spec fn find_from(b: Seq<u8>, start: int, needle: Seq<u8>) -> Option<int> {
    if exists|i: int| start <= i && bytes_at(b, needle, i) {
        Some(
            choose|i: int|
                start <= i && bytes_at(b, needle, i) && forall|j: int|
                    start <= j < i ==> !bytes_at(b, needle, j),
        )
    } else {
        None
    }
}

/// The state with decoded text appended to the open data value.
#[verifier::opaque]
pub open spec fn with_text(st: GraphState, text: Seq<u8>) -> GraphState {
    GraphState { data_value: st.data_value + vstd::utf8::decode_utf8(text), ..st }
}

/// One step of the reader at the `<` at `open`, having left off at
/// `pos`: the position to continue from and the new state.
#[verifier::opaque]
pub open spec fn step_at(b: Seq<u8>, pos: int, open: int, st: GraphState) -> Result<
    (int, GraphState),
    (GraphmlErrorKind, Seq<char>),
> {
    let text = b.subrange(pos, open);
    let collecting = st.data_key is Some && open > pos;
    if collecting && !vstd::utf8::valid_utf8(text) {
        Err((GraphmlErrorKind::NotUtf8, Seq::empty()))
    } else {
        let st1 = if collecting {
            with_text(st, text)
        } else {
            st
        };
        if bytes_at(b, seq![60u8, 33u8, 45u8, 45u8], open) {
            match find_from(b, open + 4, seq![45u8, 45u8, 62u8]) {
                None => Err((GraphmlErrorKind::UnterminatedComment, Seq::empty())),
                Some(end) => Ok((end + 3, st1)),
            }
        } else if bytes_at(b, seq![60u8, 63u8], open) {
            match find_from(b, open + 2, seq![63u8, 62u8]) {
                None => Err((GraphmlErrorKind::UnterminatedInstruction, Seq::empty())),
                Some(end) => Ok((end + 2, st1)),
            }
        } else if bytes_at(b, cdata_open(), open) {
            match find_from(b, open + 9, seq![93u8, 93u8, 62u8]) {
                None => Err((GraphmlErrorKind::UnterminatedCdata, Seq::empty())),
                Some(end) => {
                    let inner = b.subrange(open + 9, end);
                    if st1.data_key is Some && !vstd::utf8::valid_utf8(inner) {
                        Err((GraphmlErrorKind::NotUtf8, Seq::empty()))
                    } else if st1.data_key is Some {
                        Ok((end + 3, with_text(st1, inner)))
                    } else {
                        Ok((end + 3, st1))
                    }
                },
            }
        } else if bytes_at(b, seq![60u8, 33u8], open) {
            match tag_end_from(b, open + 2, None) {
                None => Err((GraphmlErrorKind::UnterminatedDeclaration, Seq::empty())),
                Some(end) => Ok((end + 1, st1)),
            }
        } else {
            match tag_end_from(b, open + 1, None) {
                None => Err((GraphmlErrorKind::UnterminatedTag, Seq::empty())),
                Some(close) => match tag_state(b, open, close, st1) {
                    Err(x) => Err(x),
                    Ok(st2) => Ok((close + 1, st2)),
                },
            }
        }
    }
}

/// The state after the tag between `open` and `close`.
#[verifier::opaque]
pub open spec fn tag_state(b: Seq<u8>, open: int, close: int, st1: GraphState) -> Result<
    GraphState,
    (GraphmlErrorKind, Seq<char>),
> {
    let raw = b.subrange(open + 1, close);
    if !vstd::utf8::valid_utf8(raw) {
        Err((GraphmlErrorKind::NotUtf8, Seq::empty()))
    } else {
        let rc = vstd::utf8::decode_utf8(raw);
        match attrs_from(tag_body(rc).skip(tag_name_end(rc)), 0, Seq::empty()) {
            Err(x) => Err(x),
            Ok(attrs) => apply_tag(st1, tag_name(rc), tag_closing(rc), attrs),
        }
    }
}

/// A step continues past where it started.
pub proof fn lemma_step_advances(b: Seq<u8>, pos: int, open: int, st: GraphState)
    requires
        0 <= pos <= open < b.len(),
    ensures
        step_at(b, pos, open, st) matches Ok((n, _)) ==> pos < n <= b.len(),
{
    reveal(step_at);
    if bytes_at(b, seq![60u8, 33u8, 45u8, 45u8], open) {
        lemma_find_from(b, open + 4, seq![45u8, 45u8, 62u8]);
    } else if bytes_at(b, seq![60u8, 63u8], open) {
        lemma_find_from(b, open + 2, seq![63u8, 62u8]);
    } else if bytes_at(b, cdata_open(), open) {
        lemma_find_from(b, open + 9, seq![93u8, 93u8, 62u8]);
    } else if bytes_at(b, seq![60u8, 33u8], open) {
        lemma_tag_end(b, open + 2, None);
    } else {
        lemma_tag_end(b, open + 1, None);
    }
}

/// Nodes and edges read from `b` from `pos` on, in state `st`.
pub open spec fn graph_from(b: Seq<u8>, pos: int, st: GraphState) -> Result<
    (
        Seq<(Seq<char>, Seq<(Seq<char>, Seq<char>)>)>,
        Seq<(Seq<char>, Seq<char>, Seq<char>, Seq<(Seq<char>, Seq<char>)>)>,
    ),
    (GraphmlErrorKind, Seq<char>),
>
    decreases b.len() - pos,
{
    if pos < 0 || pos >= b.len() {
        Ok((st.nodes, st.edges))
    } else {
        match first_open(b, pos) {
            None => Ok((st.nodes, st.edges)),
            Some(open) => {
                proof {
                    lemma_first_open(b, pos);
                    lemma_step_advances(b, pos, open, st);
                }
                match step_at(b, pos, open, st) {
                    Err(x) => Err(x),
                    Ok((next, st2)) => graph_from(b, next, st2),
                }
            },
        }
    }
}

/// `<![CDATA[`.
pub open spec fn cdata_open() -> Seq<u8> {
    seq![60u8, 33u8, 91u8, 67u8, 68u8, 65u8, 84u8, 65u8, 91u8]
}

/// `find_from` reports an occurrence at or after `start`, within the text.
pub proof fn lemma_find_from(b: Seq<u8>, start: int, needle: Seq<u8>)
    ensures
        find_from(b, start, needle) matches Some(i) ==> start <= i && i + needle.len() <= b.len()
            && bytes_at(b, needle, i),
{
    reveal(find_from);
    if exists|i: int| start <= i && bytes_at(b, needle, i) {
        let w = choose|i: int| start <= i && bytes_at(b, needle, i);
        lemma_least_occurrence(b, start, needle, w);
    }
}

proof fn lemma_least_occurrence(b: Seq<u8>, start: int, needle: Seq<u8>, w: int)
    requires
        start <= w,
        bytes_at(b, needle, w),
    ensures
        exists|i: int|
            start <= i && bytes_at(b, needle, i) && forall|j: int|
                start <= j < i ==> !bytes_at(b, needle, j),
    decreases w - start,
{
    if exists|j: int| start <= j < w && bytes_at(b, needle, j) {
        let j = choose|j: int| start <= j < w && bytes_at(b, needle, j);
        lemma_least_occurrence(b, start, needle, j);
    } else {
        assert(start <= w && bytes_at(b, needle, w) && forall|j: int|
            start <= j < w ==> !bytes_at(b, needle, j));
    }
}

/// `tag_end_from` reports a position at or after where it starts.
pub proof fn lemma_tag_end(b: Seq<u8>, pos: int, quote: Option<u8>)
    ensures
        tag_end_from(b, pos, quote) matches Some(i) ==> pos <= i < b.len() && 0 <= i,
    decreases b.len() - pos,
{
    if 0 <= pos < b.len() {
        lemma_tag_end(b, pos + 1, None);
        lemma_tag_end(b, pos + 1, Some(b[pos]));
        lemma_tag_end(b, pos + 1, quote);
    }
}

/// `first_open` stays within the text and finds a `<`.
pub proof fn lemma_first_open(b: Seq<u8>, pos: int)
    ensures
        first_open(b, pos) matches Some(i) ==> pos <= i < b.len() && b[i] == 60,
    decreases b.len() - pos,
{
    if 0 <= pos < b.len() && b[pos] != 60 {
        lemma_first_open(b, pos + 1);
    }
}


// ---- the GraphML reader ----------------------------------------------------------------

/// Exact-key lookup in entries.
pub fn lookup_entry(entries: &Vec<(String, String)>, key: &str) -> (r: Option<String>)
    ensures
        match r {
            Some(v) => lookup(props_view(entries@), key@) == Some(v@),
            None => lookup(props_view(entries@), key@) is None,
        },
{
    let ghost pv = props_view(entries@);
    let kc = chars_of(key);
    let mut i = entries.len();
    assert(pv.take(i as int) =~= pv);
    while i > 0
        invariant
            i <= entries@.len(),
            pv == props_view(entries@),
            kc@ == key@,
            key_index(pv, key@) == key_index(pv.take(i as int), key@),
        decreases i,
    {
        assert(pv.take(i as int).drop_last() =~= pv.take(i - 1));
        assert(pv.take(i as int).last() == pv[i - 1]);
        if crate::text::eq_chars(&chars_of(entries[i - 1].0.as_str()), &kc) {
            return Some(copy_string(&entries[i - 1].1));
        }
        i = i - 1;
    }
    None
}

/// Removes exact key `key` from entries, returning its value.
pub fn remove_entry(entries: &mut Vec<(String, String)>, key: &str) -> (r: Option<String>)
    ensures
        (
            match r {
                Some(v) => Some(v@),
                None => None,
            },
            props_view(final(entries)@),
        ) == remove_key(props_view(old(entries)@), key@),
{
    let ghost pv = props_view(entries@);
    let kc = chars_of(key);
    let mut i = entries.len();
    assert(pv.take(i as int) =~= pv);
    while i > 0
        invariant
            i <= entries@.len(),
            pv == props_view(entries@),
            entries@ == old(entries)@,
            kc@ == key@,
            key_index(pv, key@) == key_index(pv.take(i as int), key@),
        decreases i,
    {
        assert(pv.take(i as int).drop_last() =~= pv.take(i - 1));
        assert(pv.take(i as int).last() == pv[i - 1]);
        if crate::text::eq_chars(&chars_of(entries[i - 1].0.as_str()), &kc) {
            let removed = entries.remove(i - 1);
            assert(props_view(entries@) =~= pv.remove(i - 1));
            return Some(removed.1);
        }
        i = i - 1;
    }
    None
}

/// The GraphML reader's state.
pub struct Reader {
    pub keys: Vec<(String, String)>,
    pub nodes: Vec<GraphNode>,
    pub edges: Vec<GraphEdge>,
    pub node: Option<GraphNode>,
    pub edge: Option<GraphEdge>,
    pub data_key: Option<String>,
    pub data_value: Vec<char>,
}

impl Reader {
    /// The reader's state as plain values.
    pub open spec fn view(&self) -> GraphState {
        GraphState {
            keys: props_view(self.keys@),
            nodes: self.nodes@.map_values(|n: GraphNode| node_view(n)),
            edges: self.edges@.map_values(|e: GraphEdge| edge_view(e)),
            node: match self.node {
                Some(n) => Some(node_view(n)),
                None => None,
            },
            edge: match self.edge {
                Some(e) => Some(edge_view(e)),
                None => None,
            },
            data_key: match self.data_key {
                Some(k) => Some(k@),
                None => None,
            },
            data_value: self.data_value@,
        }
    }

    /// Applies one parsed tag.
    pub fn apply(&mut self, tag: XmlTag) -> (r: Result<(), GraphmlError>)
        ensures
            match r {
                Ok(_) => apply_tag(
                    old(self).view(),
                    tag.name@,
                    tag.closing,
                    props_view(tag.attributes@),
                ) == Ok::<GraphState, (GraphmlErrorKind, Seq<char>)>(final(self).view()),
                Err(e) => apply_tag(
                    old(self).view(),
                    tag.name@,
                    tag.closing,
                    props_view(tag.attributes@),
                ) == Err::<GraphState, (GraphmlErrorKind, Seq<char>)>(err_view(e)),
            },
    {
        proof {
            reveal(apply_tag);
        }
        let name = chars_of(tag.name.as_str());
        let closing = tag.closing;
        let ghost st = self.view();
        let ghost attrs = props_view(tag.attributes@);
        if !closing && crate::text::eq_str(&name, "key") {
            if let Some(id) = lookup_entry(&tag.attributes, "id") {
                let pname = match lookup_entry(&tag.attributes, "attr.name") {
                    Some(n) => n,
                    None => copy_string(&id),
                };
                insert_entry(&mut self.keys, id, pname);
            }
            return Ok(());
        }
        if !closing && crate::text::eq_str(&name, "node") {
            let mut props = tag.attributes;
            let id = match remove_entry(&mut props, "id") {
                Some(v) => v,
                None => string_of(&Vec::new()),
            };
            self.node = Some(GraphNode { id, properties: props });
            return Ok(());
        }
        if !closing && crate::text::eq_str(&name, "edge") {
            let mut props = tag.attributes;
            let id = match remove_entry(&mut props, "id") {
                Some(v) => v,
                None => string_of(&Vec::new()),
            };
            let source = match remove_entry(&mut props, "source") {
                Some(v) => v,
                None => string_of(&Vec::new()),
            };
            let target = match remove_entry(&mut props, "target") {
                Some(v) => v,
                None => string_of(&Vec::new()),
            };
            self.edge = Some(GraphEdge { id, source, target, properties: props });
            return Ok(());
        }
        if !closing && crate::text::eq_str(&name, "data") {
            self.data_key = lookup_entry(&tag.attributes, "key");
            self.data_value = Vec::new();
            return Ok(());
        }
        if closing && crate::text::eq_str(&name, "data") {
            match self.data_key.take() {
                None => {
                    self.data_value = Vec::new();
                    return Ok(());
                },
                Some(key) => {
                    let pname = match lookup_entry(&self.keys, key.as_str()) {
                        Some(n) => n,
                        None => key,
                    };
                    let value = match unescape_xml(&trim_chars(&self.data_value)) {
                        Ok(v) => v,
                        Err(e) => return Err(e),
                    };
                    self.data_value = Vec::new();
                    if self.node.is_some() {
                        let mut n = self.node.take().unwrap();
                        insert_entry(&mut n.properties, pname, string_of(&value));
                        self.node = Some(n);
                    } else if self.edge.is_some() {
                        let mut e = self.edge.take().unwrap();
                        insert_entry(&mut e.properties, pname, string_of(&value));
                        self.edge = Some(e);
                    }
                    return Ok(());
                },
            }
        }
        if closing && crate::text::eq_str(&name, "node") {
            if let Some(n) = self.node.take() {
                if n.id.as_str().is_empty() == false {
                    let ghost before = self.nodes@;
                    self.nodes.push(n);
                    assert(self.nodes@.map_values(|n: GraphNode| node_view(n)) =~= before.map_values(
                        |n: GraphNode| node_view(n),
                    ).push(node_view(n)));
                }
            }
            return Ok(());
        }
        if closing && crate::text::eq_str(&name, "edge") {
            if let Some(e) = self.edge.take() {
                if !e.source.as_str().is_empty() && !e.target.as_str().is_empty() {
                    let ghost before = self.edges@;
                    self.edges.push(e);
                    assert(self.edges@.map_values(|e: GraphEdge| edge_view(e)) =~= before.map_values(
                        |e: GraphEdge| edge_view(e),
                    ).push(edge_view(e)));
                }
            }
            return Ok(());
        }
        Ok(())
    }
}


/// `find_from` names the least occurrence.
pub proof fn lemma_find_from_is(b: Seq<u8>, start: int, needle: Seq<u8>, i: int)
    requires
        start <= i,
        bytes_at(b, needle, i),
        forall|j: int| start <= j < i ==> !bytes_at(b, needle, j),
    ensures
        find_from(b, start, needle) == Some(i),
{
    reveal(find_from);
    let k = choose|k: int|
        start <= k && bytes_at(b, needle, k) && forall|j: int| start <= j < k ==> !bytes_at(b, needle, j);
    assert(start <= i && bytes_at(b, needle, i) && forall|j: int|
        start <= j < i ==> !bytes_at(b, needle, j));
    if k < i {
    } else if k > i {
    }
}

/// `find_from` is `None` when nothing occurs at or after `start`.
pub proof fn lemma_find_from_none(b: Seq<u8>, start: int, needle: Seq<u8>)
    requires
        forall|j: int| start <= j ==> !bytes_at(b, needle, j),
    ensures
        find_from(b, start, needle) is None,
{
    reveal(find_from);
}

fn byte_range(b: &[u8], from: usize, to: usize) -> (r: Vec<u8>)
    requires
        from <= to <= b@.len(),
    ensures
        r@ == b@.subrange(from as int, to as int),
{
    let mut v: Vec<u8> = Vec::new();
    for i in from..to
        invariant
            to <= b@.len(),
            v@ == b@.subrange(from as int, i as int),
    {
        v.push(b[i]);
        assert(v@ =~= b@.subrange(from as int, i + 1));
    }
    v
}

fn bytes_match_at(b: &[u8], at: usize, lit: &[u8]) -> (r: bool)
    ensures
        r == bytes_at(b@, lit@, at as int),
{
    let blen = b.len();
    if lit.len() > blen || at > blen - lit.len() {
        return false;
    }
    for k in 0..lit.len()
        invariant
            blen == b@.len(),
            at + lit@.len() <= b@.len(),
            forall|m: int| 0 <= m < k ==> b@[at + m] == lit@[m],
    {
        if b[at + k] != lit[k] {
            assert(b@.subrange(at as int, at + lit@.len())[k as int] != lit@[k as int]);
            return false;
        }
    }
    assert(b@.subrange(at as int, at + lit@.len()) =~= lit@);
    true
}

fn find_needle(b: &[u8], start: usize, lit: &[u8]) -> (r: Option<usize>)
    requires
        lit@.len() > 0,
    ensures
        match r {
            Some(i) => find_from(b@, start as int, lit@) == Some(i as int) && i + lit@.len() <= b@.len()
                && start <= i,
            None => find_from(b@, start as int, lit@) is None,
        },
{
    let r = find_bytes(b, start, lit);
    proof {
        match r {
            Some(i) => lemma_find_from_is(b@, start as int, lit@, i as int),
            None => lemma_find_from_none(b@, start as int, lit@),
        }
    }
    r
}

fn append_text(reader: &mut Reader, text: &[u8]) -> (r: Result<(), GraphmlError>)
    ensures
        match r {
            Ok(_) => vstd::utf8::valid_utf8(text@) && final(reader).view() == with_text(
                old(reader).view(),
                text@,
            ),
            Err(e) => !vstd::utf8::valid_utf8(text@) && err_view(e) == (
                GraphmlErrorKind::NotUtf8,
                Seq::<char>::empty(),
            ),
        },
{
    proof {
        reveal(with_text);
    }
    match crate::text::utf8_text(text) {
        None => Err(graphml_error(GraphmlErrorKind::NotUtf8, &Vec::new())),
        Some(t) => {
            let chars = chars_of(t.as_str());
            crate::text::push_all(&mut reader.data_value, &chars);
            Ok(())
        },
    }
}

/// One reader step at the `<` at `open`.
fn step(reader: &mut Reader, b: &[u8], pos: usize, open: usize) -> (r: Result<usize, GraphmlError>)
    requires
        pos <= open < b@.len(),
    ensures
        match r {
            Ok(n) => step_at(b@, pos as int, open as int, old(reader).view()) == Ok::<
                (int, GraphState),
                (GraphmlErrorKind, Seq<char>),
            >((n as int, final(reader).view())),
            Err(e) => step_at(b@, pos as int, open as int, old(reader).view()) == Err::<
                (int, GraphState),
                (GraphmlErrorKind, Seq<char>),
            >(err_view(e)),
        },
{
    proof {
        reveal(step_at);
    }
    let blen = b.len();
    let ghost st0 = reader.view();
    if reader.data_key.is_some() && open > pos {
        let text = byte_range(b, pos, open);
        match append_text(reader, &text) {
            Ok(_) => {},
            Err(e) => return Err(e),
        }
    }
    let ghost st1 = reader.view();
    let comment: [u8; 4] = [60, 33, 45, 45];
    let instruction: [u8; 2] = [60, 63];
    let cdata: [u8; 9] = [60, 33, 91, 67, 68, 65, 84, 65, 91];
    let declaration: [u8; 2] = [60, 33];
    let comment_end: [u8; 3] = [45, 45, 62];
    let instruction_end: [u8; 2] = [63, 62];
    let cdata_end: [u8; 3] = [93, 93, 62];
    assert(comment@ =~= seq![60u8, 33u8, 45u8, 45u8]);
    assert(instruction@ =~= seq![60u8, 63u8]);
    assert(cdata@ =~= cdata_open());
    assert(declaration@ =~= seq![60u8, 33u8]);
    assert(comment_end@ =~= seq![45u8, 45u8, 62u8]);
    assert(instruction_end@ =~= seq![63u8, 62u8]);
    assert(cdata_end@ =~= seq![93u8, 93u8, 62u8]);
    if bytes_match_at(b, open, &comment) {
        return match find_needle(b, open + 4, &comment_end) {
            None => Err(graphml_error(GraphmlErrorKind::UnterminatedComment, &Vec::new())),
            Some(end) => Ok(end + 3),
        };
    }
    if bytes_match_at(b, open, &instruction) {
        return match find_needle(b, open + 2, &instruction_end) {
            None => Err(graphml_error(GraphmlErrorKind::UnterminatedInstruction, &Vec::new())),
            Some(end) => Ok(end + 2),
        };
    }
    if bytes_match_at(b, open, &cdata) {
        let start = open + 9;
        return match find_needle(b, start, &cdata_end) {
            None => Err(graphml_error(GraphmlErrorKind::UnterminatedCdata, &Vec::new())),
            Some(end) => {
                if reader.data_key.is_some() {
                    let inner = byte_range(b, start, end);
                    match append_text(reader, &inner) {
                        Ok(_) => Ok(end + 3),
                        Err(e) => Err(e),
                    }
                } else {
                    Ok(end + 3)
                }
            },
        };
    }
    if bytes_match_at(b, open, &declaration) {
        return match find_tag_end(b, open + 2) {
            None => Err(graphml_error(GraphmlErrorKind::UnterminatedDeclaration, &Vec::new())),
            Some(end) => {
                proof {
                    lemma_tag_end(b@, open + 2, None);
                }
                Ok(end + 1)
            },
        };
    }
    match find_tag_end(b, open + 1) {
        None => Err(graphml_error(GraphmlErrorKind::UnterminatedTag, &Vec::new())),
        Some(close) => {
            proof {
                lemma_tag_end(b@, open + 1, None);
                reveal(tag_state);
            }
            let raw = byte_range(b, open + 1, close);
            let text = match crate::text::utf8_text(&raw) {
                None => return Err(graphml_error(GraphmlErrorKind::NotUtf8, &Vec::new())),
                Some(t) => t,
            };
            let chars = chars_of(text.as_str());
            let tag = match parse_xml_tag(&chars) {
                Ok(t) => t,
                Err(e) => return Err(e),
            };
            match reader.apply(tag) {
                Ok(_) => Ok(close + 1),
                Err(e) => Err(e),
            }
        },
    }
}

/// The reader's starting state.
pub open spec fn initial_graph_state() -> GraphState {
    GraphState {
        keys: Seq::empty(),
        nodes: Seq::empty(),
        edges: Seq::empty(),
        node: None,
        edge: None,
        data_key: None,
        data_value: Seq::empty(),
    }
}

/// Reads the nodes (with a non-empty id) and edges (with a source and a
/// target) of GraphML bytes, with `data` values stored as properties
/// named by their `key` declarations.
pub fn parse_graphml(bytes: &[u8]) -> (r: Result<(Vec<GraphNode>, Vec<GraphEdge>), GraphmlError>)
    ensures
        match r {
            Ok((n, e)) => graph_from(bytes@, 0, initial_graph_state()) == Ok::<
                (
                    Seq<(Seq<char>, Seq<(Seq<char>, Seq<char>)>)>,
                    Seq<(Seq<char>, Seq<char>, Seq<char>, Seq<(Seq<char>, Seq<char>)>)>,
                ),
                (GraphmlErrorKind, Seq<char>),
            >((n@.map_values(|x: GraphNode| node_view(x)), e@.map_values(|x: GraphEdge| edge_view(x)))),
            Err(x) => graph_from(bytes@, 0, initial_graph_state()) == Err::<
                (
                    Seq<(Seq<char>, Seq<(Seq<char>, Seq<char>)>)>,
                    Seq<(Seq<char>, Seq<char>, Seq<char>, Seq<(Seq<char>, Seq<char>)>)>,
                ),
                (GraphmlErrorKind, Seq<char>),
            >(err_view(x)),
        },
{
    let mut reader = Reader {
        keys: Vec::new(),
        nodes: Vec::new(),
        edges: Vec::new(),
        node: None,
        edge: None,
        data_key: None,
        data_value: Vec::new(),
    };
    assert(reader.view().keys =~= initial_graph_state().keys);
    assert(reader.view().nodes =~= initial_graph_state().nodes);
    assert(reader.view().edges =~= initial_graph_state().edges);
    assert(reader.view().data_value =~= initial_graph_state().data_value);
    assert(reader.view() == initial_graph_state());
    let mut position: usize = 0;
    loop
        invariant
            graph_from(bytes@, 0, initial_graph_state()) == graph_from(
                bytes@,
                position as int,
                reader.view(),
            ),
        decreases bytes@.len() - position,
    {
        if position >= bytes.len() {
            return Ok((reader.nodes, reader.edges));
        }
        let mut open = position;
        while open < bytes.len() && bytes[open] != 60
            invariant
                position <= open <= bytes@.len(),
                first_open(bytes@, position as int) == first_open(bytes@, open as int),
            decreases bytes@.len() - open,
        {
            open = open + 1;
        }
        if open == bytes.len() {
            return Ok((reader.nodes, reader.edges));
        }
        proof {
            lemma_step_advances(bytes@, position as int, open as int, reader.view());
        }
        match step(&mut reader, bytes, position, open) {
            Ok(next) => {
                position = next;
            },
            Err(e) => return Err(e),
        }
    }
}

} // verus!
