//! Index-time identities and text units: digest-derived entity, document
//! and relation ids, byte-offset lines, UTF-8 and newline aware chunking,
//! qualified names, and test/knowledge grouping of paths.

use vstd::prelude::*;
use vstd::utf8::{encode_utf8, is_char_boundary};
use crate::digest::{blake3_hex, blake3_hex_of, push_utf8};
use crate::parser::ParsedFile;
use crate::repository::newline_count;
use crate::text::{
    chars_of, contains_seq, decimal, is_prefix, is_suffix, join, lower, lower_all, push_all,
    push_decimal, push_str, split, split_on, string_of, Separator,
};

verus! {

// ---- digest ids ------------------------------------------------------------------

/// The bytes a digest id covers: each component followed by a NUL.
pub open spec fn digest_input(components: Seq<Seq<char>>) -> Seq<u8>
    decreases components.len(),
{
    if components.len() == 0 {
        Seq::empty()
    } else {
        digest_input(components.drop_last()) + encode_utf8(components.last()) + seq![0u8]
    }
}

/// `prefix_` and the first 32 hex digits of the digest of the components.
pub open spec fn digest_id_of(prefix: Seq<char>, components: Seq<Seq<char>>) -> Seq<char> {
    prefix + "_"@ + blake3_hex_of(digest_input(components)).take(32)
}

/// A stable id: `prefix_` and 32 hex digits of the BLAKE3 digest of the
/// NUL-terminated components.
pub fn digest_id(prefix: &str, components: &Vec<String>) -> (r: String)
    ensures
        r@ == digest_id_of(prefix@, components@.map_values(|s: String| s@)),
{
    let ghost views = components@.map_values(|s: String| s@);
    let mut buf: Vec<u8> = Vec::new();
    for i in 0..components.len()
        invariant
            views == components@.map_values(|s: String| s@),
            buf@ == digest_input(views.take(i as int)),
    {
        assert(views.take(i + 1).drop_last() =~= views.take(i as int));
        push_utf8(&mut buf, components[i].as_str());
        buf.push(0);
    }
    assert(views.take(components.len() as int) =~= views);
    let hex = chars_of(blake3_hex(&buf).as_str());
    let mut v: Vec<char> = Vec::new();
    push_str(&mut v, prefix);
    push_str(&mut v, "_");
    push_all(&mut v, &crate::text::slice_vec(&hex, 0, 32));
    string_of(&v)
}

pub fn decimal_string(n: usize) -> (r: String)
    ensures
        r@ == decimal(n as nat),
{
    let mut v: Vec<char> = Vec::new();
    push_decimal(&mut v, n as u64);
    assert(v@ =~= decimal(n as nat));
    string_of(&v)
}

/// The id of an entity at a byte range of a file.
pub fn entity_id(
    repository_id: &str,
    path: &str,
    start: usize,
    end: usize,
    discriminator: &str,
) -> (r: String)
    ensures
        r@ == digest_id_of(
            "entity"@,
            seq![repository_id@, path@, decimal(start as nat), decimal(end as nat), discriminator@],
        ),
{
    let components = vec![
        crate::text::owned(repository_id),
        crate::text::owned(path),
        decimal_string(start),
        decimal_string(end),
        crate::text::owned(discriminator),
    ];
    assert(components@.map_values(|s: String| s@) =~= seq![
        repository_id@,
        path@,
        decimal(start as nat),
        decimal(end as nat),
        discriminator@,
    ]);
    digest_id("entity", &components)
}

/// The id of one retrieval representation of an entity's range.
pub fn document_id(entity_id: &str, representation: &str, start: usize, end: usize) -> (r: String)
    ensures
        r@ == digest_id_of(
            "doc"@,
            seq![entity_id@, representation@, decimal(start as nat), decimal(end as nat)],
        ),
{
    let components = vec![
        crate::text::owned(entity_id),
        crate::text::owned(representation),
        decimal_string(start),
        decimal_string(end),
    ];
    assert(components@.map_values(|s: String| s@) =~= seq![
        entity_id@,
        representation@,
        decimal(start as nat),
        decimal(end as nat),
    ]);
    digest_id("doc", &components)
}

/// The id of a relation: a pure function of source, target and kind.
pub fn relation_id(source: &str, target: &str, kind: &str) -> (r: String)
    ensures
        r@ == digest_id_of("rel"@, seq![source@, target@, kind@]),
{
    let components = vec![
        crate::text::owned(source),
        crate::text::owned(target),
        crate::text::owned(kind),
    ];
    assert(components@.map_values(|s: String| s@) =~= seq![source@, target@, kind@]);
    digest_id("rel", &components)
}

/// Relation ids depend on source, target and kind alone: two relations
/// that agree on those three share an id.
pub proof fn law_relation_id_is_a_function(
    s1: Seq<char>,
    t1: Seq<char>,
    k1: Seq<char>,
    s2: Seq<char>,
    t2: Seq<char>,
    k2: Seq<char>,
)
    requires
        s1 == s2,
        t1 == t2,
        k1 == k2,
    ensures
        digest_id_of("rel"@, seq![s1, t1, k1]) == digest_id_of("rel"@, seq![s2, t2, k2]),
{
}

// ---- lines and chunks --------------------------------------------------------------

/// The 1-based line of byte `offset` of `text`.
pub fn line_for_offset(text: &str, offset: usize) -> (r: u32)
    requires
        newline_count(encode_utf8(text@)) < u32::MAX,
    ensures
        r == crate::pattern::line_at(encode_utf8(text@), offset as nat),
{
    crate::pattern::line_in_bytes(text.as_bytes(), offset)
}

/// Walks back from `e` to the nearest char boundary, not below `cursor`.
pub open spec fn back_to_boundary(b: Seq<u8>, cursor: int, e: int) -> int
    decreases e - cursor,
{
    if e > cursor && !is_char_boundary(b, e) {
        back_to_boundary(b, cursor, e - 1)
    } else {
        e
    }
}

/// Offset of the last `\n` of `b[from..to]`, relative to `from`.
pub open spec fn last_newline(b: Seq<u8>, from: int, to: int) -> Option<int>
    decreases to - from,
{
    if to <= from {
        None
    } else if b[to - 1] == 10 {
        Some(to - 1 - from)
    } else {
        last_newline(b, from, to - 1)
    }
}

/// Where the chunk starting at `cursor` ends: `maximum` bytes on, capped
/// at `end`, walked back to a char boundary; when it stops short of `end`
/// and a newline lies past the middle of the chunk, just after the last
/// such newline.
pub open spec fn chunk_end_at(b: Seq<u8>, cursor: int, end: int, maximum: int) -> int {
    let ce = back_to_boundary(
        b,
        cursor,
        if cursor + maximum < end {
            cursor + maximum
        } else {
            end
        },
    );
    if ce < end && is_char_boundary(b, cursor) && is_char_boundary(b, ce) {
        match last_newline(b, cursor, ce) {
            Some(nl) => if nl > maximum / 2 {
                cursor + nl + 1
            } else {
                ce
            },
            None => ce,
        }
    } else {
        ce
    }
}

/// The chunks from `cursor` to `end`; chunking stops at a chunk that
/// would be empty.
pub open spec fn chunks_from(b: Seq<u8>, cursor: int, end: int, maximum: int) -> Seq<(int, int)>
    decreases end - cursor,
{
    if cursor >= end || maximum <= 0 {
        Seq::empty()
    } else {
        let ce = chunk_end_at(b, cursor, end, maximum);
        proof {
            lemma_chunk_end_bounds(b, cursor, end, maximum);
        }
        if ce <= cursor {
            Seq::empty()
        } else {
            seq![(cursor, ce)] + chunks_from(b, ce, end, maximum)
        }
    }
}

/// The chunks of `start..end`: the whole range when it fits in `maximum`
/// bytes (or `maximum` is zero), else `chunks_from`.
pub open spec fn chunks_of(b: Seq<u8>, start: int, end: int, maximum: int) -> Seq<(int, int)> {
    if end - start <= maximum || maximum == 0 {
        seq![(start, end)]
    } else {
        chunks_from(b, start, end, maximum)
    }
}

pub proof fn lemma_back_bounds(b: Seq<u8>, cursor: int, e: int)
    requires
        cursor <= e,
    ensures
        cursor <= back_to_boundary(b, cursor, e) <= e,
    decreases e - cursor,
{
    if e > cursor && !is_char_boundary(b, e) {
        lemma_back_bounds(b, cursor, e - 1);
    }
}

pub proof fn lemma_last_newline_bounds(b: Seq<u8>, from: int, to: int)
    ensures
        last_newline(b, from, to) matches Some(nl) ==> 0 <= nl < to - from && b[from + nl] == 10,
    decreases to - from,
{
    if to > from && b[to - 1] != 10 {
        lemma_last_newline_bounds(b, from, to - 1);
    }
}

pub proof fn lemma_chunk_end_bounds(b: Seq<u8>, cursor: int, end: int, maximum: int)
    requires
        cursor < end,
        maximum > 0,
    ensures
        cursor <= chunk_end_at(b, cursor, end, maximum) <= end,
        chunk_end_at(b, cursor, end, maximum) <= cursor + maximum,
{
    let cap = if cursor + maximum < end {
        cursor + maximum
    } else {
        end
    };
    lemma_back_bounds(b, cursor, cap);
    let ce = back_to_boundary(b, cursor, cap);
    lemma_last_newline_bounds(b, cursor, ce);
}

/// Walking back stops on a char boundary unless it reached `cursor`.
pub proof fn lemma_back_to_boundary_lands(b: Seq<u8>, cursor: int, e: int)
    requires
        cursor <= e,
    ensures
        back_to_boundary(b, cursor, e) > cursor ==> is_char_boundary(b, back_to_boundary(b, cursor, e)),
    decreases e - cursor,
{
    if e > cursor && !is_char_boundary(b, e) {
        lemma_back_to_boundary_lands(b, cursor, e - 1);
    }
}

/// A chunk end past `cursor` lies on a char boundary or just after a
/// newline.
pub proof fn lemma_chunk_end_lands(b: Seq<u8>, cursor: int, end: int, maximum: int)
    requires
        cursor < end,
        maximum > 0,
    ensures
        ({
            let ce = chunk_end_at(b, cursor, end, maximum);
            ce > cursor ==> is_char_boundary(b, ce) || b[ce - 1] == 10
        }),
{
    let cap = if cursor + maximum < end {
        cursor + maximum
    } else {
        end
    };
    lemma_back_bounds(b, cursor, cap);
    lemma_back_to_boundary_lands(b, cursor, cap);
    let ce = back_to_boundary(b, cursor, cap);
    lemma_last_newline_bounds(b, cursor, ce);
}

/// The chunks from `cursor` walk the range in order: each starts where
/// the previous one ended, is non-empty and at most `maximum` bytes long,
/// ends by `end`, and ends on a char boundary or just after a newline.
pub open spec fn chunks_walk(cs: Seq<(int, int)>, first: int, end: int, maximum: int, b: Seq<u8>) -> bool {
    &&& cs.len() > 0 ==> cs[0].0 == first
    &&& forall|i: int| 0 <= i < cs.len() - 1 ==> #[trigger] cs[i].1 == cs[i + 1].0
    &&& forall|i: int|
        0 <= i < cs.len() ==> {
            let (c, e) = #[trigger] cs[i];
            &&& c < e <= c + maximum
            &&& e <= end
            &&& (is_char_boundary(b, e) || b[e - 1] == 10)
        }
}

proof fn lemma_chunks_from_walk(b: Seq<u8>, cursor: int, end: int, maximum: int)
    requires
        maximum > 0,
    ensures
        chunks_walk(chunks_from(b, cursor, end, maximum), cursor, end, maximum, b),
    decreases end - cursor,
{
    if cursor < end {
        lemma_chunk_end_bounds(b, cursor, end, maximum);
        lemma_chunk_end_lands(b, cursor, end, maximum);
        let ce = chunk_end_at(b, cursor, end, maximum);
        if ce > cursor {
            lemma_chunks_from_walk(b, ce, end, maximum);
            let rest = chunks_from(b, ce, end, maximum);
            let cs = seq![(cursor, ce)] + rest;
            assert(chunks_from(b, cursor, end, maximum) == cs);
            assert forall|i: int| 0 <= i < cs.len() - 1 implies #[trigger] cs[i].1 == cs[i + 1].0 by {
                if i > 0 {
                    assert(cs[i] == rest[i - 1] && cs[i + 1] == rest[i]);
                }
            }
            assert forall|i: int| 0 <= i < cs.len() implies {
                let (c, e) = #[trigger] cs[i];
                &&& c < e <= c + maximum
                &&& e <= end
                &&& (is_char_boundary(b, e) || b[e - 1] == 10)
            } by {
                if i > 0 {
                    assert(cs[i] == rest[i - 1]);
                }
            }
        }
    }
}

/// Chunking a range longer than `maximum` walks it in order: the first
/// chunk starts at `start`, each next one where the previous ended, each
/// is non-empty, at most `maximum` bytes, ends by `end`, and ends on a
/// char boundary or just after a newline.
pub proof fn law_chunks_walk_the_range(b: Seq<u8>, start: int, end: int, maximum: int)
    requires
        maximum > 0,
        end - start > maximum,
    ensures
        chunks_walk(chunks_of(b, start, end, maximum), start, end, maximum, b),
{
    lemma_chunks_from_walk(b, start, end, maximum);
}

/// Splits `text[start..end]` into chunks of at most `maximum` bytes that
/// end on char boundaries and, where a newline allows, on line ends.
pub fn chunk_ranges(text: &str, start: usize, end: usize, maximum: usize) -> (r: Vec<(usize, usize)>)
    ensures
        r@.map_values(|p: (usize, usize)| (p.0 as int, p.1 as int)) == chunks_of(
            encode_utf8(text@),
            start as int,
            end as int,
            maximum as int,
        ),
{
    let ghost b = encode_utf8(text@);
    if end.saturating_sub(start) <= maximum || maximum == 0 {
        let r = vec![(start, end)];
        assert(r@.map_values(|p: (usize, usize)| (p.0 as int, p.1 as int)) =~= seq![
            (start as int, end as int),
        ]);
        return r;
    }
    let bytes = text.as_bytes();
    proof {
        vstd::utf8::encode_utf8_valid_utf8(text@);
    }
    let mut ranges: Vec<(usize, usize)> = Vec::new();
    let mut cursor = start;
    let mut stop = false;
    while cursor < end && !stop
        invariant
            b == encode_utf8(text@),
            vstd::utf8::valid_utf8(b),
            bytes@ == b,
            maximum > 0,
            start <= cursor,
            stop ==> chunks_from(b, cursor as int, end as int, maximum as int) == Seq::<
                (int, int),
            >::empty(),
            ranges@.map_values(|p: (usize, usize)| (p.0 as int, p.1 as int)) + chunks_from(
                b,
                cursor as int,
                end as int,
                maximum as int,
            ) == chunks_from(b, start as int, end as int, maximum as int),
        decreases end - cursor + if stop { 0int } else { 1int },
    {
        proof {
            lemma_chunk_end_bounds(b, cursor as int, end as int, maximum as int);
        }
        let cap = if cursor.saturating_add(maximum) < end {
            cursor + maximum
        } else {
            end
        };
        let mut chunk_end = cap;
        while chunk_end > cursor && !text.is_char_boundary(chunk_end)
            invariant
                cursor <= chunk_end <= cap,
                back_to_boundary(b, cursor as int, cap as int) == back_to_boundary(
                    b,
                    cursor as int,
                    chunk_end as int,
                ),
                b == encode_utf8(text@),
            decreases chunk_end,
        {
            chunk_end = chunk_end - 1;
        }
        let ghost ce = chunk_end as int;
        assert(back_to_boundary(b, cursor as int, cap as int) == ce);
        if chunk_end < end && text.is_char_boundary(cursor) && text.is_char_boundary(chunk_end) {
            assert(chunk_end == 0 || chunk_end <= b.len());
            let mut k = chunk_end;
            while k > cursor && bytes[k - 1] != 10
                invariant
                    cursor <= k <= chunk_end,
                    chunk_end as int == ce,
                    bytes@ == b,
                    chunk_end <= bytes@.len(),
                    last_newline(b, cursor as int, ce) == last_newline(b, cursor as int, k as int),
                decreases k,
            {
                k = k - 1;
            }
            if k > cursor {
                let newline = k - 1 - cursor;
                assert(last_newline(b, cursor as int, ce) == Some(newline as int));
                if newline > maximum / 2 {
                    chunk_end = cursor + newline + 1;
                }
            } else {
                assert(last_newline(b, cursor as int, ce) is None);
            }
        }
        assert(chunk_end as int == chunk_end_at(b, cursor as int, end as int, maximum as int));
        if chunk_end == cursor {
            stop = true;
        } else {
            let ghost before = ranges@;
            ranges.push((cursor, chunk_end));
            assert(ranges@.map_values(|p: (usize, usize)| (p.0 as int, p.1 as int))
                =~= before.map_values(|p: (usize, usize)| (p.0 as int, p.1 as int)).push(
                (cursor as int, chunk_end as int),
            ));
            cursor = chunk_end;
        }
    }
    assert(chunks_from(b, cursor as int, end as int, maximum as int) =~= Seq::<(int, int)>::empty());
    assert(ranges@.map_values(|p: (usize, usize)| (p.0 as int, p.1 as int)) =~= chunks_from(
        b,
        start as int,
        end as int,
        maximum as int,
    ));
    ranges
}

// ---- names and grouping -----------------------------------------------------------

/// Unit `i`'s chain of names from the outermost ancestor to itself.
pub open spec fn name_chain(units: Seq<crate::parser::ParsedUnit>, i: int) -> Seq<Seq<char>>
    decreases i + 1,
{
    if i < 0 || i >= units.len() {
        Seq::empty()
    } else {
        match units[i].parent_unit {
            Some(p) => if p < i {
                name_chain(units, p as int).push(units[i].name@)
            } else {
                seq![units[i].name@]
            },
            None => seq![units[i].name@],
        }
    }
}

/// `path::outer::...::name` for unit `index`, or the path alone when there
/// is no such unit.
pub open spec fn qualified_name_of(path: Seq<char>, units: Seq<crate::parser::ParsedUnit>, index: int) -> Seq<
    char,
> {
    if index < 0 || index >= units.len() {
        path
    } else {
        path + "::"@ + join(name_chain(units, index), "::"@)
    }
}

/// The qualified name of unit `index` of a parsed file whose parents all
/// precede their children.
pub fn qualified_name(path: &str, parsed: &ParsedFile, index: usize) -> (r: String)
    requires
        crate::parser::parents_enclose(parsed.units@),
    ensures
        r@ == qualified_name_of(path@, parsed.units@, index as int),
{
    let units = &parsed.units;
    if index >= units.len() {
        return crate::text::owned(path);
    }
    let mut names: Vec<Vec<char>> = Vec::new();
    let mut cur: Option<usize> = Some(index);
    let ghost mut chain: Seq<Seq<char>> = Seq::empty();
    while cur.is_some()
        invariant
            crate::parser::parents_enclose(units@),
            index < units@.len(),
            match cur {
                Some(c) => c < units@.len() && name_chain(units@, index as int) == name_chain(
                    units@,
                    c as int,
                ) + chain,
                None => name_chain(units@, index as int) == chain,
            },
            names@.map_values(|v: Vec<char>| v@) == chain,
        decreases match cur {
            Some(c) => c + 1,
            None => 0,
        },
    {
        let c = cur.unwrap();
        assert(crate::parser::parent_ok(units@, c as int));
        let name = chars_of(units[c].name.as_str());
        let ghost before = names@;
        names.insert(0, name);
        proof {
            assert(names@.map_values(|v: Vec<char>| v@) =~= seq![units@[c as int].name@] + chain);
        }
        match units[c].parent_unit {
            Some(p) => {
                proof {
                    assert(name_chain(units@, c as int) == name_chain(units@, p as int).push(
                        units@[c as int].name@,
                    ));
                    assert(name_chain(units@, p as int).push(units@[c as int].name@) + chain
                        =~= name_chain(units@, p as int) + (seq![units@[c as int].name@] + chain));
                    chain = seq![units@[c as int].name@] + chain;
                }
                cur = Some(p);
            },
            None => {
                proof {
                    assert(name_chain(units@, c as int) + chain =~= seq![units@[c as int].name@]
                        + chain);
                    chain = seq![units@[c as int].name@] + chain;
                }
                cur = None;
            },
        }
    }
    let joined = crate::text::join_chars(&names, "::");
    let mut v: Vec<char> = Vec::new();
    push_str(&mut v, path);
    push_str(&mut v, "::");
    push_all(&mut v, &joined);
    string_of(&v)
}

/// A test path or test-named symbol (ASCII case-insensitive).
pub open spec fn test_like(path: Seq<char>, name: Seq<char>) -> bool {
    let p = lower(path);
    let n = lower(name);
    ||| contains_seq(p, "test"@)
    ||| contains_seq(p, "spec"@)
    ||| is_prefix("test_"@, n)
    ||| is_suffix("_test"@, n)
    ||| n == "test"@
    ||| n == "tests"@
    ||| n == "testing"@
}

/// Whether a path or symbol name marks test code.
pub fn is_test(path: &str, name: &str) -> (r: bool)
    ensures
        r == test_like(path@, name@),
{
    let p = lower_all(&chars_of(path));
    let n = lower_all(&chars_of(name));
    crate::text::contains_str(&p, "test") || crate::text::contains_str(&p, "spec")
        || crate::text::starts_with_str(&n, "test_") || crate::text::ends_with_str(&n, "_test")
        || crate::text::eq_str(&n, "test") || crate::text::eq_str(&n, "tests")
        || crate::text::eq_str(&n, "testing")
}

/// The knowledge group of a path: `crates/x` or `apps/x` for those two
/// workspace roots, else the first component of a nested path, else
/// `(root)`.
pub open spec fn knowledge_group_of(path: Seq<char>) -> Seq<char> {
    let parts = split_on(path, Separator::Char('/'));
    if parts.len() >= 2 {
        if parts[0] == "crates"@ || parts[0] == "apps"@ {
            parts[0] + "/"@ + parts[1]
        } else {
            parts[0]
        }
    } else {
        "(root)"@
    }
}

/// The knowledge group of a repository-relative path.
pub fn knowledge_group(path: &str) -> (r: String)
    ensures
        r@ == knowledge_group_of(path@),
{
    let parts = split(&chars_of(path), Separator::Char('/'));
    if parts.len() >= 2 {
        if crate::text::eq_str(&parts[0], "crates") || crate::text::eq_str(&parts[0], "apps") {
            let mut v: Vec<char> = Vec::new();
            push_all(&mut v, &parts[0]);
            push_str(&mut v, "/");
            push_all(&mut v, &parts[1]);
            string_of(&v)
        } else {
            string_of(&parts[0])
        }
    } else {
        crate::text::owned("(root)")
    }
}

} // verus!
