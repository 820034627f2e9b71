//! Syntax-level symbol edges: `Calls` from a caller to the symbol a call
//! spells, and `References` from a unit to the type-level symbols named in
//! its type positions. Resolution goes by spelling alone, so every edge
//! records how many same-name candidates its target was picked among (a
//! pick among several is a guess, and the edge's confidence is demoted).

use vstd::prelude::*;
use vstd::utf8::encode_utf8;

use crate::context::SourceAddress;
use crate::indexing::{digest_id_of, line_for_offset, relation_id};
use crate::landmarks::{entry_for, find_entry, find_in_tier, first_in_tier, callable, SymbolCandidate};
use crate::parser::{EntityKind, ParsedCall, ParsedFile, ParsedUnit};
use crate::pattern::line_at;
use crate::repository::{newline_count, ScannedFile};
use crate::testlinks::{find_key, first_links, key_at, pair_seen};
use crate::text::{chars_of, copy_string, push_str, string_of};

verus! {

/// A `Calls` or `References` edge between symbols.
#[derive(Debug)]
pub struct SymbolEdge {
    pub id: String,
    pub source_entity_id: String,
    pub target_entity_id: String,
    /// The spelling the target was resolved from.
    pub name: String,
    /// How many viable same-name candidates the target was picked among.
    pub candidate_count: usize,
    pub extractor: String,
    pub evidence: SourceAddress,
}

/// The parser label of an extractor id (`unknown` when none parsed it).
pub open spec fn parser_label(parser: Option<String>) -> Seq<char> {
    match parser {
        Some(p) => p@,
        None => "unknown"@,
    }
}

// ---- resolution --------------------------------------------------------------------

/// The candidate a call spelled in `path` resolves to: the first in the same
/// file, else the first function or method, else the first.
pub open spec fn callee_choice(cs: Seq<SymbolCandidate>, path: Seq<char>) -> Option<int> {
    if first_in_tier(cs, 0, 2, path) is Some {
        first_in_tier(cs, 0, 2, path)
    } else if first_in_tier(cs, 0, 1, path) is Some {
        first_in_tier(cs, 0, 1, path)
    } else {
        first_in_tier(cs, 0, 3, path)
    }
}

/// The symbol a call of `name` in `path` resolves to, with the number of
/// same-name candidates.
pub open spec fn resolved_callee(
    index: Seq<(String, Vec<SymbolCandidate>)>,
    name: Seq<char>,
    path: Seq<char>,
) -> Option<(SymbolCandidate, nat)> {
    match entry_for(index, name, 0) {
        Some(k) => match callee_choice(index[k].1@, path) {
            Some(i) => Some((index[k].1@[i], index[k].1@.len())),
            None => None,
        },
        None => None,
    }
}

/// Kinds a type position can name.
pub open spec fn type_kind(k: EntityKind) -> bool {
    k == EntityKind::Struct || k == EntityKind::Class || k == EntityKind::Interface || k
        == EntityKind::Trait || k == EntityKind::Enum || k == EntityKind::Schema
}

/// The first type-level candidate at or after `i`, preferring none.
pub open spec fn first_type(cs: Seq<SymbolCandidate>, i: int, path: Option<Seq<char>>) -> Option<int>
    decreases cs.len() - i,
{
    if i < 0 || i >= cs.len() {
        None
    } else if type_kind(cs[i].kind) && (path matches Some(p) ==> cs[i].path@ == p) {
        Some(i)
    } else {
        first_type(cs, i + 1, path)
    }
}

/// Type-level candidates among the first `n`.
pub open spec fn type_count(cs: Seq<SymbolCandidate>, n: int) -> nat
    decreases n,
{
    if n <= 0 {
        0
    } else {
        type_count(cs, n - 1) + if type_kind(cs[n - 1].kind) {
            1nat
        } else {
            0nat
        }
    }
}

/// The type-level symbol a type spelling in `path` resolves to (same file
/// first), with the number of type-level candidates.
pub open spec fn resolved_type(
    index: Seq<(String, Vec<SymbolCandidate>)>,
    name: Seq<char>,
    path: Seq<char>,
) -> Option<(SymbolCandidate, nat)> {
    match entry_for(index, name, 0) {
        Some(k) => {
            let cs = index[k].1@;
            let pick = if first_type(cs, 0, Some(path)) is Some {
                first_type(cs, 0, Some(path))
            } else {
                first_type(cs, 0, None)
            };
            match pick {
                Some(i) => Some((cs[i], type_count(cs, cs.len() as int))),
                None => None,
            }
        },
        None => None,
    }
}

proof fn lemma_first_type(cs: Seq<SymbolCandidate>, i: int, path: Option<Seq<char>>)
    requires
        0 <= i,
    ensures
        match first_type(cs, i, path) {
            Some(j) => i <= j < cs.len() && type_kind(cs[j].kind) && (path matches Some(p)
                ==> cs[j].path@ == p),
            None => forall|j: int|
                i <= j < cs.len() ==> !(type_kind(#[trigger] cs[j].kind) && (path matches Some(p)
                    ==> cs[j].path@ == p)),
        },
    decreases cs.len() - i,
{
    if i < cs.len() {
        lemma_first_type(cs, i + 1, path);
    }
}

proof fn lemma_type_count(cs: Seq<SymbolCandidate>, n: int)
    requires
        0 <= n <= cs.len(),
    ensures
        type_count(cs, n) <= n,
        (exists|j: int| 0 <= j < n && type_kind(#[trigger] cs[j].kind)) ==> type_count(cs, n) >= 1,
    decreases n,
{
    if n > 0 {
        lemma_type_count(cs, n - 1);
        if exists|j: int| 0 <= j < n && type_kind(#[trigger] cs[j].kind) {
            let j = choose|j: int| 0 <= j < n && type_kind(#[trigger] cs[j].kind);
            if j < n - 1 {
                assert(0 <= j < n - 1 && type_kind(cs[j].kind));
            }
        }
    }
}

/// A type spelling resolves exactly when its name's candidates include a
/// type-level symbol: a struct, class, interface, trait, enum or schema.
/// The symbol it resolves to is one of those candidates, of one of those
/// kinds, in the referring file where such a candidate lives there; the
/// count is between one and the number of candidates. A name whose only
/// candidate is type-level resolves to it with a count of one.
pub proof fn law_types_resolve_to_type_level_symbols(
    index: Seq<(String, Vec<SymbolCandidate>)>,
    name: Seq<char>,
    path: Seq<char>,
)
    ensures
        ({
            let tl = |c: SymbolCandidate|
                c.kind == EntityKind::Struct || c.kind == EntityKind::Class || c.kind
                    == EntityKind::Interface || c.kind == EntityKind::Trait || c.kind
                    == EntityKind::Enum || c.kind == EntityKind::Schema;
            let r = resolved_type(index, name, path);
            match entry_for(index, name, 0) {
                None => r is None,
                Some(k) => {
                    let cs = index[k].1@;
                    &&& r is Some <==> exists|i: int| 0 <= i < cs.len() && tl(#[trigger] cs[i])
                    &&& r matches Some((c, m)) ==> {
                        &&& tl(c)
                        &&& 1 <= m <= cs.len()
                        &&& exists|i: int| 0 <= i < cs.len() && #[trigger] cs[i] == c
                        &&& (exists|j: int| 0 <= j < cs.len() && tl(#[trigger] cs[j]) && cs[j].path@ == path)
                            ==> c.path@ == path
                    }
                    &&& cs.len() == 1 && tl(cs[0]) ==> r == Some((cs[0], 1nat))
                },
            }
        }),
{
    match entry_for(index, name, 0) {
        None => {},
        Some(k) => {
            let cs = index[k].1@;
            lemma_first_type(cs, 0, Some(path));
            lemma_first_type(cs, 0, None);
            lemma_type_count(cs, cs.len() as int);
            match first_type(cs, 0, Some(path)) {
                Some(j) => {
                    assert(cs[j] == cs[j]);
                },
                None => {
                    match first_type(cs, 0, None) {
                        Some(j) => {
                            assert(cs[j] == cs[j]);
                        },
                        None => {},
                    }
                },
            }
            if cs.len() == 1 {
                reveal_with_fuel(type_count, 2);
            }
        },
    }
}

// ---- per-file context --------------------------------------------------------------

/// The id a call is attributed to: its unit's, or the file's at file scope
/// (or when the unit has no id).
pub open spec fn caller_of(call: ParsedCall, ids: Seq<String>, file_id: Seq<char>) -> Seq<char> {
    match call.caller {
        Some(ix) => if ix < ids.len() {
            ids[ix as int]@
        } else {
            file_id
        },
        None => file_id,
    }
}

/// Resolved calls among the first `n` of a file, as (caller, callee, call
/// position), calls that resolve to their own caller left out.
pub open spec fn call_items(
    calls: Seq<ParsedCall>,
    ids: Seq<String>,
    file_id: Seq<char>,
    index: Seq<(String, Vec<SymbolCandidate>)>,
    path: Seq<char>,
    n: int,
) -> Seq<(Seq<char>, Seq<char>, usize)>
    decreases n,
{
    if n <= 0 {
        Seq::empty()
    } else {
        let c = calls[n - 1];
        let caller = caller_of(c, ids, file_id);
        call_items(calls, ids, file_id, index, path, n - 1) + match resolved_callee(
            index,
            c.name@,
            path,
        ) {
            Some(t) => if t.0.entity_id@ != caller {
                seq![(caller, t.0.entity_id@, (n - 1) as usize)]
            } else {
                Seq::empty()
            },
            None => Seq::empty(),
        }
    }
}

/// The id type references of unit `u` are attributed to.
pub open spec fn unit_source(ids: Seq<String>, u: int, file_id: Seq<char>) -> Seq<char> {
    if 0 <= u < ids.len() {
        ids[u]@
    } else {
        file_id
    }
}

/// Resolved type references of the first `m` names of unit `u`, as
/// (source, target, (unit, name position)), self references left out.
pub open spec fn unit_type_items(
    units: Seq<ParsedUnit>,
    u: int,
    ids: Seq<String>,
    file_id: Seq<char>,
    index: Seq<(String, Vec<SymbolCandidate>)>,
    path: Seq<char>,
    m: int,
) -> Seq<(Seq<char>, Seq<char>, (usize, usize))>
    decreases m,
{
    if m <= 0 {
        Seq::empty()
    } else {
        let source = unit_source(ids, u, file_id);
        unit_type_items(units, u, ids, file_id, index, path, m - 1) + match resolved_type(
            index,
            units[u].type_references@[m - 1]@,
            path,
        ) {
            Some(t) => if t.0.entity_id@ != source {
                seq![(source, t.0.entity_id@, (u as usize, (m - 1) as usize))]
            } else {
                Seq::empty()
            },
            None => Seq::empty(),
        }
    }
}

/// Resolved type references of the first `n` units of a file.
pub open spec fn type_items(
    units: Seq<ParsedUnit>,
    ids: Seq<String>,
    file_id: Seq<char>,
    index: Seq<(String, Vec<SymbolCandidate>)>,
    path: Seq<char>,
    n: int,
) -> Seq<(Seq<char>, Seq<char>, (usize, usize))>
    decreases n,
{
    if n <= 0 {
        Seq::empty()
    } else {
        type_items(units, ids, file_id, index, path, n - 1) + unit_type_items(
            units,
            n - 1,
            ids,
            file_id,
            index,
            path,
            units[n - 1].type_references@.len() as int,
        )
    }
}

/// Items by their string ends.
pub open spec fn items_view<X>(v: Seq<(String, String, X)>) -> Seq<(Seq<char>, Seq<char>, X)> {
    v.map_values(|it: (String, String, X)| (it.0@, it.1@, it.2))
}

// ---- exec resolution ---------------------------------------------------------------

/// Call resolution: the first same-file candidate, else the first function
/// or method, else the first candidate; with the number of candidates.
pub fn resolve_callee(
    name: &str,
    path: &str,
    name_index: &Vec<(String, Vec<SymbolCandidate>)>,
) -> (r: Option<(SymbolCandidate, usize)>)
    ensures
        match r {
            Some(p) => resolved_callee(name_index@, name@, path@) == Some((p.0, p.1 as nat)),
            None => resolved_callee(name_index@, name@, path@) is None,
        },
{
    let Some(k) = find_entry(name_index, &chars_of(name)) else {
        return None;
    };
    let cs = &name_index[k].1;
    let pc = chars_of(path);
    let pick = match find_in_tier(cs, 2, &pc) {
        Some(i) => Some(i),
        None => match find_in_tier(cs, 1, &pc) {
            Some(i) => Some(i),
            None => find_in_tier(cs, 3, &pc),
        },
    };
    match pick {
        Some(i) => Some((cs[i].duplicate(), cs.len())),
        None => None,
    }
}

fn find_type(cs: &Vec<SymbolCandidate>, path: Option<&String>) -> (r: Option<usize>)
    ensures
        match r {
            Some(i) => i < cs@.len() && first_type(
                cs@,
                0,
                match path {
                    Some(p) => Some(p@),
                    None => None,
                },
            ) == Some(i as int),
            None => first_type(
                cs@,
                0,
                match path {
                    Some(p) => Some(p@),
                    None => None,
                },
            ) is None,
        },
{
    let ghost pv = match path {
        Some(p) => Some(p@),
        None => None::<Seq<char>>,
    };
    let mut i: usize = 0;
    while i < cs.len()
        invariant
            i <= cs@.len(),
            pv == match path {
                Some(p) => Some(p@),
                None => None::<Seq<char>>,
            },
            first_type(cs@, 0, pv) == first_type(cs@, i as int, pv),
        decreases cs@.len() - i,
    {
        let k = cs[i].kind;
        let is_type = k == EntityKind::Struct || k == EntityKind::Class || k == EntityKind::Interface
            || k == EntityKind::Trait || k == EntityKind::Enum || k == EntityKind::Schema;
        let here = match path {
            Some(p) => cs[i].path == *p,
            None => true,
        };
        if is_type && here {
            return Some(i);
        }
        i = i + 1;
    }
    None
}

fn count_types(cs: &Vec<SymbolCandidate>) -> (r: usize)
    ensures
        r == type_count(cs@, cs@.len() as int),
{
    let mut n: usize = 0;
    let mut i: usize = 0;
    while i < cs.len()
        invariant
            i <= cs@.len(),
            n == type_count(cs@, i as int),
            n <= i,
        decreases cs@.len() - i,
    {
        let k = cs[i].kind;
        if k == EntityKind::Struct || k == EntityKind::Class || k == EntityKind::Interface || k
            == EntityKind::Trait || k == EntityKind::Enum || k == EntityKind::Schema {
            n = n + 1;
        }
        i = i + 1;
    }
    n
}

/// Type resolution: a type-level candidate in the same file, else the first
/// type-level candidate; with the number of type-level candidates.
pub fn resolve_type(
    name: &str,
    path: &String,
    name_index: &Vec<(String, Vec<SymbolCandidate>)>,
) -> (r: Option<(SymbolCandidate, usize)>)
    ensures
        match r {
            Some(p) => resolved_type(name_index@, name@, path@) == Some((p.0, p.1 as nat)),
            None => resolved_type(name_index@, name@, path@) is None,
        },
{
    let Some(k) = find_entry(name_index, &chars_of(name)) else {
        return None;
    };
    let cs = &name_index[k].1;
    let pick = match find_type(cs, Some(path)) {
        Some(i) => Some(i),
        None => find_type(cs, None),
    };
    match pick {
        Some(i) => Some((cs[i].duplicate(), count_types(cs))),
        None => None,
    }
}

/// The items of `items` whose two ends no earlier item joined.
fn first_items<X: Copy>(items: &Vec<(String, String, X)>) -> (r: Vec<(String, String, X)>)
    ensures
        items_view(r@) == first_links(items_view(items@)),
{
    let ghost iv = items_view(items@);
    let mut out: Vec<(String, String, X)> = Vec::new();
    let mut k: usize = 0;
    assert(iv.take(0) =~= Seq::<(Seq<char>, Seq<char>, X)>::empty());
    assert(items_view(out@) =~= first_links(iv.take(0)));
    while k < items.len()
        invariant
            iv == items_view(items@),
            k <= items@.len(),
            items_view(out@) == first_links(iv.take(k as int)),
        decreases items@.len() - k,
    {
        let ghost before = items_view(out@);
        let mut seen = false;
        let mut j: usize = 0;
        while j < out.len()
            invariant
                before == items_view(out@),
                j <= out@.len(),
                seen == exists|a: int|
                    0 <= a < j && #[trigger] before[a].0 == iv[k as int].0 && before[a].1 == iv[
                        k as int
                    ].1,
                k < items@.len(),
                iv == items_view(items@),
            decreases out@.len() - j,
        {
            if out[j].0 == items[k].0 && out[j].1 == items[k].1 {
                assert(before[j as int].0 == iv[k as int].0 && before[j as int].1 == iv[k as int].1);
                seen = true;
            }
            j = j + 1;
        }
        assert(iv.take(k + 1).drop_last() =~= iv.take(k as int));
        assert(iv.take(k + 1).last() == iv[k as int]);
        assert(seen == pair_seen(before, iv[k as int]));
        if !seen {
            let x = items[k].2;
            out.push((copy_string(&items[k].0), copy_string(&items[k].1), x));
            assert(items_view(out@) =~= before.push(iv[k as int]));
        }
        k = k + 1;
    }
    assert(iv.take(items@.len() as int) =~= iv);
    out
}

// ---- the edges ---------------------------------------------------------------------

/// Positions of a file's parse, unit ids, text and entity, when all exist.
pub open spec fn call_context(
    f: ScannedFile,
    fe: Seq<(String, String)>,
    parsed: Seq<(String, ParsedFile)>,
    unit_ids: Seq<(String, Vec<String>)>,
    texts: Seq<(String, String)>,
) -> Option<(int, int, int, int)> {
    let path = f.relative_path@;
    match (key_at(parsed, path, 0), key_at(unit_ids, path, 0), key_at(texts, path, 0), key_at(fe, path, 0)) {
        (Some(p), Some(u), Some(t), Some(e)) => Some((p, u, t, e)),
        _ => None,
    }
}

/// A file's call edges, one per caller and callee, in call order.
pub open spec fn file_calls(
    f: ScannedFile,
    fe: Seq<(String, String)>,
    parsed: Seq<(String, ParsedFile)>,
    unit_ids: Seq<(String, Vec<String>)>,
    texts: Seq<(String, String)>,
    index: Seq<(String, Vec<SymbolCandidate>)>,
) -> Seq<(Seq<char>, Seq<char>, usize)> {
    match call_context(f, fe, parsed, unit_ids, texts) {
        Some(c) => {
            let pf = parsed[c.0].1;
            first_links(
                call_items(
                    pf.calls@,
                    unit_ids[c.1].1@,
                    fe[c.3].1@,
                    index,
                    f.relative_path@,
                    pf.calls@.len() as int,
                ),
            )
        },
        None => Seq::empty(),
    }
}

/// Call edges of the first `n` files, each with its file's position.
pub open spec fn call_sites(
    files: Seq<ScannedFile>,
    fe: Seq<(String, String)>,
    parsed: Seq<(String, ParsedFile)>,
    unit_ids: Seq<(String, Vec<String>)>,
    texts: Seq<(String, String)>,
    index: Seq<(String, Vec<SymbolCandidate>)>,
    n: int,
) -> Seq<(int, (Seq<char>, Seq<char>, usize))>
    decreases n,
{
    if n <= 0 {
        Seq::empty()
    } else {
        call_sites(files, fe, parsed, unit_ids, texts, index, n - 1) + file_calls(
            files[n - 1],
            fe,
            parsed,
            unit_ids,
            texts,
            index,
        ).map_values(|it: (Seq<char>, Seq<char>, usize)| (n - 1, it))
    }
}

/// `a` addresses bytes `start..end` of `path`, whose text is `text`.
pub open spec fn site_address(
    a: SourceAddress,
    repo: Seq<char>,
    snap: Seq<char>,
    path: Seq<char>,
    text: Seq<char>,
    start: usize,
    end: usize,
) -> bool {
    &&& a.repository_id@ == repo
    &&& a.snapshot_id@ == snap
    &&& a.path@ == path
    &&& a.start_byte == start
    &&& a.end_byte == end
    &&& a.start_line == line_at(encode_utf8(text), start as nat)
    &&& a.end_line == line_at(encode_utf8(text), end as nat)
    &&& a.symbol_id is None
}

/// `e` is the call edge of item `it` of file `f`.
pub open spec fn call_edge_of(
    e: SymbolEdge,
    repo: Seq<char>,
    snap: Seq<char>,
    f: ScannedFile,
    pf: ParsedFile,
    text: Seq<char>,
    index: Seq<(String, Vec<SymbolCandidate>)>,
    it: (Seq<char>, Seq<char>, usize),
) -> bool {
    let c = pf.calls@[it.2 as int];
    &&& e.source_entity_id@ == it.0
    &&& e.target_entity_id@ == it.1
    &&& e.id@ == digest_id_of("rel"@, seq![it.0, it.1, "calls"@])
    &&& e.name@ == c.name@
    &&& e.candidate_count == resolved_callee(index, c.name@, f.relative_path@).unwrap().1
    &&& e.extractor@ == "cce-call-extract-v2:"@ + parser_label(pf.parser)
    &&& site_address(e.evidence, repo, snap, f.relative_path@, text, c.start_byte, c.end_byte)
}

/// Every call item names a call that resolves.
pub proof fn lemma_call_items(
    calls: Seq<ParsedCall>,
    ids: Seq<String>,
    file_id: Seq<char>,
    index: Seq<(String, Vec<SymbolCandidate>)>,
    path: Seq<char>,
    n: int,
)
    requires
        n <= calls.len(),
        calls.len() <= usize::MAX,
    ensures
        forall|k: int|
            0 <= k < call_items(calls, ids, file_id, index, path, n).len() ==> {
                let it = #[trigger] call_items(calls, ids, file_id, index, path, n)[k];
                &&& 0 <= it.2 < n
                &&& resolved_callee(index, calls[it.2 as int].name@, path) is Some
            },
    decreases n,
{
    if n > 0 {
        lemma_call_items(calls, ids, file_id, index, path, n - 1);
        let prev = call_items(calls, ids, file_id, index, path, n - 1);
        assert forall|k: int|
            0 <= k < call_items(calls, ids, file_id, index, path, n).len() implies {
                let it = #[trigger] call_items(calls, ids, file_id, index, path, n)[k];
                &&& 0 <= it.2 < n
                &&& resolved_callee(index, calls[it.2 as int].name@, path) is Some
            } by {
            if k < prev.len() {
                assert(call_items(calls, ids, file_id, index, path, n)[k] == prev[k]);
            }
        }
    }
}

fn extractor_id(prefix: &str, parser: &Option<String>) -> (r: String)
    ensures
        r@ == prefix@ + parser_label(*parser),
{
    let mut v = chars_of(prefix);
    match parser {
        Some(p) => push_str(&mut v, p.as_str()),
        None => push_str(&mut v, "unknown"),
    }
    string_of(&v)
}

fn file_call_items(
    pf: &ParsedFile,
    ids: &Vec<String>,
    file_id: &String,
    index: &Vec<(String, Vec<SymbolCandidate>)>,
    path: &String,
) -> (r: Vec<(String, String, usize)>)
    ensures
        items_view(r@) == call_items(
            pf.calls@,
            ids@,
            file_id@,
            index@,
            path@,
            pf.calls@.len() as int,
        ),
{
    let mut out: Vec<(String, String, usize)> = Vec::new();
    let mut n: usize = 0;
    assert(items_view(out@) =~= Seq::empty());
    while n < pf.calls.len()
        invariant
            n <= pf.calls@.len(),
            items_view(out@) == call_items(pf.calls@, ids@, file_id@, index@, path@, n as int),
        decreases pf.calls@.len() - n,
    {
        let c = &pf.calls[n];
        let caller = match c.caller {
            Some(ix) => if ix < ids.len() {
                copy_string(&ids[ix])
            } else {
                copy_string(file_id)
            },
            None => copy_string(file_id),
        };
        let ghost before = items_view(out@);
        if let Some((target, _count)) = resolve_callee(c.name.as_str(), path.as_str(), index) {
            if target.entity_id != caller {
                out.push((caller, copy_string(&target.entity_id), n));
                assert(items_view(out@) =~= before.push(
                    (caller_of(*c, ids@, file_id@), target.entity_id@, n),
                ));
            }
        }
        assert(items_view(out@) =~= call_items(pf.calls@, ids@, file_id@, index@, path@, n + 1));
        n = n + 1;
    }
    out
}

/// `Calls` edges: for each file that was parsed, has unit ids, text and an
/// entity, each call whose spelling resolves (`resolve_callee`) gives an
/// edge from its caller (its unit, or the file at file scope) to the
/// resolved symbol, unless that is the caller itself; per file, one edge
/// per caller and callee, the first call's. Each edge's evidence is the
/// call expression's span. `texts`, `file_entities`, `parsed` and
/// `unit_ids` map paths to a file's text, entity id, parse and unit ids.
pub fn call_edges(
    repository_id: &str,
    snapshot_id: &str,
    files: &Vec<ScannedFile>,
    texts: &Vec<(String, String)>,
    file_entities: &Vec<(String, String)>,
    parsed: &Vec<(String, ParsedFile)>,
    unit_ids: &Vec<(String, Vec<String>)>,
    name_index: &Vec<(String, Vec<SymbolCandidate>)>,
) -> (r: Vec<SymbolEdge>)
    requires
        forall|k: int|
            0 <= k < texts@.len() ==> newline_count(encode_utf8(#[trigger] texts@[k].1@))
                < u32::MAX,
    ensures
        ({
            let sites = call_sites(
                files@,
                file_entities@,
                parsed@,
                unit_ids@,
                texts@,
                name_index@,
                files@.len() as int,
            );
            &&& r@.len() == sites.len()
            &&& forall|k: int|
                0 <= k < r@.len() ==> {
                    let f = files@[sites[k].0];
                    let c = call_context(f, file_entities@, parsed@, unit_ids@, texts@).unwrap();
                    call_edge_of(
                        #[trigger] r@[k],
                        repository_id@,
                        snapshot_id@,
                        f,
                        parsed@[c.0].1,
                        texts@[c.2].1@,
                        name_index@,
                        sites[k].1,
                    )
                }
        }),
{
    let mut out: Vec<SymbolEdge> = Vec::new();
    let mut i: usize = 0;
    while i < files.len()
        invariant
            i <= files@.len(),
            forall|k: int|
                0 <= k < texts@.len() ==> newline_count(encode_utf8(#[trigger] texts@[k].1@))
                    < u32::MAX,
            ({
                let sites = call_sites(
                    files@,
                    file_entities@,
                    parsed@,
                    unit_ids@,
                    texts@,
                    name_index@,
                    i as int,
                );
                &&& out@.len() == sites.len()
                &&& forall|k: int|
                    0 <= k < out@.len() ==> {
                        let f = files@[sites[k].0];
                        let c = call_context(f, file_entities@, parsed@, unit_ids@, texts@).unwrap();
                        call_edge_of(
                            #[trigger] out@[k],
                            repository_id@,
                            snapshot_id@,
                            f,
                            parsed@[c.0].1,
                            texts@[c.2].1@,
                            name_index@,
                            sites[k].1,
                        )
                    }
            }),
        decreases files@.len() - i,
    {
        let f = &files[i];
        let path = &f.relative_path;
        let ghost before = call_sites(
            files@,
            file_entities@,
            parsed@,
            unit_ids@,
            texts@,
            name_index@,
            i as int,
        );
        let ghost here = file_calls(*f, file_entities@, parsed@, unit_ids@, texts@, name_index@);
        let ghost o0 = out@;
        match (find_key(parsed, path), find_key(unit_ids, path), find_key(texts, path), find_key(file_entities, path)) {
            (Some(p), Some(u), Some(t), Some(e)) => {
                let pf = &parsed[p].1;
                let ids = &unit_ids[u].1;
                let text = &texts[t].1;
                let _ = pf.calls.len();
                let items = file_call_items(pf, ids, &file_entities[e].1, name_index, path);
                let kept = first_items(&items);
                let extractor = extractor_id("cce-call-extract-v2:", &pf.parser);
                proof {
                    lemma_call_items(pf.calls@, ids@, file_entities@[e as int].1@, name_index@, path@, pf.calls@.len() as int);
                    crate::testlinks::law_first_links_distinct(items_view(items@));
                }
                assert(here == items_view(kept@));
                let mut k: usize = 0;
                while k < kept.len()
                    invariant
                        k <= kept@.len(),
                        here == items_view(kept@),
                        out@.len() == o0.len() + k,
                        forall|a: int| 0 <= a < o0.len() ==> out@[a] == o0[a],
                        forall|a: int|
                            o0.len() <= a < out@.len() ==> call_edge_of(
                                #[trigger] out@[a],
                                repository_id@,
                                snapshot_id@,
                                *f,
                                *pf,
                                text@,
                                name_index@,
                                here[a - o0.len()],
                            ),
                        forall|a: int|
                            0 <= a < here.len() ==> {
                                let it = #[trigger] here[a];
                                &&& 0 <= it.2 < pf.calls@.len()
                                &&& resolved_callee(name_index@, pf.calls@[it.2 as int].name@, path@) is Some
                            },
                        newline_count(encode_utf8(text@)) < u32::MAX,
                        extractor@ == "cce-call-extract-v2:"@ + parser_label(pf.parser),
                        *path == f.relative_path,
                    decreases kept@.len() - k,
                {
                    let it = &kept[k];
                    assert(here[k as int] == (it.0@, it.1@, it.2));
                    let c = &pf.calls[it.2];
                    let (_target, count) = resolve_callee(c.name.as_str(), path.as_str(), name_index).unwrap();
                    let evidence = SourceAddress {
                        repository_id: string_of(&chars_of(repository_id)),
                        snapshot_id: string_of(&chars_of(snapshot_id)),
                        path: copy_string(path),
                        start_byte: c.start_byte as u64,
                        end_byte: c.end_byte as u64,
                        start_line: line_for_offset(text.as_str(), c.start_byte),
                        end_line: line_for_offset(text.as_str(), c.end_byte),
                        symbol_id: None,
                    };
                    let edge = SymbolEdge {
                        id: relation_id(it.0.as_str(), it.1.as_str(), "calls"),
                        source_entity_id: copy_string(&it.0),
                        target_entity_id: copy_string(&it.1),
                        name: copy_string(&c.name),
                        candidate_count: count,
                        extractor: copy_string(&extractor),
                        evidence,
                    };
                    assert(edge.source_entity_id@ == here[k as int].0);
                    assert(edge.candidate_count == resolved_callee(name_index@, c.name@, f.relative_path@).unwrap().1);
                    assert(edge.extractor@ == "cce-call-extract-v2:"@ + parser_label(pf.parser));
                    assert(edge.evidence.repository_id@ == repository_id@);
                    assert(edge.evidence.path@ == f.relative_path@);
                    assert(edge.evidence.start_byte == c.start_byte);
                    assert(edge.evidence.start_line == line_at(encode_utf8(text@), c.start_byte as nat));
                    assert(site_address(edge.evidence, repository_id@, snapshot_id@, f.relative_path@, text@, c.start_byte, c.end_byte));
                    assert(call_edge_of(edge, repository_id@, snapshot_id@, *f, *pf, text@, name_index@, here[k as int]));
                    let ghost o1 = out@;
                    out.push(edge);
                    assert forall|a: int| o0.len() <= a < out@.len() implies call_edge_of(
                        #[trigger] out@[a],
                        repository_id@,
                        snapshot_id@,
                        *f,
                        *pf,
                        text@,
                        name_index@,
                        here[a - o0.len()],
                    ) by {
                        if a < o1.len() {
                            assert(out@[a] == o1[a]);
                        }
                    }
                    k = k + 1;
                }
                proof {
                    let sites = call_sites(files@, file_entities@, parsed@, unit_ids@, texts@, name_index@, i + 1);
                    assert(sites =~= before + here.map_values(|it: (Seq<char>, Seq<char>, usize)| (i as int, it)));
                    assert(call_context(*f, file_entities@, parsed@, unit_ids@, texts@) == Some((p as int, u as int, t as int, e as int)));
                    assert forall|k: int| 0 <= k < out@.len() implies {
                        let f2 = files@[sites[k].0];
                        let c2 = call_context(f2, file_entities@, parsed@, unit_ids@, texts@).unwrap();
                        call_edge_of(
                            #[trigger] out@[k],
                            repository_id@,
                            snapshot_id@,
                            f2,
                            parsed@[c2.0].1,
                            texts@[c2.2].1@,
                            name_index@,
                            sites[k].1,
                        )
                    } by {
                        if k < o0.len() {
                            assert(out@[k] == o0[k]);
                            assert(sites[k] == before[k]);
                        } else {
                            assert(sites[k] == (i as int, here[k - o0.len()]));
                        }
                    }
                }
            },
            _ => {
                proof {
                    let sites = call_sites(files@, file_entities@, parsed@, unit_ids@, texts@, name_index@, i + 1);
                    assert(call_context(*f, file_entities@, parsed@, unit_ids@, texts@) is None);
                    assert(sites =~= before);
                }
            },
        }
        i = i + 1;
    }
    out
}

// ---- type references ---------------------------------------------------------------

/// Positions of a file's parse, unit ids and entity, when all exist.
pub open spec fn type_context(
    f: ScannedFile,
    fe: Seq<(String, String)>,
    parsed: Seq<(String, ParsedFile)>,
    unit_ids: Seq<(String, Vec<String>)>,
) -> Option<(int, int, int)> {
    let path = f.relative_path@;
    match (key_at(parsed, path, 0), key_at(unit_ids, path, 0), key_at(fe, path, 0)) {
        (Some(p), Some(u), Some(e)) => Some((p, u, e)),
        _ => None,
    }
}

/// A file's type-reference edges, one per source and target, in unit and
/// name order.
pub open spec fn file_types(
    f: ScannedFile,
    fe: Seq<(String, String)>,
    parsed: Seq<(String, ParsedFile)>,
    unit_ids: Seq<(String, Vec<String>)>,
    index: Seq<(String, Vec<SymbolCandidate>)>,
) -> Seq<(Seq<char>, Seq<char>, (usize, usize))> {
    match type_context(f, fe, parsed, unit_ids) {
        Some(c) => {
            let pf = parsed[c.0].1;
            first_links(
                type_items(
                    pf.units@,
                    unit_ids[c.1].1@,
                    fe[c.2].1@,
                    index,
                    f.relative_path@,
                    pf.units@.len() as int,
                ),
            )
        },
        None => Seq::empty(),
    }
}

/// Type-reference edges of the first `n` files, each with its file's position.
pub open spec fn type_sites(
    files: Seq<ScannedFile>,
    fe: Seq<(String, String)>,
    parsed: Seq<(String, ParsedFile)>,
    unit_ids: Seq<(String, Vec<String>)>,
    index: Seq<(String, Vec<SymbolCandidate>)>,
    n: int,
) -> Seq<(int, (Seq<char>, Seq<char>, (usize, usize)))>
    decreases n,
{
    if n <= 0 {
        Seq::empty()
    } else {
        type_sites(files, fe, parsed, unit_ids, index, n - 1) + file_types(
            files[n - 1],
            fe,
            parsed,
            unit_ids,
            index,
        ).map_values(|it: (Seq<char>, Seq<char>, (usize, usize))| (n - 1, it))
    }
}

/// `a` addresses unit `u` of `path`.
pub open spec fn unit_address(a: SourceAddress, repo: Seq<char>, snap: Seq<char>, path: Seq<char>, u: ParsedUnit) -> bool {
    &&& a.repository_id@ == repo
    &&& a.snapshot_id@ == snap
    &&& a.path@ == path
    &&& a.start_byte == u.start_byte
    &&& a.end_byte == u.end_byte
    &&& a.start_line == u.start_line
    &&& a.end_line == u.end_line
    &&& a.symbol_id is None
}

/// `e` is the type-reference edge of item `it` of file `f`.
pub open spec fn type_edge_of(
    e: SymbolEdge,
    repo: Seq<char>,
    snap: Seq<char>,
    f: ScannedFile,
    pf: ParsedFile,
    index: Seq<(String, Vec<SymbolCandidate>)>,
    it: (Seq<char>, Seq<char>, (usize, usize)),
) -> bool {
    let u = pf.units@[it.2.0 as int];
    let name = u.type_references@[it.2.1 as int];
    &&& e.source_entity_id@ == it.0
    &&& e.target_entity_id@ == it.1
    &&& e.id@ == digest_id_of("rel"@, seq![it.0, it.1, "references"@])
    &&& e.name@ == name@
    &&& e.candidate_count == resolved_type(index, name@, f.relative_path@).unwrap().1
    &&& e.extractor@ == "cce-type-ref-v2:"@ + parser_label(pf.parser)
    &&& unit_address(e.evidence, repo, snap, f.relative_path@, u)
}

/// Every type item names a unit's type reference that resolves.
pub proof fn lemma_type_items(
    units: Seq<ParsedUnit>,
    ids: Seq<String>,
    file_id: Seq<char>,
    index: Seq<(String, Vec<SymbolCandidate>)>,
    path: Seq<char>,
    n: int,
)
    requires
        n <= units.len(),
        units.len() <= usize::MAX,
        forall|u: int| 0 <= u < units.len() ==> (#[trigger] units[u]).type_references@.len() <= usize::MAX,
    ensures
        forall|k: int|
            0 <= k < type_items(units, ids, file_id, index, path, n).len() ==> {
                let it = #[trigger] type_items(units, ids, file_id, index, path, n)[k];
                &&& 0 <= it.2.0 < n
                &&& 0 <= it.2.1 < units[it.2.0 as int].type_references@.len()
                &&& resolved_type(index, units[it.2.0 as int].type_references@[it.2.1 as int]@, path) is Some
            },
    decreases n,
{
    if n > 0 {
        lemma_type_items(units, ids, file_id, index, path, n - 1);
        let prev = type_items(units, ids, file_id, index, path, n - 1);
        let m = units[n - 1].type_references@.len() as int;
        lemma_unit_type_items(units, n - 1, ids, file_id, index, path, m);
        let tail = unit_type_items(units, n - 1, ids, file_id, index, path, m);
        assert forall|k: int|
            0 <= k < type_items(units, ids, file_id, index, path, n).len() implies {
                let it = #[trigger] type_items(units, ids, file_id, index, path, n)[k];
                &&& 0 <= it.2.0 < n
                &&& 0 <= it.2.1 < units[it.2.0 as int].type_references@.len()
                &&& resolved_type(index, units[it.2.0 as int].type_references@[it.2.1 as int]@, path) is Some
            } by {
            if k < prev.len() {
                assert(type_items(units, ids, file_id, index, path, n)[k] == prev[k]);
            } else {
                assert(type_items(units, ids, file_id, index, path, n)[k] == tail[k - prev.len()]);
            }
        }
    }
}

proof fn lemma_unit_type_items(
    units: Seq<ParsedUnit>,
    u: int,
    ids: Seq<String>,
    file_id: Seq<char>,
    index: Seq<(String, Vec<SymbolCandidate>)>,
    path: Seq<char>,
    m: int,
)
    requires
        0 <= u < units.len(),
        units.len() <= usize::MAX,
        m <= units[u].type_references@.len(),
        units[u].type_references@.len() <= usize::MAX,
    ensures
        forall|k: int|
            0 <= k < unit_type_items(units, u, ids, file_id, index, path, m).len() ==> {
                let it = #[trigger] unit_type_items(units, u, ids, file_id, index, path, m)[k];
                &&& it.2.0 == u
                &&& 0 <= it.2.1 < m
                &&& resolved_type(index, units[u].type_references@[it.2.1 as int]@, path) is Some
            },
    decreases m,
{
    if m > 0 {
        lemma_unit_type_items(units, u, ids, file_id, index, path, m - 1);
        let prev = unit_type_items(units, u, ids, file_id, index, path, m - 1);
        assert forall|k: int|
            0 <= k < unit_type_items(units, u, ids, file_id, index, path, m).len() implies {
                let it = #[trigger] unit_type_items(units, u, ids, file_id, index, path, m)[k];
                &&& it.2.0 == u
                &&& 0 <= it.2.1 < m
                &&& resolved_type(index, units[u].type_references@[it.2.1 as int]@, path) is Some
            } by {
            if k < prev.len() {
                assert(unit_type_items(units, u, ids, file_id, index, path, m)[k] == prev[k]);
            }
        }
    }
}

fn file_type_items(
    pf: &ParsedFile,
    ids: &Vec<String>,
    file_id: &String,
    index: &Vec<(String, Vec<SymbolCandidate>)>,
    path: &String,
) -> (r: Vec<(String, String, (usize, usize))>)
    ensures
        items_view(r@) == type_items(
            pf.units@,
            ids@,
            file_id@,
            index@,
            path@,
            pf.units@.len() as int,
        ),
{
    let mut out: Vec<(String, String, (usize, usize))> = Vec::new();
    let mut n: usize = 0;
    assert(items_view(out@) =~= Seq::empty());
    while n < pf.units.len()
        invariant
            n <= pf.units@.len(),
            items_view(out@) == type_items(pf.units@, ids@, file_id@, index@, path@, n as int),
        decreases pf.units@.len() - n,
    {
        let unit = &pf.units[n];
        let source = if n < ids.len() {
            copy_string(&ids[n])
        } else {
            copy_string(file_id)
        };
        let ghost head = items_view(out@);
        let mut m: usize = 0;
        assert(head =~= head + unit_type_items(pf.units@, n as int, ids@, file_id@, index@, path@, 0));
        while m < unit.type_references.len()
            invariant
                n < pf.units@.len(),
                unit == pf.units@[n as int],
                source@ == unit_source(ids@, n as int, file_id@),
                m <= unit.type_references@.len(),
                items_view(out@) == head + unit_type_items(pf.units@, n as int, ids@, file_id@, index@, path@, m as int),
            decreases unit.type_references@.len() - m,
        {
            let ghost before = items_view(out@);
            let name = &unit.type_references[m];
            if let Some((target, _count)) = resolve_type(name.as_str(), path, index) {
                if target.entity_id != source {
                    out.push((copy_string(&source), copy_string(&target.entity_id), (n, m)));
                    assert(items_view(out@) =~= before.push((source@, target.entity_id@, (n, m))));
                }
            }
            assert(items_view(out@) =~= head + unit_type_items(pf.units@, n as int, ids@, file_id@, index@, path@, m + 1));
            m = m + 1;
        }
        assert(items_view(out@) =~= type_items(pf.units@, ids@, file_id@, index@, path@, n + 1));
        n = n + 1;
    }
    out
}

/// `References` edges: for each file that was parsed, has unit ids and an
/// entity, each type spelling in a unit's type positions that resolves to
/// a type-level symbol (`resolve_type`) gives an edge from the unit (the
/// file when the unit has no id) to that symbol, unless that is the unit
/// itself; per file, one edge per source and target, the first one's. Each
/// edge's evidence is the unit's span.
pub fn type_reference_edges(
    repository_id: &str,
    snapshot_id: &str,
    files: &Vec<ScannedFile>,
    file_entities: &Vec<(String, String)>,
    parsed: &Vec<(String, ParsedFile)>,
    unit_ids: &Vec<(String, Vec<String>)>,
    name_index: &Vec<(String, Vec<SymbolCandidate>)>,
) -> (r: Vec<SymbolEdge>)
    ensures
        ({
            let sites = type_sites(
                files@,
                file_entities@,
                parsed@,
                unit_ids@,
                name_index@,
                files@.len() as int,
            );
            &&& r@.len() == sites.len()
            &&& forall|k: int|
                0 <= k < r@.len() ==> {
                    let f = files@[sites[k].0];
                    let c = type_context(f, file_entities@, parsed@, unit_ids@).unwrap();
                    type_edge_of(
                        #[trigger] r@[k],
                        repository_id@,
                        snapshot_id@,
                        f,
                        parsed@[c.0].1,
                        name_index@,
                        sites[k].1,
                    )
                }
        }),
{
    let mut out: Vec<SymbolEdge> = Vec::new();
    let mut i: usize = 0;
    while i < files.len()
        invariant
            i <= files@.len(),
            ({
                let sites = type_sites(
                    files@,
                    file_entities@,
                    parsed@,
                    unit_ids@,
                    name_index@,
                    i as int,
                );
                &&& out@.len() == sites.len()
                &&& forall|k: int|
                    0 <= k < out@.len() ==> {
                        let f = files@[sites[k].0];
                        let c = type_context(f, file_entities@, parsed@, unit_ids@).unwrap();
                        type_edge_of(
                            #[trigger] out@[k],
                            repository_id@,
                            snapshot_id@,
                            f,
                            parsed@[c.0].1,
                            name_index@,
                            sites[k].1,
                        )
                    }
            }),
        decreases files@.len() - i,
    {
        let f = &files[i];
        let path = &f.relative_path;
        let ghost before = type_sites(files@, file_entities@, parsed@, unit_ids@, name_index@, i as int);
        let ghost here = file_types(*f, file_entities@, parsed@, unit_ids@, name_index@);
        let ghost o0 = out@;
        match (find_key(parsed, path), find_key(unit_ids, path), find_key(file_entities, path)) {
            (Some(p), Some(u), Some(e)) => {
                let pf = &parsed[p].1;
                let ids = &unit_ids[u].1;
                let _ = pf.units.len();
                assert forall|x: int| 0 <= x < pf.units@.len() implies (#[trigger] pf.units@[x]).type_references@.len() <= usize::MAX by {
                    assert(pf.units@[x].type_references@.len() == pf.units@[x].type_references.len());
                }
                let items = file_type_items(pf, ids, &file_entities[e].1, name_index, path);
                let kept = first_items(&items);
                let extractor = extractor_id("cce-type-ref-v2:", &pf.parser);
                proof {
                    lemma_type_items(pf.units@, ids@, file_entities@[e as int].1@, name_index@, path@, pf.units@.len() as int);
                    crate::testlinks::law_first_links_distinct(items_view(items@));
                }
                assert(here == items_view(kept@));
                let mut k: usize = 0;
                while k < kept.len()
                    invariant
                        k <= kept@.len(),
                        here == items_view(kept@),
                        out@.len() == o0.len() + k,
                        forall|a: int| 0 <= a < o0.len() ==> out@[a] == o0[a],
                        forall|a: int|
                            o0.len() <= a < out@.len() ==> type_edge_of(
                                #[trigger] out@[a],
                                repository_id@,
                                snapshot_id@,
                                *f,
                                *pf,
                                name_index@,
                                here[a - o0.len()],
                            ),
                        forall|a: int|
                            0 <= a < here.len() ==> {
                                let it = #[trigger] here[a];
                                &&& 0 <= it.2.0 < pf.units@.len()
                                &&& 0 <= it.2.1 < pf.units@[it.2.0 as int].type_references@.len()
                                &&& resolved_type(name_index@, pf.units@[it.2.0 as int].type_references@[it.2.1 as int]@, path@) is Some
                            },
                        extractor@ == "cce-type-ref-v2:"@ + parser_label(pf.parser),
                        *path == f.relative_path,
                    decreases kept@.len() - k,
                {
                    let it = &kept[k];
                    assert(here[k as int] == (it.0@, it.1@, it.2));
                    let unit = &pf.units[it.2.0];
                    let name = &unit.type_references[it.2.1];
                    let (_target, count) = resolve_type(name.as_str(), path, name_index).unwrap();
                    let evidence = SourceAddress {
                        repository_id: string_of(&chars_of(repository_id)),
                        snapshot_id: string_of(&chars_of(snapshot_id)),
                        path: copy_string(path),
                        start_byte: unit.start_byte as u64,
                        end_byte: unit.end_byte as u64,
                        start_line: unit.start_line,
                        end_line: unit.end_line,
                        symbol_id: None,
                    };
                    let edge = SymbolEdge {
                        id: relation_id(it.0.as_str(), it.1.as_str(), "references"),
                        source_entity_id: copy_string(&it.0),
                        target_entity_id: copy_string(&it.1),
                        name: copy_string(name),
                        candidate_count: count,
                        extractor: copy_string(&extractor),
                        evidence,
                    };
                    assert(type_edge_of(edge, repository_id@, snapshot_id@, *f, *pf, name_index@, here[k as int]));
                    let ghost o1 = out@;
                    out.push(edge);
                    assert forall|a: int| o0.len() <= a < out@.len() implies type_edge_of(
                        #[trigger] out@[a],
                        repository_id@,
                        snapshot_id@,
                        *f,
                        *pf,
                        name_index@,
                        here[a - o0.len()],
                    ) by {
                        if a < o1.len() {
                            assert(out@[a] == o1[a]);
                        }
                    }
                    k = k + 1;
                }
                proof {
                    let sites = type_sites(files@, file_entities@, parsed@, unit_ids@, name_index@, i + 1);
                    assert(sites =~= before + here.map_values(|it: (Seq<char>, Seq<char>, (usize, usize))| (i as int, it)));
                    assert(type_context(*f, file_entities@, parsed@, unit_ids@) == Some((p as int, u as int, e as int)));
                    assert forall|k: int| 0 <= k < out@.len() implies {
                        let f2 = files@[sites[k].0];
                        let c2 = type_context(f2, file_entities@, parsed@, unit_ids@).unwrap();
                        type_edge_of(
                            #[trigger] out@[k],
                            repository_id@,
                            snapshot_id@,
                            f2,
                            parsed@[c2.0].1,
                            name_index@,
                            sites[k].1,
                        )
                    } by {
                        if k < o0.len() {
                            assert(out@[k] == o0[k]);
                            assert(sites[k] == before[k]);
                        } else {
                            assert(sites[k] == (i as int, here[k - o0.len()]));
                        }
                    }
                }
            },
            _ => {
                proof {
                    let sites = type_sites(files@, file_entities@, parsed@, unit_ids@, name_index@, i + 1);
                    assert(type_context(*f, file_entities@, parsed@, unit_ids@) is None);
                    assert(sites =~= before);
                }
            },
        }
        i = i + 1;
    }
    out
}

} // verus!
