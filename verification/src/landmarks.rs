//! Framework landmarks: route bindings recognised from web-framework call
//! shapes become `Route` entities addressed by their call site, plus a
//! `RouteHandledBy` edge whenever the handler token names a known symbol.

use vstd::prelude::*;

use vstd::utf8::encode_utf8;

use crate::context::SourceAddress;
use crate::dataflow::{lemma_key_index, lookup, lookup_entry, props_view};
use crate::descriptor::opt_view;
use crate::indexing::{digest_id_of, entity_id, line_for_offset, relation_id};
use crate::matching::{
    byte_slice, byte_span, compile_regex, regex_capture_spans, regex_captures, regex_compiles,
    spans_well_placed,
};
use crate::pattern::line_at;
use crate::repository::{newline_count, ScannedFile};
use crate::parser::EntityKind;
use crate::text::{
    chars_of, copy_opt_string, copy_string, decimal, eq_chars, owned, push_all, push_str, string_of,
    to_uppercase, unicode_to_upper,
};

verus! {

/// Extractor id carried by every axum route edge.
pub const AXUM_EXTRACTOR: &'static str = "cce-landmark-axum-v1";

/// A symbol entity reachable through its simple name.
#[derive(Debug)]
pub struct SymbolCandidate {
    pub entity_id: String,
    pub path: String,
    pub kind: EntityKind,
}

impl SymbolCandidate {
    /// A field-for-field copy.
    pub fn duplicate(&self) -> (r: SymbolCandidate)
        ensures
            r == *self,
    {
        SymbolCandidate {
            entity_id: copy_string(&self.entity_id),
            path: copy_string(&self.path),
            kind: self.kind,
        }
    }
}

/// One recognised route binding: the `.route(...)` call-site span plus the
/// handler token lifted out of the method-router argument, if any.
#[derive(Debug)]
pub struct RouteBinding {
    pub route_path: String,
    pub method: String,
    pub handler_name: Option<String>,
    pub file_path: String,
    pub start_byte: usize,
    pub end_byte: usize,
    pub start_line: u32,
    pub end_line: u32,
}

/// A `Route` entity (framework axum, language rust, capability
/// `route_entrypoint`), addressed by the binding's call site.
#[derive(Debug)]
pub struct RouteEntity {
    pub id: String,
    pub name: String,
    pub qualified_name: String,
    pub region_id: Option<String>,
    pub address: SourceAddress,
    pub route: String,
    pub method: String,
}

/// A `RouteHandledBy` edge from a route entity to its handler symbol, with
/// the call site (tagged with the handler's id) as evidence.
#[derive(Debug)]
pub struct RouteEdge {
    pub id: String,
    pub source_entity_id: String,
    pub target_entity_id: String,
    pub evidence: SourceAddress,
    pub route: String,
    pub method: String,
    /// Relation kind label: `route_handled_by`.
    pub kind: String,
    /// Provenance label: `framework_rule`.
    pub origin: String,
    /// The extractor id (`AXUM_EXTRACTOR`).
    pub extractor: String,
    /// The framework attribute: `axum`.
    pub framework: String,
}

/// Route entities and handler edges of one pass.
#[derive(Debug)]
pub struct LandmarkEmission {
    pub entities: Vec<RouteEntity>,
    pub relations: Vec<RouteEdge>,
}

/// Functions and methods can handle a route.
pub open spec fn callable(k: EntityKind) -> bool {
    k == EntityKind::Function || k == EntityKind::Method
}

/// The preference tiers of handler resolution: a callable in the same
/// file, any callable, any same-file spelling, anything.
pub open spec fn tier_holds(tier: int, path: Seq<char>, c: SymbolCandidate) -> bool {
    if tier == 0 {
        c.path@ == path && callable(c.kind)
    } else if tier == 1 {
        callable(c.kind)
    } else if tier == 2 {
        c.path@ == path
    } else {
        true
    }
}

/// The first candidate at or after `i` that satisfies `tier`.
pub open spec fn first_in_tier(cs: Seq<SymbolCandidate>, i: int, tier: int, path: Seq<char>) -> Option<
    int,
>
    decreases cs.len() - i,
{
    if i < 0 || i >= cs.len() {
        None
    } else if tier_holds(tier, path, cs[i]) {
        Some(i)
    } else {
        first_in_tier(cs, i + 1, tier, path)
    }
}

/// The candidate a handler spelling in `path` resolves to: the first of the
/// highest tier that has one.
pub open spec fn handler_choice(cs: Seq<SymbolCandidate>, path: Seq<char>) -> Option<int> {
    if first_in_tier(cs, 0, 0, path) is Some {
        first_in_tier(cs, 0, 0, path)
    } else if first_in_tier(cs, 0, 1, path) is Some {
        first_in_tier(cs, 0, 1, path)
    } else if first_in_tier(cs, 0, 2, path) is Some {
        first_in_tier(cs, 0, 2, path)
    } else {
        first_in_tier(cs, 0, 3, path)
    }
}

/// Position of the first name-index entry for `name` at or after `i`.
pub open spec fn entry_for(index: Seq<(String, Vec<SymbolCandidate>)>, name: Seq<char>, i: int) -> Option<
    int,
>
    decreases index.len() - i,
{
    if i < 0 || i >= index.len() {
        None
    } else if index[i].0@ == name {
        Some(i)
    } else {
        entry_for(index, name, i + 1)
    }
}

/// The symbol a handler spelling in `path` resolves to, if any.
pub open spec fn resolved_handler(
    index: Seq<(String, Vec<SymbolCandidate>)>,
    name: Seq<char>,
    path: Seq<char>,
) -> Option<SymbolCandidate> {
    match entry_for(index, name, 0) {
        Some(k) => match handler_choice(index[k].1@, path) {
            Some(i) => Some(index[k].1@[i]),
            None => None,
        },
        None => None,
    }
}

/// The handler a binding resolves to, if it names one that resolves.
pub open spec fn binding_handler(b: RouteBinding, index: Seq<(String, Vec<SymbolCandidate>)>) -> Option<
    SymbolCandidate,
> {
    match b.handler_name {
        Some(h) => resolved_handler(index, h@, b.file_path@),
        None => None,
    }
}

/// `METHOD /path`: the upper-cased method, a space, the route path.
pub open spec fn route_name_of(b: RouteBinding) -> Seq<char> {
    unicode_to_upper(b.method@) + " "@ + b.route_path@
}

/// The id of a binding's route entity.
pub open spec fn route_entity_id(repo: Seq<char>, b: RouteBinding) -> Seq<char> {
    digest_id_of(
        "entity"@,
        seq![
            repo,
            b.file_path@,
            decimal(b.start_byte as nat),
            decimal(b.end_byte as nat),
            "route:"@ + route_name_of(b),
        ],
    )
}

/// `a` addresses the binding's call site in the given snapshot.
pub open spec fn call_site(a: SourceAddress, repo: Seq<char>, snap: Seq<char>, b: RouteBinding) -> bool {
    &&& a.repository_id@ == repo
    &&& a.snapshot_id@ == snap
    &&& a.path@ == b.file_path@
    &&& a.start_byte == b.start_byte
    &&& a.end_byte == b.end_byte
    &&& a.start_line == b.start_line
    &&& a.end_line == b.end_line
}

/// `e` is the route entity of binding `b`.
pub open spec fn route_entity_of(
    e: RouteEntity,
    b: RouteBinding,
    repo: Seq<char>,
    snap: Seq<char>,
    regions: Seq<(String, String)>,
) -> bool {
    &&& e.id@ == route_entity_id(repo, b)
    &&& e.name@ == route_name_of(b)
    &&& e.qualified_name@ == "axum:"@ + route_name_of(b)
    &&& opt_view(e.region_id) == lookup(props_view(regions), b.file_path@)
    &&& call_site(e.address, repo, snap, b)
    &&& e.address.symbol_id is None
    &&& e.route@ == b.route_path@
    &&& e.method@ == b.method@
}

/// `e` is the handler edge of binding `b` resolved to `h`.
pub open spec fn route_edge_of(
    e: RouteEdge,
    b: RouteBinding,
    h: SymbolCandidate,
    repo: Seq<char>,
    snap: Seq<char>,
) -> bool {
    &&& e.id@ == digest_id_of(
        "rel"@,
        seq![route_entity_id(repo, b), h.entity_id@, "route_handled_by"@],
    )
    &&& e.source_entity_id@ == route_entity_id(repo, b)
    &&& e.target_entity_id == h.entity_id
    &&& call_site(e.evidence, repo, snap, b)
    &&& e.evidence.symbol_id == Some(h.entity_id)
    &&& e.route@ == b.route_path@
    &&& e.method@ == b.method@
    &&& e.kind@ == "route_handled_by"@
    &&& e.origin@ == "framework_rule"@
    &&& e.extractor@ == AXUM_EXTRACTOR@
    &&& e.framework@ == "axum"@
}

/// Positions, among the first `n` bindings, of those whose handler resolves.
pub open spec fn handled_positions(
    bs: Seq<RouteBinding>,
    index: Seq<(String, Vec<SymbolCandidate>)>,
    n: int,
) -> Seq<int>
    decreases n,
{
    if n <= 0 {
        Seq::empty()
    } else if binding_handler(bs[n - 1], index) is Some {
        handled_positions(bs, index, n - 1).push(n - 1)
    } else {
        handled_positions(bs, index, n - 1)
    }
}

pub(crate) fn find_in_tier(cs: &Vec<SymbolCandidate>, tier: u8, path: &Vec<char>) -> (r: Option<usize>)
    ensures
        match r {
            Some(i) => i < cs@.len() && first_in_tier(cs@, 0, tier as int, path@) == Some(i as int),
            None => first_in_tier(cs@, 0, tier as int, path@) is None,
        },
{
    let mut i: usize = 0;
    while i < cs.len()
        invariant
            i <= cs.len(),
            first_in_tier(cs@, 0, tier as int, path@) == first_in_tier(
                cs@,
                i as int,
                tier as int,
                path@,
            ),
        decreases cs.len() - i,
    {
        let same = eq_chars(&chars_of(cs[i].path.as_str()), path);
        let call = cs[i].kind == EntityKind::Function || cs[i].kind == EntityKind::Method;
        let holds = if tier == 0 {
            same && call
        } else if tier == 1 {
            call
        } else if tier == 2 {
            same
        } else {
            true
        };
        if holds {
            return Some(i);
        }
        i = i + 1;
    }
    None
}

pub(crate) fn find_entry(index: &Vec<(String, Vec<SymbolCandidate>)>, name: &Vec<char>) -> (r: Option<usize>)
    ensures
        match r {
            Some(k) => k < index@.len() && entry_for(index@, name@, 0) == Some(k as int),
            None => entry_for(index@, name@, 0) is None,
        },
{
    let mut i: usize = 0;
    while i < index.len()
        invariant
            i <= index.len(),
            entry_for(index@, name@, 0) == entry_for(index@, name@, i as int),
        decreases index.len() - i,
    {
        if eq_chars(&chars_of(index[i].0.as_str()), name) {
            return Some(i);
        }
        i = i + 1;
    }
    None
}

/// Handler resolution: a callable in the same file, then a callable
/// anywhere, then any same-file spelling, then the first candidate.
pub fn resolve_handler(
    name: &str,
    path: &str,
    name_index: &Vec<(String, Vec<SymbolCandidate>)>,
) -> (r: Option<SymbolCandidate>)
    ensures
        r == resolved_handler(name_index@, name@, path@),
{
    let Some(k) = find_entry(name_index, &chars_of(name)) else {
        return None;
    };
    let cs = &name_index[k].1;
    let pc = chars_of(path);
    let mut tier: u8 = 0;
    while tier < 4
        invariant
            tier <= 4,
            cs@ == name_index@[k as int].1@,
            pc@ == path@,
            entry_for(name_index@, name@, 0) == Some(k as int),
            forall|t: int| 0 <= t < tier ==> first_in_tier(cs@, 0, t, path@) is None,
        decreases 4 - tier,
    {
        if let Some(i) = find_in_tier(cs, tier, &pc) {
            proof {
                assert(handler_choice(cs@, path@) == Some(i as int));
            }
            return Some(cs[i].duplicate());
        }
        tier = tier + 1;
    }
    proof {
        assert(first_in_tier(cs@, 0, 3, path@) is None);
        if cs@.len() > 0 {
            assert(tier_holds(3, path@, cs@[0]));
        }
    }
    None
}

// ---- recognising axum routes --------------------------------------------------------

/// The axum route shape: `.route(` with a literal path, one of the eight
/// method routers, and an optional handler path as its first argument.
pub const AXUM_ROUTE_PATTERN: &'static str = r#"\.route\(\s*"([^"]+)"\s*,\s*(get|post|put|delete|patch|head|options|trace)\s*\(\s*([A-Za-z_][A-Za-z0-9_]*(?:::[A-Za-z_][A-Za-z0-9_]*)*)?"#;

/// A match that captured the whole call, the path and the method.
pub open spec fn is_route_capture(m: Seq<Option<(usize, usize)>>) -> bool {
    m.len() >= 3 && m[0] is Some && m[1] is Some && m[2] is Some
}

/// The route captures among the first `n` matches, in order.
pub open spec fn route_captures(ms: Seq<Seq<Option<(usize, usize)>>>, n: int) -> Seq<
    Seq<Option<(usize, usize)>>,
>
    decreases n,
{
    if n <= 0 {
        Seq::empty()
    } else if is_route_capture(ms[n - 1]) {
        route_captures(ms, n - 1).push(ms[n - 1])
    } else {
        route_captures(ms, n - 1)
    }
}

/// The text of a Rust file, when the file is Rust and its text was read.
pub open spec fn rust_text(f: ScannedFile, texts: Seq<(String, String)>) -> Option<Seq<char>> {
    if f.language matches Some(l) && l@ == "rust"@ {
        lookup(props_view(texts), f.relative_path@)
    } else {
        None
    }
}

/// The route captures of one file.
pub open spec fn file_route_captures(f: ScannedFile, texts: Seq<(String, String)>) -> Seq<
    Seq<Option<(usize, usize)>>,
> {
    match rust_text(f, texts) {
        Some(t) => {
            let ms = regex_capture_spans(AXUM_ROUTE_PATTERN@, false, t);
            route_captures(ms, ms.len() as int)
        },
        None => Seq::empty(),
    }
}

/// The route captures of the first `n` files, each with its file's position.
pub open spec fn route_sites(files: Seq<ScannedFile>, texts: Seq<(String, String)>, n: int) -> Seq<
    (int, Seq<Option<(usize, usize)>>),
>
    decreases n,
{
    if n <= 0 {
        Seq::empty()
    } else {
        route_sites(files, texts, n - 1) + file_route_captures(files[n - 1], texts).map_values(
            |m: Seq<Option<(usize, usize)>>| (n - 1, m),
        )
    }
}

/// The rightmost start of `::` at or before `i`.
pub open spec fn last_sep(h: Seq<char>, i: int) -> Option<int>
    decreases i + 1,
{
    if i < 0 {
        None
    } else if i + 1 < h.len() && h[i] == ':' && h[i + 1] == ':' {
        Some(i)
    } else {
        last_sep(h, i - 1)
    }
}

/// What follows the last `::` of a path (the whole path when it has none).
pub open spec fn last_segment(h: Seq<char>) -> Seq<char> {
    match last_sep(h, h.len() - 2) {
        Some(i) => h.skip(i + 2),
        None => h,
    }
}

/// `b` is the binding a route capture `m` of `text` (in file `path`) yields.
pub open spec fn binding_from(
    b: RouteBinding,
    path: Seq<char>,
    text: Seq<char>,
    m: Seq<Option<(usize, usize)>>,
) -> bool {
    &&& b.file_path@ == path
    &&& b.start_byte == m[0].unwrap().0
    &&& b.end_byte == m[0].unwrap().1
    &&& b.route_path@ == byte_span(text, m[1].unwrap().0 as nat, m[1].unwrap().1 as nat)
    &&& b.method@ == byte_span(text, m[2].unwrap().0 as nat, m[2].unwrap().1 as nat)
    &&& opt_view(b.handler_name) == if m.len() > 3 && m[3] is Some {
        Some(last_segment(byte_span(text, m[3].unwrap().0 as nat, m[3].unwrap().1 as nat)))
    } else {
        None
    }
    &&& b.start_line == line_at(encode_utf8(text), m[0].unwrap().0 as nat)
    &&& b.end_line == line_at(encode_utf8(text), m[0].unwrap().1 as nat)
}

fn last_segment_of(h: &Vec<char>) -> (r: Vec<char>)
    ensures
        r@ == last_segment(h@),
{
    if h.len() < 2 {
        assert(last_sep(h@, h@.len() - 2) is None);
        return crate::text::slice_vec(h, 0, h.len());
    }
    let n = h.len();
    let mut j: usize = n - 1;
    while j > 0
        invariant
            1 < h@.len(),
            n == h@.len(),
            j < n,
            last_sep(h@, h@.len() - 2) == last_sep(h@, j - 1),
        decreases j,
    {
        if h[j - 1] == ':' && h[j] == ':' {
            return crate::text::slice_vec(h, j + 1, h.len());
        }
        j = j - 1;
    }
    crate::text::slice_vec(h, 0, h.len())
}

fn file_bindings(re: &crate::matching::CompiledRegex, path: &String, text: &String) -> (r: Vec<
    RouteBinding,
>)
    requires
        re.source() == AXUM_ROUTE_PATTERN@,
        !re.folds_case(),
        newline_count(encode_utf8(text@)) < u32::MAX,
    ensures
        ({
            let ms = regex_capture_spans(AXUM_ROUTE_PATTERN@, false, text@);
            let rc = route_captures(ms, ms.len() as int);
            &&& r@.len() == rc.len()
            &&& forall|k: int|
                0 <= k < r@.len() ==> binding_from(#[trigger] r@[k], path@, text@, rc[k])
        }),
{
    let caps = regex_captures(re, text.as_str());
    let ghost ms = regex_capture_spans(AXUM_ROUTE_PATTERN@, false, text@);
    assert(ms.len() == caps@.len());
    let tv = crate::text::chars_of(text.as_str());
    let mut out: Vec<RouteBinding> = Vec::new();
    let mut ci: usize = 0;
    while ci < caps.len()
        invariant
            ci <= caps@.len(),
            ms == regex_capture_spans(AXUM_ROUTE_PATTERN@, false, text@),
            caps@.map_values(|m: Vec<Option<(usize, usize)>>| m@) == ms,
            forall|i: int|
                0 <= i < caps@.len() ==> #[trigger] caps@[i]@.len() >= 1 && caps@[i]@[0] is Some
                    && spans_well_placed(text@, caps@[i]@),
            tv@ == text@,
            newline_count(encode_utf8(text@)) < u32::MAX,
            out@.len() == route_captures(ms, ci as int).len(),
            forall|k: int|
                0 <= k < out@.len() ==> binding_from(
                    #[trigger] out@[k],
                    path@,
                    text@,
                    route_captures(ms, ci as int)[k],
                ),
        decreases caps@.len() - ci,
    {
        let m = &caps[ci];
        assert(ms[ci as int] == m@);
        assert(spans_well_placed(text@, m@));
        let ghost before = route_captures(ms, ci as int);
        if m.len() >= 3 && m[0].is_some() && m[1].is_some() && m[2].is_some() {
            let (s0, e0) = m[0].unwrap();
            let (s1, e1) = m[1].unwrap();
            let (s2, e2) = m[2].unwrap();
            assert(m@[0] is Some && m@[1] is Some && m@[2] is Some);
            let route_path = byte_slice(&tv, s1, e1);
            let method = byte_slice(&tv, s2, e2);
            let handler_name = if m.len() > 3 {
                match m[3] {
                    Some((s3, e3)) => {
                        assert(m@[3] is Some);
                        Some(crate::text::string_of(&last_segment_of(&byte_slice(&tv, s3, e3))))
                    },
                    None => None,
                }
            } else {
                None
            };
            let b = RouteBinding {
                route_path: crate::text::string_of(&route_path),
                method: crate::text::string_of(&method),
                handler_name,
                file_path: copy_string(path),
                start_byte: s0,
                end_byte: e0,
                start_line: line_for_offset(text.as_str(), s0),
                end_line: line_for_offset(text.as_str(), e0),
            };
            out.push(b);
            assert(route_captures(ms, ci + 1) == before.push(ms[ci as int]));
        } else {
            assert(route_captures(ms, ci + 1) == before);
        }
        ci = ci + 1;
    }
    out
}

/// Scans Rust sources for axum `.route(path, method(handler))` bindings:
/// each match of `AXUM_ROUTE_PATTERN` that captured the call, the path and
/// the method gives one binding, files in order and matches in order
/// within a file. The handler is the last `::` segment of the handler
/// path, if one was captured. Files that are not Rust, or whose text is not
/// among `texts`, give none; so does everything when the pattern does not
/// compile.
pub fn axum_routes(files: &Vec<ScannedFile>, texts: &Vec<(String, String)>) -> (r: Vec<RouteBinding>)
    requires
        forall|k: int|
            0 <= k < texts@.len() ==> newline_count(encode_utf8(#[trigger] texts@[k].1@))
                < u32::MAX,
    ensures
        !regex_compiles(AXUM_ROUTE_PATTERN@, false) ==> r@.len() == 0,
        regex_compiles(AXUM_ROUTE_PATTERN@, false) ==> {
            let sites = route_sites(files@, texts@, files@.len() as int);
            &&& r@.len() == sites.len()
            &&& forall|k: int|
                0 <= k < r@.len() ==> binding_from(
                    #[trigger] r@[k],
                    files@[sites[k].0].relative_path@,
                    rust_text(files@[sites[k].0], texts@).unwrap(),
                    sites[k].1,
                )
        },
{
    let Some(re) = compile_regex(AXUM_ROUTE_PATTERN, false) else {
        return Vec::new();
    };
    let mut out: Vec<RouteBinding> = Vec::new();
    let mut fi: usize = 0;
    while fi < files.len()
        invariant
            fi <= files@.len(),
            re.source() == AXUM_ROUTE_PATTERN@,
            !re.folds_case(),
            forall|k: int|
                0 <= k < texts@.len() ==> newline_count(encode_utf8(#[trigger] texts@[k].1@))
                    < u32::MAX,
            out@.len() == route_sites(files@, texts@, fi as int).len(),
            forall|k: int|
                0 <= k < out@.len() ==> {
                    let site = route_sites(files@, texts@, fi as int)[k];
                    binding_from(
                        #[trigger] out@[k],
                        files@[site.0].relative_path@,
                        rust_text(files@[site.0], texts@).unwrap(),
                        site.1,
                    )
                },
        decreases files@.len() - fi,
    {
        let file = &files[fi];
        let ghost before = route_sites(files@, texts@, fi as int);
        let ghost here = file_route_captures(*file, texts@);
        let is_rust = match &file.language {
            Some(l) => crate::text::eq_str(&crate::text::chars_of(l.as_str()), "rust"),
            None => false,
        };
        let text = if is_rust {
            lookup_entry(texts, file.relative_path.as_str())
        } else {
            None
        };
        proof {
            reveal_strlit("rust");
        }
        let mut found: Vec<RouteBinding> = match &text {
            Some(t) => {
                proof {
                    lemma_key_index(props_view(texts@), file.relative_path@);
                    let i = crate::dataflow::key_index(props_view(texts@), file.relative_path@).unwrap();
                    assert(props_view(texts@)[i].1 == texts@[i].1@);
                }
                file_bindings(&re, &file.relative_path, t)
            },
            None => Vec::new(),
        };
        assert(rust_text(*file, texts@) == match text { Some(t) => Some(t@), None => None::<Seq<char>> });
        let ghost added = here.map_values(|m: Seq<Option<(usize, usize)>>| (fi as int, m));
        assert(route_sites(files@, texts@, fi + 1) == before + added);
        let ghost old_out = out@;
        let ghost fv = found@;
        out.append(&mut found);
        assert forall|k: int| 0 <= k < out@.len() implies {
            let site = route_sites(files@, texts@, fi + 1)[k];
            binding_from(
                #[trigger] out@[k],
                files@[site.0].relative_path@,
                rust_text(files@[site.0], texts@).unwrap(),
                site.1,
            )
        } by {
            if k < old_out.len() {
                assert(out@[k] == old_out[k]);
            } else {
                assert(out@[k] == fv[k - old_out.len()]);
            }
        }
        fi = fi + 1;
    }
    out
}

fn binding_address(b: &RouteBinding, repository_id: &str, snapshot_id: &str) -> (r: SourceAddress)
    ensures
        call_site(r, repository_id@, snapshot_id@, *b),
        r.symbol_id is None,
{
    SourceAddress {
        repository_id: string_of(&chars_of(repository_id)),
        snapshot_id: string_of(&chars_of(snapshot_id)),
        path: copy_string(&b.file_path),
        start_byte: b.start_byte as u64,
        end_byte: b.end_byte as u64,
        start_line: b.start_line,
        end_line: b.end_line,
        symbol_id: None,
    }
}

/// Turns route bindings into `Route` entities addressed by their call
/// sites, plus a `RouteHandledBy` edge for each binding whose handler token
/// resolves (see `resolve_handler`). A binding without a resolvable handler
/// still yields its entity.
pub fn emit(
    bindings: &Vec<RouteBinding>,
    repository_id: &str,
    snapshot_id: &str,
    file_regions: &Vec<(String, String)>,
    name_index: &Vec<(String, Vec<SymbolCandidate>)>,
) -> (r: LandmarkEmission)
    ensures
        r.entities@.len() == bindings@.len(),
        forall|k: int|
            0 <= k < bindings@.len() ==> route_entity_of(
                #[trigger] r.entities@[k],
                bindings@[k],
                repository_id@,
                snapshot_id@,
                file_regions@,
            ),
        r.relations@.len() == handled_positions(bindings@, name_index@, bindings@.len() as int).len(),
        forall|k: int|
            0 <= k < r.relations@.len() ==> {
                let p = handled_positions(bindings@, name_index@, bindings@.len() as int)[k];
                route_edge_of(
                    #[trigger] r.relations@[k],
                    bindings@[p],
                    binding_handler(bindings@[p], name_index@).unwrap(),
                    repository_id@,
                    snapshot_id@,
                )
            },
{
    let mut entities: Vec<RouteEntity> = Vec::new();
    let mut relations: Vec<RouteEdge> = Vec::new();
    let mut i: usize = 0;
    while i < bindings.len()
        invariant
            i <= bindings.len(),
            entities@.len() == i,
            forall|k: int|
                0 <= k < i ==> route_entity_of(
                    #[trigger] entities@[k],
                    bindings@[k],
                    repository_id@,
                    snapshot_id@,
                    file_regions@,
                ),
            relations@.len() == handled_positions(bindings@, name_index@, i as int).len(),
            forall|k: int|
                0 <= k < relations@.len() ==> {
                    let p = handled_positions(bindings@, name_index@, i as int)[k];
                    route_edge_of(
                        #[trigger] relations@[k],
                        bindings@[p],
                        binding_handler(bindings@[p], name_index@).unwrap(),
                        repository_id@,
                        snapshot_id@,
                    )
                },
        decreases bindings.len() - i,
    {
        let b = &bindings[i];
        let mut name: Vec<char> = to_uppercase(&chars_of(b.method.as_str()));
        push_str(&mut name, " ");
        push_all(&mut name, &chars_of(b.route_path.as_str()));
        let ghost rn = route_name_of(*b);
        assert(name@ =~= rn);
        let mut disc: Vec<char> = chars_of("route:");
        push_all(&mut disc, &name);
        let mut qualified: Vec<char> = chars_of("axum:");
        push_all(&mut qualified, &name);
        let id = entity_id(
            repository_id,
            b.file_path.as_str(),
            b.start_byte,
            b.end_byte,
            string_of(&disc).as_str(),
        );
        let address = binding_address(b, repository_id, snapshot_id);
        let handler = match &b.handler_name {
            Some(h) => resolve_handler(h.as_str(), b.file_path.as_str(), name_index),
            None => None,
        };
        let ghost before = handled_positions(bindings@, name_index@, i as int);
        match handler {
            Some(target) => {
                let mut evidence = binding_address(b, repository_id, snapshot_id);
                evidence.symbol_id = Some(copy_string(&target.entity_id));
                let rid = relation_id(id.as_str(), target.entity_id.as_str(), "route_handled_by");
                relations.push(
                    RouteEdge {
                        id: rid,
                        source_entity_id: copy_string(&id),
                        target_entity_id: copy_string(&target.entity_id),
                        evidence,
                        route: copy_string(&b.route_path),
                        method: copy_string(&b.method),
                        kind: owned("route_handled_by"),
                        origin: owned("framework_rule"),
                        extractor: owned(AXUM_EXTRACTOR),
                        framework: owned("axum"),
                    },
                );
                assert(handled_positions(bindings@, name_index@, i + 1) == before.push(i as int));
            },
            None => {
                assert(handled_positions(bindings@, name_index@, i + 1) == before);
            },
        }
        entities.push(
            RouteEntity {
                id,
                name: string_of(&name),
                qualified_name: string_of(&qualified),
                region_id: lookup_entry(file_regions, b.file_path.as_str()),
                address,
                route: copy_string(&b.route_path),
                method: copy_string(&b.method),
            },
        );
        i = i + 1;
    }
    LandmarkEmission { entities, relations }
}

} // verus!
