//! File-to-file `Imports` edges: TypeScript/JavaScript and Python relative
//! specifiers, and Rust `mod name;` declarations and `use crate::…` /
//! `use self::…` / `use super::…` paths, each resolved to an indexed file.

use vstd::prelude::*;

use crate::indexing::{digest_id_of, relation_id};
use crate::matching::{
    byte_slice, byte_span, compile_regex, regex_capture_spans, regex_captures, regex_compiles,
    spans_well_placed, CompiledRegex,
};
use crate::relations::{
    crate_root_of, crate_source_root, module_dir_of, normalize_components, normalized_of,
    parent_dir, parent_of, rust_module_dir,
};
use crate::repository::ScannedFile;
use crate::testlinks::{find_key, key_at};
use crate::text::{
    chars_of, copy_string, first_index_of, has_char, is_prefix, join, push_all, push_str,
    slice_vec, string_of, trim, trim_chars, trim_end_all, trim_end_matches, trim_start,
    trim_start_chars, trim_start_all, trim_start_matches,
};

verus! {

/// What kind of specifier an import edge came from; each kind has its own
/// confidence: a relative JS/TS/Python specifier, a Rust `mod` declaration
/// (the compiler requires the file), or a Rust `use` path (whose last
/// segment may name an item rather than a module).
#[derive(Clone, Copy, Debug, PartialEq, Eq, Structural)]
pub enum SpecifierKind {
    Relative,
    ModDeclaration,
    UsePath,
}

/// The extractor id recorded on import edges.
pub const IMPORT_EXTRACTOR: &'static str = "cce-module-import-v2";

/// Relative `from`, `import(` and `require(` specifiers of TypeScript and
/// JavaScript.
pub const JS_IMPORT_PATTERN: &'static str = r#"(?m)(?:from\s+|import\s*\(|require\s*\()\s*["'](\.{1,2}/[^"']+)["']"#;

/// Relative `from .x import` specifiers of Python.
pub const PY_IMPORT_PATTERN: &'static str = r"(?m)^\s*from\s+(\.+[A-Za-z0-9_\.]*)\s+import";

/// Rust `mod name;` declarations.
pub const RUST_MOD_PATTERN: &'static str = r"(?m)^\s*(?:pub(?:\s*\([^)]*\))?\s+)?mod\s+([a-zA-Z_][a-zA-Z0-9_]*)\s*;";

/// Rust `use crate::…`, `use self::…` and `use super::…` items.
pub const RUST_USE_PATTERN: &'static str = r"(?m)^\s*use\s+(crate|self|super)(::[a-zA-Z_][a-zA-Z0-9_]*)+\s*(?:\{[^}]*\})?\s*;";

/// The texts group `g` captured in the first `n` matches that have it.
pub open spec fn group_texts(text: Seq<char>, ms: Seq<Seq<Option<(usize, usize)>>>, g: int, n: int) -> Seq<
    Seq<char>,
>
    decreases n,
{
    if n <= 0 {
        Seq::empty()
    } else {
        group_texts(text, ms, g, n - 1) + if g < ms[n - 1].len() && ms[n - 1][g] is Some {
            seq![byte_span(text, ms[n - 1][g].unwrap().0 as nat, ms[n - 1][g].unwrap().1 as nat)]
        } else {
            Seq::empty()
        }
    }
}

/// The texts group `g` of `pattern` captures in `text` (none when the
/// pattern does not compile).
pub open spec fn captured(pattern: Seq<char>, text: Seq<char>, g: int) -> Seq<Seq<char>> {
    if regex_compiles(pattern, false) {
        let ms = regex_capture_spans(pattern, false, text);
        group_texts(text, ms, g, ms.len() as int)
    } else {
        Seq::empty()
    }
}

/// The module path of a matched `use` item: the text after `use` and
/// before `;`, trimmed, without a grouped `{…}` tail or trailing `:`.
pub open spec fn use_path_of(item: Seq<char>) -> Seq<char> {
    let body = trim(trim_end_all(trim_start_all(trim_start(item), "use"@), ";"@));
    let head = match first_index_of(body, '{') {
        Some(i) => body.take(i),
        None => body,
    };
    trim_end_all(head, ":"@)
}

/// Tags each text with a prefix and a kind.
pub open spec fn tagged(texts: Seq<Seq<char>>, prefix: Seq<char>, kind: SpecifierKind) -> Seq<
    (Seq<char>, SpecifierKind),
> {
    texts.map_values(|t: Seq<char>| (prefix + t, kind))
}

/// The module specifiers of a Rust file: `mod:name` per `mod` declaration,
/// then `use:path` per `use` item.
pub open spec fn rust_specifiers(text: Seq<char>) -> Seq<(Seq<char>, SpecifierKind)> {
    tagged(captured(RUST_MOD_PATTERN@, text, 1), "mod:"@, SpecifierKind::ModDeclaration)
        + captured(RUST_USE_PATTERN@, text, 0).map_values(
        |w: Seq<char>| ("use:"@ + use_path_of(w), SpecifierKind::UsePath),
    )
}

/// The import specifiers of a file in `language`.
pub open spec fn specifiers_of(text: Seq<char>, language: Option<Seq<char>>) -> Seq<
    (Seq<char>, SpecifierKind),
> {
    match language {
        Some(l) => if l == "typescript"@ || l == "tsx"@ || l == "javascript"@ {
            tagged(captured(JS_IMPORT_PATTERN@, text, 1), Seq::empty(), SpecifierKind::Relative)
        } else if l == "python"@ {
            tagged(captured(PY_IMPORT_PATTERN@, text, 1), Seq::empty(), SpecifierKind::Relative)
        } else if l == "rust"@ {
            rust_specifiers(text)
        } else {
            Seq::empty()
        },
        None => Seq::empty(),
    }
}

/// Specifiers by their text and kind.
pub open spec fn specs_view(v: Seq<(String, SpecifierKind)>) -> Seq<(Seq<char>, SpecifierKind)> {
    v.map_values(|s: (String, SpecifierKind)| (s.0@, s.1))
}

fn group_texts_of(pattern: &str, text: &String, g: usize) -> (r: Vec<Vec<char>>)
    ensures
        r@.map_values(|v: Vec<char>| v@) == captured(pattern@, text@, g as int),
{
    let Some(re) = compile_regex(pattern, false) else {
        assert(Seq::<Vec<char>>::empty().map_values(|v: Vec<char>| v@) =~= Seq::empty());
        return Vec::new();
    };
    let caps = regex_captures(&re, text.as_str());
    let ghost ms = regex_capture_spans(pattern@, false, text@);
    assert(ms.len() == caps@.len());
    let tv = chars_of(text.as_str());
    let mut out: Vec<Vec<char>> = Vec::new();
    let mut k: usize = 0;
    assert(out@.map_values(|v: Vec<char>| v@) =~= group_texts(text@, ms, g as int, 0));
    while k < caps.len()
        invariant
            k <= caps@.len(),
            ms == regex_capture_spans(pattern@, false, text@),
            caps@.map_values(|m: Vec<Option<(usize, usize)>>| m@) == ms,
            forall|i: int|
                0 <= i < caps@.len() ==> #[trigger] caps@[i]@.len() >= 1 && caps@[i]@[0] is Some
                    && spans_well_placed(text@, caps@[i]@),
            tv@ == text@,
            out@.map_values(|v: Vec<char>| v@) == group_texts(text@, ms, g as int, k as int),
        decreases caps@.len() - k,
    {
        let m = &caps[k];
        assert(ms[k as int] == m@);
        assert(spans_well_placed(text@, m@));
        let ghost before = out@.map_values(|v: Vec<char>| v@);
        if g < m.len() {
            if let Some((s, e)) = m[g] {
                assert(m@[g as int] is Some);
                let piece = byte_slice(&tv, s, e);
                out.push(piece);
                assert(out@.map_values(|v: Vec<char>| v@) =~= before.push(
                    byte_span(text@, s as nat, e as nat),
                ));
            }
        }
        assert(out@.map_values(|v: Vec<char>| v@) =~= group_texts(
            text@,
            ms,
            g as int,
            k + 1,
        ));
        k = k + 1;
    }
    out
}

fn use_path(item: &Vec<char>) -> (r: Vec<char>)
    ensures
        r@ == use_path_of(item@),
{
    let a = trim_start_chars(item);
    let b = trim_start_matches(&a, "use");
    let c = trim_end_matches(&b, ";");
    let body = trim_chars(&c);
    let head = match crate::text::find_char(&body, '{') {
        Some(i) => slice_vec(&body, 0, i),
        None => slice_vec(&body, 0, body.len()),
    };
    assert(head@ =~= match first_index_of(body@, '{') {
        Some(i) => body@.take(i),
        None => body@,
    });
    trim_end_matches(&head, ":")
}

fn push_tagged(out: &mut Vec<(String, SpecifierKind)>, texts: &Vec<Vec<char>>, prefix: &str, kind: SpecifierKind)
    ensures
        specs_view(final(out)@) == specs_view(old(out)@) + tagged(
            texts@.map_values(|v: Vec<char>| v@),
            prefix@,
            kind,
        ),
{
    let ghost start = specs_view(out@);
    let ghost tv = texts@.map_values(|v: Vec<char>| v@);
    let mut k: usize = 0;
    assert(start + tagged(tv.take(0), prefix@, kind) =~= start);
    while k < texts.len()
        invariant
            k <= texts@.len(),
            tv == texts@.map_values(|v: Vec<char>| v@),
            specs_view(out@) == start + tagged(tv.take(k as int), prefix@, kind),
        decreases texts@.len() - k,
    {
        let mut v = chars_of(prefix);
        push_all(&mut v, &texts[k]);
        let ghost before = specs_view(out@);
        out.push((string_of(&v), kind));
        assert(specs_view(out@) =~= before.push((prefix@ + tv[k as int], kind)));
        assert(tagged(tv.take(k + 1), prefix@, kind) =~= tagged(tv.take(k as int), prefix@, kind).push(
            (prefix@ + tv[k as int], kind),
        ));
        k = k + 1;
    }
    assert(tv.take(texts@.len() as int) =~= tv);
}

/// The import specifiers of a file: relative JS/TS specifiers for
/// `typescript`, `tsx` and `javascript`, relative `from` specifiers for
/// `python`, `mod:` and `use:` specifiers for `rust`, none otherwise.
pub fn import_specifiers(text: &String, language: &Option<String>) -> (r: Vec<(String, SpecifierKind)>)
    ensures
        specs_view(r@) == specifiers_of(
            text@,
            match language {
                Some(l) => Some(l@),
                None => None,
            },
        ),
{
    let mut out: Vec<(String, SpecifierKind)> = Vec::new();
    assert(specs_view(out@) =~= Seq::empty());
    proof {
        reveal_strlit("typescript");
        reveal_strlit("tsx");
        reveal_strlit("javascript");
        reveal_strlit("python");
        reveal_strlit("rust");
        reveal_strlit("");
        assert(""@ =~= Seq::<char>::empty());
    }
    match language {
        Some(l) => {
            let lc = chars_of(l.as_str());
            if crate::text::eq_str(&lc, "typescript") || crate::text::eq_str(&lc, "tsx")
                || crate::text::eq_str(&lc, "javascript") {
                let found = group_texts_of(JS_IMPORT_PATTERN, text, 1);
                push_tagged(&mut out, &found, "", SpecifierKind::Relative);
            } else if crate::text::eq_str(&lc, "python") {
                let found = group_texts_of(PY_IMPORT_PATTERN, text, 1);
                push_tagged(&mut out, &found, "", SpecifierKind::Relative);
            } else if crate::text::eq_str(&lc, "rust") {
                let mods = group_texts_of(RUST_MOD_PATTERN, text, 1);
                push_tagged(&mut out, &mods, "mod:", SpecifierKind::ModDeclaration);
                let uses = group_texts_of(RUST_USE_PATTERN, text, 0);
                let mut paths: Vec<Vec<char>> = Vec::new();
                let ghost uv = uses@.map_values(|v: Vec<char>| v@);
                let mut k: usize = 0;
                while k < uses.len()
                    invariant
                        k <= uses@.len(),
                        uv == uses@.map_values(|v: Vec<char>| v@),
                        paths@.len() == k,
                        forall|a: int| 0 <= a < k ==> #[trigger] paths@[a]@ == use_path_of(uv[a]),
                    decreases uses@.len() - k,
                {
                    paths.push(use_path(&uses[k]));
                    k = k + 1;
                }
                let ghost before = specs_view(out@);
                push_tagged(&mut out, &paths, "use:", SpecifierKind::UsePath);
                assert(tagged(paths@.map_values(|v: Vec<char>| v@), "use:"@, SpecifierKind::UsePath)
                    =~= captured(RUST_USE_PATTERN@, text@, 0).map_values(
                    |w: Seq<char>| ("use:"@ + use_path_of(w), SpecifierKind::UsePath),
                ));
            }
        },
        None => {},
    }
    out
}

// ---- resolution --------------------------------------------------------------------

/// The first of `cands`, from position `i`, that is an indexed path.
pub open spec fn first_indexed(fe: Seq<(String, String)>, cands: Seq<Seq<char>>, i: int) -> Option<
    Seq<char>,
>
    decreases cands.len() - i,
{
    if i < 0 || i >= cands.len() {
        None
    } else if key_at(fe, cands[i], 0) is Some {
        Some(cands[i])
    } else {
        first_indexed(fe, cands, i + 1)
    }
}

/// The pieces of `s` from `start`, cut at each `::` found from `i` on,
/// left to right (`str::split("::")`).
pub open spec fn colon_split(s: Seq<char>, start: int, i: int) -> Seq<Seq<char>>
    decreases s.len() - i,
{
    if i < start || i + 1 >= s.len() {
        seq![s.subrange(start, s.len() as int)]
    } else if s[i] == ':' && s[i + 1] == ':' {
        seq![s.subrange(start, i)] + colon_split(s, i + 2, i + 2)
    } else {
        colon_split(s, start, i + 1)
    }
}

/// A `use` path's segments.
pub open spec fn colon_pieces(s: Seq<char>) -> Seq<Seq<char>> {
    colon_split(s, 0, 0)
}

/// The file a `use` path resolves to under `anchor`: the longest segment
/// prefix that names `anchor/prefix.rs` or `anchor/prefix/mod.rs`.
pub open spec fn use_target(fe: Seq<(String, String)>, anchor: Seq<char>, segs: Seq<Seq<char>>) -> Option<
    Seq<char>,
>
    decreases segs.len(),
{
    if segs.len() == 0 {
        None
    } else {
        let joined = join(segs, "/"@);
        match first_indexed(
            fe,
            seq![anchor + "/"@ + joined + ".rs"@, anchor + "/"@ + joined + "/mod.rs"@],
            0,
        ) {
            Some(p) => Some(p),
            None => use_target(fe, anchor, segs.drop_last()),
        }
    }
}

/// The file a Rust `mod:`/`use:` specifier of `source` resolves to.
pub open spec fn rust_target(source: Seq<char>, spec: Seq<char>, fe: Seq<(String, String)>) -> Option<
    Seq<char>,
> {
    if is_prefix("mod:"@, spec) {
        let name = spec.skip(4);
        let dir = module_dir_of(source);
        first_indexed(fe, seq![dir + "/"@ + name + ".rs"@, dir + "/"@ + name + "/mod.rs"@], 0)
    } else if is_prefix("use:"@, spec) {
        let segs = colon_pieces(spec.skip(4));
        let anchor = if segs[0] == "crate"@ {
            Some(crate_root_of(source))
        } else if segs[0] == "self"@ {
            Some(module_dir_of(source))
        } else if segs[0] == "super"@ {
            Some(parent_of(module_dir_of(source)))
        } else {
            None
        };
        match anchor {
            Some(a) => use_target(fe, a, segs.skip(1)),
            None => None,
        }
    } else {
        None
    }
}

/// `s` with every `.` replaced by `../`.
pub open spec fn dots_to_parents(s: Seq<char>) -> Seq<char>
    decreases s.len(),
{
    if s.len() == 0 {
        Seq::empty()
    } else {
        dots_to_parents(s.drop_last()) + if s.last() == '.' {
            "../"@
        } else {
            seq![s.last()]
        }
    }
}

/// The normalized path a relative specifier of `source` names, before an
/// extension is tried: a bare-dots specifier (Python's `.`, `..`, `.mod`)
/// has each dot read as `../`; the specifier is joined to the source's
/// directory.
pub open spec fn relative_base(source: Seq<char>, spec: Seq<char>) -> Option<Seq<char>> {
    if source.len() == 0 {
        None
    } else {
        let parent = parent_of(source);
        let ns = if is_prefix("."@, spec) && !has_char(spec, '/') {
            trim_end_all(dots_to_parents(spec), "/"@)
        } else {
            spec
        };
        let joined = if ns.len() > 0 && ns[0] == '/' {
            ns
        } else if parent.len() == 0 {
            ns
        } else {
            parent + "/"@ + ns
        };
        normalized_of(joined)
    }
}

/// Extensions a relative specifier is completed with, in order.
pub open spec fn import_extensions() -> Seq<Seq<char>> {
    seq![
        ""@,
        ".ts"@,
        ".tsx"@,
        ".js"@,
        ".jsx"@,
        ".py"@,
        "/index.ts"@,
        "/index.tsx"@,
        "/index.js"@,
    ]
}

/// The file a relative specifier of `source` resolves to.
pub open spec fn relative_target(source: Seq<char>, spec: Seq<char>, fe: Seq<(String, String)>) -> Option<
    Seq<char>,
> {
    match relative_base(source, spec) {
        Some(b) => first_indexed(fe, import_extensions().map_values(|e: Seq<char>| b + e), 0),
        None => None,
    }
}

/// A relative specifier resolves to the first indexed path among its base
/// and the base completed with `.ts`, `.tsx`, `.js`, `.jsx`, `.py`,
/// `/index.ts`, `/index.tsx` and `/index.js`, tried in that order; to
/// nothing when none is indexed or the specifier has no base.
pub proof fn law_relative_imports_try_extensions_in_order(
    source: Seq<char>,
    spec: Seq<char>,
    fe: Seq<(String, String)>,
)
    ensures
        ({
            let ix = |x: Seq<char>| key_at(fe, x, 0) is Some;
            relative_target(source, spec, fe) == match relative_base(source, spec) {
                None => None,
                Some(b) => if ix(b) {
                    Some(b)
                } else if ix(b + ".ts"@) {
                    Some(b + ".ts"@)
                } else if ix(b + ".tsx"@) {
                    Some(b + ".tsx"@)
                } else if ix(b + ".js"@) {
                    Some(b + ".js"@)
                } else if ix(b + ".jsx"@) {
                    Some(b + ".jsx"@)
                } else if ix(b + ".py"@) {
                    Some(b + ".py"@)
                } else if ix(b + "/index.ts"@) {
                    Some(b + "/index.ts"@)
                } else if ix(b + "/index.tsx"@) {
                    Some(b + "/index.tsx"@)
                } else if ix(b + "/index.js"@) {
                    Some(b + "/index.js"@)
                } else {
                    None
                },
            }
        }),
{
    match relative_base(source, spec) {
        None => {},
        Some(b) => {
            let cs = import_extensions().map_values(|e: Seq<char>| b + e);
            assert(cs.len() == 9);
            assert(b + ""@ =~= b) by {
                reveal_strlit("");
            }
            assert(cs[0] == b + ""@);
            assert(cs[1] == b + ".ts"@);
            assert(cs[2] == b + ".tsx"@);
            assert(cs[3] == b + ".js"@);
            assert(cs[4] == b + ".jsx"@);
            assert(cs[5] == b + ".py"@);
            assert(cs[6] == b + "/index.ts"@);
            assert(cs[7] == b + "/index.tsx"@);
            assert(cs[8] == b + "/index.js"@);
            reveal_with_fuel(first_indexed, 10);
        },
    }
}

fn first_indexed_of(fe: &Vec<(String, String)>, cands: &Vec<String>) -> (r: Option<usize>)
    ensures
        match r {
            Some(i) => i < cands@.len() && first_indexed(fe@, cands@.map_values(|c: String| c@), 0)
                == Some(cands@[i as int]@),
            None => first_indexed(fe@, cands@.map_values(|c: String| c@), 0) is None,
        },
{
    let ghost cv = cands@.map_values(|c: String| c@);
    let mut i: usize = 0;
    while i < cands.len()
        invariant
            i <= cands@.len(),
            cv == cands@.map_values(|c: String| c@),
            first_indexed(fe@, cv, 0) == first_indexed(fe@, cv, i as int),
        decreases cands@.len() - i,
    {
        assert(cv[i as int] == cands@[i as int]@);
        if find_key(fe, &cands[i]).is_some() {
            return Some(i);
        }
        i = i + 1;
    }
    None
}

fn two_candidates(dir: &str, name: &str) -> (r: Vec<String>)
    ensures
        r@.map_values(|c: String| c@) == seq![
            dir@ + "/"@ + name@ + ".rs"@,
            dir@ + "/"@ + name@ + "/mod.rs"@,
        ],
{
    let mut a = chars_of(dir);
    push_str(&mut a, "/");
    push_str(&mut a, name);
    let mut b = slice_vec(&a, 0, a.len());
    assert(b@ =~= dir@ + "/"@ + name@);
    push_str(&mut a, ".rs");
    push_str(&mut b, "/mod.rs");
    let mut r: Vec<String> = Vec::new();
    r.push(string_of(&a));
    r.push(string_of(&b));
    assert(r@[0]@ == dir@ + "/"@ + name@ + ".rs"@);
    assert(r@[1]@ == dir@ + "/"@ + name@ + "/mod.rs"@);
    assert(r@.map_values(|c: String| c@) =~= seq![
        dir@ + "/"@ + name@ + ".rs"@,
        dir@ + "/"@ + name@ + "/mod.rs"@,
    ]);
    r
}

fn colon_pieces_of(s: &Vec<char>) -> (r: Vec<Vec<char>>)
    ensures
        r@.map_values(|v: Vec<char>| v@) == colon_pieces(s@),
        r@.len() >= 1,
{
    let mut out: Vec<Vec<char>> = Vec::new();
    let mut start: usize = 0;
    let mut i: usize = 0;
    let n = s.len();
    assert(out@.map_values(|v: Vec<char>| v@) + colon_split(s@, 0, 0) =~= colon_pieces(s@));
    while i < n && i + 1 < n
        invariant
            n == s@.len(),
            start <= i <= n,
            out@.map_values(|v: Vec<char>| v@) + colon_split(s@, start as int, i as int)
                == colon_pieces(s@),
        decreases n - i,
    {
        if s[i] == ':' && s[i + 1] == ':' {
            let ghost before = out@.map_values(|v: Vec<char>| v@);
            out.push(slice_vec(s, start, i));
            assert(out@.map_values(|v: Vec<char>| v@) =~= before.push(s@.subrange(start as int, i as int)));
            assert(out@.map_values(|v: Vec<char>| v@) + colon_split(s@, i + 2, i + 2) =~= before
                + colon_split(s@, start as int, i as int));
            i = i + 2;
            start = i;
        } else {
            i = i + 1;
        }
    }
    let ghost before = out@.map_values(|v: Vec<char>| v@);
    out.push(slice_vec(s, start, n));
    assert(out@.map_values(|v: Vec<char>| v@) =~= before + colon_split(s@, start as int, i as int));
    out
}

fn pick_candidate(fe: &Vec<(String, String)>, cands: &Vec<String>) -> (r: Option<String>)
    ensures
        match r {
            Some(p) => first_indexed(fe@, cands@.map_values(|c: String| c@), 0) == Some(p@),
            None => first_indexed(fe@, cands@.map_values(|c: String| c@), 0) is None,
        },
{
    match first_indexed_of(fe, cands) {
        Some(i) => Some(copy_string(&cands[i])),
        None => None,
    }
}

/// Resolves a Rust `mod:name` or `use:path` specifier of `source_path` to
/// an indexed file: `mod:name` to `name.rs` or `name/mod.rs` in the
/// source's module directory; `use:` paths against the crate source root
/// (`crate`), the module directory (`self`) or its parent (`super`), the
/// longest segment prefix that names a file winning.
pub fn resolve_rust_module(source_path: &str, specifier: &str, file_entities: &Vec<(String, String)>) -> (r:
    Option<String>)
    ensures
        match r {
            Some(p) => rust_target(source_path@, specifier@, file_entities@) == Some(p@),
            None => rust_target(source_path@, specifier@, file_entities@) is None,
        },
{
    let sp = chars_of(specifier);
    proof {
        reveal_strlit("mod:");
        reveal_strlit("use:");
        reveal_strlit("crate");
        reveal_strlit("self");
        reveal_strlit("super");
    }
    if crate::text::starts_with_str(&sp, "mod:") {
        let name = slice_vec(&sp, 4, sp.len());
        assert(name@ =~= specifier@.skip(4));
        let dir = rust_module_dir(source_path);
        let cands = two_candidates(dir.as_str(), string_of(&name).as_str());
        return pick_candidate(file_entities, &cands);
    }
    if !crate::text::starts_with_str(&sp, "use:") {
        return None;
    }
    let tail = slice_vec(&sp, 4, sp.len());
    assert(tail@ =~= specifier@.skip(4));
    let segs = colon_pieces_of(&tail);
    let ghost sv = colon_pieces(specifier@.skip(4));
    assert(segs@[0]@ == sv[0]);
    let first = &segs[0];
    let anchor = if crate::text::eq_str(first, "crate") {
        crate_source_root(source_path)
    } else if crate::text::eq_str(first, "self") {
        rust_module_dir(source_path)
    } else if crate::text::eq_str(first, "super") {
        parent_dir(rust_module_dir(source_path).as_str())
    } else {
        return None;
    };
    let mut rest: Vec<Vec<char>> = Vec::new();
    let mut k: usize = 1;
    while k < segs.len()
        invariant
            1 <= k <= segs@.len(),
            rest@.map_values(|v: Vec<char>| v@) == segs@.map_values(|v: Vec<char>| v@).subrange(
                1,
                k as int,
            ),
        decreases segs@.len() - k,
    {
        let ghost before = rest@.map_values(|v: Vec<char>| v@);
        assert(segs@.map_values(|v: Vec<char>| v@)[k as int] == segs@[k as int]@);
        let piece = slice_vec(&segs[k], 0, segs[k].len());
        assert(piece@ =~= segs@[k as int]@);
        let ghost pv = piece@;
        rest.push(piece);
        assert(rest@.map_values(|v: Vec<char>| v@) =~= before.push(pv));
        assert(rest@.map_values(|v: Vec<char>| v@) =~= segs@.map_values(|v: Vec<char>| v@).subrange(
            1,
            k + 1,
        ));
        k = k + 1;
    }
    assert(rest@.map_values(|v: Vec<char>| v@) =~= sv.skip(1));
    assert(rust_target(source_path@, specifier@, file_entities@) == use_target(
        file_entities@,
        anchor@,
        sv.skip(1),
    ));
    while rest.len() > 0
        invariant
            rust_target(source_path@, specifier@, file_entities@) == use_target(
                file_entities@,
                anchor@,
                sv.skip(1),
            ),
            use_target(file_entities@, anchor@, sv.skip(1)) == use_target(
                file_entities@,
                anchor@,
                rest@.map_values(|v: Vec<char>| v@),
            ),
        decreases rest@.len(),
    {
        let joined = crate::text::join_chars(&rest, "/");
        let cands = two_candidates(anchor.as_str(), string_of(&joined).as_str());
        if let Some(p) = pick_candidate(file_entities, &cands) {
            return Some(p);
        }
        let ghost before = rest@.map_values(|v: Vec<char>| v@);
        rest.pop();
        assert(rest@.map_values(|v: Vec<char>| v@) =~= before.drop_last());
    }
    None
}

fn dots_exec(s: &Vec<char>) -> (r: Vec<char>)
    ensures
        r@ == dots_to_parents(s@),
{
    let mut out: Vec<char> = Vec::new();
    let mut k: usize = 0;
    while k < s.len()
        invariant
            k <= s@.len(),
            out@ == dots_to_parents(s@.take(k as int)),
        decreases s@.len() - k,
    {
        assert(s@.take(k + 1).drop_last() =~= s@.take(k as int));
        if s[k] == '.' {
            push_str(&mut out, "../");
        } else {
            out.push(s[k]);
        }
        k = k + 1;
    }
    assert(s@.take(s@.len() as int) =~= s@);
    out
}

fn with_suffix(base: &String, ext: &str) -> (r: String)
    ensures
        r@ == base@ + ext@,
{
    let mut v = chars_of(base.as_str());
    push_str(&mut v, ext);
    string_of(&v)
}

/// Resolves a relative specifier of `source_path` to an indexed file: the
/// specifier (a bare-dots one with each dot read as `../`) joined to the
/// source's directory and normalized, then completed with the first of
/// `import_extensions` that gives an indexed path.
pub fn resolve_relative_import(source_path: &str, specifier: &str, file_entities: &Vec<(String, String)>)
    -> (r: Option<String>)
    ensures
        match r {
            Some(p) => relative_target(source_path@, specifier@, file_entities@) == Some(p@),
            None => relative_target(source_path@, specifier@, file_entities@) is None,
        },
{
    let src = chars_of(source_path);
    if src.len() == 0 {
        return None;
    }
    let parent = chars_of(parent_dir(source_path).as_str());
    let sp = chars_of(specifier);
    proof {
        reveal_strlit(".");
    }
    let ns = if crate::text::starts_with_str(&sp, ".") && !crate::text::contains_char(&sp, '/') {
        trim_end_matches(&dots_exec(&sp), "/")
    } else {
        sp
    };
    let joined = if ns.len() > 0 && ns[0] == '/' {
        ns
    } else if parent.len() == 0 {
        ns
    } else {
        let mut j = slice_vec(&parent, 0, parent.len());
        push_str(&mut j, "/");
        push_all(&mut j, &ns);
        assert(j@ =~= parent@ + "/"@ + ns@);
        j
    };
    let Some(base) = normalize_components(string_of(&joined).as_str()) else {
        return None;
    };
    let mut cands: Vec<String> = Vec::new();
    cands.push(with_suffix(&base, ""));
    cands.push(with_suffix(&base, ".ts"));
    cands.push(with_suffix(&base, ".tsx"));
    cands.push(with_suffix(&base, ".js"));
    cands.push(with_suffix(&base, ".jsx"));
    cands.push(with_suffix(&base, ".py"));
    cands.push(with_suffix(&base, "/index.ts"));
    cands.push(with_suffix(&base, "/index.tsx"));
    cands.push(with_suffix(&base, "/index.js"));
    assert(cands@.map_values(|c: String| c@) =~= import_extensions().map_values(
        |e: Seq<char>| base@ + e,
    ));
    pick_candidate(file_entities, &cands)
}

// ---- the edges ---------------------------------------------------------------------

/// A file-to-file `Imports` edge.
#[derive(Debug)]
pub struct ImportEdge {
    pub id: String,
    pub source_entity_id: String,
    pub target_entity_id: String,
    pub specifier: String,
    pub kind: SpecifierKind,
}

/// A language by its name.
pub open spec fn lang_view(l: Option<String>) -> Option<Seq<char>> {
    match l {
        Some(s) => Some(s@),
        None => None,
    }
}

/// The file a specifier of `f` resolves to: Rust module resolution for Rust
/// files, relative resolution for the rest.
pub open spec fn import_target(f: ScannedFile, spec: Seq<char>, fe: Seq<(String, String)>) -> Option<
    Seq<char>,
> {
    if f.language matches Some(l) && l@ == "rust"@ {
        rust_target(f.relative_path@, spec, fe)
    } else {
        relative_target(f.relative_path@, spec, fe)
    }
}

/// The resolved specifiers among the first `n`, each with its target's id.
pub open spec fn import_items(
    f: ScannedFile,
    fe: Seq<(String, String)>,
    specs: Seq<(Seq<char>, SpecifierKind)>,
    n: int,
) -> Seq<(Seq<char>, (Seq<char>, SpecifierKind))>
    decreases n,
{
    if n <= 0 {
        Seq::empty()
    } else {
        import_items(f, fe, specs, n - 1) + match import_target(f, specs[n - 1].0, fe) {
            Some(tp) => match key_at(fe, tp, 0) {
                Some(k) => seq![(fe[k].1@, specs[n - 1])],
                None => Seq::empty(),
            },
            None => Seq::empty(),
        }
    }
}

/// A file's import edges, by target id and specifier, in specifier order;
/// none unless the file has an entity and a text.
pub open spec fn file_imports(f: ScannedFile, fe: Seq<(String, String)>, texts: Seq<(String, String)>) -> Seq<
    (Seq<char>, (Seq<char>, SpecifierKind)),
> {
    match (key_at(fe, f.relative_path@, 0), key_at(texts, f.relative_path@, 0)) {
        (Some(_), Some(t)) => {
            let specs = specifiers_of(texts[t].1@, lang_view(f.language));
            import_items(f, fe, specs, specs.len() as int)
        },
        _ => Seq::empty(),
    }
}

/// Import edges of the first `n` files, each with its file's position.
pub open spec fn import_sites(
    files: Seq<ScannedFile>,
    fe: Seq<(String, String)>,
    texts: Seq<(String, String)>,
    n: int,
) -> Seq<(int, (Seq<char>, (Seq<char>, SpecifierKind)))>
    decreases n,
{
    if n <= 0 {
        Seq::empty()
    } else {
        import_sites(files, fe, texts, n - 1) + file_imports(files[n - 1], fe, texts).map_values(
            |it: (Seq<char>, (Seq<char>, SpecifierKind))| (n - 1, it),
        )
    }
}

/// `e` is the import edge of item `it` of file `f`.
pub open spec fn import_edge_of(
    e: ImportEdge,
    f: ScannedFile,
    fe: Seq<(String, String)>,
    it: (Seq<char>, (Seq<char>, SpecifierKind)),
) -> bool {
    let source = fe[key_at(fe, f.relative_path@, 0).unwrap()].1@;
    &&& e.source_entity_id@ == source
    &&& e.target_entity_id@ == it.0
    &&& e.specifier@ == it.1.0
    &&& e.kind == it.1.1
    &&& e.id@ == digest_id_of("rel"@, seq![source, it.0, "imports"@])
}

/// `Imports` edges: for each file with an entity and a text, each of its
/// specifiers (`import_specifiers`) that resolves to an indexed file
/// (`resolve_rust_module` for Rust, `resolve_relative_import` otherwise)
/// gives an edge from the file to that file, in specifier order.
pub fn import_edges(files: &Vec<ScannedFile>, texts: &Vec<(String, String)>, file_entities: &Vec<(String, String)>) -> (r:
    Vec<ImportEdge>)
    ensures
        ({
            let sites = import_sites(files@, file_entities@, texts@, files@.len() as int);
            &&& r@.len() == sites.len()
            &&& forall|k: int|
                0 <= k < r@.len() ==> import_edge_of(
                    #[trigger] r@[k],
                    files@[sites[k].0],
                    file_entities@,
                    sites[k].1,
                )
        }),
{
    let mut out: Vec<ImportEdge> = Vec::new();
    let mut i: usize = 0;
    proof {
        reveal_strlit("rust");
    }
    while i < files.len()
        invariant
            i <= files@.len(),
            ({
                let sites = import_sites(files@, file_entities@, texts@, i as int);
                &&& out@.len() == sites.len()
                &&& forall|k: int|
                    0 <= k < out@.len() ==> import_edge_of(
                        #[trigger] out@[k],
                        files@[sites[k].0],
                        file_entities@,
                        sites[k].1,
                    )
            }),
        decreases files@.len() - i,
    {
        let f = &files[i];
        let path = &f.relative_path;
        let ghost before = import_sites(files@, file_entities@, texts@, i as int);
        let ghost here = file_imports(*f, file_entities@, texts@);
        let ghost o0 = out@;
        match (find_key(file_entities, path), find_key(texts, path)) {
            (Some(e), Some(t)) => {
                let source = &file_entities[e].1;
                let specs = import_specifiers(&texts[t].1, &f.language);
                let ghost sv = specs_view(specs@);
                let is_rust = match &f.language {
                    Some(l) => crate::text::eq_str(&chars_of(l.as_str()), "rust"),
                    None => false,
                };
                assert(import_items(*f, file_entities@, sv, 0) =~= Seq::empty());
                let mut k: usize = 0;
                while k < specs.len()
                    invariant
                        k <= specs@.len(),
                        sv == specs_view(specs@),
                        here == import_items(*f, file_entities@, sv, sv.len() as int),
                        is_rust == (f.language matches Some(l) && l@ == "rust"@),
                        e < file_entities@.len(),
                        key_at(file_entities@, f.relative_path@, 0) == Some(e as int),
                        *source == file_entities@[e as int].1,
                        *path == f.relative_path,
                        out@.len() == o0.len() + import_items(*f, file_entities@, sv, k as int).len(),
                        forall|a: int| 0 <= a < o0.len() ==> out@[a] == o0[a],
                        forall|a: int|
                            o0.len() <= a < out@.len() ==> import_edge_of(
                                #[trigger] out@[a],
                                *f,
                                file_entities@,
                                import_items(*f, file_entities@, sv, k as int)[a - o0.len()],
                            ),
                    decreases specs@.len() - k,
                {
                    let spec = &specs[k].0;
                    let target = if is_rust {
                        resolve_rust_module(path.as_str(), spec.as_str(), file_entities)
                    } else {
                        resolve_relative_import(path.as_str(), spec.as_str(), file_entities)
                    };
                    assert(sv[k as int] == (spec@, specs@[k as int].1));
                    let ghost items0 = import_items(*f, file_entities@, sv, k as int);
                    let ghost o1 = out@;
                    if let Some(tp) = target {
                        if let Some(q) = find_key(file_entities, &tp) {
                            let edge = ImportEdge {
                                id: relation_id(source.as_str(), file_entities[q].1.as_str(), "imports"),
                                source_entity_id: copy_string(source),
                                target_entity_id: copy_string(&file_entities[q].1),
                                specifier: copy_string(spec),
                                kind: specs[k].1,
                            };
                            out.push(edge);
                            assert(import_items(*f, file_entities@, sv, k + 1) == items0.push(
                                (file_entities@[q as int].1@, sv[k as int]),
                            ));
                        } else {
                            assert(import_items(*f, file_entities@, sv, k + 1) == items0);
                        }
                    } else {
                        assert(import_items(*f, file_entities@, sv, k + 1) == items0);
                    }
                    assert forall|a: int| o0.len() <= a < out@.len() implies import_edge_of(
                        #[trigger] out@[a],
                        *f,
                        file_entities@,
                        import_items(*f, file_entities@, sv, k + 1)[a - o0.len()],
                    ) by {
                        if a < o1.len() {
                            assert(out@[a] == o1[a]);
                        }
                    }
                    k = k + 1;
                }
                proof {
                    let sites = import_sites(files@, file_entities@, texts@, i + 1);
                    assert(sites =~= before + here.map_values(
                        |it: (Seq<char>, (Seq<char>, SpecifierKind))| (i as int, it),
                    ));
                    assert forall|k: int| 0 <= k < out@.len() implies import_edge_of(
                        #[trigger] out@[k],
                        files@[sites[k].0],
                        file_entities@,
                        sites[k].1,
                    ) by {
                        if k < o0.len() {
                            assert(out@[k] == o0[k]);
                            assert(sites[k] == before[k]);
                        } else {
                            assert(sites[k] == (i as int, here[k - o0.len()]));
                        }
                    }
                }
            },
            _ => {
                proof {
                    let sites = import_sites(files@, file_entities@, texts@, i + 1);
                    assert(sites =~= before);
                }
            },
        }
        i = i + 1;
    }
    out
}

} // verus!
