//! Path arithmetic behind derived relations: Rust module directories and
//! crate roots, `.`/`..` normalization, and test-file naming conventions.

use vstd::prelude::*;
use vstd::hash_map::StringHashMap;
use crate::ignore::final_component;
use crate::text::{
    chars_of, contains_seq, copy_string, first_index_of, has_char, is_prefix, is_suffix, join, last_index_of,
    owned, push_all, push_str, slice_vec, split, split_on, string_of, unicode_alphanumeric,
    Separator,
};

verus! {

/// Text before the last `/`, or empty when there is none.
pub open spec fn parent_of(path: Seq<char>) -> Seq<char> {
    match last_index_of(path, '/') {
        Some(i) => path.take(i),
        None => Seq::empty(),
    }
}

/// The parent directory of a `/`-separated path (empty at top level).
pub fn parent_dir(path: &str) -> (r: String)
    ensures
        r@ == parent_of(path@),
{
    let p = chars_of(path);
    match crate::text::rfind_char(&p, '/') {
        Some(i) => string_of(&slice_vec(&p, 0, i)),
        None => string_of(&Vec::new()),
    }
}

/// `s` without any number of trailing `.rs` (`trim_end_matches`).
pub open spec fn trim_rs(s: Seq<char>) -> Seq<char>
    decreases s.len(),
{
    if s.len() >= 3 && is_suffix(".rs"@, s) {
        trim_rs(s.take(s.len() - 3))
    } else {
        s
    }
}

/// The directory a Rust file's `mod`/`self` declarations resolve against:
/// `a/b.rs` owns `a/b`; `a/mod.rs`, `a/lib.rs`, `a/main.rs` own `a`.
pub open spec fn module_dir_of(source: Seq<char>) -> Seq<char> {
    if is_suffix("/mod.rs"@, source) || is_suffix("/lib.rs"@, source) || is_suffix(
        "/main.rs"@,
        source,
    ) {
        parent_of(source)
    } else {
        trim_rs(source)
    }
}

/// The module directory of a Rust source path.
pub fn rust_module_dir(source_path: &str) -> (r: String)
    ensures
        r@ == module_dir_of(source_path@),
{
    let p = chars_of(source_path);
    if crate::text::ends_with_str(&p, "/mod.rs") || crate::text::ends_with_str(&p, "/lib.rs")
        || crate::text::ends_with_str(&p, "/main.rs") {
        return parent_dir(source_path);
    }
    proof {
        reveal_strlit(".rs");
    }
    let mut end = p.len();
    assert(p@.take(end as int) =~= p@);
    while end >= 3 && crate::text::ends_with_str(&slice_vec(&p, 0, end), ".rs")
        invariant
            end <= p@.len(),
            p@ == source_path@,
            trim_rs(p@) == trim_rs(p@.take(end as int)),
        decreases end,
    {
        assert(p@.take(end as int).take(end - 3) =~= p@.take(end - 3));
        end = end - 3;
    }
    assert(p@.take(p@.len() as int) =~= p@);
    string_of(&slice_vec(&p, 0, end))
}

/// Crate source root for `crate::` resolution: the path up to the nearest
/// `/src` directory, `src` for a top-level `src/` path, else the parent
/// directory.
pub open spec fn crate_root_of(source: Seq<char>) -> Seq<char> {
    if contains_seq(source, "/src/"@) {
        let i = choose|i: int|
            crate::text::occurs_at(source, "/src/"@, i) && forall|j: int|
                0 <= j < i ==> !crate::text::occurs_at(source, "/src/"@, j);
        source.take(i + 4)
    } else if is_prefix("src/"@, source) {
        "src"@
    } else {
        parent_of(source)
    }
}

/// The crate source root of a path.
pub fn crate_source_root(source_path: &str) -> (r: String)
    ensures
        r@ == crate_root_of(source_path@),
{
    let p = chars_of(source_path);
    let marker = chars_of("/src/");
    proof {
        reveal_strlit("/src/");
    }
    match crate::text::find(&p, &marker) {
        Some(i) => {
            assert(marker@.len() == 5);
            let plen = p.len();
            assert(i + 5 <= plen);
            proof {
                assert(crate::text::occurs_at(p@, "/src/"@, i as int) && forall|j: int|
                    0 <= j < i ==> !crate::text::occurs_at(p@, "/src/"@, j));
                let k = choose|k: int|
                    crate::text::occurs_at(p@, "/src/"@, k) && forall|j: int|
                        0 <= j < k ==> !crate::text::occurs_at(p@, "/src/"@, j);
                if k < i {
                } else if k > i {
                }
                assert(k == i);
            }
            string_of(&slice_vec(&p, 0, i + 4))
        },
        None => {
            if crate::text::starts_with_str(&p, "src/") {
                owned("src")
            } else {
                parent_dir(source_path)
            }
        },
    }
}

/// Components of a relative path with `.` dropped and `..` popping the
/// previous one; `None` when `..` pops past the start.
pub open spec fn normalize_parts(parts: Seq<Seq<char>>) -> Option<Seq<Seq<char>>>
    decreases parts.len(),
{
    if parts.len() == 0 {
        Some(Seq::empty())
    } else {
        match normalize_parts(parts.drop_last()) {
            None => None,
            Some(prev) => {
                let c = parts.last();
                if c.len() == 0 || c == "."@ {
                    Some(prev)
                } else if c == ".."@ {
                    if prev.len() == 0 {
                        None
                    } else {
                        Some(prev.drop_last())
                    }
                } else {
                    Some(prev.push(c))
                }
            },
        }
    }
}

proof fn lemma_normalize_none_stays(parts: Seq<Seq<char>>, k: int)
    requires
        0 <= k <= parts.len(),
        normalize_parts(parts.take(k)) is None,
    ensures
        normalize_parts(parts) is None,
    decreases parts.len() - k,
{
    if k < parts.len() {
        assert(parts.take(k + 1).drop_last() =~= parts.take(k));
        lemma_normalize_none_stays(parts, k + 1);
    } else {
        assert(parts.take(k) =~= parts);
    }
}

/// A relative path normalized: `None` for an absolute path or a `..`
/// above the start, else the remaining components joined by `/`.
pub open spec fn normalized_of(path: Seq<char>) -> Option<Seq<char>> {
    if path.len() > 0 && path[0] == '/' {
        None
    } else {
        match normalize_parts(split_on(path, Separator::Char('/'))) {
            Some(parts) => Some(join(parts, "/"@)),
            None => None,
        }
    }
}

/// Resolves `.` and `..` components of a relative path.
pub fn normalize_components(path: &str) -> (r: Option<String>)
    ensures
        match r {
            Some(s) => normalized_of(path@) == Some(s@),
            None => normalized_of(path@) is None,
        },
{
    let p = chars_of(path);
    if p.len() > 0 && p[0] == '/' {
        return None;
    }
    let parts = split(&p, Separator::Char('/'));
    let ghost ps = split_on(path@, Separator::Char('/'));
    assert(parts@.map_values(|v: Vec<char>| v@) =~= ps);
    let mut kept: Vec<Vec<char>> = Vec::new();
    for i in 0..parts.len()
        invariant
            parts@.map_values(|v: Vec<char>| v@) == ps,
            ps == split_on(path@, Separator::Char('/')),
            !(path@.len() > 0 && path@[0] == '/'),
            normalize_parts(ps.take(i as int)) == Some(kept@.map_values(|v: Vec<char>| v@)),
    {
        let c = &parts[i];
        assert(ps.take(i + 1).drop_last() =~= ps.take(i as int));
        assert(ps.take(i + 1).last() == c@);
        if c.len() == 0 || crate::text::eq_str(c, ".") {
        } else if crate::text::eq_str(c, "..") {
            if kept.len() == 0 {
                proof {
                    assert(c@ == ".."@);
                    assert(c@.len() != 0 && c@ != "."@);
                    assert(normalize_parts(ps.take(i + 1)) is None);
                    lemma_normalize_none_stays(ps, i + 1);
                }
                return None;
            }
            let ghost before = kept@;
            kept.pop();
            assert(kept@.map_values(|v: Vec<char>| v@) =~= before.map_values(
                |v: Vec<char>| v@,
            ).drop_last());
        } else {
            let ghost before = kept@;
            let copy = slice_vec(c, 0, c.len());
            assert(copy@ =~= c@);
            kept.push(copy);
            assert(kept@.map_values(|v: Vec<char>| v@) =~= before.map_values(|v: Vec<char>| v@).push(
                c@,
            ));
        }
    }
    assert(ps.take(parts.len() as int) =~= ps);
    Some(string_of(&crate::text::join_chars(&kept, "/")))
}

/// The last `/` component of a path.
pub fn basename(path: &str) -> (r: String)
    ensures
        r@ == final_component(path@),
{
    let p = chars_of(path);
    match crate::text::rfind_char(&p, '/') {
        Some(i) => string_of(&slice_vec(&p, i + 1, p.len())),
        None => string_of(&p),
    }
}

/// A path with a `tests`, `test`, `__tests__` or `spec` component.
pub open spec fn test_path(path: Seq<char>) -> bool {
    exists|k: int|
        0 <= k < split_on(path, Separator::Char('/')).len() && {
            let c = #[trigger] split_on(path, Separator::Char('/'))[k];
            c == "tests"@ || c == "test"@ || c == "__tests__"@ || c == "spec"@
        }
}

/// Whether a path lies under a test directory.
pub fn is_test_path(path: &str) -> (r: bool)
    ensures
        r == test_path(path@),
{
    let parts = split(&chars_of(path), Separator::Char('/'));
    for k in 0..parts.len()
        invariant
            parts@.len() == split_on(path@, Separator::Char('/')).len(),
            forall|j: int|
                0 <= j < parts@.len() ==> #[trigger] parts@[j]@ == split_on(
                    path@,
                    Separator::Char('/'),
                )[j],
            forall|j: int|
                0 <= j < k ==> {
                    let c = #[trigger] split_on(path@, Separator::Char('/'))[j];
                    !(c == "tests"@ || c == "test"@ || c == "__tests__"@ || c == "spec"@)
                },
    {
        let c = &parts[k];
        if crate::text::eq_str(c, "tests") || crate::text::eq_str(c, "test")
            || crate::text::eq_str(c, "__tests__") || crate::text::eq_str(c, "spec") {
            assert(parts@[k as int]@ == split_on(path@, Separator::Char('/'))[k as int]);
            return true;
        }
    }
    false
}

/// The name without a `test_` prefix, else a `_test` suffix, else a
/// `test` prefix.
pub open spec fn test_affix_raw(name: Seq<char>) -> Option<Seq<char>> {
    if is_prefix("test_"@, name) {
        Some(name.skip(5))
    } else if is_suffix("_test"@, name) {
        Some(name.take(name.len() - 5))
    } else if is_prefix("test"@, name) {
        Some(name.skip(4))
    } else {
        None
    }
}

/// The name without its test affix, kept only when something
/// alphanumeric remains.
pub open spec fn test_affix_stripped(name: Seq<char>) -> Option<Seq<char>> {
    match test_affix_raw(name) {
        Some(s) => if s.len() > 0 && exists|i: int| 0 <= i < s.len() && unicode_alphanumeric(
            #[trigger] s[i],
        ) {
            Some(s)
        } else {
            None
        },
        None => None,
    }
}

/// Strips a test naming affix from a symbol name.
pub fn strip_test_affix(name: &str) -> (r: Option<String>)
    ensures
        match r {
            Some(s) => test_affix_stripped(name@) == Some(s@),
            None => test_affix_stripped(name@) is None,
        },
{
    let n = chars_of(name);
    proof {
        reveal_strlit("test_");
        reveal_strlit("_test");
        reveal_strlit("test");
    }
    let stripped = if crate::text::starts_with_str(&n, "test_") {
        let s = slice_vec(&n, 5, n.len());
        assert(s@ =~= name@.skip(5));
        Some(s)
    } else if crate::text::ends_with_str(&n, "_test") {
        let s = slice_vec(&n, 0, n.len() - 5);
        assert(s@ =~= name@.take(name@.len() - 5));
        Some(s)
    } else if crate::text::starts_with_str(&n, "test") {
        let s = slice_vec(&n, 4, n.len());
        assert(s@ =~= name@.skip(4));
        Some(s)
    } else {
        None
    };
    match stripped {
        Some(s) => {
            if s.len() == 0 {
                return None;
            }
            for i in 0..s.len()
                invariant
                    test_affix_raw(name@) == Some(s@),
                    forall|j: int| 0 <= j < i ==> !unicode_alphanumeric(#[trigger] s@[j]),
            {
                if crate::text::is_alphanumeric(s[i]) {
                    assert(unicode_alphanumeric(s@[i as int]));
                    return Some(string_of(&s));
                }
            }
            None
        },
        None => None,
    }
}

/// The directory part of a path, with its trailing `/`.
pub open spec fn test_dir_of(path: Seq<char>) -> Seq<char> {
    match last_index_of(path, '/') {
        Some(i) => path.take(i + 1),
        None => Seq::empty(),
    }
}

/// The file name of a path without its last extension.
pub open spec fn test_stem_of(path: Seq<char>) -> Seq<char> {
    let name = match last_index_of(path, '/') {
        Some(i) => path.skip(i + 1),
        None => path,
    };
    match last_index_of(name, '.') {
        Some(i) => name.take(i),
        None => name,
    }
}

fn split_test_name(path: &str) -> (r: (Vec<char>, Vec<char>))
    ensures
        r.0@ == test_dir_of(path@),
        r.1@ == test_stem_of(path@),
{
    let p = chars_of(path);
    let (dir, name) = match crate::text::rfind_char(&p, '/') {
        Some(i) => (slice_vec(&p, 0, i + 1), slice_vec(&p, i + 1, p.len())),
        None => (Vec::new(), slice_vec(&p, 0, p.len())),
    };
    let ghost sname = match last_index_of(path@, '/') {
        Some(i) => path@.skip(i + 1),
        None => path@,
    };
    assert(dir@ =~= test_dir_of(path@));
    assert(name@ =~= sname);
    let stem = match crate::text::rfind_char(&name, '.') {
        Some(i) => slice_vec(&name, 0, i),
        None => slice_vec(&name, 0, name.len()),
    };
    assert(stem@ =~= test_stem_of(path@));
    (dir, stem)
}

/// Candidate source paths of a test file: `x.test.ts`/`x.spec.ts` (and
/// the other JS/TS extensions) map to `x.ts`, `x.tsx`, `x.js`, `x.jsx`;
/// `test_x` to `x.py` and `x.rs`; `x_test` to `x.go` and `x.rs`. The stem
/// is the file name without its last extension.
pub open spec fn test_targets_of(path: Seq<char>) -> Seq<Seq<char>> {
    let dir = test_dir_of(path);
    let stem = test_stem_of(path);
    let js = seq![".ts"@, ".tsx"@, ".js"@, ".jsx"@];
    let dotted = |suffix: Seq<char>|
        if is_suffix(suffix, stem) {
            js.map_values(|e: Seq<char>| dir + stem.take(stem.len() - suffix.len()) + e)
        } else {
            Seq::empty()
        };
    let prefixed = if is_prefix("test_"@, stem) {
        seq![dir + stem.skip(5) + ".py"@, dir + stem.skip(5) + ".rs"@]
    } else {
        Seq::empty()
    };
    let suffixed = if is_suffix("_test"@, stem) {
        seq![dir + stem.take(stem.len() - 5) + ".go"@, dir + stem.take(stem.len() - 5) + ".rs"@]
    } else {
        Seq::empty()
    };
    dotted(".test"@) + dotted(".spec"@) + prefixed + suffixed
}

fn push_target(targets: &mut Vec<String>, dir: &Vec<char>, base: &Vec<char>, ext: &str)
    ensures
        final(targets)@.map_values(|s: String| s@) == old(targets)@.map_values(|s: String| s@).push(
            dir@ + base@ + ext@,
        ),
{
    let mut v: Vec<char> = Vec::new();
    push_all(&mut v, dir);
    push_all(&mut v, base);
    push_str(&mut v, ext);
    let ghost before = targets@;
    targets.push(string_of(&v));
    assert(targets@.map_values(|s: String| s@) =~= before.map_values(|s: String| s@).push(
        dir@ + base@ + ext@,
    ));
}

fn push_js_targets(targets: &mut Vec<String>, dir: &Vec<char>, base: &Vec<char>)
    ensures
        final(targets)@.map_values(|s: String| s@) == old(targets)@.map_values(|s: String| s@) + seq![
            ".ts"@,
            ".tsx"@,
            ".js"@,
            ".jsx"@,
        ].map_values(|e: Seq<char>| dir@ + base@ + e),
{
    let ghost start = targets@.map_values(|s: String| s@);
    push_target(targets, dir, base, ".ts");
    push_target(targets, dir, base, ".tsx");
    push_target(targets, dir, base, ".js");
    push_target(targets, dir, base, ".jsx");
    assert(targets@.map_values(|s: String| s@) =~= start + seq![".ts"@, ".tsx"@, ".js"@, ".jsx"@].map_values(
        |e: Seq<char>| dir@ + base@ + e,
    ));
}

/// Candidate source paths for a test file's target.
pub fn test_target_paths(path: &str) -> (r: Vec<String>)
    ensures
        r@.map_values(|s: String| s@) == test_targets_of(path@),
{
    let (dir, stem_v) = split_test_name(path);
    proof {
        reveal_strlit(".test");
        reveal_strlit(".spec");
        reveal_strlit("test_");
        reveal_strlit("_test");
    }
    let stem = &stem_v;
    let ghost sdir = test_dir_of(path@);
    let ghost sstem = test_stem_of(path@);
    let mut targets: Vec<String> = Vec::new();
    let ghost js = seq![".ts"@, ".tsx"@, ".js"@, ".jsx"@];
    if crate::text::ends_with_str(stem, ".test") {
        let base = slice_vec(stem, 0, stem.len() - 5);
        push_js_targets(&mut targets, &dir, &base);
    }
    let ghost phase1 = targets@.map_values(|s: String| s@);
    assert(phase1 =~= if is_suffix(".test"@, sstem) {
        js.map_values(|e: Seq<char>| sdir + sstem.take(sstem.len() - 5) + e)
    } else {
        Seq::empty()
    });
    if crate::text::ends_with_str(stem, ".spec") {
        let base = slice_vec(stem, 0, stem.len() - 5);
        push_js_targets(&mut targets, &dir, &base);
    }
    let ghost phase2 = targets@.map_values(|s: String| s@);
    assert(phase2 =~= phase1 + if is_suffix(".spec"@, sstem) {
        js.map_values(|e: Seq<char>| sdir + sstem.take(sstem.len() - 5) + e)
    } else {
        Seq::empty()
    });
    if crate::text::starts_with_str(stem, "test_") {
        let base = slice_vec(stem, 5, stem.len());
        push_target(&mut targets, &dir, &base, ".py");
        push_target(&mut targets, &dir, &base, ".rs");
    }
    let ghost phase3 = targets@.map_values(|s: String| s@);
    assert(phase3 =~= phase2 + if is_prefix("test_"@, sstem) {
        seq![sdir + sstem.skip(5) + ".py"@, sdir + sstem.skip(5) + ".rs"@]
    } else {
        Seq::empty()
    });
    if crate::text::ends_with_str(stem, "_test") {
        let base = slice_vec(stem, 0, stem.len() - 5);
        push_target(&mut targets, &dir, &base, ".go");
        push_target(&mut targets, &dir, &base, ".rs");
    }
    let ghost phase4 = targets@.map_values(|s: String| s@);
    assert(phase4 =~= phase3 + if is_suffix("_test"@, sstem) {
        seq![sdir + sstem.take(sstem.len() - 5) + ".go"@, sdir + sstem.take(sstem.len() - 5) + ".rs"@]
    } else {
        Seq::empty()
    });
    targets
}

// ---- merging derived relations ----------------------------------------------------

/// Candidate `k` is kept: its id is neither among the existing ids nor
/// among the ids of earlier candidates.
pub open spec fn kept_candidate(existing: Seq<Seq<char>>, candidates: Seq<Seq<char>>, k: int) -> bool {
    !existing.contains(candidates[k]) && !candidates.take(k).contains(candidates[k])
}

/// The positions of the kept candidates among the first `n`, in order.
pub open spec fn kept_positions(existing: Seq<Seq<char>>, candidates: Seq<Seq<char>>, n: int) -> Seq<usize>
    decreases n,
{
    if n <= 0 {
        Seq::empty()
    } else {
        kept_positions(existing, candidates, n - 1) + if kept_candidate(existing, candidates, n - 1) {
            seq![(n - 1) as usize]
        } else {
            Seq::empty()
        }
    }
}

/// Which derived relations to append to those already recorded: relation
/// ids are a function of source, target and kind, so duplicate call sites
/// give duplicate ids, and only the first relation with a new id is kept.
/// Gives the kept candidates' positions, in candidate order.
pub fn fresh_relation_positions(existing_ids: &Vec<String>, candidate_ids: &Vec<String>) -> (r: Vec<usize>)
    ensures
        r@ == kept_positions(
            existing_ids@.map_values(|s: String| s@),
            candidate_ids@.map_values(|s: String| s@),
            candidate_ids@.len() as int,
        ),
{
    let ghost ex = existing_ids@.map_values(|s: String| s@);
    let ghost cs = candidate_ids@.map_values(|s: String| s@);
    let mut seen: StringHashMap<()> = StringHashMap::new();
    for i in 0..existing_ids.len()
        invariant
            ex == existing_ids@.map_values(|s: String| s@),
            forall|x: Seq<char>| #[trigger] seen@.contains_key(x) <==> ex.take(i as int).contains(x),
    {
        let ghost before = seen@;
        seen.insert(copy_string(&existing_ids[i]), ());
        assert(ex.take(i + 1) =~= ex.take(i as int).push(existing_ids@[i as int]@));
        assert forall|x: Seq<char>| #[trigger] seen@.contains_key(x) <==> ex.take(i + 1).contains(x) by {
            assert(before.contains_key(x) <==> ex.take(i as int).contains(x));
            lemma_push_contains(ex.take(i as int), existing_ids@[i as int]@, x);
        }
    }
    assert(ex.take(ex.len() as int) =~= ex);
    let mut kept: Vec<usize> = Vec::new();
    for k in 0..candidate_ids.len()
        invariant
            ex == existing_ids@.map_values(|s: String| s@),
            cs == candidate_ids@.map_values(|s: String| s@),
            forall|x: Seq<char>|
                #[trigger] seen@.contains_key(x) <==> (ex.contains(x) || cs.take(k as int).contains(x)),
            kept@ == kept_positions(ex, cs, k as int),
    {
        let id = &candidate_ids[k];
        assert(cs[k as int] == id@);
        let ghost before = seen@;
        assert(cs.take(k + 1) =~= cs.take(k as int).push(id@));
        if !seen.contains_key(id.as_str()) {
            seen.insert(copy_string(id), ());
            kept.push(k);
        }
        assert forall|x: Seq<char>|
            #[trigger] seen@.contains_key(x) <==> (ex.contains(x) || cs.take(k + 1).contains(x)) by {
            assert(before.contains_key(x) <==> (ex.contains(x) || cs.take(k as int).contains(x)));
            lemma_push_contains(cs.take(k as int), id@, x);
        }
    }
    assert(kept@ == kept_positions(ex, cs, cs.len() as int));
    kept
}

/// `x` is in `s` pushed with `y` exactly when it is `y` or in `s`.
proof fn lemma_push_contains(s: Seq<Seq<char>>, y: Seq<char>, x: Seq<char>)
    ensures
        s.push(y).contains(x) <==> (x == y || s.contains(x)),
{
    if s.push(y).contains(x) && x != y {
        let j = choose|j: int| 0 <= j < s.push(y).len() && #[trigger] s.push(y)[j] == x;
        assert(s[j] == x);
    }
    if s.contains(x) {
        let j = choose|j: int| 0 <= j < s.len() && #[trigger] s[j] == x;
        assert(s.push(y)[j] == x);
    }
    if x == y {
        assert(s.push(y)[s.len() as int] == x);
    }
}

} // verus!
