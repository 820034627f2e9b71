//! `Tests` links: a test file paired with the source file it is named
//! after, a file under a test directory paired with the source file of the
//! same name, and a test symbol (`test_foo`, `foo_test`, `testFoo`) linked
//! to the symbol it names.

use vstd::prelude::*;
use vstd::utf8::encode_utf8;

use crate::ignore::final_component;
use crate::indexing::{digest_id_of, relation_id};
use crate::landmarks::SymbolCandidate;
use crate::parser::{ParsedFile, ParsedUnit};
use crate::relations::{
    basename, is_test_path, strip_test_affix, test_affix_stripped, test_path, test_target_paths,
    test_targets_of,
};
use crate::repository::ScannedFile;
use crate::text::{chars_of, copy_string, is_prefix, push_str, starts_with};

verus! {

/// How a test is linked to what it tests; each way has its own confidence
/// and extractor id.
#[derive(Clone, Copy, Debug, PartialEq, Eq, Structural)]
pub enum TestLinkKind {
    /// `foo.test.ts` → `foo.ts`, `test_foo.py` → `foo.py`, `foo_test.go` → `foo.go`.
    FilePair,
    /// A file under a test directory → the file of the same name elsewhere.
    TestDirectory,
    /// A test symbol → the symbol its name spells after the test affix.
    ExactName,
    /// A test symbol → a symbol whose name starts its stripped name
    /// (`test_helper_works` → `helper`).
    PrefixName,
}

/// The extractor id recorded on a link of each kind: the two name rules
/// share one.
pub open spec fn link_extractor_label(kind: TestLinkKind) -> Seq<char> {
    match kind {
        TestLinkKind::FilePair => "cce-test-file-pair-v1"@,
        TestLinkKind::TestDirectory => "cce-test-dir-v1"@,
        TestLinkKind::ExactName => "cce-test-name-v1"@,
        TestLinkKind::PrefixName => "cce-test-name-v1"@,
    }
}

impl TestLinkKind {
    /// The extractor id recorded on a link of this kind.
    pub fn extractor(&self) -> (r: &'static str)
        ensures
            r@ == link_extractor_label(*self),
    {
        proof {
            reveal_strlit("cce-test-file-pair-v1");
            reveal_strlit("cce-test-dir-v1");
            reveal_strlit("cce-test-name-v1");
        }
        match self {
            TestLinkKind::FilePair => "cce-test-file-pair-v1",
            TestLinkKind::TestDirectory => "cce-test-dir-v1",
            TestLinkKind::ExactName => "cce-test-name-v1",
            TestLinkKind::PrefixName => "cce-test-name-v1",
        }
    }
}

/// A `Tests` edge from a test (file or symbol) to its target.
#[derive(Debug)]
pub struct TestLink {
    pub id: String,
    pub test_id: String,
    pub target_id: String,
    pub kind: TestLinkKind,
}

/// A link by its ends and kind.
pub open spec fn link_view(l: TestLink) -> (Seq<char>, Seq<char>, TestLinkKind) {
    (l.test_id@, l.target_id@, l.kind)
}

/// Position of the first entry keyed `key` at or after `i`.
pub open spec fn key_at<V>(entries: Seq<(String, V)>, key: Seq<char>, i: int) -> Option<int>
    decreases entries.len() - i,
{
    if i < 0 || i >= entries.len() {
        None
    } else if entries[i].0@ == key {
        Some(i)
    } else {
        key_at(entries, key, i + 1)
    }
}

/// Position of the last of the first `n` entities whose path ends in the
/// file name `b`.
pub open spec fn basename_owner(fe: Seq<(String, String)>, b: Seq<char>, n: int) -> Option<int>
    decreases n,
{
    if n <= 0 {
        None
    } else if final_component(fe[n - 1].0@) == b {
        Some(n - 1)
    } else {
        basename_owner(fe, b, n - 1)
    }
}

/// `str::len`: the UTF-8 byte length.
pub open spec fn byte_len(s: Seq<char>) -> usize {
    encode_utf8(s).len() as usize
}

/// How a symbol name matches a stripped test name: `Some(true)` when equal,
/// `Some(false)` when the name (at least 3 bytes) followed by `_` starts it.
pub open spec fn name_match(name: Seq<char>, stripped: Seq<char>) -> Option<bool> {
    if stripped == name {
        Some(true)
    } else if byte_len(name) >= 3 && is_prefix(name + "_"@, stripped) {
        Some(false)
    } else {
        None
    }
}

/// The order candidates are ranked in: longer name, then same file, then
/// exact match.
pub open spec fn key_beats(a: (usize, bool, bool), b: (usize, bool, bool)) -> bool {
    a.0 > b.0 || (a.0 == b.0 && ((a.1 && !b.1) || (a.1 == b.1 && a.2 && !b.2)))
}

/// The best pick after the first `c` candidates of one name-index entry,
/// starting from `prev`: a candidate replaces the pick only when its key
/// beats the pick's.
pub open spec fn best_in_entry(
    name: Seq<char>,
    cands: Seq<SymbolCandidate>,
    stripped: Seq<char>,
    path: Seq<char>,
    prev: Option<(SymbolCandidate, (usize, bool, bool))>,
    c: int,
) -> Option<(SymbolCandidate, (usize, bool, bool))>
    decreases c,
{
    if c <= 0 {
        prev
    } else {
        let b = best_in_entry(name, cands, stripped, path, prev, c - 1);
        match name_match(name, stripped) {
            Some(exact) => {
                let key = (byte_len(name), cands[c - 1].path@ == path, exact);
                match b {
                    Some(p) => if key_beats(key, p.1) {
                        Some((cands[c - 1], key))
                    } else {
                        b
                    },
                    None => Some((cands[c - 1], key)),
                }
            },
            None => b,
        }
    }
}

/// The symbol a stripped test name in `path` links to among the first `e`
/// name-index entries, with its key: the first candidate with the best key.
pub open spec fn best_match(
    index: Seq<(String, Vec<SymbolCandidate>)>,
    stripped: Seq<char>,
    path: Seq<char>,
    e: int,
) -> Option<(SymbolCandidate, (usize, bool, bool))>
    decreases e,
{
    if e <= 0 {
        None
    } else {
        best_in_entry(
            index[e - 1].0@,
            index[e - 1].1@,
            stripped,
            path,
            best_match(index, stripped, path, e - 1),
            index[e - 1].1@.len() as int,
        )
    }
}

/// File-pair links of a test file to the first `n` of its target paths that
/// are indexed.
pub open spec fn pair_links(
    fe: Seq<(String, String)>,
    test_id: Seq<char>,
    targets: Seq<Seq<char>>,
    n: int,
) -> Seq<(Seq<char>, Seq<char>, TestLinkKind)>
    decreases n,
{
    if n <= 0 {
        Seq::empty()
    } else {
        pair_links(fe, test_id, targets, n - 1) + match key_at(fe, targets[n - 1], 0) {
            Some(k) => seq![(test_id, fe[k].1@, TestLinkKind::FilePair)],
            None => Seq::empty(),
        }
    }
}

/// The test-directory link of a file under a test directory to the
/// indexed file with the same file name, unless that is the file itself.
pub open spec fn dir_links(fe: Seq<(String, String)>, path: Seq<char>, test_id: Seq<char>) -> Seq<
    (Seq<char>, Seq<char>, TestLinkKind),
> {
    if test_path(path) {
        match basename_owner(fe, final_component(path), fe.len() as int) {
            Some(o) => match key_at(fe, fe[o].0@, 0) {
                Some(k) => if fe[k].1@ != test_id {
                    seq![(test_id, fe[k].1@, TestLinkKind::TestDirectory)]
                } else {
                    Seq::empty()
                },
                None => Seq::empty(),
            },
            None => Seq::empty(),
        }
    } else {
        Seq::empty()
    }
}

/// Name links of the first `u` units of a file.
pub open spec fn name_links(
    units: Seq<ParsedUnit>,
    ids: Seq<String>,
    index: Seq<(String, Vec<SymbolCandidate>)>,
    path: Seq<char>,
    u: int,
) -> Seq<(Seq<char>, Seq<char>, TestLinkKind)>
    decreases u,
{
    if u <= 0 {
        Seq::empty()
    } else {
        name_links(units, ids, index, path, u - 1) + match test_affix_stripped(units[u - 1].name@) {
            Some(s) => match best_match(index, s, path, index.len() as int) {
                Some(b) => if u - 1 < ids.len() {
                    seq![
                        (
                            ids[u - 1]@,
                            b.0.entity_id@,
                            if b.1.2 {
                                TestLinkKind::ExactName
                            } else {
                                TestLinkKind::PrefixName
                            },
                        ),
                    ]
                } else {
                    Seq::empty()
                },
                None => Seq::empty(),
            },
            None => Seq::empty(),
        }
    }
}

/// Every candidate link of one file, in order: file pairs, the
/// test-directory link, then symbol links. A file without an entity has
/// none; symbol links need the file's parse and unit ids.
pub open spec fn file_links(
    f: ScannedFile,
    fe: Seq<(String, String)>,
    parsed: Seq<(String, ParsedFile)>,
    unit_ids: Seq<(String, Vec<String>)>,
    index: Seq<(String, Vec<SymbolCandidate>)>,
) -> Seq<(Seq<char>, Seq<char>, TestLinkKind)> {
    let path = f.relative_path@;
    match key_at(fe, path, 0) {
        Some(k) => {
            let tid = fe[k].1@;
            let targets = test_targets_of(path);
            pair_links(fe, tid, targets, targets.len() as int) + dir_links(fe, path, tid) + match (
                key_at(parsed, path, 0),
                key_at(unit_ids, path, 0),
            ) {
                (Some(p), Some(q)) => name_links(
                    parsed[p].1.units@,
                    unit_ids[q].1@,
                    index,
                    path,
                    parsed[p].1.units@.len() as int,
                ),
                _ => Seq::empty(),
            }
        },
        None => Seq::empty(),
    }
}

/// Candidate links of the first `n` files.
pub open spec fn all_links(
    files: Seq<ScannedFile>,
    fe: Seq<(String, String)>,
    parsed: Seq<(String, ParsedFile)>,
    unit_ids: Seq<(String, Vec<String>)>,
    index: Seq<(String, Vec<SymbolCandidate>)>,
    n: int,
) -> Seq<(Seq<char>, Seq<char>, TestLinkKind)>
    decreases n,
{
    if n <= 0 {
        Seq::empty()
    } else {
        all_links(files, fe, parsed, unit_ids, index, n - 1) + file_links(
            files[n - 1],
            fe,
            parsed,
            unit_ids,
            index,
        )
    }
}

/// Some element of `s` joins the same two ends as `x`.
pub open spec fn pair_seen<X>(s: Seq<(Seq<char>, Seq<char>, X)>, x: (Seq<char>, Seq<char>, X)) -> bool {
    exists|k: int| 0 <= k < s.len() && #[trigger] s[k].0 == x.0 && s[k].1 == x.1
}

/// The elements of `s` whose two ends no earlier element joined.
pub open spec fn first_links<X>(s: Seq<(Seq<char>, Seq<char>, X)>) -> Seq<(Seq<char>, Seq<char>, X)>
    decreases s.len(),
{
    if s.len() == 0 {
        Seq::empty()
    } else {
        let d = first_links(s.drop_last());
        if pair_seen(d, s.last()) {
            d
        } else {
            d.push(s.last())
        }
    }
}

/// No two kept elements join the same two ends, and every kept element is
/// one of `s`.
pub proof fn law_first_links_distinct<X>(s: Seq<(Seq<char>, Seq<char>, X)>)
    ensures
        forall|a: int, b: int|
            0 <= a < b < first_links(s).len() ==> !(#[trigger] first_links(s)[a].0
                == #[trigger] first_links(s)[b].0 && first_links(s)[a].1 == first_links(s)[b].1),
        forall|a: int| 0 <= a < first_links(s).len() ==> s.contains(#[trigger] first_links(s)[a]),
    decreases s.len(),
{
    if s.len() > 0 {
        let t = s.drop_last();
        law_first_links_distinct(t);
        let d = first_links(t);
        assert forall|a: int| 0 <= a < d.len() implies s.contains(#[trigger] d[a]) by {
            let k = choose|k: int| 0 <= k < t.len() && t[k] == d[a];
            assert(s[k] == d[a]);
        }
        if !pair_seen(d, s.last()) {
            let r = d.push(s.last());
            assert forall|a: int, b: int| 0 <= a < b < r.len() implies !(#[trigger] r[a].0
                == #[trigger] r[b].0 && r[a].1 == r[b].1) by {
                if b == r.len() - 1 && r[a].0 == r[b].0 && r[a].1 == r[b].1 {
                    assert(d[a].0 == s.last().0 && d[a].1 == s.last().1);
                }
            }
            assert(s[s.len() - 1] == s.last());
        }
    }
}

// ---- lookups -----------------------------------------------------------------------

pub(crate) fn find_key<V>(entries: &Vec<(String, V)>, key: &String) -> (r: Option<usize>)
    ensures
        match r {
            Some(k) => k < entries@.len() && key_at(entries@, key@, 0) == Some(k as int),
            None => key_at(entries@, key@, 0) is None,
        },
{
    let mut i: usize = 0;
    while i < entries.len()
        invariant
            i <= entries@.len(),
            key_at(entries@, key@, 0) == key_at(entries@, key@, i as int),
        decreases entries@.len() - i,
    {
        if entries[i].0 == *key {
            return Some(i);
        }
        i = i + 1;
    }
    None
}

fn owner_by_basename(fe: &Vec<(String, String)>, b: &String) -> (r: Option<usize>)
    ensures
        match r {
            Some(k) => k < fe@.len() && basename_owner(fe@, b@, fe@.len() as int) == Some(k as int),
            None => basename_owner(fe@, b@, fe@.len() as int) is None,
        },
{
    let mut n: usize = fe.len();
    while n > 0
        invariant
            n <= fe@.len(),
            basename_owner(fe@, b@, fe@.len() as int) == basename_owner(fe@, b@, n as int),
        decreases n,
    {
        let own = basename(fe[n - 1].0.as_str());
        if own == *b {
            return Some(n - 1);
        }
        n = n - 1;
    }
    None
}

/// Appends a link unless one joining the same test and target is already in.
fn offer(out: &mut Vec<TestLink>, test_id: &String, target_id: &String, kind: TestLinkKind)
    requires
        forall|k: int|
            0 <= k < old(out)@.len() ==> (#[trigger] old(out)@[k]).id@ == digest_id_of(
                "rel"@,
                seq![old(out)@[k].test_id@, old(out)@[k].target_id@, "tests"@],
            ),
    ensures
        final(out)@.map_values(|l: TestLink| link_view(l)) == if pair_seen(
            old(out)@.map_values(|l: TestLink| link_view(l)),
            (test_id@, target_id@, kind),
        ) {
            old(out)@.map_values(|l: TestLink| link_view(l))
        } else {
            old(out)@.map_values(|l: TestLink| link_view(l)).push((test_id@, target_id@, kind))
        },
        forall|k: int|
            0 <= k < final(out)@.len() ==> (#[trigger] final(out)@[k]).id@ == digest_id_of(
                "rel"@,
                seq![final(out)@[k].test_id@, final(out)@[k].target_id@, "tests"@],
            ),
{
    let ghost before = out@.map_values(|l: TestLink| link_view(l));
    let mut k: usize = 0;
    while k < out.len()
        invariant
            k <= out@.len(),
            before == out@.map_values(|l: TestLink| link_view(l)),
            forall|a: int|
                0 <= a < k ==> !(before[a].0 == test_id@ && before[a].1 == target_id@),
            forall|a: int|
                0 <= a < out@.len() ==> (#[trigger] out@[a]).id@ == digest_id_of(
                    "rel"@,
                    seq![out@[a].test_id@, out@[a].target_id@, "tests"@],
                ),
        decreases out@.len() - k,
    {
        if out[k].test_id == *test_id && out[k].target_id == *target_id {
            assert(before[k as int].0 == test_id@ && before[k as int].1 == target_id@);
            return;
        }
        k = k + 1;
    }
    let id = relation_id(test_id.as_str(), target_id.as_str(), "tests");
    out.push(
        TestLink {
            id,
            test_id: copy_string(test_id),
            target_id: copy_string(target_id),
            kind,
        },
    );
    assert(out@.map_values(|l: TestLink| link_view(l)) =~= before.push(
        (test_id@, target_id@, kind),
    ));
}

// ---- symbol links ------------------------------------------------------------------

fn match_name(name: &String, stripped: &String) -> (r: Option<bool>)
    ensures
        r == name_match(name@, stripped@),
{
    if *stripped == *name {
        return Some(true);
    }
    if name.as_str().len() >= 3 {
        let mut p = chars_of(name.as_str());
        push_str(&mut p, "_");
        if starts_with(&chars_of(stripped.as_str()), &p) {
            return Some(false);
        }
    }
    None
}

/// The spec pick for an exec pick given by positions.
pub open spec fn pick_of(
    index: Seq<(String, Vec<SymbolCandidate>)>,
    r: Option<(usize, usize, (usize, bool, bool))>,
) -> Option<(SymbolCandidate, (usize, bool, bool))> {
    match r {
        Some(p) => Some((index[p.0 as int].1@[p.1 as int], p.2)),
        None => None,
    }
}

fn best_candidate(
    index: &Vec<(String, Vec<SymbolCandidate>)>,
    stripped: &String,
    path: &String,
) -> (r: Option<(usize, usize, (usize, bool, bool))>)
    ensures
        pick_of(index@, r) == best_match(index@, stripped@, path@, index@.len() as int),
        r matches Some(p) ==> p.0 < index@.len() && p.1 < index@[p.0 as int].1@.len(),
{
    let mut best: Option<(usize, usize, (usize, bool, bool))> = None;
    let mut e: usize = 0;
    while e < index.len()
        invariant
            e <= index@.len(),
            pick_of(index@, best) == best_match(index@, stripped@, path@, e as int),
            best matches Some(p) ==> p.0 < index@.len() && p.1 < index@[p.0 as int].1@.len(),
        decreases index@.len() - e,
    {
        let name = &index[e].0;
        let cands = &index[e].1;
        let m = match_name(name, stripped);
        let ghost start = best_match(index@, stripped@, path@, e as int);
        let mut c: usize = 0;
        while c < cands.len()
            invariant
                e < index@.len(),
                name == index@[e as int].0,
                cands == index@[e as int].1,
                m == name_match(name@, stripped@),
                c <= cands@.len(),
                pick_of(index@, best) == best_in_entry(
                    name@,
                    cands@,
                    stripped@,
                    path@,
                    start,
                    c as int,
                ),
                best matches Some(p) ==> p.0 < index@.len() && p.1 < index@[p.0 as int].1@.len(),
            decreases cands@.len() - c,
        {
            if let Some(exact) = m {
                let key = (name.as_str().len(), cands[c].path == *path, exact);
                let replace = match best {
                    Some(p) => {
                        let k = p.2;
                        key.0 > k.0 || (key.0 == k.0 && ((key.1 && !k.1) || (key.1 == k.1 && key.2
                            && !k.2)))
                    },
                    None => true,
                };
                if replace {
                    best = Some((e, c, key));
                }
            }
            c = c + 1;
        }
        e = e + 1;
    }
    best
}

// ---- candidate links of one file ---------------------------------------------------

/// Candidate links by their ends and kind.
pub open spec fn cands_view(v: Seq<(String, String, TestLinkKind)>) -> Seq<
    (Seq<char>, Seq<char>, TestLinkKind),
> {
    v.map_values(|c: (String, String, TestLinkKind)| (c.0@, c.1@, c.2))
}

fn push_cand(
    out: &mut Vec<(String, String, TestLinkKind)>,
    test_id: &String,
    target_id: &String,
    kind: TestLinkKind,
)
    ensures
        cands_view(final(out)@) == cands_view(old(out)@).push((test_id@, target_id@, kind)),
{
    let ghost before = cands_view(out@);
    out.push((copy_string(test_id), copy_string(target_id), kind));
    assert(cands_view(out@) =~= before.push((test_id@, target_id@, kind)));
}

fn file_candidates(
    f: &ScannedFile,
    fe: &Vec<(String, String)>,
    parsed: &Vec<(String, ParsedFile)>,
    unit_ids: &Vec<(String, Vec<String>)>,
    index: &Vec<(String, Vec<SymbolCandidate>)>,
) -> (r: Vec<(String, String, TestLinkKind)>)
    ensures
        cands_view(r@) == file_links(*f, fe@, parsed@, unit_ids@, index@),
{
    let path = &f.relative_path;
    let mut out: Vec<(String, String, TestLinkKind)> = Vec::new();
    let Some(k) = find_key(fe, path) else {
        assert(cands_view(out@) =~= Seq::empty());
        return out;
    };
    let tid = &fe[k].1;
    let targets = test_target_paths(path.as_str());
    let ghost ts = test_targets_of(path@);
    assert(cands_view(out@) =~= pair_links(fe@, tid@, ts, 0));
    let mut t: usize = 0;
    while t < targets.len()
        invariant
            targets@.map_values(|s: String| s@) == ts,
            t <= targets@.len(),
            cands_view(out@) == pair_links(fe@, tid@, ts, t as int),
        decreases targets@.len() - t,
    {
        assert(ts[t as int] == targets@[t as int]@);
        if let Some(q) = find_key(fe, &targets[t]) {
            push_cand(&mut out, tid, &fe[q].1, TestLinkKind::FilePair);
        }
        t = t + 1;
    }
    let ghost pairs = cands_view(out@);
    if is_test_path(path.as_str()) {
        let b = basename(path.as_str());
        if let Some(o) = owner_by_basename(fe, &b) {
            if let Some(q) = find_key(fe, &fe[o].0) {
                if fe[q].1 != *tid {
                    push_cand(&mut out, tid, &fe[q].1, TestLinkKind::TestDirectory);
                }
            }
        }
    }
    assert(cands_view(out@) =~= pairs + dir_links(fe@, path@, tid@));
    let ghost head = cands_view(out@);
    match (find_key(parsed, path), find_key(unit_ids, path)) {
        (Some(p), Some(q)) => {
            let units = &parsed[p].1.units;
            let ids = &unit_ids[q].1;
            assert(cands_view(out@) =~= head + name_links(units@, ids@, index@, path@, 0));
            let mut u: usize = 0;
            while u < units.len()
                invariant
                    u <= units@.len(),
                    cands_view(out@) == head + name_links(units@, ids@, index@, path@, u as int),
                decreases units@.len() - u,
            {
                let ghost before = cands_view(out@);
                if let Some(stripped) = strip_test_affix(units[u].name.as_str()) {
                    if let Some(pick) = best_candidate(index, &stripped, path) {
                        if u < ids.len() {
                            let kind = if pick.2.2 {
                                TestLinkKind::ExactName
                            } else {
                                TestLinkKind::PrefixName
                            };
                            push_cand(
                                &mut out,
                                &ids[u],
                                &index[pick.0].1[pick.1].entity_id,
                                kind,
                            );
                        }
                    }
                }
                assert(cands_view(out@) =~= head + name_links(
                    units@,
                    ids@,
                    index@,
                    path@,
                    u + 1,
                ));
                u = u + 1;
            }
        },
        _ => {
            assert(cands_view(out@) =~= head + Seq::empty());
        },
    }
    out
}

/// `Tests` links, one per test and target: for each file in order, its
/// file-pair links (`test_target_paths`), its test-directory link (a file
/// under a test directory to the indexed file of the same name; when
/// several share that name, the last in `file_entities`), and, when the
/// file was parsed and its units have ids, one link per test-named unit to
/// the symbol its stripped name spells (`best_match`). A link joining a
/// test and target already joined is dropped. `file_entities` maps paths
/// to file entity ids, `parsed` and `unit_ids` map paths to a parse and to
/// the ids of its units, `name_index` maps simple names to candidates.
pub fn test_links(
    files: &Vec<ScannedFile>,
    file_entities: &Vec<(String, String)>,
    parsed: &Vec<(String, ParsedFile)>,
    unit_ids: &Vec<(String, Vec<String>)>,
    name_index: &Vec<(String, Vec<SymbolCandidate>)>,
) -> (r: Vec<TestLink>)
    ensures
        r@.map_values(|l: TestLink| link_view(l)) == first_links(
            all_links(
                files@,
                file_entities@,
                parsed@,
                unit_ids@,
                name_index@,
                files@.len() as int,
            ),
        ),
        forall|k: int|
            0 <= k < r@.len() ==> (#[trigger] r@[k]).id@ == digest_id_of(
                "rel"@,
                seq![r@[k].test_id@, r@[k].target_id@, "tests"@],
            ),
{
    let mut out: Vec<TestLink> = Vec::new();
    let mut i: usize = 0;
    assert(out@.map_values(|l: TestLink| link_view(l)) =~= first_links(Seq::empty()));
    while i < files.len()
        invariant
            i <= files@.len(),
            out@.map_values(|l: TestLink| link_view(l)) == first_links(
                all_links(files@, file_entities@, parsed@, unit_ids@, name_index@, i as int),
            ),
            forall|k: int|
                0 <= k < out@.len() ==> (#[trigger] out@[k]).id@ == digest_id_of(
                    "rel"@,
                    seq![out@[k].test_id@, out@[k].target_id@, "tests"@],
                ),
        decreases files@.len() - i,
    {
        let ghost prefix = all_links(files@, file_entities@, parsed@, unit_ids@, name_index@, i as int);
        let cands = file_candidates(&files[i], file_entities, parsed, unit_ids, name_index);
        let ghost cv = cands_view(cands@);
        let mut k: usize = 0;
        assert(prefix + cv.take(0) =~= prefix);
        while k < cands.len()
            invariant
                k <= cands@.len(),
                cv == cands_view(cands@),
                out@.map_values(|l: TestLink| link_view(l)) == first_links(prefix + cv.take(k as int)),
                forall|a: int|
                    0 <= a < out@.len() ==> (#[trigger] out@[a]).id@ == digest_id_of(
                        "rel"@,
                        seq![out@[a].test_id@, out@[a].target_id@, "tests"@],
                    ),
            decreases cands@.len() - k,
        {
            offer(&mut out, &cands[k].0, &cands[k].1, cands[k].2);
            assert((prefix + cv.take(k + 1)).drop_last() =~= prefix + cv.take(k as int));
            assert((prefix + cv.take(k + 1)).last() == cv[k as int]);
            k = k + 1;
        }
        assert(prefix + cv.take(cands@.len() as int) =~= all_links(
            files@,
            file_entities@,
            parsed@,
            unit_ids@,
            name_index@,
            i + 1,
        ));
        i = i + 1;
    }
    out
}

} // verus!
