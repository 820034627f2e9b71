//! Co-change coupling: `ChangedWith` edges between file entities that keep
//! landing in the same commits. History is evidence about coupling rather
//! than source truth, so each edge carries the pair's co-change count and
//! the larger commit-appearance count of its two files (their ratio, capped,
//! is the edge's confidence), and a pair survives only where one file ranks
//! the other among its top partners, which bounds hub explosions.

use vstd::prelude::*;

use crate::descriptor::{lemma_lex_total, lex_less, lex_lt};
use crate::indexing::{digest_id_of, relation_id};
use crate::text::{chars_of, copy_string, eq_chars};

verus! {

/// The extractor id recorded on co-change edges.
pub const COCHANGE_EXTRACTOR: &'static str = "cce-git-cochange-v1";

/// Only the newest commits are read.
pub const MAX_COCHANGE_COMMITS: usize = 256;

/// A commit touching more known files than this (a bulk rename, a
/// reformat) is noise for pair counting and is skipped.
pub const MAX_COCHANGE_FILES: usize = 512;

/// How many top partners each file keeps.
pub const MAX_COCHANGE_PARTNERS: usize = 8;

/// A `ChangedWith` edge, stored once, with the smaller entity id as source.
#[derive(Debug)]
pub struct CoChangeEdge {
    pub id: String,
    pub source_entity_id: String,
    pub target_entity_id: String,
    /// Position of one file of the pair in the entity list.
    pub left: usize,
    /// Position of the other file, after `left`.
    pub right: usize,
    /// Commits that touched both files.
    pub co_change_count: usize,
    /// Commits that touched the more often changed of the two (at least 1).
    pub commit_appearances: usize,
}

// ---- the model ---------------------------------------------------------------------

/// The paths of the entity list.
pub open spec fn entity_paths(fe: Seq<(String, String)>) -> Seq<Seq<char>> {
    fe.map_values(|e: (String, String)| e.0@)
}

/// Commits as sequences of touched paths.
pub open spec fn commit_views(touched: Seq<Vec<String>>) -> Seq<Seq<Seq<char>>> {
    touched.map_values(|c: Vec<String>| c@.map_values(|p: String| p@))
}

/// How many of the commits are read.
pub open spec fn window(cs: Seq<Seq<Seq<char>>>) -> int {
    if cs.len() < MAX_COCHANGE_COMMITS {
        cs.len() as int
    } else {
        MAX_COCHANGE_COMMITS as int
    }
}

/// Positions of the known files a commit touches.
pub open spec fn known_files(c: Seq<Seq<char>>, ps: Seq<Seq<char>>) -> Set<usize> {
    Set::new(|i: usize| i < ps.len() && c.contains(ps[i as int]))
}

/// Commit `t` is read and touches few enough known files to count.
pub open spec fn counted(cs: Seq<Seq<Seq<char>>>, ps: Seq<Seq<char>>, t: int) -> bool {
    0 <= t < window(cs) && known_files(cs[t], ps).len() <= MAX_COCHANGE_FILES
}

/// Commit `t` counts and touches file `i`.
pub open spec fn touches(cs: Seq<Seq<Seq<char>>>, ps: Seq<Seq<char>>, t: int, i: usize) -> bool {
    counted(cs, ps, t) && known_files(cs[t], ps).contains(i)
}

/// Counted commits among the first `n` that touch both `i` and `j`.
pub open spec fn together(cs: Seq<Seq<Seq<char>>>, ps: Seq<Seq<char>>, i: usize, j: usize, n: int) -> nat
    decreases n,
{
    if n <= 0 {
        0
    } else {
        together(cs, ps, i, j, n - 1) + if touches(cs, ps, n - 1, i) && touches(cs, ps, n - 1, j) {
            1nat
        } else {
            0nat
        }
    }
}

/// Counted commits touching both `i` and `j`.
pub open spec fn co_changes(cs: Seq<Seq<Seq<char>>>, ps: Seq<Seq<char>>, i: usize, j: usize) -> nat {
    together(cs, ps, i, j, window(cs))
}

/// Counted commits touching `i`.
pub open spec fn appearances(cs: Seq<Seq<Seq<char>>>, ps: Seq<Seq<char>>, i: usize) -> nat {
    co_changes(cs, ps, i, i)
}

/// `q` is another known file that changed together with `i` at least once.
pub open spec fn partners(cs: Seq<Seq<Seq<char>>>, ps: Seq<Seq<char>>, i: usize, q: usize) -> bool {
    q < ps.len() && q != i && co_changes(cs, ps, i, q) > 0
}

/// Among `i`'s partners, `q` comes before `j`: more co-changes, or as many
/// and a path that sorts first.
pub open spec fn outranks(cs: Seq<Seq<Seq<char>>>, ps: Seq<Seq<char>>, i: usize, q: usize, j: usize) -> bool {
    co_changes(cs, ps, i, q) > co_changes(cs, ps, i, j) || (co_changes(cs, ps, i, q)
        == co_changes(cs, ps, i, j) && lex_lt(ps[q as int], ps[j as int]))
}

/// How many of `i`'s partners come before `j`.
pub open spec fn partner_rank(cs: Seq<Seq<Seq<char>>>, ps: Seq<Seq<char>>, i: usize, j: usize) -> nat {
    Set::new(|q: usize| partners(cs, ps, i, q) && outranks(cs, ps, i, q, j)).len()
}

/// One of the two files keeps the other among its top partners.
pub open spec fn kept(cs: Seq<Seq<Seq<char>>>, ps: Seq<Seq<char>>, i: usize, j: usize) -> bool {
    partner_rank(cs, ps, i, j) < MAX_COCHANGE_PARTNERS || partner_rank(cs, ps, j, i)
        < MAX_COCHANGE_PARTNERS
}

/// The pair `i < j` gets an edge.
pub open spec fn coupled(cs: Seq<Seq<Seq<char>>>, ps: Seq<Seq<char>>, i: usize, j: usize) -> bool {
    i < j && partners(cs, ps, i, j) && kept(cs, ps, i, j)
}

/// `a` sorts at or before `b`.
pub open spec fn lex_le(a: Seq<char>, b: Seq<char>) -> bool {
    a == b || lex_lt(a, b)
}

/// The larger of two counts and 1.
pub open spec fn max3(a: nat, b: nat) -> nat {
    let m = if a < b { b } else { a };
    if m < 1 { 1 } else { m }
}

/// `e` is the edge of its pair.
pub open spec fn edge_of(e: CoChangeEdge, cs: Seq<Seq<Seq<char>>>, fe: Seq<(String, String)>) -> bool {
    let ps = entity_paths(fe);
    let a = fe[e.left as int].1@;
    let b = fe[e.right as int].1@;
    let s = if lex_le(a, b) { a } else { b };
    let t = if lex_le(a, b) { b } else { a };
    &&& coupled(cs, ps, e.left, e.right)
    &&& e.co_change_count == co_changes(cs, ps, e.left, e.right)
    &&& e.commit_appearances == max3(appearances(cs, ps, e.left), appearances(cs, ps, e.right))
    &&& e.source_entity_id@ == s
    &&& e.target_entity_id@ == t
    &&& e.id@ == digest_id_of("rel"@, seq![s, t, "changed_with"@])
}

/// The index pairs of the edges.
pub open spec fn edge_pairs(es: Seq<CoChangeEdge>) -> Seq<(usize, usize)> {
    es.map_values(|e: CoChangeEdge| (e.left, e.right))
}

/// Positions of the neighbour entries.
pub open spec fn firsts(nb: Seq<(usize, usize)>) -> Seq<usize> {
    nb.map_values(|e: (usize, usize)| e.0)
}

/// Per commit read, the files it counts for: exactly those it touches.
pub open spec fn groups_ok(gs: Seq<Vec<usize>>, cs: Seq<Seq<Seq<char>>>, ps: Seq<Seq<char>>) -> bool {
    &&& gs.len() == window(cs)
    &&& forall|t: int|
        0 <= t < gs.len() ==> {
            &&& (#[trigger] gs[t])@.no_duplicates()
            &&& forall|i: usize| gs[t]@.contains(i) <==> touches(cs, ps, t, i)
        }
}

/// `nb` lists each partner of `i` once, with its co-change count.
pub open spec fn neighbours_ok(
    nb: Seq<(usize, usize)>,
    cs: Seq<Seq<Seq<char>>>,
    ps: Seq<Seq<char>>,
    i: usize,
) -> bool {
    &&& firsts(nb).no_duplicates()
    &&& forall|k: int|
        0 <= k < nb.len() ==> partners(cs, ps, i, #[trigger] nb[k].0) && nb[k].1 == co_changes(
            cs,
            ps,
            i,
            nb[k].0,
        )
    &&& forall|q: usize| partners(cs, ps, i, q) ==> #[trigger] firsts(nb).contains(q)
}

// ---- counting lemmas ---------------------------------------------------------------

/// How many elements of `s` satisfy `f`.
pub open spec fn count_where(s: Seq<usize>, f: spec_fn(usize) -> bool) -> nat
    decreases s.len(),
{
    if s.len() == 0 {
        0
    } else {
        count_where(s.drop_last(), f) + if f(s.last()) {
            1nat
        } else {
            0nat
        }
    }
}

/// Counting along a sequence without repeats counts the set it holds.
pub proof fn lemma_count_where_set(s: Seq<usize>, f: spec_fn(usize) -> bool)
    requires
        s.no_duplicates(),
    ensures
        s.to_set().filter(f).finite(),
        s.to_set().filter(f).len() == count_where(s, f),
    decreases s.len(),
{
    broadcast use vstd::set::group_set_axioms;

    if s.len() == 0 {
        assert(s.to_set().filter(f) =~= Set::<usize>::empty());
    } else {
        let t = s.drop_last();
        let x = s.last();
        assert forall|a: int, b: int|
            0 <= a < t.len() && 0 <= b < t.len() && a != b implies t[a] != t[b] by {
            assert(t[a] == s[a] && t[b] == s[b]);
        }
        lemma_count_where_set(t, f);
        assert(!t.contains(x)) by {
            if t.contains(x) {
                let k = choose|k: int| 0 <= k < t.len() && t[k] == x;
                assert(s[k] == s[s.len() - 1]);
            }
        }
        assert forall|y: usize| s.contains(y) <==> t.contains(y) || y == x by {
            if s.contains(y) {
                let k = choose|k: int| 0 <= k < s.len() && s[k] == y;
                if k < t.len() {
                    assert(t[k] == y);
                }
            }
            if t.contains(y) {
                let k = choose|k: int| 0 <= k < t.len() && t[k] == y;
                assert(s[k] == y);
            }
            if y == x {
                assert(s[s.len() - 1] == y);
            }
        }
        if f(x) {
            assert(s.to_set().filter(f) =~= t.to_set().filter(f).insert(x));
        } else {
            assert(s.to_set().filter(f) =~= t.to_set().filter(f));
        }
    }
}

/// Co-change counts do not depend on the order of the pair.
pub proof fn lemma_together_symmetric(
    cs: Seq<Seq<Seq<char>>>,
    ps: Seq<Seq<char>>,
    i: usize,
    j: usize,
    n: int,
)
    ensures
        together(cs, ps, i, j, n) == together(cs, ps, j, i, n),
    decreases n,
{
    if n > 0 {
        lemma_together_symmetric(cs, ps, i, j, n - 1);
    }
}

/// Co-changes never exceed the appearances of either file.
pub proof fn lemma_together_bounded(
    cs: Seq<Seq<Seq<char>>>,
    ps: Seq<Seq<char>>,
    i: usize,
    j: usize,
    n: int,
)
    ensures
        together(cs, ps, i, j, n) <= together(cs, ps, i, i, n),
        together(cs, ps, i, i, n) <= if n < 0 { 0 } else { n },
    decreases n,
{
    if n > 0 {
        lemma_together_bounded(cs, ps, i, j, n - 1);
    }
}

/// Every co-change edge counts at least one shared commit and never more
/// than the counted commits of its busier file, so the ratio the edge's
/// confidence is taken from never exceeds one; and the edge names the
/// entity id that sorts first as its source.
pub proof fn law_cochange_edge_bounds(e: CoChangeEdge, cs: Seq<Seq<Seq<char>>>, fe: Seq<(String, String)>)
    requires
        edge_of(e, cs, fe),
    ensures
        1 <= e.co_change_count <= e.commit_appearances,
        lex_le(e.source_entity_id@, e.target_entity_id@),
{
    let ps = entity_paths(fe);
    lemma_together_bounded(cs, ps, e.left, e.right, window(cs));
    lemma_lex_total(fe[e.left as int].1@, fe[e.right as int].1@);
}

/// The positions below `n`, as a set.
pub open spec fn below(n: nat) -> Set<usize> {
    Set::new(|j: usize| j < n)
}

proof fn lemma_below_finite(n: nat)
    ensures
        below(n).finite(),
        below(n).len() <= n,
{
    let s = Seq::new(n, |k: int| k as usize);
    assert(below(n) =~= s.to_set()) by {
        assert forall|j: usize| below(n).contains(j) implies s.to_set().contains(j) by {
            assert(s[j as int] == j);
        }
    }
    s.lemma_cardinality_of_set();
    vstd::seq_lib::seq_to_set_is_finite(s);
}

/// The partners of `i` that come before `j`.
pub open spec fn ahead_of(cs: Seq<Seq<Seq<char>>>, ps: Seq<Seq<char>>, i: usize, j: usize) -> Set<usize> {
    Set::new(|q: usize| partners(cs, ps, i, q) && outranks(cs, ps, i, q, j))
}

/// Two different partners have different ranks when paths are distinct.
proof fn lemma_ranks_differ(cs: Seq<Seq<Seq<char>>>, ps: Seq<Seq<char>>, i: usize, j1: usize, j2: usize)
    requires
        forall|a: int, b: int| 0 <= a < b < ps.len() ==> ps[a] != ps[b],
        partners(cs, ps, i, j1),
        partners(cs, ps, i, j2),
        outranks(cs, ps, i, j1, j2),
    ensures
        partner_rank(cs, ps, i, j1) < partner_rank(cs, ps, i, j2),
{
    let o1 = ahead_of(cs, ps, i, j1);
    let o2 = ahead_of(cs, ps, i, j2);
    lemma_below_finite(ps.len());
    vstd::set_lib::lemma_len_subset(o2, below(ps.len()));
    lemma_lex_total(ps[j1 as int], ps[j1 as int]);
    assert(!o1.contains(j1));
    assert(o1.insert(j1).subset_of(o2)) by {
        assert forall|q: usize| o1.insert(j1).contains(q) implies o2.contains(q) by {
            if q != j1 {
                if co_changes(cs, ps, i, q) == co_changes(cs, ps, i, j1) && co_changes(cs, ps, i, j1)
                    == co_changes(cs, ps, i, j2) {
                    crate::descriptor::lemma_lex_trans(ps[q as int], ps[j1 as int], ps[j2 as int]);
                }
            }
        }
    }
    vstd::set_lib::lemma_len_subset(o1.insert(j1), o2);
    vstd::set_lib::lemma_len_subset(o1, o2);
    assert(o1 =~= ahead_of(cs, ps, i, j1));
}

/// Hub explosions are bounded: when the entity list names each path once,
/// at most `MAX_COCHANGE_PARTNERS` partners of a file rank among its top
/// `MAX_COCHANGE_PARTNERS`.
pub proof fn law_top_partners_bounded(cs: Seq<Seq<Seq<char>>>, ps: Seq<Seq<char>>, i: usize)
    requires
        forall|a: int, b: int| 0 <= a < b < ps.len() ==> ps[a] != ps[b],
    ensures
        Set::new(
            |j: usize| partners(cs, ps, i, j) && partner_rank(cs, ps, i, j) < MAX_COCHANGE_PARTNERS,
        ).len() <= MAX_COCHANGE_PARTNERS,
{
    let top = Set::new(
        |j: usize| partners(cs, ps, i, j) && partner_rank(cs, ps, i, j) < MAX_COCHANGE_PARTNERS,
    );
    let f = |j: usize| partner_rank(cs, ps, i, j) as int;
    lemma_below_finite(ps.len());
    vstd::set_lib::lemma_len_subset(top, below(ps.len()));
    assert(vstd::relations::injective_on(f, top)) by {
        assert forall|x1: usize, x2: usize|
            top.contains(x1) && top.contains(x2) && #[trigger] f(x1) == #[trigger] f(x2) implies x1
                == x2 by {
            if x1 != x2 {
                lemma_lex_total(ps[x1 as int], ps[x2 as int]);
                if outranks(cs, ps, i, x1, x2) {
                    lemma_ranks_differ(cs, ps, i, x1, x2);
                } else {
                    lemma_ranks_differ(cs, ps, i, x2, x1);
                }
            }
        }
    }
    vstd::set_lib::lemma_map_size(top, top.map(f), f);
    vstd::set_lib::lemma_int_range(0, MAX_COCHANGE_PARTNERS as int);
    assert(top.map(f).subset_of(vstd::set_lib::set_int_range(0, MAX_COCHANGE_PARTNERS as int)));
    vstd::set_lib::lemma_len_subset(
        top.map(f),
        vstd::set_lib::set_int_range(0, MAX_COCHANGE_PARTNERS as int),
    );
}

// ---- reading the commits -----------------------------------------------------------

fn has_path(c: &Vec<Vec<char>>, p: &Vec<char>) -> (r: bool)
    ensures
        r == c@.map_values(|x: Vec<char>| x@).contains(p@),
{
    let ghost cv = c@.map_values(|x: Vec<char>| x@);
    let mut k: usize = 0;
    while k < c.len()
        invariant
            k <= c@.len(),
            cv == c@.map_values(|x: Vec<char>| x@),
            forall|a: int| 0 <= a < k ==> cv[a] != p@,
        decreases c@.len() - k,
    {
        if eq_chars(&c[k], p) {
            assert(cv[k as int] == p@);
            return true;
        }
        k = k + 1;
    }
    false
}

fn has_index(g: &Vec<usize>, i: usize) -> (r: bool)
    ensures
        r == g@.contains(i),
{
    let mut k: usize = 0;
    while k < g.len()
        invariant
            k <= g@.len(),
            forall|a: int| 0 <= a < k ==> g@[a] != i,
        decreases g@.len() - k,
    {
        if g[k] == i {
            return true;
        }
        k = k + 1;
    }
    false
}

/// The positions, in increasing order, of the known files a commit touches.
fn commit_members(commit: &Vec<String>, ps: &Vec<Vec<char>>) -> (m: Vec<usize>)
    ensures
        m@.no_duplicates(),
        m@.to_set() == known_files(
            commit@.map_values(|p: String| p@),
            ps@.map_values(|p: Vec<char>| p@),
        ),
        m@.len() == known_files(
            commit@.map_values(|p: String| p@),
            ps@.map_values(|p: Vec<char>| p@),
        ).len(),
{
    let ghost psv = ps@.map_values(|p: Vec<char>| p@);
    let ghost cview = commit@.map_values(|p: String| p@);
    let mut cv: Vec<Vec<char>> = Vec::new();
    let mut k: usize = 0;
    while k < commit.len()
        invariant
            k <= commit@.len(),
            cv@.len() == k,
            forall|a: int| 0 <= a < k ==> #[trigger] cv@[a]@ == commit@[a]@,
        decreases commit@.len() - k,
    {
        cv.push(chars_of(commit[k].as_str()));
        k = k + 1;
    }
    assert(cv@.map_values(|x: Vec<char>| x@) =~= cview);
    let mut m: Vec<usize> = Vec::new();
    let mut i: usize = 0;
    while i < ps.len()
        invariant
            i <= ps@.len(),
            psv == ps@.map_values(|p: Vec<char>| p@),
            cv@.map_values(|x: Vec<char>| x@) == cview,
            forall|a: int, b: int| 0 <= a < b < m@.len() ==> m@[a] < m@[b],
            forall|a: int| 0 <= a < m@.len() ==> m@[a] < i,
            forall|q: usize| q < i ==> (m@.contains(q) <==> known_files(cview, psv).contains(q)),
        decreases ps@.len() - i,
    {
        let ghost before = m@;
        let present = has_path(&cv, &ps[i]);
        assert(psv[i as int] == ps@[i as int]@);
        assert(present == known_files(cview, psv).contains(i));
        if present {
            m.push(i);
        }
        proof {
            assert forall|q: usize| q < i + 1 implies (m@.contains(q) <==> known_files(
                cview,
                psv,
            ).contains(q)) by {
                if q < i {
                    if before.contains(q) {
                        let a = choose|a: int| 0 <= a < before.len() && before[a] == q;
                        assert(m@[a] == q);
                    }
                    if m@.contains(q) {
                        let a = choose|a: int| 0 <= a < m@.len() && m@[a] == q;
                        if a < before.len() {
                            assert(before[a] == q);
                        }
                    }
                } else {
                    if present {
                        assert(m@[m@.len() - 1] == q);
                    } else if m@.contains(q) {
                        let a = choose|a: int| 0 <= a < m@.len() && m@[a] == q;
                    }
                }
            }
        }
        i = i + 1;
    }
    assert(m@.to_set() =~= known_files(cview, psv)) by {
        assert forall|q: usize| m@.to_set().contains(q) <==> known_files(cview, psv).contains(q) by {
            if m@.contains(q) {
                let a = choose|a: int| 0 <= a < m@.len() && m@[a] == q;
            }
        }
    }
    proof {
        m@.unique_seq_to_set();
    }
    m
}

/// For each commit read, the files it counts for.
fn read_groups(touched: &Vec<Vec<String>>, ps: &Vec<Vec<char>>) -> (gs: Vec<Vec<usize>>)
    ensures
        groups_ok(gs@, commit_views(touched@), ps@.map_values(|p: Vec<char>| p@)),
{
    let ghost cs = commit_views(touched@);
    let ghost psv = ps@.map_values(|p: Vec<char>| p@);
    let w: usize = if touched.len() < MAX_COCHANGE_COMMITS {
        touched.len()
    } else {
        MAX_COCHANGE_COMMITS
    };
    let mut gs: Vec<Vec<usize>> = Vec::new();
    let mut t: usize = 0;
    while t < w
        invariant
            w == window(cs),
            w <= touched@.len(),
            cs == commit_views(touched@),
            psv == ps@.map_values(|p: Vec<char>| p@),
            t <= w,
            gs@.len() == t,
            forall|a: int|
                0 <= a < t ==> {
                    &&& (#[trigger] gs@[a])@.no_duplicates()
                    &&& forall|i: usize| gs@[a]@.contains(i) <==> touches(cs, psv, a, i)
                },
        decreases w - t,
    {
        let members = commit_members(&touched[t], ps);
        assert(cs[t as int] == touched@[t as int]@.map_values(|p: String| p@));
        if members.len() <= MAX_COCHANGE_FILES {
            gs.push(members);
        } else {
            let none: Vec<usize> = Vec::new();
            assert forall|i: usize| none@.contains(i) <==> touches(cs, psv, t as int, i) by {}
            gs.push(none);
        }
        t = t + 1;
    }
    gs
}

fn zeros(n: usize) -> (v: Vec<usize>)
    ensures
        v@.len() == n,
        forall|q: int| 0 <= q < n ==> v@[q] == 0,
{
    let mut v: Vec<usize> = Vec::new();
    let mut k: usize = 0;
    while k < n
        invariant
            k <= n,
            v@.len() == k,
            forall|q: int| 0 <= q < k ==> v@[q] == 0,
        decreases n - k,
    {
        v.push(0);
        k = k + 1;
    }
    v
}

/// The partners of `i` with their co-change counts, and `i`'s appearances.
/// `cnt` is scratch space: all zero before and after.
fn neighbours(
    gs: &Vec<Vec<usize>>,
    i: usize,
    cnt: &mut Vec<usize>,
    Ghost(cs): Ghost<Seq<Seq<Seq<char>>>>,
    Ghost(ps): Ghost<Seq<Seq<char>>>,
) -> (r: (Vec<(usize, usize)>, usize))
    requires
        groups_ok(gs@, cs, ps),
        old(cnt)@.len() == ps.len(),
        forall|q: int| 0 <= q < ps.len() ==> old(cnt)@[q] == 0,
        i < ps.len(),
    ensures
        final(cnt)@.len() == ps.len(),
        forall|q: int| 0 <= q < ps.len() ==> final(cnt)@[q] == 0,
        r.1 == appearances(cs, ps, i),
        neighbours_ok(r.0@, cs, ps, i),
{
    let n = cnt.len();
    let mut list: Vec<usize> = Vec::new();
    let mut app: usize = 0;
    let mut t: usize = 0;
    while t < gs.len()
        invariant
            groups_ok(gs@, cs, ps),
            n == ps.len(),
            i < n,
            t <= gs@.len(),
            gs@.len() <= MAX_COCHANGE_COMMITS,
            cnt@.len() == n,
            forall|q: usize| q < n && q != i ==> #[trigger] cnt@[q as int] == together(cs, ps, i, q, t as int),
            cnt@[i as int] == 0,
            forall|q: int| 0 <= q < n ==> cnt@[q] <= t,
            list@.no_duplicates(),
            forall|q: usize| list@.contains(q) <==> (q < n && q != i && cnt@[q as int] > 0),
            app == together(cs, ps, i, i, t as int),
            app <= t,
        decreases gs@.len() - t,
    {
        let g = &gs[t];
        assert(g@.no_duplicates());
        if has_index(g, i) {
            app = app + 1;
            let mut s: usize = 0;
            while s < g.len()
                invariant
                    n == ps.len(),
                    i < n,
                    t < gs@.len(),
                    gs@.len() <= MAX_COCHANGE_COMMITS,
                    g == gs@[t as int],
                    g@.no_duplicates(),
                    forall|q: usize| g@.contains(q) <==> touches(cs, ps, t as int, q),
                    s <= g@.len(),
                    cnt@.len() == n,
                    forall|q: usize|
                        q < n && q != i ==> #[trigger] cnt@[q as int] == together(cs, ps, i, q, t as int)
                            + if g@.take(s as int).contains(q) {
                            1nat
                        } else {
                            0nat
                        },
                    cnt@[i as int] == 0,
                    forall|q: int| 0 <= q < n ==> cnt@[q] <= t + 1,
                    list@.no_duplicates(),
                    forall|q: usize| list@.contains(q) <==> (q < n && q != i && cnt@[q as int] > 0),
                decreases g@.len() - s,
            {
                let m = g[s];
                assert(g@.take(s + 1) =~= g@.take(s as int).push(m));
                assert(!g@.take(s as int).contains(m)) by {
                    if g@.take(s as int).contains(m) {
                        let a = choose|a: int| 0 <= a < s && g@.take(s as int)[a] == m;
                        assert(g@[a] == g@[s as int]);
                    }
                }
                assert(g@.contains(m));
                assert(known_files(cs[t as int], ps).contains(m));
                let ghost c0 = cnt@;
                let ghost l0 = list@;
                if m != i {
                    proof {
                        lemma_together_bounded(cs, ps, i, m, t as int);
                    }
                    if cnt[m] == 0 {
                        list.push(m);
                        assert(list@ == l0.push(m));
                        proof {
                            assert forall|a: int, b: int|
                                0 <= a < list@.len() && 0 <= b < list@.len() && a != b implies list@[a]
                                != list@[b] by {
                                if a < l0.len() && b < l0.len() {
                                    assert(list@[a] == l0[a] && list@[b] == l0[b]);
                                } else if a < l0.len() {
                                    assert(l0.contains(list@[a]));
                                } else if b < l0.len() {
                                    assert(l0.contains(list@[b]));
                                }
                            }
                        }
                    }
                    let v = cnt[m];
                    cnt.set(m, v + 1);
                }
                proof {
                    if m == i || c0[m as int] > 0 {
                        assert(list@ == l0);
                    }
                    assert forall|q: usize|
                        list@.contains(q) <==> (q < n && q != i && cnt@[q as int] > 0) by {
                        let pushed = m != i && c0[m as int] == 0;
                        assert(pushed ==> list@ == l0.push(m));
                        assert(!pushed ==> list@ == l0);
                        if pushed {
                            if list@.contains(q) {
                                let a = choose|a: int| 0 <= a < list@.len() && list@[a] == q;
                                if a < l0.len() {
                                    assert(l0[a] == q);
                                }
                            }
                            if l0.contains(q) {
                                let a = choose|a: int| 0 <= a < l0.len() && l0[a] == q;
                                assert(list@[a] == q);
                            }
                            if q == m {
                                assert(list@[list@.len() - 1] == q);
                            }
                        }
                        if q >= n {
                            assert(!l0.contains(q));
                        } else if q != m {
                            assert(cnt@[q as int] == c0[q as int]);
                            assert(list@.contains(q) == l0.contains(q));
                        } else if m != i {
                            assert(cnt@[q as int] > 0);
                            if c0[m as int] > 0 {
                                assert(l0.contains(q));
                            }
                        }
                    }
                }
                proof {
                    assert forall|q: usize|
                        q < n && q != i implies #[trigger] cnt@[q as int] == together(
                            cs,
                            ps,
                            i,
                            q,
                            t as int,
                        ) + if g@.take(s + 1).contains(q) {
                            1nat
                        } else {
                            0nat
                        } by {
                        if q != m {
                            assert(g@.take(s + 1).contains(q) == g@.take(s as int).contains(q)) by {
                                if g@.take(s + 1).contains(q) {
                                    let a = choose|a: int| 0 <= a < s + 1 && #[trigger] g@.take(s + 1)[a] == q;
                                    assert(g@.take(s as int)[a] == q);
                                }
                                if g@.take(s as int).contains(q) {
                                    let a = choose|a: int| 0 <= a < s && #[trigger] g@.take(s as int)[a] == q;
                                    assert(g@.take(s + 1)[a] == q);
                                }
                            }
                        } else {
                            assert(g@.take(s + 1)[s as int] == q);
                        }
                    }
                }
                s = s + 1;
            }
            assert(g@.take(g@.len() as int) =~= g@);
        }
        t = t + 1;
    }
    assert(t == window(cs));
    assert forall|a: int| 0 <= a < list@.len() implies list@[a] < n by {
        assert(list@.contains(list@[a]));
    }
    let mut nb: Vec<(usize, usize)> = Vec::new();
    let mut k: usize = 0;
    while k < list.len()
        invariant
            k <= list@.len(),
            nb@.len() == k,
            cnt@.len() == n,
            forall|a: int| 0 <= a < list@.len() ==> list@[a] < n,
            forall|a: int| 0 <= a < k ==> #[trigger] nb@[a] == (list@[a], cnt@[list@[a] as int]),
        decreases list@.len() - k,
    {
        let q = list[k];
        nb.push((q, cnt[q]));
        k = k + 1;
    }
    assert(firsts(nb@) =~= list@);
    assert forall|k: int| 0 <= k < nb@.len() implies partners(cs, ps, i, #[trigger] nb@[k].0)
        && nb@[k].1 == co_changes(cs, ps, i, nb@[k].0) by {
        assert(list@.contains(list@[k]));
    }
    assert forall|q: usize| partners(cs, ps, i, q) implies #[trigger] firsts(nb@).contains(q) by {
        assert(cnt@[q as int] == together(cs, ps, i, q, t as int));
    }
    assert(neighbours_ok(nb@, cs, ps, i));
    assert forall|q: int| 0 <= q < n && #[trigger] cnt@[q] != 0 implies exists|a: int|
        0 <= a < list@.len() && list@[a] == q by {
        assert(list@.contains(q as usize));
    }
    let mut k: usize = 0;
    while k < list.len()
        invariant
            k <= list@.len(),
            cnt@.len() == n,
            forall|a: int| 0 <= a < list@.len() ==> list@[a] < n,
            forall|q: int|
                0 <= q < n && #[trigger] cnt@[q] != 0 ==> exists|a: int|
                    k <= a < list@.len() && list@[a] == q,
        decreases list@.len() - k,
    {
        let q = list[k];
        cnt.set(q, 0);
        k = k + 1;
    }
    (nb, app)
}

/// The partners of `i` that rank among its top `MAX_COCHANGE_PARTNERS`.
fn top_partners(
    nb: &Vec<(usize, usize)>,
    ps: &Vec<Vec<char>>,
    i: usize,
    Ghost(cs): Ghost<Seq<Seq<Seq<char>>>>,
) -> (r: Vec<usize>)
    requires
        neighbours_ok(nb@, cs, ps@.map_values(|p: Vec<char>| p@), i),
    ensures
        forall|j: usize|
            r@.contains(j) <==> (partners(cs, ps@.map_values(|p: Vec<char>| p@), i, j)
                && partner_rank(cs, ps@.map_values(|p: Vec<char>| p@), i, j)
                < MAX_COCHANGE_PARTNERS),
{
    let ghost psv = ps@.map_values(|p: Vec<char>| p@);
    let ghost fs = firsts(nb@);
    let mut r: Vec<usize> = Vec::new();
    let mut k: usize = 0;
    while k < nb.len()
        invariant
            psv == ps@.map_values(|p: Vec<char>| p@),
            fs == firsts(nb@),
            neighbours_ok(nb@, cs, psv, i),
            k <= nb@.len(),
            forall|j: usize|
                r@.contains(j) <==> (fs.take(k as int).contains(j) && partner_rank(cs, psv, i, j)
                    < MAX_COCHANGE_PARTNERS),
        decreases nb@.len() - k,
    {
        let (j, cj) = nb[k];
        assert(partners(cs, psv, i, nb@[k as int].0));
        let ghost f = |q: usize| outranks(cs, psv, i, q, j);
        let mut rank: usize = 0;
        let mut k2: usize = 0;
        while k2 < nb.len()
            invariant
                psv == ps@.map_values(|p: Vec<char>| p@),
                fs == firsts(nb@),
                neighbours_ok(nb@, cs, psv, i),
                k < nb@.len(),
                j == nb@[k as int].0,
                cj == co_changes(cs, psv, i, j),
                j < psv.len(),
                f == (|q: usize| outranks(cs, psv, i, q, j)),
                k2 <= nb@.len(),
                rank <= k2,
                rank == count_where(fs.take(k2 as int), f),
            decreases nb@.len() - k2,
        {
            let (q, cq) = nb[k2];
            assert(partners(cs, psv, i, nb@[k2 as int].0));
            assert(fs.take(k2 + 1).drop_last() =~= fs.take(k2 as int));
            assert(fs.take(k2 + 1).last() == q);
            assert(psv[q as int] == ps@[q as int]@ && psv[j as int] == ps@[j as int]@);
            if cq > cj || (cq == cj && lex_less(&ps[q], &ps[j])) {
                rank = rank + 1;
            }
            k2 = k2 + 1;
        }
        proof {
            assert(fs.take(nb@.len() as int) =~= fs);
            lemma_count_where_set(fs, f);
            assert(fs.to_set().filter(f) =~= Set::new(
                |q: usize| partners(cs, psv, i, q) && outranks(cs, psv, i, q, j),
            )) by {
                assert forall|q: usize| fs.to_set().filter(f).contains(q) <==> (partners(cs, psv, i, q)
                    && outranks(cs, psv, i, q, j)) by {
                    if fs.contains(q) {
                        let a = choose|a: int| 0 <= a < fs.len() && fs[a] == q;
                        assert(partners(cs, psv, i, nb@[a].0));
                    }
                }
            }
        }
        assert(rank == partner_rank(cs, psv, i, j));
        assert(fs[k as int] == j);
        assert(!fs.take(k as int).contains(j)) by {
            if fs.take(k as int).contains(j) {
                let a = choose|a: int| 0 <= a < k && #[trigger] fs.take(k as int)[a] == j;
                assert(fs[a] == fs[k as int]);
            }
        }
        let ghost r0 = r@;
        if rank < MAX_COCHANGE_PARTNERS {
            r.push(j);
        }
        proof {
            assert forall|x: usize|
                r@.contains(x) <==> (fs.take(k + 1).contains(x) && partner_rank(cs, psv, i, x)
                    < MAX_COCHANGE_PARTNERS) by {
                assert(fs.take(k + 1) =~= fs.take(k as int).push(j));
                if fs.take(k + 1).contains(x) {
                    let a = choose|a: int| 0 <= a < k + 1 && #[trigger] fs.take(k + 1)[a] == x;
                    if a < k {
                        assert(fs.take(k as int)[a] == x);
                    }
                }
                if fs.take(k as int).contains(x) {
                    let a = choose|a: int| 0 <= a < k && #[trigger] fs.take(k as int)[a] == x;
                    assert(fs.take(k + 1)[a] == x);
                }
                if r@.contains(x) {
                    let a = choose|a: int| 0 <= a < r@.len() && r@[a] == x;
                    if a < r0.len() {
                        assert(r0[a] == x);
                    }
                }
                if r0.contains(x) {
                    let a = choose|a: int| 0 <= a < r0.len() && r0[a] == x;
                    assert(r@[a] == x);
                }
                if x == j && rank < MAX_COCHANGE_PARTNERS {
                    assert(r@[r@.len() - 1] == x);
                }
            }
        }
        k = k + 1;
    }
    proof {
        assert(fs.take(nb@.len() as int) =~= fs);
        assert forall|j: usize|
            r@.contains(j) <==> (partners(cs, psv, i, j) && partner_rank(cs, psv, i, j)
                < MAX_COCHANGE_PARTNERS) by {
            if fs.contains(j) {
                let a = choose|a: int| 0 <= a < fs.len() && fs[a] == j;
                assert(partners(cs, psv, i, nb@[a].0));
            }
        }
    }
    r
}

fn max_count(a: usize, b: usize) -> (r: usize)
    ensures
        r == max3(a as nat, b as nat),
{
    let m = if a < b {
        b
    } else {
        a
    };
    if m < 1 {
        1
    } else {
        m
    }
}

fn make_edge(
    fe: &Vec<(String, String)>,
    i: usize,
    j: usize,
    count: usize,
    appearances_i: usize,
    appearances_j: usize,
) -> (e: CoChangeEdge)
    requires
        i < fe@.len(),
        j < fe@.len(),
    ensures
        e.left == i,
        e.right == j,
        e.co_change_count == count,
        e.commit_appearances == max3(appearances_i as nat, appearances_j as nat),
        ({
            let a = fe@[i as int].1@;
            let b = fe@[j as int].1@;
            let s = if lex_le(a, b) { a } else { b };
            let t = if lex_le(a, b) { b } else { a };
            &&& e.source_entity_id@ == s
            &&& e.target_entity_id@ == t
            &&& e.id@ == digest_id_of("rel"@, seq![s, t, "changed_with"@])
        }),
{
    let a = chars_of(fe[i].1.as_str());
    let b = chars_of(fe[j].1.as_str());
    proof {
        lemma_lex_total(a@, b@);
    }
    let (source, target) = if lex_less(&b, &a) {
        (copy_string(&fe[j].1), copy_string(&fe[i].1))
    } else {
        (copy_string(&fe[i].1), copy_string(&fe[j].1))
    };
    let id = relation_id(source.as_str(), target.as_str(), "changed_with");
    CoChangeEdge {
        id,
        source_entity_id: source,
        target_entity_id: target,
        left: i,
        right: j,
        co_change_count: count,
        commit_appearances: max_count(appearances_i, appearances_j),
    }
}

/// `ChangedWith` edges between file entities that keep landing in the
/// same commits. `touched` holds each commit's touched paths, newest
/// first; `file_entities` maps a file's path to its entity id. Only the
/// newest `MAX_COCHANGE_COMMITS` commits are read, and a commit counts
/// only when it touches at most `MAX_COCHANGE_FILES` known files. A pair
/// of files that changed together gets one edge when one of the two ranks
/// the other among its `MAX_COCHANGE_PARTNERS` most frequent partners
/// (ties go to the path that sorts first). The result holds exactly one
/// edge per such pair; its order is unspecified.
pub fn changed_with_edges(touched: &Vec<Vec<String>>, file_entities: &Vec<(String, String)>) -> (r:
    Vec<CoChangeEdge>)
    ensures
        forall|k: int|
            0 <= k < r@.len() ==> edge_of(#[trigger] r@[k], commit_views(touched@), file_entities@),
        forall|i: usize, j: usize|
            coupled(commit_views(touched@), entity_paths(file_entities@), i, j) ==> #[trigger] edge_pairs(
                r@,
            ).contains((i, j)),
        edge_pairs(r@).no_duplicates(),
{
    let ghost cs = commit_views(touched@);
    let ghost fev = file_entities@;
    let n = file_entities.len();
    let mut ps: Vec<Vec<char>> = Vec::new();
    let mut k: usize = 0;
    while k < n
        invariant
            n == file_entities@.len(),
            k <= n,
            ps@.len() == k,
            forall|a: int| 0 <= a < k ==> #[trigger] ps@[a]@ == file_entities@[a].0@,
        decreases n - k,
    {
        ps.push(chars_of(file_entities[k].0.as_str()));
        k = k + 1;
    }
    let ghost psv = ps@.map_values(|p: Vec<char>| p@);
    assert(psv =~= entity_paths(file_entities@));
    let gs = read_groups(touched, &ps);
    let mut cnt = zeros(n);
    let mut nbs: Vec<Vec<(usize, usize)>> = Vec::new();
    let mut apps: Vec<usize> = Vec::new();
    let mut i: usize = 0;
    while i < n
        invariant
            n == file_entities@.len(),
            psv == ps@.map_values(|p: Vec<char>| p@),
            psv.len() == n,
            groups_ok(gs@, cs, psv),
            i <= n,
            cnt@.len() == n,
            forall|q: int| 0 <= q < n ==> cnt@[q] == 0,
            nbs@.len() == i,
            apps@.len() == i,
            forall|a: int| 0 <= a < i ==> neighbours_ok(#[trigger] nbs@[a]@, cs, psv, a as usize),
            forall|a: int| 0 <= a < i ==> #[trigger] apps@[a] == appearances(cs, psv, a as usize),
        decreases n - i,
    {
        let (nb, app) = neighbours(&gs, i, &mut cnt, Ghost(cs), Ghost(psv));
        nbs.push(nb);
        apps.push(app);
        i = i + 1;
    }
    let mut tops: Vec<Vec<usize>> = Vec::new();
    let mut i: usize = 0;
    while i < n
        invariant
            n == file_entities@.len(),
            psv == ps@.map_values(|p: Vec<char>| p@),
            psv.len() == n,
            nbs@.len() == n,
            forall|a: int| 0 <= a < n ==> neighbours_ok(#[trigger] nbs@[a]@, cs, psv, a as usize),
            apps@.len() == n,
            forall|a: int| 0 <= a < n ==> #[trigger] apps@[a] == appearances(cs, psv, a as usize),
            i <= n,
            tops@.len() == i,
            forall|a: int, j: usize|
                0 <= a < i ==> (#[trigger] tops@[a]@.contains(j) <==> (partners(cs, psv, a as usize, j)
                    && partner_rank(cs, psv, a as usize, j) < MAX_COCHANGE_PARTNERS)),
        decreases n - i,
    {
        let top = top_partners(&nbs[i], &ps, i, Ghost(cs));
        tops.push(top);
        i = i + 1;
    }
    let mut out: Vec<CoChangeEdge> = Vec::new();
    let mut i: usize = 0;
    while i < n
        invariant
            n == file_entities@.len(),
            fev == file_entities@,
            psv == entity_paths(file_entities@),
            psv.len() == n,
            nbs@.len() == n,
            apps@.len() == n,
            tops@.len() == n,
            forall|a: int| 0 <= a < n ==> neighbours_ok(#[trigger] nbs@[a]@, cs, psv, a as usize),
            forall|a: int| 0 <= a < n ==> #[trigger] apps@[a] == appearances(cs, psv, a as usize),
            forall|a: int, j: usize|
                0 <= a < n ==> (#[trigger] tops@[a]@.contains(j) <==> (partners(cs, psv, a as usize, j)
                    && partner_rank(cs, psv, a as usize, j) < MAX_COCHANGE_PARTNERS)),
            i <= n,
            forall|k: int| 0 <= k < out@.len() ==> edge_of(#[trigger] out@[k], cs, fev),
            forall|k: int| 0 <= k < out@.len() ==> (#[trigger] out@[k]).left < i,
            forall|a: usize, j: usize|
                a < i && coupled(cs, psv, a, j) ==> #[trigger] edge_pairs(out@).contains((a, j)),
            edge_pairs(out@).no_duplicates(),
        decreases n - i,
    {
        let nb = &nbs[i];
        let ghost fs = firsts(nb@);
        assert(neighbours_ok(nb@, cs, psv, i));
        let mut k: usize = 0;
        while k < nb.len()
            invariant
                n == file_entities@.len(),
                fev == file_entities@,
                psv == entity_paths(file_entities@),
                psv.len() == n,
                i < n,
                nb == nbs@[i as int],
                fs == firsts(nb@),
                apps@.len() == n,
                tops@.len() == n,
                neighbours_ok(nb@, cs, psv, i),
                forall|a: int| 0 <= a < n ==> apps@[a] == appearances(cs, psv, a as usize),
                forall|a: int, j: usize|
                    0 <= a < n ==> (#[trigger] tops@[a]@.contains(j) <==> (partners(
                        cs,
                        psv,
                        a as usize,
                        j,
                    ) && partner_rank(cs, psv, a as usize, j) < MAX_COCHANGE_PARTNERS)),
                k <= nb@.len(),
                forall|e: int| 0 <= e < out@.len() ==> edge_of(#[trigger] out@[e], cs, fev),
                forall|e: int|
                    0 <= e < out@.len() ==> (#[trigger] out@[e]).left < i || (out@[e].left == i
                        && fs.take(k as int).contains(out@[e].right)),
                forall|a: usize, j: usize|
                    a < i && coupled(cs, psv, a, j) ==> #[trigger] edge_pairs(out@).contains((a, j)),
                forall|j: usize|
                    fs.take(k as int).contains(j) && coupled(cs, psv, i, j) ==> #[trigger] edge_pairs(
                        out@,
                    ).contains((i, j)),
                edge_pairs(out@).no_duplicates(),
            decreases nb@.len() - k,
        {
            let (j, c) = nb[k];
            assert(partners(cs, psv, i, nb@[k as int].0));
            assert(fs[k as int] == j);
            assert(fs.take(k + 1) =~= fs.take(k as int).push(j));
            assert(!fs.take(k as int).contains(j)) by {
                if fs.take(k as int).contains(j) {
                    let a = choose|a: int| 0 <= a < k && #[trigger] fs.take(k as int)[a] == j;
                    assert(fs[a] == fs[k as int]);
                }
            }
            proof {
                lemma_together_symmetric(cs, psv, i, j, window(cs));
            }
            let ghost o0 = out@;
            if j > i && (has_index(&tops[i], j) || has_index(&tops[j], i)) {
                assert(coupled(cs, psv, i, j));
                let e = make_edge(file_entities, i, j, c, apps[i], apps[j]);
                out.push(e);
                assert(edge_pairs(out@) =~= edge_pairs(o0).push((i, j)));
                assert(!edge_pairs(o0).contains((i, j))) by {
                    if edge_pairs(o0).contains((i, j)) {
                        let a = choose|a: int| 0 <= a < o0.len() && #[trigger] edge_pairs(o0)[a] == (i, j);
                        assert(o0[a].left == i);
                    }
                }
            } else {
                assert(!coupled(cs, psv, i, j));
            }
            assert(out@.len() >= o0.len());
            assert(forall|x: int| 0 <= x < o0.len() ==> out@[x] == o0[x]);
            proof {
                assert forall|e: int|
                    0 <= e < out@.len() implies (#[trigger] out@[e]).left < i || (out@[e].left == i
                        && fs.take(k + 1).contains(out@[e].right)) by {
                    if e < o0.len() {
                        assert(out@[e] == o0[e]);
                        if o0[e].left == i {
                            let a = choose|a: int| 0 <= a < k && #[trigger] fs.take(k as int)[a] == o0[e].right;
                            assert(fs.take(k + 1)[a] == o0[e].right);
                        }
                    } else {
                        assert(fs.take(k + 1)[k as int] == j);
                    }
                }
                assert forall|a: usize, q: usize|
                    a < i && coupled(cs, psv, a, q) implies #[trigger] edge_pairs(out@).contains((a, q)) by {
                    assert(edge_pairs(o0).contains((a, q)));
                    let x = choose|x: int| 0 <= x < edge_pairs(o0).len() && edge_pairs(o0)[x] == (a, q);
                    assert(out@[x] == o0[x]);
                    assert(edge_pairs(out@)[x] == (a, q));
                }
                assert forall|q: usize|
                    fs.take(k + 1).contains(q) && coupled(cs, psv, i, q) implies #[trigger] edge_pairs(
                        out@,
                    ).contains((i, q)) by {
                    let a = choose|a: int| 0 <= a < k + 1 && #[trigger] fs.take(k + 1)[a] == q;
                    if a < k {
                        assert(fs.take(k as int)[a] == q);
                        assert(fs.take(k as int).contains(q));
                        assert(edge_pairs(o0).contains((i, q)));
                        let x = choose|x: int| 0 <= x < edge_pairs(o0).len() && edge_pairs(o0)[x] == (i, q);
                        assert(out@[x] == o0[x]);
                        assert(edge_pairs(out@)[x] == (i, q));
                    } else {
                        assert(edge_pairs(out@)[out@.len() - 1] == (i, q));
                    }
                }
            }
            k = k + 1;
        }
        proof {
            assert(fs.take(nb@.len() as int) =~= fs);
            assert forall|a: usize, q: usize|
                a < i + 1 && coupled(cs, psv, a, q) implies #[trigger] edge_pairs(out@).contains((a, q)) by {
                if a == i {
                    assert(fs.contains(q));
                }
            }
        }
        i = i + 1;
    }
    out
}

} // verus!
