//! Package-level architecture checks: code edges that cross a package
//! boundary without a declared dependency between the two packages.

use vstd::prelude::*;
use vstd::hash_map::StringHashMap;
use crate::descriptor::{lex_less, lex_lt};
use crate::packages::PackageNode;
use crate::text::{chars_of, copy_string, is_prefix};

verus! {

/// At most this many violations are listed; the count covers all of them.
pub const VIOLATION_LIST_CAP: usize = 256;

/// A code edge between two entities (`imports`, `calls`, `references`, ...).
#[derive(Debug)]
pub struct BoundaryEdge {
    /// The edge kind's label.
    pub kind: String,
    pub source_entity_id: String,
    pub target_entity_id: String,
    /// Path of the edge's first evidence address, if it has one.
    pub evidence_path: Option<String>,
}

/// An entity as the boundary check sees it: its id, name and file.
#[derive(Debug)]
pub struct BoundaryEntity {
    pub id: String,
    pub name: String,
    /// Path of the entity's address, if it has one.
    pub path: Option<String>,
}

/// An edge whose target package is not a declared dependency of its
/// source package.
#[derive(Debug)]
pub struct BoundaryViolation {
    /// Position of the edge among the checked edges.
    pub edge: usize,
    pub source_package: String,
    pub target_package: String,
    pub kind: String,
    pub source_entity: String,
    pub target_entity: String,
    /// The edge's first evidence path, else the source entity's path.
    pub evidence_path: String,
}

/// The listed violations (distinct by kind, source and target; ordered by
/// source package, target package and kind) and how many crossing edges
/// there are in all.
#[derive(Debug)]
pub struct BoundaryReport {
    pub violations: Vec<BoundaryViolation>,
    pub total: usize,
}

/// `path` lies under the package root `root` (the empty root holds every
/// path).
pub open spec fn under_root(root: Seq<char>, path: Seq<char>) -> bool {
    root.len() == 0 || path == root || is_prefix(root + "/"@, path)
}

/// Among the first `n` packages, the package of `path`: the one with the
/// longest root that holds it, the first among equally long ones. (Roots
/// that hold one path are prefixes of each other, so their lengths in
/// chars order them as their lengths in bytes do.)
pub open spec fn package_of(ps: Seq<PackageNode>, path: Seq<char>, n: int) -> Option<int>
    decreases n,
{
    if n <= 0 {
        None
    } else {
        let prev = package_of(ps, path, n - 1);
        if under_root(ps[n - 1].root_dir@, path) && (prev matches Some(b) ==> ps[n - 1].root_dir@.len()
            > ps[b].root_dir@.len()) {
            Some(n - 1)
        } else {
            prev
        }
    }
}

/// Among the first `n` entities, the last with id `id`.
pub open spec fn entity_at(es: Seq<BoundaryEntity>, id: Seq<char>, n: int) -> Option<int>
    decreases n,
{
    if n <= 0 {
        None
    } else if es[n - 1].id@ == id {
        Some(n - 1)
    } else {
        entity_at(es, id, n - 1)
    }
}

/// Among the first `n` packages, the last named `name`.
pub open spec fn named_package(ps: Seq<PackageNode>, name: Seq<char>, n: int) -> Option<int>
    decreases n,
{
    if n <= 0 {
        None
    } else if ps[n - 1].name@ == name {
        Some(n - 1)
    } else {
        named_package(ps, name, n - 1)
    }
}

/// Package `x` declares a dependency on the package named `name` (the
/// declarations of the last package named like `x` count).
pub open spec fn declares(ps: Seq<PackageNode>, x: int, name: Seq<char>) -> bool {
    named_package(ps, ps[x].name@, ps.len() as int) matches Some(z) && ps[z].dependencies@.map_values(
        |s: String| s@,
    ).contains(name)
}

/// The crossing an edge makes: its source and target entities and
/// packages, when both endpoints are packaged, the packages differ by name
/// and the source does not declare the target.
pub open spec fn crossing(ps: Seq<PackageNode>, es: Seq<BoundaryEntity>, e: BoundaryEdge) -> Option<
    (int, int, int, int),
> {
    match (entity_at(es, e.source_entity_id@, es.len() as int), entity_at(
        es,
        e.target_entity_id@,
        es.len() as int,
    )) {
        (Some(a), Some(b)) => match (es[a].path, es[b].path) {
            (Some(pa), Some(pb)) => match (
                package_of(ps, pa@, ps.len() as int),
                package_of(ps, pb@, ps.len() as int),
            ) {
                (Some(x), Some(y)) => if ps[x].name@ == ps[y].name@ || declares(ps, x, ps[y].name@) {
                    None
                } else {
                    Some((a, b, x, y))
                },
                _ => None,
            },
            _ => None,
        },
        _ => None,
    }
}

/// How many of the first `n` edges cross a boundary.
pub open spec fn crossing_count(ps: Seq<PackageNode>, es: Seq<BoundaryEntity>, edges: Seq<BoundaryEdge>, n: int) -> nat
    decreases n,
{
    if n <= 0 {
        0
    } else {
        crossing_count(ps, es, edges, n - 1) + if crossing(ps, es, edges[n - 1]) is Some {
            1nat
        } else {
            0nat
        }
    }
}

/// Two edges have the same kind, source and target.
pub open spec fn same_edge(a: BoundaryEdge, b: BoundaryEdge) -> bool {
    a.kind@ == b.kind@ && a.source_entity_id@ == b.source_entity_id@ && a.target_entity_id@
        == b.target_entity_id@
}

/// The positions of the listed crossings among the first `n` edges: each
/// crossing not the same as one listed before, until the cap is reached.
pub open spec fn listed(ps: Seq<PackageNode>, es: Seq<BoundaryEntity>, edges: Seq<BoundaryEdge>, n: int) -> Seq<
    int,
>
    decreases n,
{
    if n <= 0 {
        Seq::empty()
    } else {
        let prev = listed(ps, es, edges, n - 1);
        if crossing(ps, es, edges[n - 1]) is Some && prev.len() < VIOLATION_LIST_CAP && !(exists|j: int|
            0 <= j < prev.len() && same_edge(#[trigger] edges[prev[j]], edges[n - 1])) {
            prev.push(n - 1)
        } else {
            prev
        }
    }
}

/// A violation as plain values: edge, source package, target package,
/// kind, source entity, target entity, evidence path.
pub type ViolationView = (int, Seq<char>, Seq<char>, Seq<char>, Seq<char>, Seq<char>, Seq<char>);

/// The plain values of a violation.
pub open spec fn violation_view(v: BoundaryViolation) -> ViolationView {
    (v.edge as int, v.source_package@, v.target_package@, v.kind@, v.source_entity@, v.target_entity@, v.evidence_path@)
}

/// The violation of crossing edge `k`.
pub open spec fn violation_of(ps: Seq<PackageNode>, es: Seq<BoundaryEntity>, edges: Seq<BoundaryEdge>, k: int) -> ViolationView {
    let (a, b, x, y) = crossing(ps, es, edges[k]).unwrap();
    (
        k,
        ps[x].name@,
        ps[y].name@,
        edges[k].kind@,
        es[a].name@,
        es[b].name@,
        match edges[k].evidence_path {
            Some(p) => p@,
            None => es[a].path.unwrap()@,
        },
    )
}

/// `v` sorts strictly before `w` by source package, target package, kind.
pub open spec fn violation_lt(v: ViolationView, w: ViolationView) -> bool {
    lex_lt(v.1, w.1) || (v.1 == w.1 && (lex_lt(v.2, w.2) || (v.2 == w.2 && lex_lt(v.3, w.3))))
}

/// `vs` with `v` inserted after every violation that does not sort after it.
pub open spec fn insert_violation(vs: Seq<ViolationView>, v: ViolationView) -> Seq<ViolationView>
    decreases vs.len(),
{
    if vs.len() > 0 && violation_lt(v, vs.last()) {
        insert_violation(vs.drop_last(), v).push(vs.last())
    } else {
        vs.push(v)
    }
}

/// The violations in order (a stable sort).
pub open spec fn sort_violations(vs: Seq<ViolationView>) -> Seq<ViolationView>
    decreases vs.len(),
{
    if vs.len() == 0 {
        vs
    } else {
        insert_violation(sort_violations(vs.drop_last()), vs.last())
    }
}

proof fn lemma_insert_violation(vs: Seq<ViolationView>, v: ViolationView, at: int)
    requires
        0 <= at <= vs.len(),
        forall|k: int| at <= k < vs.len() ==> violation_lt(v, #[trigger] vs[k]),
        at == 0 || !violation_lt(v, vs[at - 1]),
    ensures
        insert_violation(vs, v) == vs.insert(at, v),
    decreases vs.len(),
{
    if vs.len() > 0 && violation_lt(v, vs.last()) {
        lemma_insert_violation(vs.drop_last(), v, at);
        assert(vs.drop_last().insert(at, v).push(vs.last()) =~= vs.insert(at, v));
    } else {
        assert(vs.push(v) =~= vs.insert(at, v));
    }
}

fn package_at(packages: &Vec<PackageNode>, path: &String) -> (r: Option<usize>)
    ensures
        match r {
            Some(x) => x < packages@.len() && package_of(packages@, path@, packages@.len() as int)
                == Some(x as int),
            None => package_of(packages@, path@, packages@.len() as int) is None,
        },
{
    let pc = chars_of(path.as_str());
    let mut best: Option<usize> = None;
    let mut best_len: usize = 0;
    for k in 0..packages.len()
        invariant
            pc@ == path@,
            match best {
                Some(b) => package_of(packages@, path@, k as int) == Some(b as int) && b < k
                    && best_len == packages@[b as int].root_dir@.len(),
                None => package_of(packages@, path@, k as int) is None,
            },
    {
        let root = chars_of(packages[k].root_dir.as_str());
        let mut slash = chars_of(packages[k].root_dir.as_str());
        crate::text::push_str(&mut slash, "/");
        let holds = root.len() == 0 || crate::text::eq_chars(&pc, &root) || crate::text::starts_with(
            &pc,
            &slash,
        );
        if holds {
            let better = match best {
                Some(_) => root.len() > best_len,
                None => true,
            };
            if better {
                best = Some(k);
                best_len = root.len();
            }
        }
    }
    best
}

fn named_at(packages: &Vec<PackageNode>, name: &String) -> (r: Option<usize>)
    ensures
        match r {
            Some(z) => z < packages@.len() && named_package(packages@, name@, packages@.len() as int)
                == Some(z as int),
            None => named_package(packages@, name@, packages@.len() as int) is None,
        },
{
    let mut n: usize = packages.len();
    while n > 0
        invariant
            n <= packages@.len(),
            named_package(packages@, name@, packages@.len() as int) == named_package(
                packages@,
                name@,
                n as int,
            ),
        decreases n,
    {
        if packages[n - 1].name == *name {
            return Some(n - 1);
        }
        n = n - 1;
    }
    None
}

fn declares_exec(packages: &Vec<PackageNode>, x: usize, name: &String) -> (r: bool)
    requires
        x < packages@.len(),
    ensures
        r == declares(packages@, x as int, name@),
{
    match named_at(packages, &packages[x].name) {
        None => false,
        Some(z) => {
            let deps = &packages[z].dependencies;
            let ghost dv = deps@.map_values(|s: String| s@);
            for i in 0..deps.len()
                invariant
                    dv == deps@.map_values(|s: String| s@),
                    z < packages@.len(),
                    x < packages@.len(),
                    *deps == packages@[z as int].dependencies,
                    named_package(packages@, packages@[x as int].name@, packages@.len() as int) == Some(
                        z as int,
                    ),
                    forall|j: int| 0 <= j < i ==> dv[j] != name@,
            {
                if deps[i] == *name {
                    assert(dv[i as int] == name@);
                    assert(dv.contains(name@));
                    return true;
                }
            }
            assert(!dv.contains(name@));
            false
        },
    }
}

fn same_edge_exec(a: &BoundaryEdge, b: &BoundaryEdge) -> (r: bool)
    ensures
        r == same_edge(*a, *b),
{
    a.kind == b.kind && a.source_entity_id == b.source_entity_id && a.target_entity_id
        == b.target_entity_id
}

fn violation_less(v: &BoundaryViolation, w: &BoundaryViolation) -> (r: bool)
    ensures
        r == violation_lt(violation_view(*v), violation_view(*w)),
{
    let vs = chars_of(v.source_package.as_str());
    let ws = chars_of(w.source_package.as_str());
    if lex_less(&vs, &ws) {
        return true;
    }
    if v.source_package != w.source_package {
        return false;
    }
    let vt = chars_of(v.target_package.as_str());
    let wt = chars_of(w.target_package.as_str());
    if lex_less(&vt, &wt) {
        return true;
    }
    if v.target_package != w.target_package {
        return false;
    }
    lex_less(&chars_of(v.kind.as_str()), &chars_of(w.kind.as_str()))
}

/// Code edges that cross a package boundary undeclared: both endpoints
/// resolve (by entity id) to entities with paths, the paths to packages
/// (longest root), the packages differ and the source package does not
/// declare the target as a dependency. Counts every such edge; lists the
/// first `VIOLATION_LIST_CAP` that differ in kind, source or target,
/// ordered by source package, target package and kind.
pub fn boundary_violations(
    packages: &Vec<PackageNode>,
    entities: &Vec<BoundaryEntity>,
    edges: &Vec<BoundaryEdge>,
) -> (r: BoundaryReport)
    ensures
        r.total == crossing_count(packages@, entities@, edges@, edges@.len() as int),
        r.violations@.map_values(|v: BoundaryViolation| violation_view(v)) == sort_violations(
            listed(packages@, entities@, edges@, edges@.len() as int).map_values(
                |k: int| violation_of(packages@, entities@, edges@, k),
            ),
        ),
{
    let ghost ps = packages@;
    let ghost es = entities@;
    if packages.len() == 0 {
        proof {
            lemma_nothing_crosses(ps, es, edges@, edges@.len() as int);
        }
        return BoundaryReport { violations: Vec::new(), total: 0 };
    }
    let mut index: StringHashMap<usize> = StringHashMap::new();
    for i in 0..entities.len()
        invariant
            es == entities@,
            forall|x: Seq<char>| #[trigger] index@.contains_key(x) <==> entity_at(es, x, i as int) is Some,
            forall|x: Seq<char>|
                #[trigger] index@.contains_key(x) ==> entity_at(es, x, i as int) == Some(index@[x] as int),
    {
        index.insert(copy_string(&entities[i].id), i);
    }
    let mut total: usize = 0;
    let mut order: Vec<usize> = Vec::new();
    let mut sorted: Vec<BoundaryViolation> = Vec::new();
    for k in 0..edges.len()
        invariant
            es == entities@,
            ps == packages@,
            forall|x: Seq<char>| #[trigger] index@.contains_key(x) <==> entity_at(es, x, es.len() as int) is Some,
            forall|x: Seq<char>|
                #[trigger] index@.contains_key(x) ==> entity_at(es, x, es.len() as int) == Some(
                    index@[x] as int,
                ),
            total == crossing_count(ps, es, edges@, k as int),
            total <= k,
            order@.map_values(|j: usize| j as int) == listed(ps, es, edges@, k as int),
            forall|j: int| 0 <= j < order@.len() ==> #[trigger] order@[j] < k,
            sorted@.map_values(|v: BoundaryViolation| violation_view(v)) == sort_violations(
                listed(ps, es, edges@, k as int).map_values(|j: int| violation_of(ps, es, edges@, j)),
            ),
    {
        let e = &edges[k];
        let ghost lv = listed(ps, es, edges@, k as int);
        let found = crossing_at(packages, entities, &index, e);
        match found {
            None => {
                assert(listed(ps, es, edges@, k + 1) == lv);
            },
            Some((a, b, x, y)) => {
                total = total + 1;
                let mut dup = false;
                if order.len() < VIOLATION_LIST_CAP {
                    let mut j: usize = 0;
                    while j < order.len()
                        invariant
                            j <= order@.len(),
                            k < edges@.len(),
                            order@.map_values(|q: usize| q as int) == lv,
                            forall|q: int| 0 <= q < order@.len() ==> #[trigger] order@[q] < k,
                            !dup ==> forall|q: int| 0 <= q < j ==> !same_edge(#[trigger] edges@[lv[q]], *e),
                            dup ==> exists|q: int| 0 <= q < lv.len() && same_edge(#[trigger] edges@[lv[q]], *e),
                        decreases order@.len() - j,
                    {
                        assert(lv[j as int] == order@[j as int] as int);
                        if same_edge_exec(&edges[order[j]], e) {
                            dup = true;
                        }
                        j = j + 1;
                    }
                }
                if order.len() < VIOLATION_LIST_CAP && !dup {
                    let evidence = match &e.evidence_path {
                        Some(p) => copy_string(p),
                        // A crossing's source entity always has a path.
                        None => match &entities[a].path {
                            Some(p) => copy_string(p),
                            None => crate::text::owned(""),
                        },
                    };
                    let v = BoundaryViolation {
                        edge: k,
                        source_package: copy_string(&packages[x].name),
                        target_package: copy_string(&packages[y].name),
                        kind: copy_string(&e.kind),
                        source_entity: copy_string(&entities[a].name),
                        target_entity: copy_string(&entities[b].name),
                        evidence_path: evidence,
                    };
                    assert(violation_view(v) == violation_of(ps, es, edges@, k as int));
                    let ghost sv = sorted@.map_values(|w: BoundaryViolation| violation_view(w));
                    let mut at: usize = sorted.len();
                    while at > 0 && violation_less(&v, &sorted[at - 1])
                        invariant
                            at <= sorted@.len(),
                            sv == sorted@.map_values(|w: BoundaryViolation| violation_view(w)),
                            forall|q: int| at <= q < sv.len() ==> violation_lt(violation_view(v), #[trigger] sv[q]),
                        decreases at,
                    {
                        at = at - 1;
                    }
                    proof {
                        lemma_insert_violation(sv, violation_view(v), at as int);
                        let nl = lv.push(k as int);
                        assert(listed(ps, es, edges@, k + 1) == nl);
                        assert(nl.map_values(|j: int| violation_of(ps, es, edges@, j)).drop_last() =~= lv.map_values(
                            |j: int| violation_of(ps, es, edges@, j),
                        ));
                    }
                    sorted.insert(at, v);
                    assert(sorted@.map_values(|w: BoundaryViolation| violation_view(w)) =~= sv.insert(
                        at as int,
                        violation_of(ps, es, edges@, k as int),
                    ));
                    order.push(k);
                    assert(order@.map_values(|j: usize| j as int) =~= lv.push(k as int));
                } else {
                    assert(listed(ps, es, edges@, k + 1) == lv);
                }
            },
        }
    }
    BoundaryReport { violations: sorted, total }
}

proof fn lemma_nothing_crosses(ps: Seq<PackageNode>, es: Seq<BoundaryEntity>, edges: Seq<BoundaryEdge>, n: int)
    requires
        ps.len() == 0,
    ensures
        crossing_count(ps, es, edges, n) == 0,
        listed(ps, es, edges, n) == Seq::<int>::empty(),
    decreases n,
{
    if n > 0 {
        lemma_nothing_crosses(ps, es, edges, n - 1);
    }
}

/// The crossing of one edge, computed.
fn crossing_at(
    packages: &Vec<PackageNode>,
    entities: &Vec<BoundaryEntity>,
    index: &StringHashMap<usize>,
    e: &BoundaryEdge,
) -> (r: Option<(usize, usize, usize, usize)>)
    requires
        forall|x: Seq<char>| #[trigger] index@.contains_key(x) <==> entity_at(entities@, x, entities@.len() as int) is Some,
        forall|x: Seq<char>|
            #[trigger] index@.contains_key(x) ==> entity_at(entities@, x, entities@.len() as int) == Some(
                index@[x] as int,
            ),
    ensures
        match r {
            Some((a, b, x, y)) => crossing(packages@, entities@, *e) == Some((a as int, b as int, x as int, y as int))
                && a < entities@.len() && b < entities@.len() && x < packages@.len() && y < packages@.len(),
            None => crossing(packages@, entities@, *e) is None,
        },
{
    let a = match index.get(e.source_entity_id.as_str()) {
        Some(a) => *a,
        None => return None,
    };
    let b = match index.get(e.target_entity_id.as_str()) {
        Some(b) => *b,
        None => return None,
    };
    proof {
        lemma_entity_at_bound(entities@, e.source_entity_id@, entities@.len() as int);
        lemma_entity_at_bound(entities@, e.target_entity_id@, entities@.len() as int);
    }
    let pa = match &entities[a].path {
        Some(p) => p,
        None => return None,
    };
    let pb = match &entities[b].path {
        Some(p) => p,
        None => return None,
    };
    let x = match package_at(packages, pa) {
        Some(x) => x,
        None => return None,
    };
    let y = match package_at(packages, pb) {
        Some(y) => y,
        None => return None,
    };
    if packages[x].name == packages[y].name || declares_exec(packages, x, &packages[y].name) {
        return None;
    }
    Some((a, b, x, y))
}

proof fn lemma_entity_at_bound(es: Seq<BoundaryEntity>, id: Seq<char>, n: int)
    requires
        0 <= n <= es.len(),
    ensures
        entity_at(es, id, n) matches Some(a) ==> 0 <= a < n && es[a].id@ == id,
    decreases n,
{
    if n > 0 {
        lemma_entity_at_bound(es, id, n - 1);
    }
}

} // verus!
