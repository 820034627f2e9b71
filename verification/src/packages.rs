//! Package graph: packages read from build manifests (`Cargo.toml`,
//! `package.json`), their roots and membership prefixes.

use vstd::prelude::*;
use crate::artifact::{find_text, text_at};
use crate::descriptor::{lex_less, lex_lt};
use crate::relations::{parent_dir, parent_of};
use crate::context::SourceAddress;
use crate::indexing::{digest_id_of, entity_id, relation_id};
use crate::repository::ScannedFile;
use crate::text::{
    chars_of, contains_seq, contains_str, copy_string, decimal, ends_with_str, is_prefix, is_suffix, owned,
    push_str, starts_with, string_of,
};

verus! {

/// One package of the codebase map.
#[derive(Debug, Clone)]
pub struct PackageNode {
    /// Package name from its manifest.
    pub name: String,
    /// Ecosystem tag (`cargo`, `npm`, ...).
    pub ecosystem: String,
    /// Path to the manifest file.
    pub manifest_path: String,
    /// Package root directory.
    pub root_dir: String,
    /// Files contained by this package.
    pub member_files: usize,
    /// Packages this one depends on.
    pub dependencies: Vec<String>,
    /// Packages depending on this one.
    pub dependents: Vec<String>,
}

/// The path prefix of a package's member files: empty for the root
/// package, else the root directory and a `/`.
pub fn package_root_prefix(root_dir: &str) -> (r: String)
    ensures
        r@ == if root_dir@.len() == 0 {
            Seq::<char>::empty()
        } else {
            root_dir@ + "/"@
        },
{
    let v = crate::text::chars_of(root_dir);
    if v.len() == 0 {
        crate::text::string_of(&v)
    } else {
        let mut w = v;
        crate::text::push_str(&mut w, "/");
        crate::text::string_of(&w)
    }
}

// ---- manifests ---------------------------------------------------------------------

/// A package declared by a build manifest.
#[derive(Debug)]
pub struct PackageInfo {
    /// Package name from the manifest.
    pub name: String,
    /// Path of the manifest file.
    pub manifest_path: String,
    /// Directory of the manifest (empty at the top level).
    pub root_dir: String,
    /// `cargo` or `npm`.
    pub ecosystem: String,
    /// Declared dependency names, section by section.
    pub dependencies: Vec<String>,
}

/// A package as plain values: name, manifest, root, ecosystem, dependencies.
pub type PackageView = (Seq<char>, Seq<char>, Seq<char>, Seq<char>, Seq<Seq<char>>);

/// The plain values of a package.
pub open spec fn package_view(p: PackageInfo) -> PackageView {
    (p.name@, p.manifest_path@, p.root_dir@, p.ecosystem@, p.dependencies@.map_values(|s: String| s@))
}

/// What the `toml` crate reads as the string `key` of the table `table` of
/// a TOML document: `None` when the text does not parse, or holds no such
/// table or no such string in it.
pub uninterp spec fn toml_nested_string(text: Seq<char>, table: Seq<char>, key: Seq<char>) -> Option<
    Seq<char>,
>;

/// The keys the `toml` crate reads in the table `table` of a TOML document,
/// in the order its map yields them; `None` when the text does not parse or
/// holds no such table.
pub uninterp spec fn toml_table_keys_of(text: Seq<char>, table: Seq<char>) -> Option<Seq<Seq<char>>>;

/// What `serde_json` reads as the string field `key` of a JSON document;
/// `None` when the text does not parse, is no object, or has no such
/// string field.
pub uninterp spec fn json_string_field(text: Seq<char>, key: Seq<char>) -> Option<Seq<char>>;

/// The keys `serde_json` reads in the object field `key` of a JSON
/// document, in the order its map yields them; `None` when the text does
/// not parse or has no such object field.
pub uninterp spec fn json_object_keys_of(text: Seq<char>, key: Seq<char>) -> Option<Seq<Seq<char>>>;

/// `toml`: parses `text` as a `toml::Table` and reads the string at
/// `table.key`. The result is named, not stated.
#[verifier::external_body]
fn toml_table_string(text: &str, table: &str, key: &str) -> (r: Option<String>)
    ensures
        match r {
            Some(s) => toml_nested_string(text@, table@, key@) == Some(s@),
            None => toml_nested_string(text@, table@, key@) is None,
        },
{
    let parsed = text.parse::<toml::Table>().ok()?;
    parsed.get(table)?.as_table()?.get(key)?.as_str().map(|s| s.to_owned())
}

/// `toml`: parses `text` as a `toml::Table` and lists the keys of its table
/// `table`. The result is named, not stated.
#[verifier::external_body]
fn toml_table_keys(text: &str, table: &str) -> (r: Option<Vec<String>>)
    ensures
        match r {
            Some(v) => toml_table_keys_of(text@, table@) == Some(v@.map_values(|s: String| s@)),
            None => toml_table_keys_of(text@, table@) is None,
        },
{
    let parsed = text.parse::<toml::Table>().ok()?;
    parsed.get(table)?.as_table().map(|t| t.keys().cloned().collect())
}

/// `serde_json`: parses `text` as a `serde_json::Value` and reads its string
/// field `key`. The result is named, not stated.
#[verifier::external_body]
fn json_string(text: &str, key: &str) -> (r: Option<String>)
    ensures
        match r {
            Some(s) => json_string_field(text@, key@) == Some(s@),
            None => json_string_field(text@, key@) is None,
        },
{
    let parsed = text.parse::<serde_json::Value>().ok()?;
    parsed.get(key)?.as_str().map(|s| s.to_owned())
}

/// `serde_json`: parses `text` as a `serde_json::Value` and lists the keys
/// of its object field `key`. The result is named, not stated.
#[verifier::external_body]
fn json_object_keys(text: &str, key: &str) -> (r: Option<Vec<String>>)
    ensures
        match r {
            Some(v) => json_object_keys_of(text@, key@) == Some(v@.map_values(|s: String| s@)),
            None => json_object_keys_of(text@, key@) is None,
        },
{
    let parsed = text.parse::<serde_json::Value>().ok()?;
    parsed.get(key)?.as_object().map(|m| m.keys().cloned().collect())
}

/// The keys of a section, none when it is absent.
pub open spec fn keys_or_none(keys: Option<Seq<Seq<char>>>) -> Seq<Seq<char>> {
    match keys {
        Some(k) => k,
        None => Seq::empty(),
    }
}

/// The Cargo package a manifest declares: `None` unless `package.name` is
/// a string; its dependencies are the keys of `[dependencies]`,
/// `[dev-dependencies]` and `[build-dependencies]`, in that order.
pub open spec fn cargo_package_of(manifest_path: Seq<char>, text: Seq<char>) -> Option<PackageView> {
    match toml_nested_string(text, "package"@, "name"@) {
        None => None,
        Some(name) => Some(
            (
                name,
                manifest_path,
                parent_of(manifest_path),
                "cargo"@,
                keys_or_none(toml_table_keys_of(text, "dependencies"@)) + keys_or_none(
                    toml_table_keys_of(text, "dev-dependencies"@),
                ) + keys_or_none(toml_table_keys_of(text, "build-dependencies"@)),
            ),
        ),
    }
}

/// The npm package a manifest declares: `None` unless `name` is a string;
/// its dependencies are the keys of `dependencies`, `devDependencies` and
/// `peerDependencies`, in that order.
pub open spec fn npm_package_of(manifest_path: Seq<char>, text: Seq<char>) -> Option<PackageView> {
    match json_string_field(text, "name"@) {
        None => None,
        Some(name) => Some(
            (
                name,
                manifest_path,
                parent_of(manifest_path),
                "npm"@,
                keys_or_none(json_object_keys_of(text, "dependencies"@)) + keys_or_none(
                    json_object_keys_of(text, "devDependencies"@),
                ) + keys_or_none(json_object_keys_of(text, "peerDependencies"@)),
            ),
        ),
    }
}

/// Appends the keys of a section, if it is there.
fn append_keys(deps: &mut Vec<String>, keys: Option<Vec<String>>)
    ensures
        final(deps)@.map_values(|s: String| s@) == old(deps)@.map_values(|s: String| s@)
            + keys_or_none(
            match keys {
                Some(v) => Some(v@.map_values(|s: String| s@)),
                None => None,
            },
        ),
{
    match keys {
        Some(v) => {
            let ghost before = deps@.map_values(|s: String| s@);
            for i in 0..v.len()
                invariant
                    deps@.map_values(|s: String| s@) == before + v@.map_values(|s: String| s@).take(
                        i as int,
                    ),
            {
                let ghost dv = deps@.map_values(|s: String| s@);
                deps.push(copy_string(&v[i]));
                assert(deps@.map_values(|s: String| s@) =~= dv.push(v@[i as int]@));
                assert(v@.map_values(|s: String| s@).take(i + 1) =~= v@.map_values(
                    |s: String| s@,
                ).take(i as int).push(v@[i as int]@));
                assert(deps@.map_values(|s: String| s@) =~= before + v@.map_values(
                    |s: String| s@,
                ).take(i + 1));
            }
            assert(v@.map_values(|s: String| s@).take(v@.len() as int) =~= v@.map_values(
                |s: String| s@,
            ));
        },
        None => {
            assert(deps@.map_values(|s: String| s@) =~= deps@.map_values(|s: String| s@)
                + Seq::<Seq<char>>::empty());
        },
    }
}

/// The Cargo package a `Cargo.toml` declares, if it names one.
pub fn cargo_package(manifest_path: &str, text: &str) -> (r: Option<PackageInfo>)
    ensures
        match r {
            Some(p) => cargo_package_of(manifest_path@, text@) == Some(package_view(p)),
            None => cargo_package_of(manifest_path@, text@) is None,
        },
{
    let name = match toml_table_string(text, "package", "name") {
        Some(n) => n,
        None => return None,
    };
    let mut dependencies: Vec<String> = Vec::new();
    assert(dependencies@.map_values(|s: String| s@) =~= Seq::<Seq<char>>::empty());
    append_keys(&mut dependencies, toml_table_keys(text, "dependencies"));
    append_keys(&mut dependencies, toml_table_keys(text, "dev-dependencies"));
    append_keys(&mut dependencies, toml_table_keys(text, "build-dependencies"));
    let p = PackageInfo {
        name,
        manifest_path: owned(manifest_path),
        root_dir: parent_dir(manifest_path),
        ecosystem: owned("cargo"),
        dependencies,
    };
    assert(package_view(p).4 =~= keys_or_none(toml_table_keys_of(text@, "dependencies"@))
        + keys_or_none(toml_table_keys_of(text@, "dev-dependencies"@)) + keys_or_none(
        toml_table_keys_of(text@, "build-dependencies"@),
    ));
    Some(p)
}

/// The npm package a `package.json` declares, if it names one.
pub fn npm_package(manifest_path: &str, text: &str) -> (r: Option<PackageInfo>)
    ensures
        match r {
            Some(p) => npm_package_of(manifest_path@, text@) == Some(package_view(p)),
            None => npm_package_of(manifest_path@, text@) is None,
        },
{
    let name = match json_string(text, "name") {
        Some(n) => n,
        None => return None,
    };
    let mut dependencies: Vec<String> = Vec::new();
    assert(dependencies@.map_values(|s: String| s@) =~= Seq::<Seq<char>>::empty());
    append_keys(&mut dependencies, json_object_keys(text, "dependencies"));
    append_keys(&mut dependencies, json_object_keys(text, "devDependencies"));
    append_keys(&mut dependencies, json_object_keys(text, "peerDependencies"));
    let p = PackageInfo {
        name,
        manifest_path: owned(manifest_path),
        root_dir: parent_dir(manifest_path),
        ecosystem: owned("npm"),
        dependencies,
    };
    assert(package_view(p).4 =~= keys_or_none(json_object_keys_of(text@, "dependencies"@))
        + keys_or_none(json_object_keys_of(text@, "devDependencies"@)) + keys_or_none(
        json_object_keys_of(text@, "peerDependencies"@),
    ));
    Some(p)
}

/// The package a manifest file declares, by its name: `Cargo.toml`, or
/// `package.json` outside `node_modules`.
pub open spec fn manifest_package(path: Seq<char>, text: Seq<char>) -> Option<PackageView> {
    if is_suffix("Cargo.toml"@, path) {
        cargo_package_of(path, text)
    } else if is_suffix("package.json"@, path) && !contains_seq(path, "/node_modules/"@) {
        npm_package_of(path, text)
    } else {
        None
    }
}

/// The packages declared by the first `n` files whose text is at hand, in
/// file order.
pub open spec fn found_packages(files: Seq<ScannedFile>, texts: Seq<(String, String)>, n: int) -> Seq<
    PackageView,
>
    decreases n,
{
    if n <= 0 {
        Seq::empty()
    } else {
        let prev = found_packages(files, texts, n - 1);
        let path = files[n - 1].relative_path@;
        match text_at(texts, path, 0) {
            None => prev,
            Some(t) => match manifest_package(path, texts[t].1@) {
                Some(p) => prev.push(p),
                None => prev,
            },
        }
    }
}

/// `ps` with `p` inserted after every package whose name does not sort
/// after its own.
pub open spec fn insert_by_name(ps: Seq<PackageView>, p: PackageView) -> Seq<PackageView>
    decreases ps.len(),
{
    if ps.len() > 0 && lex_lt(p.0, ps.last().0) {
        insert_by_name(ps.drop_last(), p).push(ps.last())
    } else {
        ps.push(p)
    }
}

/// The packages ordered by name, equal names kept in their order.
pub open spec fn sort_by_name(ps: Seq<PackageView>) -> Seq<PackageView>
    decreases ps.len(),
{
    if ps.len() == 0 {
        ps
    } else {
        insert_by_name(sort_by_name(ps.drop_last()), ps.last())
    }
}

proof fn lemma_insert_by_name(ps: Seq<PackageView>, p: PackageView, at: int)
    requires
        0 <= at <= ps.len(),
        forall|k: int| at <= k < ps.len() ==> lex_lt(p.0, #[trigger] ps[k].0),
        at == 0 || !lex_lt(p.0, ps[at - 1].0),
    ensures
        insert_by_name(ps, p) == ps.insert(at, p),
    decreases ps.len(),
{
    if ps.len() > 0 && lex_lt(p.0, ps.last().0) {
        lemma_insert_by_name(ps.drop_last(), p, at);
        assert(ps.drop_last().insert(at, p).push(ps.last()) =~= ps.insert(at, p));
    } else {
        assert(ps.push(p) =~= ps.insert(at, p));
    }
}

/// The package the manifest at `path` declares, if its text is at hand.
fn manifest_at(path: &String, texts: &Vec<(String, String)>) -> (r: Option<PackageInfo>)
    ensures
        match r {
            Some(p) => text_at(texts@, path@, 0) matches Some(t) && manifest_package(
                path@,
                texts@[t].1@,
            ) == Some(package_view(p)),
            None => match text_at(texts@, path@, 0) {
                None => true,
                Some(t) => manifest_package(path@, texts@[t].1@) is None,
            },
        },
{
    let t = match find_text(texts, path) {
        Some(t) => t,
        None => return None,
    };
    let pc = chars_of(path.as_str());
    if ends_with_str(&pc, "Cargo.toml") {
        cargo_package(path.as_str(), texts[t].1.as_str())
    } else if ends_with_str(&pc, "package.json") && !contains_str(&pc, "/node_modules/") {
        npm_package(path.as_str(), texts[t].1.as_str())
    } else {
        None
    }
}

/// The packages the manifests among `files` declare (`texts` maps paths to
/// file texts), ordered by name.
pub fn extract(files: &Vec<ScannedFile>, texts: &Vec<(String, String)>) -> (r: Vec<PackageInfo>)
    ensures
        r@.map_values(|p: PackageInfo| package_view(p)) == sort_by_name(
            found_packages(files@, texts@, files@.len() as int),
        ),
{
    let mut sorted: Vec<PackageInfo> = Vec::new();
    for i in 0..files.len()
        invariant
            sorted@.map_values(|p: PackageInfo| package_view(p)) == sort_by_name(
                found_packages(files@, texts@, i as int),
            ),
    {
        let found = manifest_at(&files[i].relative_path, texts);
        let ghost prev = found_packages(files@, texts@, i as int);
        if let Some(entry) = found {
            let ghost next = found_packages(files@, texts@, i + 1);
            assert(next == prev.push(package_view(entry)));
            assert(next.drop_last() =~= prev);
            let key = chars_of(entry.name.as_str());
            let ghost sv = sorted@.map_values(|p: PackageInfo| package_view(p));
            let mut at: usize = sorted.len();
            while at > 0 && lex_less(&key, &chars_of(sorted[at - 1].name.as_str()))
                invariant
                    at <= sorted@.len(),
                    sv == sorted@.map_values(|p: PackageInfo| package_view(p)),
                    key@ == entry.name@,
                    forall|k: int| at <= k < sv.len() ==> lex_lt(key@, #[trigger] sv[k].0),
                decreases at,
            {
                at = at - 1;
            }
            proof {
                lemma_insert_by_name(sv, package_view(entry), at as int);
            }
            sorted.insert(at, entry);
            assert(sorted@.map_values(|p: PackageInfo| package_view(p)) =~= sv.insert(
                at as int,
                package_view(entry),
            ));
        } else {
            assert(found_packages(files@, texts@, i + 1) == prev);
        }
    }
    sorted
}

// ---- the package graph --------------------------------------------------------------

/// A package entity: a build boundary addressed by its manifest file.
#[derive(Debug)]
pub struct PackageEntity {
    /// Entity id.
    pub id: String,
    /// Package name.
    pub name: String,
    /// `ecosystem:name`.
    pub qualified_name: String,
    /// `cargo` or `npm`.
    pub ecosystem: String,
    /// Package root directory.
    pub root_dir: String,
    /// The manifest file's region, when it has one.
    pub region_id: Option<String>,
    /// The start of the manifest file, when the file has an entity.
    pub address: Option<SourceAddress>,
}

/// The relation kinds of the package graph.
#[derive(Clone, Copy, Debug, PartialEq, Eq, Structural)]
pub enum PackageRelationKind {
    /// Package → workspace package it declares as a dependency.
    BuildDependsOn,
    /// Package → file it owns.
    Contains,
}

/// A build-system relation (full confidence).
#[derive(Debug)]
pub struct PackageRelation {
    pub id: String,
    pub source_entity_id: String,
    pub target_entity_id: String,
    pub kind: PackageRelationKind,
    /// `ecosystem-manifest`.
    pub extractor: String,
}

/// Package entities and their relations.
#[derive(Debug)]
pub struct PackageEmission {
    pub entities: Vec<PackageEntity>,
    pub relations: Vec<PackageRelation>,
}

/// A relation as plain values: id, source, target, kind, extractor.
pub type RelationView = (Seq<char>, Seq<char>, Seq<char>, PackageRelationKind, Seq<char>);

/// The plain values of a relation.
pub open spec fn relation_view(r: PackageRelation) -> RelationView {
    (r.id@, r.source_entity_id@, r.target_entity_id@, r.kind, r.extractor@)
}

/// The entity id of a package.
pub open spec fn package_entity_id(repository_id: Seq<char>, p: PackageView) -> Seq<char> {
    digest_id_of("entity"@, seq![repository_id, p.1, decimal(0), decimal(0), "package:"@ + p.0])
}

/// Among the first `n` packages, the last one named `name` (a later
/// package of the same name wins).
pub open spec fn last_named(ps: Seq<PackageView>, name: Seq<char>, n: int) -> Option<int>
    decreases n,
{
    if n <= 0 {
        None
    } else if ps[n - 1].0 == name {
        Some(n - 1)
    } else {
        last_named(ps, name, n - 1)
    }
}

/// The path prefix of a package root.
pub open spec fn root_prefix(root: Seq<char>) -> Seq<char> {
    if root.len() == 0 {
        Seq::empty()
    } else {
        root + "/"@
    }
}

/// Among the first `n` packages, the owner of `path`: the one with the
/// longest root that prefixes it, the last among equally long ones.
/// (Roots that prefix one path are prefixes of each other, so comparing
/// them in chars orders them as comparing them in bytes does.)
pub open spec fn owner_of(ps: Seq<PackageView>, path: Seq<char>, n: int) -> Option<int>
    decreases n,
{
    if n <= 0 {
        None
    } else {
        let prev = owner_of(ps, path, n - 1);
        if is_prefix(root_prefix(ps[n - 1].2), path) && (prev matches Some(b) ==> ps[n - 1].2.len()
            >= ps[b].2.len()) {
            Some(n - 1)
        } else {
            prev
        }
    }
}

/// The dependency relations of package `i` from its first `n` declared
/// dependencies: one per dependency that names a workspace package.
pub open spec fn dependency_relations(repository_id: Seq<char>, ps: Seq<PackageView>, i: int, n: int) -> Seq<
    RelationView,
>
    decreases n,
{
    if n <= 0 {
        Seq::empty()
    } else {
        let prev = dependency_relations(repository_id, ps, i, n - 1);
        let source = package_entity_id(repository_id, ps[i]);
        match last_named(ps, ps[i].4[n - 1], ps.len() as int) {
            Some(j) => {
                let target = package_entity_id(repository_id, ps[j]);
                prev.push(
                    (
                        digest_id_of("rel"@, seq![source, target, "build_depends_on"@]),
                        source,
                        target,
                        PackageRelationKind::BuildDependsOn,
                        ps[i].3 + "-manifest"@,
                    ),
                )
            },
            None => prev,
        }
    }
}

/// The membership relations of package `i` over the first `n` files: one
/// per file it owns that has a file entity (`entities` maps paths to ids).
pub open spec fn membership_relations(
    repository_id: Seq<char>,
    ps: Seq<PackageView>,
    i: int,
    files: Seq<ScannedFile>,
    entities: Seq<(String, String)>,
    n: int,
) -> Seq<RelationView>
    decreases n,
{
    if n <= 0 {
        Seq::empty()
    } else {
        let prev = membership_relations(repository_id, ps, i, files, entities, n - 1);
        let path = files[n - 1].relative_path@;
        let source = package_entity_id(repository_id, ps[i]);
        if owner_of(ps, path, ps.len() as int) == Some(i) {
            match text_at(entities, path, 0) {
                Some(t) => prev.push(
                    (
                        digest_id_of("rel"@, seq![source, entities[t].1@, "contains"@]),
                        source,
                        entities[t].1@,
                        PackageRelationKind::Contains,
                        ps[i].3 + "-manifest"@,
                    ),
                ),
                None => prev,
            }
        } else {
            prev
        }
    }
}

/// The relations of the first `n` packages: each package's dependency
/// relations, then its membership relations.
pub open spec fn package_relations(
    repository_id: Seq<char>,
    ps: Seq<PackageView>,
    files: Seq<ScannedFile>,
    entities: Seq<(String, String)>,
    n: int,
) -> Seq<RelationView>
    decreases n,
{
    if n <= 0 {
        Seq::empty()
    } else {
        package_relations(repository_id, ps, files, entities, n - 1) + dependency_relations(
            repository_id,
            ps,
            n - 1,
            ps[n - 1].4.len() as int,
        ) + membership_relations(repository_id, ps, n - 1, files, entities, files.len() as int)
    }
}

/// `e` is the entity of package `p` (`entities` and `regions` map paths to
/// file entity and region ids).
pub open spec fn package_entity_of(
    e: PackageEntity,
    p: PackageView,
    repository_id: Seq<char>,
    snapshot_id: Seq<char>,
    entities: Seq<(String, String)>,
    regions: Seq<(String, String)>,
) -> bool {
    &&& e.id@ == package_entity_id(repository_id, p)
    &&& e.name@ == p.0
    &&& e.qualified_name@ == p.3 + ":"@ + p.0
    &&& e.ecosystem@ == p.3
    &&& e.root_dir@ == p.2
    &&& match text_at(regions, p.1, 0) {
        Some(t) => e.region_id matches Some(r) && r@ == regions[t].1@,
        None => e.region_id is None,
    }
    &&& match text_at(entities, p.1, 0) {
        Some(_) => e.address matches Some(a) && a.repository_id@ == repository_id && a.snapshot_id@
            == snapshot_id && a.path@ == p.1 && a.start_byte == 0 && a.end_byte == 0
            && a.start_line == 1 && a.end_line == 1 && a.symbol_id is None,
        None => e.address is None,
    }
}

fn package_id(repository_id: &str, p: &PackageInfo) -> (r: String)
    ensures
        r@ == package_entity_id(repository_id@, package_view(*p)),
{
    let mut d = chars_of("package:");
    push_str(&mut d, p.name.as_str());
    entity_id(repository_id, p.manifest_path.as_str(), 0, 0, string_of(&d).as_str())
}

fn last_named_at(packages: &Vec<PackageInfo>, name: &String) -> (r: Option<usize>)
    ensures
        match r {
            Some(j) => j < packages@.len() && last_named(
                packages@.map_values(|p: PackageInfo| package_view(p)),
                name@,
                packages@.len() as int,
            ) == Some(j as int),
            None => last_named(
                packages@.map_values(|p: PackageInfo| package_view(p)),
                name@,
                packages@.len() as int,
            ) is None,
        },
{
    let ghost ps = packages@.map_values(|p: PackageInfo| package_view(p));
    let mut n: usize = packages.len();
    while n > 0
        invariant
            n <= packages@.len(),
            ps == packages@.map_values(|p: PackageInfo| package_view(p)),
            last_named(ps, name@, packages@.len() as int) == last_named(ps, name@, n as int),
        decreases n,
    {
        if packages[n - 1].name == *name {
            return Some(n - 1);
        }
        n = n - 1;
    }
    None
}

fn owner_at(packages: &Vec<PackageInfo>, path: &String) -> (r: Option<usize>)
    ensures
        match r {
            Some(j) => owner_of(
                packages@.map_values(|p: PackageInfo| package_view(p)),
                path@,
                packages@.len() as int,
            ) == Some(j as int),
            None => owner_of(
                packages@.map_values(|p: PackageInfo| package_view(p)),
                path@,
                packages@.len() as int,
            ) is None,
        },
{
    let ghost ps = packages@.map_values(|p: PackageInfo| package_view(p));
    let pc = chars_of(path.as_str());
    let mut best: Option<usize> = None;
    let mut best_len: usize = 0;
    for k in 0..packages.len()
        invariant
            ps == packages@.map_values(|p: PackageInfo| package_view(p)),
            pc@ == path@,
            match best {
                Some(b) => owner_of(ps, path@, k as int) == Some(b as int) && b < k && best_len
                    == ps[b as int].2.len(),
                None => owner_of(ps, path@, k as int) is None,
            },
    {
        let prefix = chars_of(package_root_prefix(packages[k].root_dir.as_str()).as_str());
        let root_len = chars_of(packages[k].root_dir.as_str()).len();
        assert(ps[k as int] == package_view(packages@[k as int]));
        if starts_with(&pc, &prefix) {
            let better = match best {
                Some(_) => root_len >= best_len,
                None => true,
            };
            if better {
                best = Some(k);
                best_len = root_len;
            }
        }
    }
    best
}

fn dependency_relations_of(
    packages: &Vec<PackageInfo>,
    i: usize,
    source: &String,
    repository_id: &str,
    out: &mut Vec<PackageRelation>,
)
    requires
        i < packages@.len(),
        source@ == package_entity_id(repository_id@, package_view(packages@[i as int])),
    ensures
        final(out)@.map_values(|r: PackageRelation| relation_view(r)) == old(out)@.map_values(
            |r: PackageRelation| relation_view(r),
        ) + dependency_relations(
            repository_id@,
            packages@.map_values(|p: PackageInfo| package_view(p)),
            i as int,
            packages@[i as int].dependencies@.len() as int,
        ),
{
    let ghost ps = packages@.map_values(|p: PackageInfo| package_view(p));
    let ghost start = out@.map_values(|r: PackageRelation| relation_view(r));
    let p = &packages[i];
    assert(ps[i as int] == package_view(*p));
    let mut extractor = chars_of(p.ecosystem.as_str());
    push_str(&mut extractor, "-manifest");
    for d in 0..p.dependencies.len()
        invariant
            ps == packages@.map_values(|p: PackageInfo| package_view(p)),
            i < packages@.len(),
            *p == packages@[i as int],
            ps[i as int] == package_view(*p),
            extractor@ == p.ecosystem@ + "-manifest"@,
            source@ == package_entity_id(repository_id@, ps[i as int]),
            out@.map_values(|r: PackageRelation| relation_view(r)) == start + dependency_relations(
                repository_id@,
                ps,
                i as int,
                d as int,
            ),
    {
        assert(ps[i as int].4[d as int] == p.dependencies@[d as int]@);
        match last_named_at(packages, &p.dependencies[d]) {
            Some(j) => {
                let target = package_id(repository_id, &packages[j]);
                assert(ps[j as int] == package_view(packages@[j as int]));
                let id = relation_id(source.as_str(), target.as_str(), "build_depends_on");
                let ghost before = out@.map_values(|r: PackageRelation| relation_view(r));
                out.push(
                    PackageRelation {
                        id,
                        source_entity_id: copy_string(source),
                        target_entity_id: target,
                        kind: PackageRelationKind::BuildDependsOn,
                        extractor: string_of(&extractor),
                    },
                );
                assert(out@.map_values(|r: PackageRelation| relation_view(r)) =~= before.push(
                    relation_view(out@.last()),
                ));
            },
            None => {},
        }
    }
}

fn membership_relations_of(
    packages: &Vec<PackageInfo>,
    i: usize,
    source: &String,
    repository_id: &str,
    files: &Vec<ScannedFile>,
    file_entities: &Vec<(String, String)>,
    out: &mut Vec<PackageRelation>,
)
    requires
        i < packages@.len(),
        source@ == package_entity_id(repository_id@, package_view(packages@[i as int])),
    ensures
        final(out)@.map_values(|r: PackageRelation| relation_view(r)) == old(out)@.map_values(
            |r: PackageRelation| relation_view(r),
        ) + membership_relations(
            repository_id@,
            packages@.map_values(|p: PackageInfo| package_view(p)),
            i as int,
            files@,
            file_entities@,
            files@.len() as int,
        ),
{
    let ghost ps = packages@.map_values(|p: PackageInfo| package_view(p));
    let ghost start = out@.map_values(|r: PackageRelation| relation_view(r));
    let p = &packages[i];
    assert(ps[i as int] == package_view(*p));
    let mut extractor = chars_of(p.ecosystem.as_str());
    push_str(&mut extractor, "-manifest");
    for k in 0..files.len()
        invariant
            ps == packages@.map_values(|p: PackageInfo| package_view(p)),
            i < packages@.len(),
            ps[i as int] == package_view(*p),
            extractor@ == p.ecosystem@ + "-manifest"@,
            source@ == package_entity_id(repository_id@, ps[i as int]),
            out@.map_values(|r: PackageRelation| relation_view(r)) == start + membership_relations(
                repository_id@,
                ps,
                i as int,
                files@,
                file_entities@,
                k as int,
            ),
    {
        let path = &files[k].relative_path;
        if owner_at(packages, path) == Some(i) {
            match find_text(file_entities, path) {
                Some(t) => {
                    let target = copy_string(&file_entities[t].1);
                    let id = relation_id(source.as_str(), target.as_str(), "contains");
                    let ghost before = out@.map_values(|r: PackageRelation| relation_view(r));
                    out.push(
                        PackageRelation {
                            id,
                            source_entity_id: copy_string(source),
                            target_entity_id: target,
                            kind: PackageRelationKind::Contains,
                            extractor: string_of(&extractor),
                        },
                    );
                    assert(out@.map_values(|r: PackageRelation| relation_view(r)) =~= before.push(
                        relation_view(out@.last()),
                    ));
                },
                None => {},
            }
        }
    }
}

/// The package graph: one entity per package, addressed by its manifest;
/// `BuildDependsOn` to each workspace package a dependency names (the
/// last package of that name); `Contains` to each file whose most specific
/// package root is the package's. `file_entities` and `file_regions` map
/// paths to ids.
pub fn emit(
    packages: &Vec<PackageInfo>,
    repository_id: &str,
    snapshot_id: &str,
    files: &Vec<ScannedFile>,
    file_entities: &Vec<(String, String)>,
    file_regions: &Vec<(String, String)>,
) -> (r: PackageEmission)
    ensures
        r.entities@.len() == packages@.len(),
        forall|k: int|
            0 <= k < packages@.len() ==> package_entity_of(
                #[trigger] r.entities@[k],
                package_view(packages@[k]),
                repository_id@,
                snapshot_id@,
                file_entities@,
                file_regions@,
            ),
        r.relations@.map_values(|x: PackageRelation| relation_view(x)) == package_relations(
            repository_id@,
            packages@.map_values(|p: PackageInfo| package_view(p)),
            files@,
            file_entities@,
            packages@.len() as int,
        ),
{
    let ghost ps = packages@.map_values(|p: PackageInfo| package_view(p));
    let mut entities: Vec<PackageEntity> = Vec::new();
    let mut relations: Vec<PackageRelation> = Vec::new();
    for i in 0..packages.len()
        invariant
            ps == packages@.map_values(|p: PackageInfo| package_view(p)),
            entities@.len() == i,
            forall|k: int|
                0 <= k < i ==> package_entity_of(
                    #[trigger] entities@[k],
                    package_view(packages@[k]),
                    repository_id@,
                    snapshot_id@,
                    file_entities@,
                    file_regions@,
                ),
            relations@.map_values(|x: PackageRelation| relation_view(x)) == package_relations(
                repository_id@,
                ps,
                files@,
                file_entities@,
                i as int,
            ),
    {
        let p = &packages[i];
        let id = package_id(repository_id, p);
        let region_id = match find_text(file_regions, &p.manifest_path) {
            Some(t) => Some(copy_string(&file_regions[t].1)),
            None => None,
        };
        let address = match find_text(file_entities, &p.manifest_path) {
            Some(_) => Some(
                SourceAddress {
                    repository_id: owned(repository_id),
                    snapshot_id: owned(snapshot_id),
                    path: copy_string(&p.manifest_path),
                    start_byte: 0,
                    end_byte: 0,
                    start_line: 1,
                    end_line: 1,
                    symbol_id: None,
                },
            ),
            None => None,
        };
        let mut q = chars_of(p.ecosystem.as_str());
        push_str(&mut q, ":");
        push_str(&mut q, p.name.as_str());
        let ghost before = relations@.map_values(|x: PackageRelation| relation_view(x));
        dependency_relations_of(packages, i, &id, repository_id, &mut relations);
        membership_relations_of(packages, i, &id, repository_id, files, file_entities, &mut relations);
        assert(ps[i as int] == package_view(*p));
        entities.push(
            PackageEntity {
                id,
                name: copy_string(&p.name),
                qualified_name: string_of(&q),
                ecosystem: copy_string(&p.ecosystem),
                root_dir: copy_string(&p.root_dir),
                region_id,
                address,
            },
        );
    }
    PackageEmission { entities, relations }
}

} // verus!
