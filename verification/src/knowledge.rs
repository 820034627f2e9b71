//! Deterministic hierarchical knowledge pages: files grouped into top-level
//! areas by path, one directory entity and page per area, and a repository
//! orientation page listing the areas.

use vstd::prelude::*;
use vstd::utf8::encode_utf8;
use crate::artifact::{find_text, text_at};
use crate::context::SourceAddress;
use crate::indexing::line_for_offset;
use crate::pattern::line_at;
use crate::repository::newline_count;
use crate::descriptor::{first_n, insert_sorted, sorted_distinct, views};
use crate::indexing::{digest_id_of, document_id, entity_id, knowledge_group, knowledge_group_of, relation_id};
use crate::repository::ScannedFile;
use crate::testlinks::byte_len;
use crate::text::{chars_of, copy_string, owned, decimal, join, join_chars, push_all, push_decimal, push_str, string_of};

verus! {

/// The closing line of an area page.
pub const AREA_FOOTER: &'static str =
    "This page is deterministic navigation metadata; use its evidence addresses to verify current source.";

/// The closing line of the orientation page.
pub const OVERVIEW_FOOTER: &'static str =
    "This orientation is derived from the current path hierarchy and remains subordinate to source truth.";

/// At most this many evidence files per area page.
pub const MAX_AREA_EVIDENCE: usize = 16;

/// One area of the repository: its directory entity, the relations that
/// place it under the repository and its files under it, and its page.
#[derive(Debug)]
pub struct KnowledgeArea {
    /// The area's name (`crates/x`, a top-level directory, or `(root)`).
    pub group: String,
    /// Id of the area's directory entity.
    pub directory_id: String,
    /// Id of the repository → directory `contains` relation.
    pub repository_relation_id: String,
    /// For each member file with an entity, in file order: the id of the
    /// directory → file `contains` relation and the file entity's id.
    pub file_relations: Vec<(String, String)>,
    /// The first member files with an entity, as path and file entity id;
    /// their whole texts are the page's evidence.
    pub evidence: Vec<(String, String)>,
    /// The evidence as addresses: each whole file, with its lines, under
    /// its file entity.
    pub evidence_addresses: Vec<SourceAddress>,
    /// The page text.
    pub page: String,
    /// Id of the page's retrieval document.
    pub page_document_id: String,
}

/// All the knowledge pages of a snapshot.
#[derive(Debug)]
pub struct KnowledgeEmission {
    /// The areas, ordered by name.
    pub areas: Vec<KnowledgeArea>,
    /// The orientation page text.
    pub overview: String,
    /// Id of the orientation page's retrieval document.
    pub overview_document_id: String,
}

/// `f` belongs to area `g`.
pub open spec fn in_group(f: ScannedFile, g: Seq<char>) -> bool {
    knowledge_group_of(f.relative_path@) == g
}

/// Some file belongs to area `g`.
pub open spec fn is_area(files: Seq<ScannedFile>, g: Seq<char>) -> bool {
    exists|i: int| 0 <= i < files.len() && in_group(#[trigger] files[i], g)
}

/// The page line of a member file: its path and language.
pub open spec fn member_line(f: ScannedFile) -> Seq<char> {
    "- `"@ + f.relative_path@ + "` ("@ + (match f.language {
        Some(l) => l@,
        None => "text"@,
    }) + ")"@
}

/// The page lines of the members of `g` among the first `n` files.
pub open spec fn member_lines(files: Seq<ScannedFile>, g: Seq<char>, n: int) -> Seq<Seq<char>>
    decreases n,
{
    if n <= 0 {
        Seq::empty()
    } else {
        member_lines(files, g, n - 1) + if in_group(files[n - 1], g) {
            seq![member_line(files[n - 1])]
        } else {
            Seq::empty()
        }
    }
}

/// The members of `g` among the first `n` files that have a file entity,
/// as path and entity id (`entities` maps paths to file entity ids).
pub open spec fn linked_members(
    files: Seq<ScannedFile>,
    entities: Seq<(String, String)>,
    g: Seq<char>,
    n: int,
) -> Seq<(Seq<char>, Seq<char>)>
    decreases n,
{
    if n <= 0 {
        Seq::empty()
    } else {
        let prev = linked_members(files, entities, g, n - 1);
        let path = files[n - 1].relative_path@;
        if in_group(files[n - 1], g) {
            match text_at(entities, path, 0) {
                Some(t) => prev.push((path, entities[t].1@)),
                None => prev,
            }
        } else {
            prev
        }
    }
}

/// The page of area `g`.
pub open spec fn area_page(files: Seq<ScannedFile>, g: Seq<char>) -> Seq<char> {
    join(
        seq!["# Area: "@ + g, Seq::empty()] + member_lines(files, g, files.len() as int) + seq![
            Seq::empty(),
            AREA_FOOTER@,
        ],
        "\n"@,
    )
}

/// The orientation line of area `g`.
pub open spec fn area_line(files: Seq<ScannedFile>, g: Seq<char>) -> Seq<char> {
    "- `"@ + g + "`: "@ + decimal(member_lines(files, g, files.len() as int).len()) + " files"@
}

/// The orientation page over the areas `groups`.
pub open spec fn overview_page(snapshot_id: Seq<char>, files: Seq<ScannedFile>, groups: Seq<Seq<char>>) -> Seq<
    char,
> {
    join(
        seq![
            "# Repository orientation"@,
            Seq::empty(),
            "Snapshot `"@ + snapshot_id + "` contains "@ + decimal(files.len()) + " indexed source artifacts."@,
            Seq::empty(),
            "## Top-level areas"@,
        ] + groups.map_values(|g: Seq<char>| area_line(files, g)) + seq![Seq::empty(), OVERVIEW_FOOTER@],
        "\n"@,
    )
}

/// The id of an entity's knowledge page document.
pub open spec fn page_document_id(entity_id: Seq<char>, page: Seq<char>) -> Seq<char> {
    digest_id_of(
        "doc"@,
        seq![entity_id, "knowledge_page"@, decimal(0), decimal(byte_len(page) as nat)],
    )
}

/// `a` covers the whole text of the file at `path`, under the file entity
/// `file_id`.
pub open spec fn whole_file_address(
    a: SourceAddress,
    repository_id: Seq<char>,
    snapshot_id: Seq<char>,
    path: Seq<char>,
    file_id: Seq<char>,
    text: Seq<char>,
) -> bool {
    let b = encode_utf8(text);
    &&& a.repository_id@ == repository_id
    &&& a.snapshot_id@ == snapshot_id
    &&& a.path@ == path
    &&& a.start_byte == 0
    &&& a.end_byte == b.len()
    &&& a.start_line == line_at(b, 0)
    &&& a.end_line == line_at(b, b.len())
    &&& a.symbol_id matches Some(s) && s@ == file_id
}

/// Every file with a file entity has its text at hand.
pub open spec fn texts_cover(files: Seq<ScannedFile>, entities: Seq<(String, String)>, texts: Seq<(String, String)>) -> bool {
    forall|i: int|
        0 <= i < files.len() && text_at(entities, #[trigger] files[i].relative_path@, 0) is Some ==> text_at(
            texts,
            files[i].relative_path@,
            0,
        ) is Some
}

/// Every text is within the line counter's range.
pub open spec fn texts_countable(texts: Seq<(String, String)>) -> bool {
    forall|k: int| 0 <= k < texts.len() ==> newline_count(encode_utf8(#[trigger] texts[k].1@)) < u32::MAX
}

/// `a` is the area `g` of `files`.
pub open spec fn area_of(
    a: KnowledgeArea,
    g: Seq<char>,
    files: Seq<ScannedFile>,
    entities: Seq<(String, String)>,
    repository_id: Seq<char>,
    repository_entity_id: Seq<char>,
) -> bool {
    let dir = digest_id_of("entity"@, seq![repository_id, g, decimal(0), decimal(0), "directory"@]);
    let links = linked_members(files, entities, g, files.len() as int);
    &&& a.group@ == g
    &&& a.directory_id@ == dir
    &&& a.repository_relation_id@ == digest_id_of("rel"@, seq![repository_entity_id, dir, "contains"@])
    &&& a.file_relations@.map_values(|p: (String, String)| (p.0@, p.1@)) == links.map_values(
        |l: (Seq<char>, Seq<char>)| (digest_id_of("rel"@, seq![dir, l.1, "contains"@]), l.1),
    )
    &&& a.evidence@.map_values(|p: (String, String)| (p.0@, p.1@)) == first_n(
        links,
        MAX_AREA_EVIDENCE as nat,
    )
    &&& a.page@ == area_page(files, g)
    &&& a.page_document_id@ == page_document_id(dir, a.page@)
}

/// `a`'s evidence addresses are its evidence files, whole.
pub open spec fn evidence_addressed(
    a: KnowledgeArea,
    texts: Seq<(String, String)>,
    repository_id: Seq<char>,
    snapshot_id: Seq<char>,
) -> bool {
    &&& a.evidence_addresses@.len() == a.evidence@.len()
    &&& forall|k: int|
        0 <= k < a.evidence@.len() ==> whole_file_address(
            #[trigger] a.evidence_addresses@[k],
            repository_id,
            snapshot_id,
            a.evidence@[k].0@,
            a.evidence@[k].1@,
            texts[text_at(texts, a.evidence@[k].0@, 0).unwrap()].1@,
        )
}

/// The linked members are files with an entity.
proof fn lemma_linked_are_files(files: Seq<ScannedFile>, entities: Seq<(String, String)>, g: Seq<char>, n: int)
    requires
        0 <= n <= files.len(),
    ensures
        forall|k: int|
            0 <= k < linked_members(files, entities, g, n).len() ==> exists|j: int|
                0 <= j < n && #[trigger] linked_members(files, entities, g, n)[k].0 == files[j].relative_path@
                    && text_at(entities, files[j].relative_path@, 0) is Some,
    decreases n,
{
    if n > 0 {
        lemma_linked_are_files(files, entities, g, n - 1);
        let prev = linked_members(files, entities, g, n - 1);
        let cur = linked_members(files, entities, g, n);
        assert forall|k: int| 0 <= k < cur.len() implies exists|j: int|
            0 <= j < n && #[trigger] cur[k].0 == files[j].relative_path@
                && text_at(entities, files[j].relative_path@, 0) is Some by {
            if k < prev.len() {
                assert(cur[k] == prev[k]);
                let j = choose|j: int|
                    0 <= j < n - 1 && #[trigger] prev[k].0 == files[j].relative_path@
                        && text_at(entities, files[j].relative_path@, 0) is Some;
                assert(cur[k].0 == files[j].relative_path@);
            } else {
                assert(cur[k].0 == files[n - 1].relative_path@);
            }
        }
    }
}

/// The whole-file addresses of the evidence files.
fn evidence_addresses_of(
    evidence: &Vec<(String, String)>,
    texts: &Vec<(String, String)>,
    repository_id: &str,
    snapshot_id: &str,
) -> (r: Vec<SourceAddress>)
    requires
        forall|k: int| 0 <= k < evidence@.len() ==> text_at(texts@, #[trigger] evidence@[k].0@, 0) is Some,
        texts_countable(texts@),
    ensures
        r@.len() == evidence@.len(),
        forall|k: int|
            0 <= k < evidence@.len() ==> whole_file_address(
                #[trigger] r@[k],
                repository_id@,
                snapshot_id@,
                evidence@[k].0@,
                evidence@[k].1@,
                texts@[text_at(texts@, evidence@[k].0@, 0).unwrap()].1@,
            ),
{
    let mut out: Vec<SourceAddress> = Vec::new();
    for k in 0..evidence.len()
        invariant
            forall|q: int| 0 <= q < evidence@.len() ==> text_at(texts@, #[trigger] evidence@[q].0@, 0) is Some,
            texts_countable(texts@),
            out@.len() == k,
            forall|q: int|
                0 <= q < k ==> whole_file_address(
                    #[trigger] out@[q],
                    repository_id@,
                    snapshot_id@,
                    evidence@[q].0@,
                    evidence@[q].1@,
                    texts@[text_at(texts@, evidence@[q].0@, 0).unwrap()].1@,
                ),
    {
        let path = &evidence[k].0;
        assert(text_at(texts@, evidence@[k as int].0@, 0) is Some);
        let t = match find_text(texts, path) {
            Some(t) => t,
            None => {
                assert(false);
                0
            },
        };
        let text = texts[t].1.as_str();
        assert(texts@[t as int].1@ == text@);
        let end = text.as_bytes().len();
        let a = SourceAddress {
            repository_id: owned(repository_id),
            snapshot_id: owned(snapshot_id),
            path: copy_string(path),
            start_byte: 0,
            end_byte: end as u64,
            start_line: line_for_offset(text, 0),
            end_line: line_for_offset(text, end),
            symbol_id: Some(copy_string(&evidence[k].1)),
        };
        assert(text_at(texts@, evidence@[k as int].0@, 0).unwrap() == t as int);
        assert(whole_file_address(
            a,
            repository_id@,
            snapshot_id@,
            evidence@[k as int].0@,
            evidence@[k as int].1@,
            texts@[t as int].1@,
        ));
        let ghost before = out@;
        out.push(a);
        assert(out@[k as int] == a);
        assert(forall|q: int| 0 <= q < k ==> out@[q] == before[q]);
    }
    out
}

/// The area names of `files`: ordered, each once, every file's area.
fn area_names(files: &Vec<ScannedFile>) -> (r: Vec<Vec<char>>)
    ensures
        sorted_distinct(views(r@)),
        forall|g: Seq<char>| #[trigger] views(r@).contains(g) <==> is_area(files@, g),
{
    let mut groups: Vec<Vec<char>> = Vec::new();
    for i in 0..files.len()
        invariant
            sorted_distinct(views(groups@)),
            forall|g: Seq<char>|
                #[trigger] views(groups@).contains(g) <==> exists|j: int|
                    0 <= j < i && in_group(#[trigger] files@[j], g),
    {
        let g = chars_of(knowledge_group(files[i].relative_path.as_str()).as_str());
        let ghost before = views(groups@);
        insert_sorted(&mut groups, g);
        assert forall|x: Seq<char>|
            #[trigger] views(groups@).contains(x) <==> exists|j: int|
                0 <= j < i + 1 && in_group(#[trigger] files@[j], x) by {
            assert(views(groups@).contains(x) <==> (before.contains(x) || x == g@));
            if x == g@ {
                assert(in_group(files@[i as int], x));
            }
        }
    }
    groups
}

/// The page of one area, with its relations and evidence.
fn build_area(
    g: &Vec<char>,
    files: &Vec<ScannedFile>,
    file_entities: &Vec<(String, String)>,
    texts: &Vec<(String, String)>,
    repository_id: &str,
    snapshot_id: &str,
    repository_entity_id: &str,
) -> (r: (KnowledgeArea, usize))
    requires
        texts_cover(files@, file_entities@, texts@),
        texts_countable(texts@),
    ensures
        area_of(r.0, g@, files@, file_entities@, repository_id@, repository_entity_id@),
        evidence_addressed(r.0, texts@, repository_id@, snapshot_id@),
        r.1 == member_lines(files@, g@, files@.len() as int).len(),
{
    let group = string_of(g);
    let directory_id = entity_id(repository_id, group.as_str(), 0, 0, "directory");
    let repository_relation_id = relation_id(repository_entity_id, directory_id.as_str(), "contains");
    let ghost dir = directory_id@;
    let mut title: Vec<char> = Vec::new();
    push_str(&mut title, "# Area: ");
    push_all(&mut title, g);
    let mut lines: Vec<Vec<char>> = vec![title, Vec::new()];
    let ghost head = views(lines@);
    let mut file_relations: Vec<(String, String)> = Vec::new();
    let mut evidence: Vec<(String, String)> = Vec::new();
    let mut count: usize = 0;
    for i in 0..files.len()
        invariant
            dir == directory_id@,
            head == views(lines@).take(2),
            lines@.len() >= 2,
            head == seq!["# Area: "@ + g@, Seq::<char>::empty()],
            views(lines@) == head + member_lines(files@, g@, i as int),
            count == member_lines(files@, g@, i as int).len(),
            count <= i,
            file_relations@.map_values(|p: (String, String)| (p.0@, p.1@)) == linked_members(
                files@,
                file_entities@,
                g@,
                i as int,
            ).map_values(
                |l: (Seq<char>, Seq<char>)| (digest_id_of("rel"@, seq![dir, l.1, "contains"@]), l.1),
            ),
            evidence@.map_values(|p: (String, String)| (p.0@, p.1@)) == first_n(
                linked_members(files@, file_entities@, g@, i as int),
                MAX_AREA_EVIDENCE as nat,
            ),
    {
        let f = &files[i];
        let fg = chars_of(knowledge_group(f.relative_path.as_str()).as_str());
        let ghost links = linked_members(files@, file_entities@, g@, i as int);
        if crate::text::eq_chars(&fg, g) {
            let mut line: Vec<char> = Vec::new();
            push_str(&mut line, "- `");
            push_str(&mut line, f.relative_path.as_str());
            push_str(&mut line, "` (");
            match &f.language {
                Some(l) => push_str(&mut line, l.as_str()),
                None => push_str(&mut line, "text"),
            }
            push_str(&mut line, ")");
            assert(line@ == member_line(*f));
            let ghost lv = views(lines@);
            lines.push(line);
            assert(views(lines@) =~= lv.push(member_line(*f)));
            assert(views(lines@).take(2) =~= lv.take(2));
            count = count + 1;
            match find_text(file_entities, &f.relative_path) {
                Some(t) => {
                    let file_id = copy_string(&file_entities[t].1);
                    let rel = relation_id(directory_id.as_str(), file_id.as_str(), "contains");
                    let ghost fr = file_relations@.map_values(|p: (String, String)| (p.0@, p.1@));
                    file_relations.push((rel, copy_string(&file_id)));
                    assert(file_relations@.map_values(|p: (String, String)| (p.0@, p.1@)) =~= fr.push(
                        (digest_id_of("rel"@, seq![dir, file_id@, "contains"@]), file_id@),
                    ));
                    let ghost next = links.push((f.relative_path@, file_entities@[t as int].1@));
                    assert(linked_members(files@, file_entities@, g@, i + 1) == next);
                    assert(next.map_values(
                        |l: (Seq<char>, Seq<char>)|
                            (digest_id_of("rel"@, seq![dir, l.1, "contains"@]), l.1),
                    ) =~= links.map_values(
                        |l: (Seq<char>, Seq<char>)|
                            (digest_id_of("rel"@, seq![dir, l.1, "contains"@]), l.1),
                    ).push((digest_id_of("rel"@, seq![dir, file_id@, "contains"@]), file_id@)));
                    if evidence.len() < MAX_AREA_EVIDENCE {
                        let ghost ev = evidence@.map_values(|p: (String, String)| (p.0@, p.1@));
                        evidence.push((copy_string(&f.relative_path), file_id));
                        assert(evidence@.map_values(|p: (String, String)| (p.0@, p.1@)) =~= ev.push(
                            (f.relative_path@, file_entities@[t as int].1@),
                        ));
                        assert(first_n(next, MAX_AREA_EVIDENCE as nat) =~= first_n(
                            links,
                            MAX_AREA_EVIDENCE as nat,
                        ).push((f.relative_path@, file_entities@[t as int].1@)));
                    } else {
                        assert(first_n(next, MAX_AREA_EVIDENCE as nat) =~= first_n(
                            links,
                            MAX_AREA_EVIDENCE as nat,
                        ));
                    }
                },
                None => {
                    assert(linked_members(files@, file_entities@, g@, i + 1) == links);
                },
            }
        } else {
            assert(linked_members(files@, file_entities@, g@, i + 1) == links);
            assert(member_lines(files@, g@, i + 1) =~= member_lines(files@, g@, i as int));
        }
    }
    let ghost lv = views(lines@);
    lines.push(Vec::new());
    lines.push(chars_of(AREA_FOOTER));
    assert(views(lines@) =~= seq!["# Area: "@ + g@, Seq::<char>::empty()] + member_lines(
        files@,
        g@,
        files@.len() as int,
    ) + seq![Seq::<char>::empty(), AREA_FOOTER@]);
    let page = string_of(&join_chars(&lines, "\n"));
    let page_document_id = document_id(directory_id.as_str(), "knowledge_page", 0, page.as_str().len());
    proof {
        let links = linked_members(files@, file_entities@, g@, files@.len() as int);
        lemma_linked_are_files(files@, file_entities@, g@, files@.len() as int);
        assert forall|k: int| 0 <= k < evidence@.len() implies text_at(texts@, #[trigger] evidence@[k].0@, 0) is Some by {
            assert(evidence@.map_values(|p: (String, String)| (p.0@, p.1@))[k] == first_n(links, MAX_AREA_EVIDENCE as nat)[k]);
            assert(first_n(links, MAX_AREA_EVIDENCE as nat)[k] == links[k]);
            let j = choose|j: int|
                0 <= j < files@.len() && #[trigger] links[k].0 == files@[j].relative_path@
                    && text_at(file_entities@, files@[j].relative_path@, 0) is Some;
            assert(text_at(texts@, files@[j].relative_path@, 0) is Some);
        }
    }
    let evidence_addresses = evidence_addresses_of(&evidence, texts, repository_id, snapshot_id);
    let area = KnowledgeArea {
        group,
        directory_id,
        repository_relation_id,
        file_relations,
        evidence,
        evidence_addresses,
        page,
        page_document_id,
    };
    (area, count)
}

/// Why the knowledge pages could not be built.
#[derive(Debug, Clone, Copy, PartialEq, Eq, Structural)]
pub enum KnowledgeError {
    /// A file with a file entity has no text at hand.
    TextMissing,
}

/// The knowledge pages of a snapshot: the areas of `files` in name order,
/// each with its directory entity, its relations, its page and its
/// evidence addresses, and the orientation page over them.
/// `file_entities` and `texts` map paths to file entity ids and texts; a
/// file with an entity but no text is refused.
pub fn knowledge_pages(
    snapshot_id: &str,
    repository_id: &str,
    files: &Vec<ScannedFile>,
    file_entities: &Vec<(String, String)>,
    texts: &Vec<(String, String)>,
    repository_entity_id: &str,
) -> (res: Result<KnowledgeEmission, KnowledgeError>)
    requires
        texts_countable(texts@),
    ensures
        res is Err <==> !texts_cover(files@, file_entities@, texts@),
        res matches Ok(r) ==> ({
            let groups = r.areas@.map_values(|a: KnowledgeArea| a.group@);
            &&& sorted_distinct(groups)
            &&& forall|g: Seq<char>| #[trigger] groups.contains(g) <==> is_area(files@, g)
            &&& forall|k: int|
                0 <= k < r.areas@.len() ==> area_of(
                    #[trigger] r.areas@[k],
                    groups[k],
                    files@,
                    file_entities@,
                    repository_id@,
                    repository_entity_id@,
                )
            &&& forall|k: int|
                0 <= k < r.areas@.len() ==> evidence_addressed(
                    #[trigger] r.areas@[k],
                    texts@,
                    repository_id@,
                    snapshot_id@,
                )
            &&& r.overview@ == overview_page(snapshot_id@, files@, groups)
            &&& r.overview_document_id@ == page_document_id(repository_entity_id@, r.overview@)
        }),
{
    for i in 0..files.len()
        invariant
            forall|j: int|
                0 <= j < i && text_at(file_entities@, #[trigger] files@[j].relative_path@, 0) is Some ==> text_at(
                    texts@,
                    files@[j].relative_path@,
                    0,
                ) is Some,
    {
        let path = &files[i].relative_path;
        if find_text(file_entities, path).is_some() && find_text(texts, path).is_none() {
            return Err(KnowledgeError::TextMissing);
        }
    }
    let names = area_names(files);
    let ghost gs = views(names@);
    let mut intro: Vec<char> = Vec::new();
    push_str(&mut intro, "Snapshot `");
    push_str(&mut intro, snapshot_id);
    push_str(&mut intro, "` contains ");
    push_decimal(&mut intro, files.len() as u64);
    push_str(&mut intro, " indexed source artifacts.");
    let mut lines: Vec<Vec<char>> = vec![
        chars_of("# Repository orientation"),
        Vec::new(),
        intro,
        Vec::new(),
        chars_of("## Top-level areas"),
    ];
    let ghost head = views(lines@);
    assert(head =~= seq![
        "# Repository orientation"@,
        Seq::<char>::empty(),
        "Snapshot `"@ + snapshot_id@ + "` contains "@ + decimal(files@.len()) + " indexed source artifacts."@,
        Seq::<char>::empty(),
        "## Top-level areas"@,
    ]);
    let mut areas: Vec<KnowledgeArea> = Vec::new();
    for k in 0..names.len()
        invariant
            gs == views(names@),
            views(lines@) == head + gs.take(k as int).map_values(|g: Seq<char>| area_line(files@, g)),
            areas@.len() == k,
            forall|j: int| 0 <= j < k ==> #[trigger] areas@[j].group@ == gs[j],
            forall|j: int|
                0 <= j < k ==> area_of(
                    #[trigger] areas@[j],
                    gs[j],
                    files@,
                    file_entities@,
                    repository_id@,
                    repository_entity_id@,
                ),
            forall|j: int|
                0 <= j < k ==> evidence_addressed(#[trigger] areas@[j], texts@, repository_id@, snapshot_id@),
            texts_cover(files@, file_entities@, texts@),
            texts_countable(texts@),
    {
        let (area, count) = build_area(
            &names[k],
            files,
            file_entities,
            texts,
            repository_id,
            snapshot_id,
            repository_entity_id,
        );
        let mut line: Vec<char> = Vec::new();
        push_str(&mut line, "- `");
        push_all(&mut line, &names[k]);
        push_str(&mut line, "`: ");
        push_decimal(&mut line, count as u64);
        push_str(&mut line, " files");
        let ghost lv = views(lines@);
        assert(names@[k as int]@ == gs[k as int]);
        assert(line@ == area_line(files@, gs[k as int]));
        lines.push(line);
        assert(views(lines@) =~= lv.push(area_line(files@, gs[k as int])));
        assert(gs.take(k + 1) =~= gs.take(k as int).push(gs[k as int]));
        assert(views(lines@) =~= head + gs.take(k + 1).map_values(|g: Seq<char>| area_line(files@, g)));
        areas.push(area);
    }
    assert(gs.take(names@.len() as int) =~= gs);
    assert(areas@.map_values(|a: KnowledgeArea| a.group@) =~= gs);
    let ghost lv = views(lines@);
    lines.push(Vec::new());
    lines.push(chars_of(OVERVIEW_FOOTER));
    assert(views(lines@) =~= head + gs.map_values(|g: Seq<char>| area_line(files@, g)) + seq![
        Seq::<char>::empty(),
        OVERVIEW_FOOTER@,
    ]);
    let overview = string_of(&join_chars(&lines, "\n"));
    let overview_document_id = document_id(repository_entity_id, "knowledge_page", 0, overview.as_str().len());
    Ok(KnowledgeEmission { areas, overview, overview_document_id })
}

} // verus!
