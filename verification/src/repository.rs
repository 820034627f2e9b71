//! Repository scan policy: which walked files are indexed, how they are
//! classified, and how repository, content, overlay and snapshot
//! identities are derived from their bytes. The walk and the reads stand
//! outside; every decision about what was read is made here.

use vstd::prelude::*;
use vstd::utf8::{encode_utf8, valid_utf8};
use crate::config::{EngineConfig, IndexOptions};
use crate::digest::{blake3_hex, blake3_hex_of, push_utf8};
use crate::ignore::{
    builtin_skip_reason, extension, extension_of, final_component, is_sensitive, is_sensitive_name,
    skip_reason,
};
use crate::text::{
    chars_of, copy_string, eq_chars, eq_str, is_prefix, lines, lines_of, lower, lower_all, owned, rfind_char,
    slice_vec, split_on, string_of, trim, trim_chars, Separator,
};

verus! {

/// One file discovered by the repository scan, with content-hash identity.
#[derive(Debug, Clone)]
pub struct ScannedFile {
    /// Repository-relative path.
    pub relative_path: String,
    /// Absolute filesystem path, as text.
    pub absolute_path: String,
    /// Detected language, when known.
    pub language: Option<String>,
    /// BLAKE3 content hash.
    pub content_hash: String,
    /// File size.
    pub size_bytes: u64,
    /// Modification time (epoch ms).
    pub mtime_ms: i64,
    /// Line count.
    pub line_count: u64,
    /// Bytes read during the scan; `None` when the hash came from a cache.
    pub cached_bytes: Option<Vec<u8>>,
}

/// Walks the repository honoring ignore rules, size limits, and sensitive-
/// file policy.
#[derive(Debug, Clone)]
pub struct RepositoryScanner {
    config: EngineConfig,
}

impl RepositoryScanner {
    /// Create a scanner bound to `config`.
    pub fn new(config: EngineConfig) -> (r: Self)
        ensures
            r.view_config() == config,
    {
        RepositoryScanner { config }
    }

    /// The configuration the scanner is bound to.
    pub closed spec fn view_config(&self) -> EngineConfig {
        self.config
    }

    /// The configuration the scanner is bound to.
    pub fn config(&self) -> (r: &EngineConfig)
        ensures
            *r == self.view_config(),
    {
        &self.config
    }
}

// ---- binary detection --------------------------------------------------------

/// A NUL byte among the first 8 KiB, or bytes that are not UTF-8.
pub open spec fn probably_binary(bytes: Seq<u8>) -> bool {
    ||| exists|i: int| 0 <= i < bytes.len() && i < 8192 && bytes[i] == 0
    ||| !valid_utf8(bytes)
}

/// Whether `bytes` look binary: a NUL in the first 8 KiB, or not UTF-8.
pub fn is_probably_binary(bytes: &[u8]) -> (r: bool)
    ensures
        r == probably_binary(bytes@),
{
    let limit = if bytes.len() < 8192 {
        bytes.len()
    } else {
        8192
    };
    for i in 0..limit
        invariant
            limit <= bytes.len(),
            limit <= 8192,
            limit == bytes.len() || limit == 8192,
            forall|k: int| 0 <= k < i ==> bytes@[k] != 0,
    {
        if bytes[i] == 0 {
            return true;
        }
    }
    crate::text::utf8_text(bytes).is_none()
}

/// Number of lines: zero for empty content, else one more than the
/// number of `\n` bytes.
pub open spec fn newline_count(bytes: Seq<u8>) -> nat
    decreases bytes.len(),
{
    if bytes.len() == 0 {
        0
    } else {
        newline_count(bytes.drop_last()) + if bytes.last() == 10 {
            1nat
        } else {
            0nat
        }
    }
}

/// There are no more `\n` bytes than bytes.
pub proof fn lemma_newline_count_le_len(bytes: Seq<u8>)
    ensures
        newline_count(bytes) <= bytes.len(),
    decreases bytes.len(),
{
    if bytes.len() > 0 {
        lemma_newline_count_le_len(bytes.drop_last());
    }
}

/// A prefix has no more `\n` bytes than the whole.
pub proof fn lemma_newline_count_prefix(bytes: Seq<u8>, k: int)
    requires
        0 <= k <= bytes.len(),
    ensures
        newline_count(bytes.take(k)) <= newline_count(bytes),
    decreases bytes.len() - k,
{
    if k < bytes.len() {
        assert(bytes.take(bytes.len() as int) =~= bytes);
        assert(bytes.drop_last().take(k) =~= bytes.take(k));
        lemma_newline_count_prefix(bytes.drop_last(), k);
    } else {
        assert(bytes.take(k) =~= bytes);
    }
}

/// The line count the scan records for a file's bytes.
pub open spec fn line_count_of(bytes: Seq<u8>) -> nat {
    if bytes.len() == 0 {
        0
    } else {
        newline_count(bytes) + 1
    }
}

/// Line count of file content.
pub fn line_count(bytes: &[u8]) -> (r: u64)
    requires
        bytes@.len() < u64::MAX,
    ensures
        r == line_count_of(bytes@),
{
    let mut count: u64 = 0;
    for i in 0..bytes.len()
        invariant
            count == newline_count(bytes@.take(i as int)),
            count <= i,
            bytes@.len() < u64::MAX,
    {
        assert(bytes@.take(i + 1).drop_last() =~= bytes@.take(i as int));
        if bytes[i] == 10 {
            count = count + 1;
        }
    }
    assert(bytes@.take(bytes.len() as int) =~= bytes@);
    if bytes.len() == 0 {
        0
    } else {
        count + 1
    }
}

// ---- languages and names --------------------------------------------------------

/// The language of a path, by its extension (ASCII case-insensitive).
pub open spec fn language_of(path: Seq<char>) -> Option<Seq<char>> {
    match extension_of(path) {
        None => None,
        Some(e) => {
            let l = lower(e);
            if l == "rs"@ {
                Some("rust"@)
            } else if l == "ts"@ || l == "mts"@ || l == "cts"@ {
                Some("typescript"@)
            } else if l == "tsx"@ {
                Some("tsx"@)
            } else if l == "js"@ || l == "mjs"@ || l == "cjs"@ || l == "jsx"@ {
                Some("javascript"@)
            } else if l == "py"@ || l == "pyi"@ {
                Some("python"@)
            } else if l == "go"@ {
                Some("go"@)
            } else if l == "java"@ {
                Some("java"@)
            } else if l == "cs"@ {
                Some("csharp"@)
            } else if l == "md"@ || l == "mdx"@ {
                Some("markdown"@)
            } else if l == "json"@ || l == "jsonc"@ {
                Some("json"@)
            } else if l == "toml"@ {
                Some("toml"@)
            } else if l == "yaml"@ || l == "yml"@ {
                Some("yaml"@)
            } else if l == "sql"@ {
                Some("sql"@)
            } else {
                None
            }
        },
    }
}

/// The language of `path`, by extension.
pub fn language_for_path(path: &str) -> (r: Option<&'static str>)
    ensures
        match r {
            Some(s) => language_of(path@) == Some(s@),
            None => language_of(path@) is None,
        },
{
    let e = match extension(&chars_of(path)) {
        Some(e) => e,
        None => return None,
    };
    let l = lower_all(&e);
    if eq_str(&l, "rs") {
        Some("rust")
    } else if eq_str(&l, "ts") || eq_str(&l, "mts") || eq_str(&l, "cts") {
        Some("typescript")
    } else if eq_str(&l, "tsx") {
        Some("tsx")
    } else if eq_str(&l, "js") || eq_str(&l, "mjs") || eq_str(&l, "cjs") || eq_str(&l, "jsx") {
        Some("javascript")
    } else if eq_str(&l, "py") || eq_str(&l, "pyi") {
        Some("python")
    } else if eq_str(&l, "go") {
        Some("go")
    } else if eq_str(&l, "java") {
        Some("java")
    } else if eq_str(&l, "cs") {
        Some("csharp")
    } else if eq_str(&l, "md") || eq_str(&l, "mdx") {
        Some("markdown")
    } else if eq_str(&l, "json") || eq_str(&l, "jsonc") {
        Some("json")
    } else if eq_str(&l, "toml") {
        Some("toml")
    } else if eq_str(&l, "yaml") || eq_str(&l, "yml") {
        Some("yaml")
    } else if eq_str(&l, "sql") {
        Some("sql")
    } else {
        None
    }
}

/// `Path::file_name`: the last normal component, ignoring trailing `/`
/// and `.` components; empty when the path ends in `..` or has none.
pub open spec fn file_name_of(p: Seq<char>) -> Seq<char>
    decreases p.len(),
{
    if p.len() == 0 {
        Seq::empty()
    } else if p.last() == '/' {
        file_name_of(p.drop_last())
    } else {
        let c = final_component(p);
        if c == "."@ {
            if c.len() == p.len() {
                Seq::empty()
            } else {
                file_name_of(p.drop_last())
            }
        } else if c == ".."@ {
            Seq::empty()
        } else {
            c
        }
    }
}

/// The file name of a walked path (empty when it has none).
pub fn entry_file_name(path: &str) -> (r: String)
    ensures
        r@ == file_name_of(path@),
{
    let p = chars_of(path);
    let mut end: usize = p.len();
    assert(p@.take(end as int) =~= p@);
    loop
        invariant
            end <= p@.len(),
            p@ == path@,
            file_name_of(p@) == file_name_of(p@.take(end as int)),
        decreases end,
    {
        let ghost q = p@.take(end as int);
        if end == 0 {
            assert(q.len() == 0);
            return string_of(&Vec::new());
        }
        assert(q.last() == p@[end - 1]);
        assert(q.drop_last() =~= p@.take(end - 1));
        if p[end - 1] == '/' {
            end = end - 1;
        } else {
            let prefix = slice_vec(&p, 0, end);
            assert(prefix@ =~= q);
            let start = match rfind_char(&prefix, '/') {
                Some(i) => i + 1,
                None => 0,
            };
            let component = slice_vec(&prefix, start, end);
            assert(component@ =~= final_component(q));
            if eq_str(&component, ".") {
                if start == 0 {
                    assert(component@.len() == q.len());
                    return string_of(&Vec::new());
                }
                end = end - 1;
            } else if eq_str(&component, "..") {
                return string_of(&Vec::new());
            } else {
                return string_of(&component);
            }
        }
    }
}

/// A full SHA-1 or SHA-256 object id: 40 or 64 ASCII hex digits.
pub open spec fn is_oid(s: Seq<char>) -> bool {
    &&& (s.len() == 40 || s.len() == 64)
    &&& forall|i: int| 0 <= i < s.len() ==> crate::text::ascii_hex(#[trigger] s[i])
}

/// Whether `value` is a full git object id.
pub fn valid_oid(value: &str) -> (r: bool)
    ensures
        r == is_oid(value@),
{
    let v = chars_of(value);
    if v.len() != 40 && v.len() != 64 {
        return false;
    }
    for i in 0..v.len()
        invariant
            v@ == value@,
            forall|k: int| 0 <= k < i ==> crate::text::ascii_hex(#[trigger] v@[k]),
    {
        let c = v[i];
        if !(('a' <= c && c <= 'f') || ('A' <= c && c <= 'F') || ('0' <= c && c <= '9')) {
            return false;
        }
    }
    true
}

// ---- per-entry policy --------------------------------------------------------------

/// What the scan does with one walked file before reading it.
#[derive(Debug, Clone, Copy, PartialEq, Eq)]
pub enum Admission {
    /// Larger than `max_file_bytes`.
    TooLarge,
    /// Dropped by the built-in policy, with its reason.
    Builtin(&'static str),
    /// Credential-shaped name, and sensitive files are excluded.
    Sensitive,
    /// Read (or take from the cache) and index.
    Read,
}

/// Size limit first, then the built-in policy, then the sensitive-name
/// policy; anything else is read.
pub fn admit_file(size: u64, file_name: &str, options: &IndexOptions) -> (r: Admission)
    ensures
        (r == Admission::TooLarge) == (size > options.max_file_bytes),
        r is Builtin ==> size <= options.max_file_bytes && skip_reason(file_name@) == Some(
            r->0@,
        ),
        (size <= options.max_file_bytes && skip_reason(file_name@) is Some) ==> r is Builtin,
        (r == Admission::Sensitive) == (size <= options.max_file_bytes && skip_reason(
            file_name@,
        ) is None && !options.include_sensitive && is_sensitive(file_name@)),
        (r == Admission::Read) == (size <= options.max_file_bytes && skip_reason(file_name@) is None
            && (options.include_sensitive || !is_sensitive(file_name@))),
{
    if size > options.max_file_bytes {
        return Admission::TooLarge;
    }
    if let Some(reason) = builtin_skip_reason(file_name) {
        return Admission::Builtin(reason);
    }
    if !options.include_sensitive && is_sensitive_name(file_name) {
        return Admission::Sensitive;
    }
    Admission::Read
}

// ---- identities ---------------------------------------------------------------------

/// `repo_` and the first 24 hex digits of the digest of the identity basis.
pub open spec fn repository_id_of(basis: Seq<char>) -> Seq<char> {
    "repo_"@ + blake3_hex_of(encode_utf8(basis)).take(24)
}

/// The repository id derived from its remote, or from its root path.
pub fn repository_id(basis: &str) -> (r: String)
    ensures
        r@ == repository_id_of(basis@),
{
    let digest = blake3_hex(basis.as_bytes());
    let hex = chars_of(digest.as_str());
    let mut v: Vec<char> = Vec::new();
    crate::text::push_str(&mut v, "repo_");
    let head = slice_vec(&hex, 0, 24);
    crate::text::push_all(&mut v, &head);
    string_of(&v)
}

/// The content hash of a file's bytes.
pub fn content_hash(bytes: &[u8]) -> (r: String)
    ensures
        r@ == blake3_hex_of(bytes@),
{
    blake3_hex(bytes)
}

/// The bytes the overlay digest covers: each file's path, a NUL, its
/// content hash, a NUL, in file order.
pub open spec fn overlay_input(files: Seq<ScannedFile>) -> Seq<u8>
    decreases files.len(),
{
    if files.len() == 0 {
        Seq::empty()
    } else {
        overlay_input(files.drop_last()) + encode_utf8(files.last().relative_path@) + seq![0u8]
            + encode_utf8(files.last().content_hash@) + seq![0u8]
    }
}

/// The workspace overlay hash of the scanned files, in order.
pub fn overlay_hash(files: &Vec<ScannedFile>) -> (r: String)
    ensures
        r@ == blake3_hex_of(overlay_input(files@)),
{
    let mut buf: Vec<u8> = Vec::new();
    for i in 0..files.len()
        invariant
            buf@ == overlay_input(files@.take(i as int)),
    {
        assert(files@.take(i + 1).drop_last() =~= files@.take(i as int));
        push_utf8(&mut buf, files[i].relative_path.as_str());
        buf.push(0);
        push_utf8(&mut buf, files[i].content_hash.as_str());
        buf.push(0);
    }
    assert(files@.take(files.len() as int) =~= files@);
    blake3_hex(&buf)
}

/// The bytes a snapshot id digests: repository id, base revision (or
/// `unborn`), overlay hash and profile hash.
pub open spec fn snapshot_input(
    repository_id: Seq<char>,
    base_revision: Option<Seq<char>>,
    overlay: Seq<char>,
    profile_hash: Seq<char>,
) -> Seq<u8> {
    encode_utf8(repository_id) + encode_utf8(
        match base_revision {
            Some(r) => r,
            None => "unborn"@,
        },
    ) + encode_utf8(overlay) + encode_utf8(profile_hash)
}

/// The snapshot id: `snap_` and the digest of the snapshot input.
pub fn snapshot_id(
    repository_id: &str,
    base_revision: &Option<String>,
    overlay: &str,
    profile_hash: &str,
) -> (r: String)
    ensures
        r@ == "snap_"@ + blake3_hex_of(
            snapshot_input(
                repository_id@,
                match base_revision {
                    Some(s) => Some(s@),
                    None => None,
                },
                overlay@,
                profile_hash@,
            ),
        ),
{
    let mut buf: Vec<u8> = Vec::new();
    push_utf8(&mut buf, repository_id);
    match base_revision {
        Some(r) => push_utf8(&mut buf, r.as_str()),
        None => push_utf8(&mut buf, "unborn"),
    }
    push_utf8(&mut buf, overlay);
    push_utf8(&mut buf, profile_hash);
    let digest = blake3_hex(&buf);
    let mut v: Vec<char> = Vec::new();
    crate::text::push_str(&mut v, "snap_");
    crate::text::push_str(&mut v, digest.as_str());
    string_of(&v)
}

// ---- git metadata text ----------------------------------------------------------------

/// What `.git/HEAD` names.
#[derive(Debug, PartialEq, Eq)]
pub enum HeadTarget {
    /// A detached object id.
    Detached(String),
    /// A symbolic reference such as `refs/heads/main`.
    Reference(String),
    /// Neither a ref nor a valid object id.
    Invalid,
}

/// The target of a `.git/HEAD` file's text.
pub open spec fn head_target_of(text: Seq<char>) -> (Option<Seq<char>>, bool) {
    let head = trim(text);
    if is_prefix("ref: "@, head) {
        (Some(head.skip(5)), true)
    } else if is_oid(head) {
        (Some(head), false)
    } else {
        (None, false)
    }
}

/// Parses `.git/HEAD`: `ref: <name>` is a reference, a full object id is
/// a detached head, anything else is invalid.
pub fn parse_head(text: &str) -> (r: HeadTarget)
    ensures
        match r {
            HeadTarget::Reference(n) => head_target_of(text@) == (Some(n@), true),
            HeadTarget::Detached(o) => head_target_of(text@) == (Some(o@), false),
            HeadTarget::Invalid => head_target_of(text@).0 is None,
        },
{
    let head = trim_chars(&chars_of(text));
    proof {
        reveal_strlit("ref: ");
    }
    if crate::text::starts_with_str(&head, "ref: ") {
        return HeadTarget::Reference(string_of(&slice_vec(&head, 5, head.len())));
    }
    let s = string_of(&head);
    if valid_oid(s.as_str()) {
        HeadTarget::Detached(s)
    } else {
        HeadTarget::Invalid
    }
}

/// A loose ref file's object id, when its trimmed text is one.
pub fn loose_ref_oid(text: &str) -> (r: Option<String>)
    ensures
        match r {
            Some(o) => o@ == trim(text@) && is_oid(o@),
            None => !is_oid(trim(text@)),
        },
{
    let s = string_of(&trim_chars(&chars_of(text)));
    if valid_oid(s.as_str()) {
        Some(s)
    } else {
        None
    }
}

/// The object id of `reference` in a `packed-refs` line, if the line is
/// `<oid> <reference>`.
pub open spec fn packed_line_oid(line: Seq<char>, reference: Seq<char>) -> Option<Seq<char>> {
    if line.len() > 0 && (line[0] == '#' || line[0] == '^') {
        None
    } else {
        match crate::text::first_index_of(line, ' ') {
            Some(i) => if line.skip(i + 1) == reference && is_oid(line.take(i)) {
                Some(line.take(i))
            } else {
                None
            },
            None => None,
        }
    }
}

/// The first `packed-refs` line, in order, that resolves `reference`.
pub open spec fn packed_oid(lines: Seq<Seq<char>>, reference: Seq<char>) -> Option<Seq<char>>
    decreases lines.len(),
{
    if lines.len() == 0 {
        None
    } else {
        match packed_line_oid(lines[0], reference) {
            Some(o) => Some(o),
            None => packed_oid(lines.drop_first(), reference),
        }
    }
}

/// Resolves `reference` in the text of a `packed-refs` file.
pub fn packed_ref_oid(text: &str, reference: &str) -> (r: Option<String>)
    ensures
        match r {
            Some(o) => packed_oid(lines_of(text@), reference@) == Some(o@),
            None => packed_oid(lines_of(text@), reference@) is None,
        },
{
    let all = lines(&chars_of(text));
    let ghost ls = lines_of(text@);
    let reference_chars = chars_of(reference);
    let mut i: usize = 0;
    assert(ls.skip(0) =~= ls);
    while i < all.len()
        invariant
            all@.map_values(|l: Vec<char>| l@) == ls,
            ls == lines_of(text@),
            reference_chars@ == reference@,
            i <= all@.len(),
            packed_oid(ls, reference@) == packed_oid(ls.skip(i as int), reference@),
        decreases all@.len() - i,
    {
        let line = &all[i];
        assert(ls[i as int] == line@);
        assert(ls.skip(i as int)[0] == line@);
        assert(ls.skip(i as int).drop_first() =~= ls.skip(i + 1));
        let skip = line.len() > 0 && (line[0] == '#' || line[0] == '^');
        if !skip {
            if let Some(sp) = crate::text::find_char(line, ' ') {
                let oid = slice_vec(line, 0, sp);
                let name = slice_vec(line, sp + 1, line.len());
                if eq_chars(&name, &reference_chars) {
                    let o = string_of(&oid);
                    if valid_oid(o.as_str()) {
                        assert(packed_line_oid(line@, reference@) == Some(o@));
                        return Some(o);
                    }
                }
            }
        }
        assert(packed_line_oid(line@, reference@) is None);
        i = i + 1;
    }
    None
}

/// The `url` of the `[remote "origin"]` section of a git config, scanning
/// lines in order from `in_origin`.
pub open spec fn origin_url_from(lines: Seq<Seq<char>>, in_origin: bool) -> Option<Seq<char>>
    decreases lines.len(),
{
    if lines.len() == 0 {
        None
    } else {
        let t = trim(lines[0]);
        if is_prefix("["@, t) {
            origin_url_from(lines.drop_first(), t == "[remote \"origin\"]"@)
        } else if in_origin && is_prefix("url"@, t) && crate::text::has_char(t.skip(3), '=') {
            let rest = t.skip(3);
            let i = crate::text::first_index_of(rest, '=')->0;
            Some(trim(rest.skip(i + 1)))
        } else {
            origin_url_from(lines.drop_first(), in_origin)
        }
    }
}

/// The origin remote URL named by a git config's text.
pub fn origin_remote(config: &str) -> (r: Option<String>)
    ensures
        match r {
            Some(u) => origin_url_from(lines_of(config@), false) == Some(u@),
            None => origin_url_from(lines_of(config@), false) is None,
        },
{
    let all = lines(&chars_of(config));
    let ghost ls = lines_of(config@);
    let mut in_origin = false;
    let mut i: usize = 0;
    assert(ls.skip(0) =~= ls);
    while i < all.len()
        invariant
            all@.map_values(|l: Vec<char>| l@) == ls,
            ls == lines_of(config@),
            i <= all@.len(),
            origin_url_from(ls, false) == origin_url_from(ls.skip(i as int), in_origin),
        decreases all@.len() - i,
    {
        let line = &all[i];
        assert(ls[i as int] == line@);
        assert(ls.skip(i as int)[0] == line@);
        assert(ls.skip(i as int).drop_first() =~= ls.skip(i + 1));
        let t = trim_chars(line);
        proof {
            reveal_strlit("url");
        }
        if crate::text::starts_with_str(&t, "[") {
            in_origin = eq_str(&t, "[remote \"origin\"]");
        } else if in_origin && crate::text::starts_with_str(&t, "url") {
            let rest = slice_vec(&t, 3, t.len());
            assert(rest@ =~= t@.skip(3));
            if let Some(eq) = crate::text::find_char(&rest, '=') {
                proof {
                    crate::text::lemma_first_index_of(rest@, '=');
                }
                let value = trim_chars(&slice_vec(&rest, eq + 1, rest.len()));
                assert(crate::text::has_char(rest@, '='));
                assert(rest@.skip(eq + 1) =~= rest@.subrange(eq + 1, rest@.len() as int));
                return Some(string_of(&value));
            } else {
                proof {
                    crate::text::lemma_first_index_of(rest@, '=');
                }
            }
        }
        i = i + 1;
    }
    None
}

/// The target a `.git` file points at: the trimmed text after `gitdir:`.
pub fn gitdir_target(contents: &str) -> (r: Option<String>)
    ensures
        match r {
            Some(t) => is_prefix("gitdir:"@, trim(contents@)) && t@ == trim(
                trim(contents@).skip(7),
            ),
            None => !is_prefix("gitdir:"@, trim(contents@)),
        },
{
    let t = trim_chars(&chars_of(contents));
    proof {
        reveal_strlit("gitdir:");
    }
    if !crate::text::starts_with_str(&t, "gitdir:") {
        return None;
    }
    let rest = slice_vec(&t, 7, t.len());
    assert(rest@ =~= t@.skip(7));
    Some(string_of(&trim_chars(&rest)))
}

// ---- assembling a scan ------------------------------------------------------------------

/// A file the walk found: its paths, size and time, and its bytes when the
/// walker read them (it reads exactly the files `admit_file` admits).
#[derive(Debug)]
pub struct WalkedFile {
    /// Repository-relative path, `/`-separated.
    pub relative_path: String,
    /// Absolute path, as text.
    pub absolute_path: String,
    pub size_bytes: u64,
    pub mtime_ms: i64,
    pub bytes: Option<Vec<u8>>,
}

/// What a scan keeps and skips.
#[derive(Debug)]
pub struct ScanOutcome {
    /// Indexed files, in path order.
    pub files: Vec<ScannedFile>,
    pub skipped_large_files: Vec<String>,
    pub skipped_binary_files: Vec<String>,
    pub skipped_sensitive_files: Vec<String>,
    /// Built-in skips with their reasons.
    pub skipped_builtin_files: Vec<(String, &'static str)>,
    /// Total size of the indexed files (saturating).
    pub source_bytes: u64,
    /// How many files the snapshot holds.
    pub file_count: usize,
}

/// `path` lies at or under the directory `root`.
pub open spec fn inside_dir(root: Seq<char>, path: Seq<char>) -> bool {
    path == root || is_prefix(root + "/"@, path)
}

/// Whether a walked path lies outside the data directory (always, when
/// there is none).
pub fn outside_data_root(path: &str, data_root: &Option<String>) -> (r: bool)
    ensures
        r == match data_root {
            Some(root) => !inside_dir(root@, path@),
            None => true,
        },
{
    match data_root {
        None => true,
        Some(root) => {
            let p = chars_of(path);
            let mut prefix = chars_of(root.as_str());
            let exact = eq_chars(&p, &prefix);
            crate::text::push_str(&mut prefix, "/");
            !(exact || crate::text::starts_with(&p, &prefix))
        },
    }
}

/// How a walked file fares: skipped under the data root (`0`), too large
/// (`1`), skipped by the built-in policy (`2`), sensitive (`3`), binary
/// (`4`), or indexed (`5`).
pub open spec fn walk_fate(e: WalkedFile, data_root: Option<String>, o: IndexOptions) -> int {
    let name = file_name_of(e.absolute_path@);
    if data_root matches Some(r) && inside_dir(r@, e.absolute_path@) {
        0
    } else if e.size_bytes > o.max_file_bytes {
        1
    } else if skip_reason(name) is Some {
        2
    } else if !o.include_sensitive && is_sensitive(name) {
        3
    } else if e.bytes matches Some(b) && probably_binary(b@) {
        4
    } else {
        5
    }
}

/// The walked file is one the walker had to read.
pub open spec fn needs_read(e: WalkedFile, data_root: Option<String>, o: IndexOptions) -> bool {
    walk_fate(e, data_root, o) >= 4
}

/// The relative paths of the first `n` entries whose fate is `fate`.
pub open spec fn paths_with_fate(es: Seq<WalkedFile>, d: Option<String>, o: IndexOptions, fate: int, n: int) -> Seq<
    Seq<char>,
>
    decreases n,
{
    if n <= 0 {
        Seq::empty()
    } else {
        paths_with_fate(es, d, o, fate, n - 1) + if walk_fate(es[n - 1], d, o) == fate {
            seq![es[n - 1].relative_path@]
        } else {
            Seq::empty()
        }
    }
}

/// The built-in skips among the first `n` entries, with their reasons.
pub open spec fn builtin_skips(es: Seq<WalkedFile>, d: Option<String>, o: IndexOptions, n: int) -> Seq<
    (Seq<char>, Seq<char>),
>
    decreases n,
{
    if n <= 0 {
        Seq::empty()
    } else {
        builtin_skips(es, d, o, n - 1) + if walk_fate(es[n - 1], d, o) == 2 {
            seq![
                (
                    es[n - 1].relative_path@,
                    skip_reason(file_name_of(es[n - 1].absolute_path@)).unwrap(),
                ),
            ]
        } else {
            Seq::empty()
        }
    }
}

/// `ks` with position `i` inserted after every position whose path does
/// not sort after its own.
pub open spec fn insert_by_path(es: Seq<WalkedFile>, ks: Seq<int>, i: int) -> Seq<int>
    decreases ks.len(),
{
    if ks.len() > 0 && crate::descriptor::lex_lt(es[i].relative_path@, es[ks.last()].relative_path@) {
        insert_by_path(es, ks.drop_last(), i).push(ks.last())
    } else {
        ks.push(i)
    }
}

/// The positions of the indexed files among the first `n` entries,
/// ordered by path (equal paths in walk order).
pub open spec fn indexed_order(es: Seq<WalkedFile>, d: Option<String>, o: IndexOptions, n: int) -> Seq<int>
    decreases n,
{
    if n <= 0 {
        Seq::empty()
    } else if walk_fate(es[n - 1], d, o) == 5 {
        insert_by_path(es, indexed_order(es, d, o, n - 1), n - 1)
    } else {
        indexed_order(es, d, o, n - 1)
    }
}

/// The sizes of the indexed files among the first `n` entries, added up
/// and held at `u64::MAX`.
pub open spec fn indexed_bytes(es: Seq<WalkedFile>, d: Option<String>, o: IndexOptions, n: int) -> nat
    decreases n,
{
    if n <= 0 {
        0
    } else {
        let prev = indexed_bytes(es, d, o, n - 1);
        if walk_fate(es[n - 1], d, o) == 5 {
            if prev + es[n - 1].size_bytes > u64::MAX {
                u64::MAX as nat
            } else {
                (prev + es[n - 1].size_bytes) as nat
            }
        } else {
            prev
        }
    }
}

/// `f` is the indexed form of the walked file `e`.
pub open spec fn scanned_from(f: ScannedFile, e: WalkedFile) -> bool {
    &&& f.relative_path == e.relative_path
    &&& f.absolute_path == e.absolute_path
    &&& match f.language {
        Some(l) => language_of(e.absolute_path@) == Some(l@),
        None => language_of(e.absolute_path@) is None,
    }
    &&& e.bytes matches Some(b) && f.content_hash@ == blake3_hex_of(b@) && f.line_count
        == line_count_of(b@) && (f.cached_bytes matches Some(c) && c@ == b@)
    &&& f.size_bytes == e.size_bytes
    &&& f.mtime_ms == e.mtime_ms
}

/// Paths in `fs` ascend (equal ones allowed).
pub open spec fn paths_ascend(fs: Seq<ScannedFile>) -> bool {
    forall|i: int, j: int|
        0 <= i < j < fs.len() ==> !crate::descriptor::lex_lt(fs[j].relative_path@, fs[i].relative_path@)
}

proof fn lemma_insert_keeps_ascending(fs: Seq<ScannedFile>, f: ScannedFile, at: int)
    requires
        0 <= at <= fs.len(),
        paths_ascend(fs),
        forall|q: int| at <= q < fs.len() ==> crate::descriptor::lex_lt(f.relative_path@, #[trigger] fs[q].relative_path@),
        at == 0 || !crate::descriptor::lex_lt(f.relative_path@, fs[at - 1].relative_path@),
    ensures
        paths_ascend(fs.insert(at, f)),
{
    let g = fs.insert(at, f);
    assert forall|i: int, j: int| 0 <= i < j < g.len() implies !crate::descriptor::lex_lt(
        g[j].relative_path@,
        g[i].relative_path@,
    ) by {
        if j == at {
            let x = fs[at - 1].relative_path@;
            let y = fs[i].relative_path@;
            let k = f.relative_path@;
            crate::descriptor::lemma_lex_total(k, x);
            crate::descriptor::lemma_lex_total(x, y);
            crate::descriptor::lemma_lex_total(k, y);
            if i < at - 1 {
                if crate::descriptor::lex_lt(k, y) {
                    if x != k {
                        crate::descriptor::lemma_lex_trans(x, k, y);
                    }
                }
            }
        } else if i == at {
            crate::descriptor::lemma_lex_total(f.relative_path@, fs[j - 1].relative_path@);
        } else {
        }
    }
}

/// No two walked entries share a relative path.
pub open spec fn distinct_paths(es: Seq<WalkedFile>) -> bool {
    forall|a: int, b: int| 0 <= a < b < es.len() ==> es[a].relative_path@ != es[b].relative_path@
}

/// Paths in `fs` strictly ascend.
pub open spec fn paths_strictly_ascend(fs: Seq<ScannedFile>) -> bool {
    forall|i: int, j: int|
        0 <= i < j < fs.len() ==> crate::descriptor::lex_lt(fs[i].relative_path@, fs[j].relative_path@)
}

proof fn lemma_insert_fresh(order: Seq<int>, at: int, i: int)
    requires
        0 <= i,
        0 <= at <= order.len(),
        order.no_duplicates(),
        forall|k: int| 0 <= k < order.len() ==> 0 <= #[trigger] order[k] < i,
    ensures
        order.insert(at, i).no_duplicates(),
        forall|k: int| 0 <= k < order.len() + 1 ==> 0 <= #[trigger] order.insert(at, i)[k] < i + 1,
{
    order.insert_ensures(at, i);
    let g = order.insert(at, i);
    assert forall|k: int| 0 <= k < g.len() implies (g[k] == i && k == at) || (0 <= g[k] < i) by {
        if k > at {
            assert(g[(k - 1) + 1] == order[k - 1]);
        }
    }
}

proof fn lemma_strict_from_distinct(files: Seq<ScannedFile>, es: Seq<WalkedFile>, order: Seq<int>)
    requires
        files.len() == order.len(),
        order.no_duplicates(),
        forall|k: int| 0 <= k < order.len() ==> 0 <= #[trigger] order[k] < es.len(),
        forall|k: int| 0 <= k < order.len() ==> scanned_from(#[trigger] files[k], es[order[k]]),
        paths_ascend(files),
        distinct_paths(es),
    ensures
        paths_strictly_ascend(files),
{
    assert forall|a: int, b: int| 0 <= a < b < files.len() implies crate::descriptor::lex_lt(
        files[a].relative_path@,
        files[b].relative_path@,
    ) by {
        assert(scanned_from(files[a], es[order[a]]));
        assert(scanned_from(files[b], es[order[b]]));
        assert(order[a] != order[b]);
        if order[a] < order[b] {
            assert(es[order[a]].relative_path@ != es[order[b]].relative_path@);
        } else {
            assert(es[order[b]].relative_path@ != es[order[a]].relative_path@);
        }
        crate::descriptor::lemma_lex_total(files[a].relative_path@, files[b].relative_path@);
    }
}

/// Assembles a scan from the walked files: files under the data directory
/// are dropped; each other file is skipped as too large, by the built-in
/// policy, as sensitive, or as binary, or indexed with its language,
/// content hash and line count; the indexed files are ordered by path;
/// the snapshot's file count is theirs.
pub fn assemble_scan(entries: Vec<WalkedFile>, data_root: Option<String>, options: &IndexOptions) -> (r:
    ScanOutcome)
    requires
        forall|k: int|
            0 <= k < entries@.len() && needs_read(#[trigger] entries@[k], data_root, *options)
                ==> entries@[k].bytes is Some,
        forall|k: int|
            0 <= k < entries@.len() ==> ((#[trigger] entries@[k]).bytes matches Some(b) ==> b@.len()
                < u64::MAX),
    ensures
        ({
            let es = entries@;
            let n = es.len() as int;
            let order = indexed_order(es, data_root, *options, n);
            &&& r.files@.len() == order.len()
            &&& forall|k: int| 0 <= k < order.len() ==> scanned_from(#[trigger] r.files@[k], es[order[k]])
            &&& paths_ascend(r.files@)
            &&& distinct_paths(es) ==> paths_strictly_ascend(r.files@)
            &&& r.file_count == r.files@.len()
            &&& r.skipped_large_files@.map_values(|s: String| s@) == paths_with_fate(es, data_root, *options, 1, n)
            &&& r.skipped_sensitive_files@.map_values(|s: String| s@) == paths_with_fate(es, data_root, *options, 3, n)
            &&& r.skipped_binary_files@.map_values(|s: String| s@) == paths_with_fate(es, data_root, *options, 4, n)
            &&& r.skipped_builtin_files@.map_values(|p: (String, &'static str)| (p.0@, p.1@)) == builtin_skips(
                es,
                data_root,
                *options,
                n,
            )
            &&& r.source_bytes == indexed_bytes(es, data_root, *options, n)
        }),
{
    let ghost es = entries@;
    let mut files: Vec<ScannedFile> = Vec::new();
    let mut large: Vec<String> = Vec::new();
    let mut binary: Vec<String> = Vec::new();
    let mut sensitive: Vec<String> = Vec::new();
    let mut builtin: Vec<(String, &'static str)> = Vec::new();
    let mut total: u64 = 0;
    let ghost mut order: Seq<int> = Seq::empty();
    for i in 0..entries.len()
        invariant
            es == entries@,
            forall|k: int|
                0 <= k < es.len() && needs_read(#[trigger] es[k], data_root, *options) ==> es[k].bytes is Some,
            forall|k: int| 0 <= k < es.len() ==> ((#[trigger] es[k]).bytes matches Some(b) ==> b@.len() < u64::MAX),
            order == indexed_order(es, data_root, *options, i as int),
            order.no_duplicates(),
            forall|k: int| 0 <= k < order.len() ==> 0 <= #[trigger] order[k] < i,
            files@.len() == order.len(),
            forall|k: int| 0 <= k < order.len() ==> scanned_from(#[trigger] files@[k], es[order[k]]),
            paths_ascend(files@),
            large@.map_values(|s: String| s@) == paths_with_fate(es, data_root, *options, 1, i as int),
            sensitive@.map_values(|s: String| s@) == paths_with_fate(es, data_root, *options, 3, i as int),
            binary@.map_values(|s: String| s@) == paths_with_fate(es, data_root, *options, 4, i as int),
            builtin@.map_values(|p: (String, &'static str)| (p.0@, p.1@)) == builtin_skips(es, data_root, *options, i as int),
            total == indexed_bytes(es, data_root, *options, i as int),
    {
        let e = &entries[i];
        let ghost fate = walk_fate(*e, data_root, *options);
        let ghost lv = large@.map_values(|s: String| s@);
        let ghost sv = sensitive@.map_values(|s: String| s@);
        let ghost bv = binary@.map_values(|s: String| s@);
        let ghost biv = builtin@.map_values(|p: (String, &'static str)| (p.0@, p.1@));
        if !outside_data_root(e.absolute_path.as_str(), &data_root) {
            assert(fate == 0);
        } else {
            let name = entry_file_name(e.absolute_path.as_str());
            match admit_file(e.size_bytes, name.as_str(), options) {
                Admission::TooLarge => {
                    large.push(copy_string(&e.relative_path));
                    assert(large@.map_values(|s: String| s@) =~= lv.push(e.relative_path@));
                },
                Admission::Builtin(reason) => {
                    builtin.push((copy_string(&e.relative_path), reason));
                    assert(builtin@.map_values(|p: (String, &'static str)| (p.0@, p.1@)) =~= biv.push(
                        (e.relative_path@, reason@),
                    ));
                },
                Admission::Sensitive => {
                    sensitive.push(copy_string(&e.relative_path));
                    assert(sensitive@.map_values(|s: String| s@) =~= sv.push(e.relative_path@));
                },
                Admission::Read => {
                    assert(needs_read(*e, data_root, *options));
                    let bytes = match &e.bytes {
                        Some(b) => b,
                        None => {
                            assert(false);
                            return ScanOutcome {
                                files,
                                skipped_large_files: large,
                                skipped_binary_files: binary,
                                skipped_sensitive_files: sensitive,
                                skipped_builtin_files: builtin,
                                source_bytes: total,
                                file_count: 0,
                            };
                        },
                    };
                    if is_probably_binary(bytes.as_slice()) {
                        binary.push(copy_string(&e.relative_path));
                        assert(binary@.map_values(|s: String| s@) =~= bv.push(e.relative_path@));
                    } else {
                        let f = ScannedFile {
                            relative_path: copy_string(&e.relative_path),
                            absolute_path: copy_string(&e.absolute_path),
                            language: match language_for_path(e.absolute_path.as_str()) {
                                Some(l) => Some(owned(l)),
                                None => None,
                            },
                            content_hash: content_hash(bytes.as_slice()),
                            size_bytes: e.size_bytes,
                            mtime_ms: e.mtime_ms,
                            line_count: line_count(bytes.as_slice()),
                            cached_bytes: Some(copy_bytes(bytes)),
                        };
                        assert(scanned_from(f, *e));
                        total = if total > u64::MAX - e.size_bytes {
                            u64::MAX
                        } else {
                            total + e.size_bytes
                        };
                        let key = chars_of(f.relative_path.as_str());
                        let ghost fv = files@;
                        let at = path_position(&files, &key);
                        let ghost old_order = order;
                        proof {
                            lemma_insert_keeps_ascending(fv, f, at as int);
                            lemma_insert_by_path_at(es, order, i as int, at as int, fv);
                            lemma_insert_fresh(order, at as int, i as int);
                            order = order.insert(at as int, i as int);
                        }
                        files.insert(at, f);
                        assert(files@ =~= fv.insert(at as int, f));
                        assert forall|k: int| 0 <= k < order.len() implies scanned_from(
                            #[trigger] files@[k],
                            es[order[k]],
                        ) by {
                            if k < at {
                                assert(order[k] == old_order[k] && files@[k] == fv[k]);
                            } else if k > at {
                                assert(order[k] == old_order[k - 1] && files@[k] == fv[k - 1]);
                            }
                        }
                    }
                },
            }
        }
    }
    let count = files.len();
    proof {
        if distinct_paths(es) {
            lemma_strict_from_distinct(files@, es, order);
        }
    }
    ScanOutcome {
        files,
        skipped_large_files: large,
        skipped_binary_files: binary,
        skipped_sensitive_files: sensitive,
        skipped_builtin_files: builtin,
        source_bytes: total,
        file_count: count,
    }
}

/// Where a file with path `key` goes among `files`: after every file whose
/// path does not sort after it.
fn path_position(files: &Vec<ScannedFile>, key: &Vec<char>) -> (at: usize)
    ensures
        at <= files@.len(),
        forall|q: int| at <= q < files@.len() ==> crate::descriptor::lex_lt(key@, #[trigger] files@[q].relative_path@),
        at == 0 || !crate::descriptor::lex_lt(key@, files@[at - 1].relative_path@),
{
    let mut at: usize = files.len();
    while at > 0 && crate::descriptor::lex_less(key, &chars_of(files[at - 1].relative_path.as_str()))
        invariant
            at <= files@.len(),
            forall|q: int| at <= q < files@.len() ==> crate::descriptor::lex_lt(key@, #[trigger] files@[q].relative_path@),
        decreases at,
    {
        at = at - 1;
    }
    at
}

/// Inserting at the position the path search found is the ordered insertion.
proof fn lemma_insert_by_path_at(es: Seq<WalkedFile>, ks: Seq<int>, i: int, at: int, fs: Seq<ScannedFile>)
    requires
        0 <= at <= ks.len(),
        fs.len() == ks.len(),
        forall|k: int| 0 <= k < ks.len() ==> (#[trigger] fs[k]).relative_path == es[ks[k]].relative_path,
        forall|q: int| at <= q < fs.len() ==> crate::descriptor::lex_lt(es[i].relative_path@, #[trigger] fs[q].relative_path@),
        at == 0 || !crate::descriptor::lex_lt(es[i].relative_path@, fs[at - 1].relative_path@),
    ensures
        insert_by_path(es, ks, i) == ks.insert(at, i),
    decreases ks.len(),
{
    if ks.len() > 0 && crate::descriptor::lex_lt(es[i].relative_path@, es[ks.last()].relative_path@) {
        assert(fs[ks.len() - 1].relative_path == es[ks.last()].relative_path);
        lemma_insert_by_path_at(es, ks.drop_last(), i, at, fs.drop_last());
        assert(ks.drop_last().insert(at, i).push(ks.last()) =~= ks.insert(at, i));
    } else {
        if ks.len() > 0 && at < ks.len() {
            assert(fs[ks.len() - 1].relative_path == es[ks.last()].relative_path);
        }
        assert(ks.push(i) =~= ks.insert(at, i));
    }
}

fn copy_bytes(b: &Vec<u8>) -> (r: Vec<u8>)
    ensures
        r@ == b@,
{
    let mut r: Vec<u8> = Vec::new();
    for i in 0..b.len()
        invariant
            r@ == b@.take(i as int),
    {
        r.push(b[i]);
        assert(r@ =~= b@.take(i + 1));
    }
    assert(r@ =~= b@);
    r
}

} // verus!
