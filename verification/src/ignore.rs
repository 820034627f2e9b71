//! Built-in ignore policy: names that never carry retrievable evidence.
//!
//! Three disjoint categories: internal/generated directories, generated
//! artifacts (lockfiles, minified assets, checksum databases), and
//! credential-shaped names.

use vstd::prelude::*;
use crate::text::{
    chars_of, ends_with_str, eq_str, is_prefix, is_suffix, last_index_of, lower, lower_all,
    rfind_char, slice_vec, starts_with_str,
};

verus! {

/// Text after the last `/` (the whole name when there is none).
pub open spec fn final_component(name: Seq<char>) -> Seq<char> {
    match last_index_of(name, '/') {
        Some(i) => name.skip(i + 1),
        None => name,
    }
}

/// The extension `Path::extension` reports for a file name: the text after
/// the last `.` of the final `/`-separated component, when that `.` is not
/// the component's first char and the component is not `..`.
pub open spec fn extension_of(name: Seq<char>) -> Option<Seq<char>> {
    let component = final_component(name);
    if component == ".."@ {
        None
    } else {
        match last_index_of(component, '.') {
            Some(i) => if i == 0 {
                None
            } else {
                Some(component.skip(i + 1))
            },
            None => None,
        }
    }
}

/// The extension of `name`, compared ASCII-case-insensitively with `ext`.
pub open spec fn has_extension(name: Seq<char>, ext: Seq<char>) -> bool {
    match extension_of(name) {
        Some(e) => lower(e) == lower(ext),
        None => false,
    }
}

/// Generated files named after a package manager's lock convention.
pub open spec fn is_lockfile_name(name: Seq<char>) -> bool {
    let l = lower(name);
    ||| has_extension(name, "lock"@)
    ||| has_extension(name, "lockb"@)
    ||| l == "package-lock.json"@
    ||| l == "npm-shrinkwrap.json"@
    ||| l == "pnpm-lock.yaml"@
    ||| l == "go.sum"@
    ||| l == "go.work.sum"@
}

/// Minified bundles and source maps.
pub open spec fn is_minified_name(name: Seq<char>) -> bool {
    let l = lower(name);
    ||| is_suffix(".min.js"@, l)
    ||| is_suffix(".min.css"@, l)
    ||| has_extension(name, "map"@)
}

/// The built-in skip label of a file name: `lockfile` before `minified`.
pub open spec fn skip_reason(name: Seq<char>) -> Option<Seq<char>> {
    if is_lockfile_name(name) {
        Some("lockfile"@)
    } else if is_minified_name(name) {
        Some("minified"@)
    } else {
        None
    }
}

/// Credential-shaped file names.
pub open spec fn is_sensitive(name: Seq<char>) -> bool {
    let l = lower(name);
    ||| l == ".env"@
    ||| is_prefix(".env."@, l)
    ||| is_prefix(".env-"@, l)
    ||| match last_index_of(l, '.') {
        Some(i) => {
            let e = l.skip(i + 1);
            ||| e == "env"@
            ||| e == "pem"@
            ||| e == "key"@
            ||| e == "p12"@
            ||| e == "pfx"@
            ||| e == "keystore"@
            ||| e == "jks"@
        },
        None => false,
    }
    ||| l == "id_rsa"@
    ||| l == "id_dsa"@
    ||| l == "id_ecdsa"@
    ||| l == "id_ed25519"@
    ||| l == ".netrc"@
    ||| l == ".npmrc"@
    ||| l == ".pypirc"@
    ||| l == "credentials"@
    ||| l == "credentials.json"@
    ||| l == "secrets.json"@
    ||| l == "secrets.yaml"@
    ||| l == "secrets.yml"@
}

/// Directory entries that are never repository content.
pub open spec fn is_internal(name: Seq<char>, depth: nat, is_dir: bool) -> bool {
    &&& depth != 0
    &&& {
        ||| name == ".git"@
        ||| name == ".cce"@
        ||| name == "target"@
        ||| name == "node_modules"@
        ||| name == ".venv"@
        ||| name == "__pycache__"@
        ||| (is_dir && (is_prefix(".cce-"@, name) || is_prefix(".cce_"@, name)))
    }
}

/// The extension of `name` per `extension_of`.
pub fn extension(name: &[char]) -> (r: Option<Vec<char>>)
    ensures
        match r {
            Some(e) => extension_of(name@) == Some(e@),
            None => extension_of(name@) is None,
        },
{
    let component = match rfind_char(name, '/') {
        Some(i) => slice_vec(name, i + 1, name.len()),
        None => slice_vec(name, 0, name.len()),
    };
    proof {
        assert(component@ == final_component(name@));
    }
    if eq_str(&component, "..") {
        return None;
    }
    match rfind_char(&component, '.') {
        Some(i) => {
            if i == 0 {
                None
            } else {
                Some(slice_vec(&component, i + 1, component.len()))
            }
        },
        None => None,
    }
}

/// Extension check, ASCII-case-insensitive.
pub fn extension_is(name: &[char], ext: &str) -> (r: bool)
    ensures
        r == has_extension(name@, ext@),
{
    match extension(name) {
        Some(e) => {
            let le = lower_all(&e);
            let lx = lower_all(&chars_of(ext));
            crate::text::eq_chars(&le, &lx)
        },
        None => false,
    }
}

/// Why a file name is skipped by the built-in policy (`lockfile` or
/// `minified`), or `None` when the policy keeps it.
pub fn builtin_skip_reason(name: &str) -> (r: Option<&'static str>)
    ensures
        match r {
            Some(label) => skip_reason(name@) == Some(label@),
            None => skip_reason(name@) is None,
        },
{
    let n = chars_of(name);
    let l = lower_all(&n);
    let lockfile = extension_is(&n, "lock") || extension_is(&n, "lockb") || eq_str(
        &l,
        "package-lock.json",
    ) || eq_str(&l, "npm-shrinkwrap.json") || eq_str(&l, "pnpm-lock.yaml") || eq_str(
        &l,
        "go.sum",
    ) || eq_str(&l, "go.work.sum");
    if lockfile {
        return Some("lockfile");
    }
    if ends_with_str(&l, ".min.js") || ends_with_str(&l, ".min.css") || extension_is(&n, "map") {
        return Some("minified");
    }
    None
}

/// File names that frequently contain credentials.
pub fn is_sensitive_name(name: &str) -> (r: bool)
    ensures
        r == is_sensitive(name@),
{
    let l = lower_all(&chars_of(name));
    if eq_str(&l, ".env") || starts_with_str(&l, ".env.") || starts_with_str(&l, ".env-") {
        return true;
    }
    let by_extension = match rfind_char(&l, '.') {
        Some(i) => {
            let e = slice_vec(&l, i + 1, l.len());
            proof {
                assert(e@ == l@.skip(i + 1));
            }
            eq_str(&e, "env") || eq_str(&e, "pem") || eq_str(&e, "key") || eq_str(&e, "p12")
                || eq_str(&e, "pfx") || eq_str(&e, "keystore") || eq_str(&e, "jks")
        },
        None => false,
    };
    if by_extension {
        return true;
    }
    eq_str(&l, "id_rsa") || eq_str(&l, "id_dsa") || eq_str(&l, "id_ecdsa") || eq_str(
        &l,
        "id_ed25519",
    ) || eq_str(&l, ".netrc") || eq_str(&l, ".npmrc") || eq_str(&l, ".pypirc") || eq_str(
        &l,
        "credentials",
    ) || eq_str(&l, "credentials.json") || eq_str(&l, "secrets.json") || eq_str(
        &l,
        "secrets.yaml",
    ) || eq_str(&l, "secrets.yml")
}

/// Directories that are never repository content: VCS and tool state,
/// build output, dependency caches, and renamed data dirs (`.cce-*`,
/// `.cce_*`). The walk root (depth 0) is never filtered.
pub fn is_internal_or_generated(name: &str, depth: usize, is_dir: bool) -> (r: bool)
    ensures
        r == is_internal(name@, depth as nat, is_dir),
{
    if depth == 0 {
        return false;
    }
    let n = chars_of(name);
    if eq_str(&n, ".git") || eq_str(&n, ".cce") || eq_str(&n, "target") || eq_str(
        &n,
        "node_modules",
    ) || eq_str(&n, ".venv") || eq_str(&n, "__pycache__") {
        return true;
    }
    is_dir && (starts_with_str(&n, ".cce-") || starts_with_str(&n, ".cce_"))
}

} // verus!
