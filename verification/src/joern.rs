//! Turning a Joern graph node into an artifact node: its file, its line,
//! column and code text aligned with a byte range of the file, its kind
//! and its name.

use vstd::prelude::*;
use vstd::utf8::encode_utf8;

use crate::alignment::{align_source_range, aligned_range};
use crate::artifact::{scanned_at, text_at, ArtifactAddress, ArtifactError, ArtifactNode, Refusal, refusal_of};
use crate::dataflow::{graph_property, joern_node_kind, node_kind_of, property_of, props_view, GraphNode};
use crate::history::utf8_len;
use crate::indexing::line_for_offset;
use crate::pattern::line_at;
use crate::repository::{newline_count, ScannedFile};
use crate::text::{
    chars_of, copy_string, digits_value, is_digit, lemma_digits_value_prefix, parse_u32,
    parse_u32_spec, string_of, trim, trim_chars, u32_digits,
};

verus! {

/// `usize::from_str`: an optional `+`, then one or more ASCII digits whose
/// value fits the machine's `usize`.
pub open spec fn parse_usize_spec(s: Seq<char>) -> Option<usize> {
    let digits = u32_digits(s);
    if digits.len() == 0 || exists|i: int| 0 <= i < digits.len() && !is_digit(#[trigger] digits[i]) {
        None
    } else if digits_value(digits) > usize::MAX {
        None
    } else {
        Some(digits_value(digits) as usize)
    }
}

/// Parses a decimal `usize` as `str::parse::<usize>` does.
pub fn parse_usize(s: &[char]) -> (r: Option<usize>)
    ensures
        r == parse_usize_spec(s@),
{
    let start: usize = if s.len() > 0 && s[0] == '+' {
        1
    } else {
        0
    };
    let ghost digits = s@.skip(start as int);
    assert(digits =~= u32_digits(s@));
    if start == s.len() {
        assert(digits.len() == 0);
        return None;
    }
    let mut value: usize = 0;
    let mut i = start;
    while i < s.len()
        invariant
            start <= i <= s@.len(),
            start < s@.len(),
            digits == s@.skip(start as int),
            digits == u32_digits(s@),
            forall|k: int| 0 <= k < i - start ==> is_digit(#[trigger] digits[k]),
            value == digits_value(digits.take(i - start)),
        decreases s@.len() - i,
    {
        let c = s[i];
        if !('0' <= c && c <= '9') {
            assert(digits[i - start] == c);
            assert(!is_digit(digits[i - start]));
            return None;
        }
        let d = (c as u32 - 48) as usize;
        assert(digits.take(i - start + 1).drop_last() =~= digits.take(i - start));
        assert(digits.take(i - start + 1).last() == c);
        let next = match value.checked_mul(10) {
            Some(v) => v.checked_add(d),
            None => None,
        };
        match next {
            Some(v) => {
                value = v;
            },
            None => {
                proof {
                    if forall|j: int| 0 <= j < digits.len() ==> is_digit(#[trigger] digits[j]) {
                        lemma_digits_value_prefix(digits, i - start + 1);
                    }
                }
                return None;
            },
        }
        i = i + 1;
    }
    assert(digits.take(s@.len() - start) =~= digits);
    Some(value)
}

/// The property names each node attribute is read from.
pub open spec fn line_names() -> Seq<Seq<char>> {
    seq!["LINE_NUMBER"@, "lineNumber"@]
}

pub open spec fn code_names() -> Seq<Seq<char>> {
    seq!["CODE"@, "code"@]
}

pub open spec fn column_names() -> Seq<Seq<char>> {
    seq!["COLUMN_NUMBER"@, "columnNumber"@]
}

pub open spec fn label_names() -> Seq<Seq<char>> {
    seq!["labelV"@, "label"@, ":LABEL"@]
}

pub open spec fn name_names() -> Seq<Seq<char>> {
    seq!["NAME"@, "name"@]
}

/// A node's 1-based line, when it has a positive one.
pub open spec fn node_line(n: GraphNode) -> Option<u32> {
    match property_of(props_view(n.properties@), line_names()) {
        Some(v) => match parse_u32_spec(v) {
            Some(l) => if l > 0 {
                Some(l)
            } else {
                None
            },
            None => None,
        },
        None => None,
    }
}

/// A node's code text, trimmed, when it has a non-blank one.
pub open spec fn node_code(n: GraphNode) -> Option<Seq<char>> {
    match property_of(props_view(n.properties@), code_names()) {
        Some(v) => if trim(v).len() > 0 {
            Some(trim(v))
        } else {
            None
        },
        None => None,
    }
}

/// A node's column, when it has one that parses.
pub open spec fn node_column(n: GraphNode) -> Option<usize> {
    match property_of(props_view(n.properties@), column_names()) {
        Some(v) => parse_usize_spec(v),
        None => None,
    }
}

/// A node's label, `expression` when it has none.
pub open spec fn node_label(n: GraphNode) -> Seq<char> {
    match property_of(props_view(n.properties@), label_names()) {
        Some(v) => v,
        None => "expression"@,
    }
}

/// A node's name: its name property, else its code text, else its label.
pub open spec fn node_name(n: GraphNode) -> Seq<char> {
    match property_of(props_view(n.properties@), name_names()) {
        Some(v) => v,
        None => match node_code(n) {
            Some(c) => c,
            None => node_label(n),
        },
    }
}

/// Where a node lands: `Ok(None)` when it has no resolved path, its file
/// was not scanned, it has no positive line, or it aligns with nothing;
/// `Err` when its file's text is not at hand; else its path, the text, and
/// its byte range.
pub open spec fn node_landing(
    n: GraphNode,
    resolved: Option<Seq<char>>,
    files: Seq<ScannedFile>,
    texts: Seq<(String, String)>,
) -> Result<Option<(Seq<char>, Seq<char>, (usize, usize))>, Refusal> {
    match resolved {
        None => Ok(None),
        Some(p) => if scanned_at(files, p, 0) is None {
            Ok(None)
        } else {
            match node_line(n) {
                None => Ok(None),
                Some(l) => match text_at(texts, p, 0) {
                    None => Err(Refusal::TextUnavailable(p)),
                    Some(t) => match aligned_range(texts[t].1@, l, node_column(n), node_code(n)) {
                        None => Ok(None),
                        Some(rg) => Ok(Some((p, texts[t].1@, rg))),
                    },
                },
            }
        },
    }
}

/// Turns a Joern graph node into an artifact node (see `node_landing`):
/// addressed at the byte range its line, column and code text align with
/// in its resolved file, kind from its label, named by its name, code or
/// label. `texts` maps paths to file texts.
pub fn align_joern_node(
    node: &GraphNode,
    resolved_path: &Option<String>,
    files: &Vec<ScannedFile>,
    texts: &Vec<(String, String)>,
) -> (r: Result<Option<ArtifactNode>, ArtifactError>)
    requires
        forall|k: int|
            0 <= k < texts@.len() ==> newline_count(encode_utf8(#[trigger] texts@[k].1@)) < u32::MAX
                && utf8_len(texts@[k].1@) < usize::MAX,
    ensures
        match node_landing(
            *node,
            match resolved_path {
                Some(p) => Some(p@),
                None => None,
            },
            files@,
            texts@,
        ) {
            Err(f) => r matches Err(e) && refusal_of(e) == f,
            Ok(None) => r matches Ok(None),
            Ok(Some(land)) => r matches Ok(Some(a)) && {
                &&& a.id == node.id
                &&& a.kind@ == node_kind_of(node_label(*node))
                &&& a.name@ == node_name(*node)
                &&& a.address.path@ == land.0
                &&& a.address.start_byte == land.2.0
                &&& a.address.end_byte == land.2.1
                &&& a.address.start_line == line_at(encode_utf8(land.1), land.2.0 as nat)
                &&& a.address.end_line == line_at(encode_utf8(land.1), land.2.1 as nat)
            },
        },
{
    let Some(path) = resolved_path else {
        return Ok(None);
    };
    if crate::artifact::find_scanned(files, path).is_none() {
        return Ok(None);
    }
    let line_keys = ["LINE_NUMBER", "lineNumber"];
    assert(line_keys@.map_values(|n: &str| n@) =~= line_names());
    let line = match graph_property(&node.properties, &line_keys) {
        Some(v) => match parse_u32(&chars_of(v.as_str())) {
            Some(l) => if l > 0 {
                l
            } else {
                return Ok(None);
            },
            None => return Ok(None),
        },
        None => return Ok(None),
    };
    let code_keys = ["CODE", "code"];
    assert(code_keys@.map_values(|n: &str| n@) =~= code_names());
    let code: Option<Vec<char>> = match graph_property(&node.properties, &code_keys) {
        Some(v) => {
            let t = trim_chars(&chars_of(v.as_str()));
            if t.len() > 0 {
                Some(t)
            } else {
                None
            }
        },
        None => None,
    };
    let column_keys = ["COLUMN_NUMBER", "columnNumber"];
    assert(column_keys@.map_values(|n: &str| n@) =~= column_names());
    let column = match graph_property(&node.properties, &column_keys) {
        Some(v) => parse_usize(&chars_of(v.as_str())),
        None => None,
    };
    let Some(t) = crate::artifact::find_text(texts, path) else {
        return Err(ArtifactError::TextUnavailable { path: copy_string(path) });
    };
    let text = texts[t].1.as_str();
    let code_string: Option<String> = match &code {
        Some(c) => Some(string_of(c)),
        None => None,
    };
    let range = match &code_string {
        Some(c) => align_source_range(text, line, column, Some(c.as_str())),
        None => align_source_range(text, line, column, None),
    };
    let Some((start, end)) = range else {
        return Ok(None);
    };
    let label_keys = ["labelV", "label", ":LABEL"];
    assert(label_keys@.map_values(|n: &str| n@) =~= label_names());
    let label: String = match graph_property(&node.properties, &label_keys) {
        Some(v) => v,
        None => string_of(&chars_of("expression")),
    };
    let name_keys = ["NAME", "name"];
    assert(name_keys@.map_values(|n: &str| n@) =~= name_names());
    let name: String = match graph_property(&node.properties, &name_keys) {
        Some(v) => v,
        None => match &code_string {
            Some(c) => copy_string(c),
            None => copy_string(&label),
        },
    };
    Ok(
        Some(
            ArtifactNode {
                id: copy_string(&node.id),
                kind: string_of(&chars_of(joern_node_kind(label.as_str()))),
                name,
                address: ArtifactAddress {
                    path: copy_string(path),
                    start_byte: start as u64,
                    end_byte: end as u64,
                    start_line: line_for_offset(text, start),
                    end_line: line_for_offset(text, end),
                },
            },
        ),
    )
}

} // verus!
