//! Source-unit model of a parsed file, the grammar table, and the
//! language-specific rules that classify syntax nodes and nest units.

use vstd::prelude::*;

verus! {

/// Kind of an indexed entity.
#[derive(Clone, Copy, Debug, PartialEq, Eq, Structural)]
pub enum EntityKind {
    Repository,
    Directory,
    File,
    Package,
    Module,
    Function,
    Method,
    Class,
    Struct,
    Enum,
    Trait,
    Interface,
    Field,
    Constant,
    Schema,
    Route,
    Commit,
    Unknown,
}

/// The Debug spelling of an entity kind.
pub open spec fn kind_label(k: EntityKind) -> Seq<char> {
    match k {
        EntityKind::Repository => "Repository"@,
        EntityKind::Directory => "Directory"@,
        EntityKind::File => "File"@,
        EntityKind::Package => "Package"@,
        EntityKind::Module => "Module"@,
        EntityKind::Function => "Function"@,
        EntityKind::Method => "Method"@,
        EntityKind::Class => "Class"@,
        EntityKind::Struct => "Struct"@,
        EntityKind::Enum => "Enum"@,
        EntityKind::Trait => "Trait"@,
        EntityKind::Interface => "Interface"@,
        EntityKind::Field => "Field"@,
        EntityKind::Constant => "Constant"@,
        EntityKind::Schema => "Schema"@,
        EntityKind::Route => "Route"@,
        EntityKind::Commit => "Commit"@,
        EntityKind::Unknown => "Unknown"@,
    }
}

/// The Debug spelling of an entity kind.
pub fn kind_name(k: EntityKind) -> (r: &'static str)
    ensures
        r@ == kind_label(k),
{
    match k {
        EntityKind::Repository => "Repository",
        EntityKind::Directory => "Directory",
        EntityKind::File => "File",
        EntityKind::Package => "Package",
        EntityKind::Module => "Module",
        EntityKind::Function => "Function",
        EntityKind::Method => "Method",
        EntityKind::Class => "Class",
        EntityKind::Struct => "Struct",
        EntityKind::Enum => "Enum",
        EntityKind::Trait => "Trait",
        EntityKind::Interface => "Interface",
        EntityKind::Field => "Field",
        EntityKind::Constant => "Constant",
        EntityKind::Schema => "Schema",
        EntityKind::Route => "Route",
        EntityKind::Commit => "Commit",
        EntityKind::Unknown => "Unknown",
    }
}

/// One extracted source unit (symbol) from a parsed file.
#[derive(Debug, Clone)]
pub struct ParsedUnit {
    /// Entity kind of the unit.
    pub kind: EntityKind,
    /// Symbol name.
    pub name: String,
    /// Declaration signature when extractable.
    pub signature: Option<String>,
    /// Inclusive start byte.
    pub start_byte: usize,
    /// Exclusive end byte.
    pub end_byte: usize,
    /// 1-based start line.
    pub start_line: u32,
    /// 1-based end line.
    pub end_line: u32,
    /// Index of the enclosing unit, if nested.
    pub parent_unit: Option<usize>,
    /// Syntax node kind for diagnostics.
    pub syntax_kind: String,
    /// Identifier spellings appearing in type positions (sorted, distinct).
    pub type_references: Vec<String>,
}

/// A call expression attributed to the innermost symbol that contains it;
/// `caller` indexes into `ParsedFile::units`, `None` means file scope.
#[derive(Debug, Clone)]
pub struct ParsedCall {
    /// Index of the calling unit; `None` = file scope.
    pub caller: Option<usize>,
    /// Callee name as written.
    pub name: String,
    /// Inclusive start byte of the call expression.
    pub start_byte: usize,
    /// Exclusive end byte of the call expression.
    pub end_byte: usize,
}

/// Everything extracted from one file: units, calls, and parse status.
#[derive(Debug, Clone)]
pub struct ParsedFile {
    /// Extracted source units.
    pub units: Vec<ParsedUnit>,
    /// Call expressions with caller attribution.
    pub calls: Vec<ParsedCall>,
    /// Whether a parser handled this file.
    pub parsed: bool,
    /// Whether the parse reported syntax errors.
    pub has_syntax_errors: bool,
    /// Parser/language identifier used.
    pub parser: Option<String>,
}

/// The result for a file no grammar handled.
pub fn unparsed() -> (r: ParsedFile)
    ensures
        r.units@.len() == 0,
        r.calls@.len() == 0,
        !r.parsed,
        !r.has_syntax_errors,
        r.parser is None,
{
    ParsedFile {
        units: Vec::new(),
        calls: Vec::new(),
        parsed: false,
        has_syntax_errors: false,
        parser: None,
    }
}

/// Source parser for supported languages.
#[derive(Debug, Clone, Copy, Default)]
pub struct SourceParser;

/// Languages with a grammar.
pub open spec fn has_grammar(name: Seq<char>) -> bool {
    ||| name == "rust"@
    ||| name == "typescript"@
    ||| name == "tsx"@
    ||| name == "javascript"@
    ||| name == "python"@
    ||| name == "go"@
    ||| name == "java"@
    ||| name == "csharp"@
}

impl SourceParser {
    /// Create a parser.
    pub fn new() -> (r: Self) {
        SourceParser
    }

    /// Whether a grammar exists for `language_name`.
    pub fn supports(language_name: &str) -> (r: bool)
        ensures
            r == has_grammar(language_name@),
    {
        let v = crate::text::chars_of(language_name);
        crate::text::eq_str(&v, "rust") || crate::text::eq_str(&v, "typescript")
            || crate::text::eq_str(&v, "tsx") || crate::text::eq_str(&v, "javascript")
            || crate::text::eq_str(&v, "python") || crate::text::eq_str(&v, "go")
            || crate::text::eq_str(&v, "java") || crate::text::eq_str(&v, "csharp")
    }
}

/// Syntax kinds that are call expressions in each language.
pub open spec fn call_kind(language: Seq<char>, kind: Seq<char>) -> bool {
    if language == "rust"@ || language == "typescript"@ || language == "tsx"@ || language
        == "javascript"@ || language == "go"@ {
        kind == "call_expression"@
    } else if language == "python"@ {
        kind == "call"@
    } else if language == "java"@ {
        kind == "method_invocation"@ || kind == "object_creation_expression"@
    } else if language == "csharp"@ {
        kind == "invocation_expression"@ || kind == "object_creation_expression"@
    } else {
        false
    }
}

/// Whether a syntax node of `kind` is a call in `language`.
pub fn is_call_node(language: &str, kind: &str) -> (r: bool)
    ensures
        r == call_kind(language@, kind@),
{
    let l = crate::text::chars_of(language);
    let k = crate::text::chars_of(kind);
    if crate::text::eq_str(&l, "rust") || crate::text::eq_str(&l, "typescript")
        || crate::text::eq_str(&l, "tsx") || crate::text::eq_str(&l, "javascript")
        || crate::text::eq_str(&l, "go") {
        crate::text::eq_str(&k, "call_expression")
    } else if crate::text::eq_str(&l, "python") {
        crate::text::eq_str(&k, "call")
    } else if crate::text::eq_str(&l, "java") {
        crate::text::eq_str(&k, "method_invocation") || crate::text::eq_str(
            &k,
            "object_creation_expression",
        )
    } else if crate::text::eq_str(&l, "csharp") {
        crate::text::eq_str(&k, "invocation_expression") || crate::text::eq_str(
            &k,
            "object_creation_expression",
        )
    } else {
        false
    }
}

/// Unit `i`'s parent, if any, comes earlier and ends no earlier.
pub open spec fn parent_ok(units: Seq<ParsedUnit>, i: int) -> bool {
    match units[i].parent_unit {
        Some(p) => p < i && units[p as int].end_byte >= units[i].end_byte,
        None => true,
    }
}

/// Every nested unit's parent comes earlier and ends no earlier.
pub open spec fn parents_enclose(units: Seq<ParsedUnit>) -> bool {
    forall|i: int| 0 <= i < units.len() ==> #[trigger] parent_ok(units, i)
}

/// Two units that agree on everything but their parent.
#[verifier::opaque]
pub open spec fn same_but_parent(a: ParsedUnit, b: ParsedUnit) -> bool {
    &&& a.kind == b.kind
    &&& a.name == b.name
    &&& a.signature == b.signature
    &&& a.start_byte == b.start_byte
    &&& a.end_byte == b.end_byte
    &&& a.start_line == b.start_line
    &&& a.end_line == b.end_line
    &&& a.syntax_kind == b.syntax_kind
    &&& a.type_references == b.type_references
}

proof fn lemma_same_trans(a: ParsedUnit, b: ParsedUnit, c: ParsedUnit)
    requires
        same_but_parent(a, b),
        same_but_parent(b, c),
    ensures
        same_but_parent(a, c),
{
    reveal(same_but_parent);
}

fn set_parent(units: &mut Vec<ParsedUnit>, index: usize, parent_unit: Option<usize>)
    requires
        index < old(units)@.len(),
    ensures
        final(units)@.len() == old(units)@.len(),
        forall|i: int|
            0 <= i < final(units)@.len() && i != index ==> #[trigger] final(units)@[i] == old(
                units,
            )@[i],
        same_but_parent(final(units)@[index as int], old(units)@[index as int]),
        final(units)@[index as int].parent_unit == parent_unit,
        final(units)@[index as int].end_byte == old(units)@[index as int].end_byte,
{
    let ghost before = units@;
    let mut unit = units.remove(index);
    let ghost taken = unit;
    unit.parent_unit = parent_unit;
    proof {
        reveal(same_but_parent);
    }
    units.insert(index, unit);
    proof {
        assert(units@ =~= before.update(index as int, unit));
    }
}

/// Pops the ancestors that end before unit `index` does; the remaining
/// top, if any, encloses it.
fn settle(ancestors: &mut Vec<usize>, units: &Vec<ParsedUnit>, index: usize)
    requires
        index < units@.len(),
        forall|k: int| 0 <= k < old(ancestors)@.len() ==> #[trigger] old(ancestors)@[k] < index,
    ensures
        forall|k: int| 0 <= k < final(ancestors)@.len() ==> #[trigger] final(ancestors)@[k] < index,
        final(ancestors)@.len() > 0 ==> units@[final(ancestors)@.last() as int].end_byte
            >= units@[index as int].end_byte,
{
    let mut settled = false;
    while !settled && ancestors.len() > 0
        invariant
            index < units@.len(),
            forall|k: int| 0 <= k < ancestors@.len() ==> #[trigger] ancestors@[k] < index,
            settled ==> ancestors@.len() > 0 && units@[ancestors@.last() as int].end_byte
                >= units@[index as int].end_byte,
        decreases ancestors@.len() * 2 + if settled {
            0int
        } else {
            1int
        },
    {
        let parent = ancestors[ancestors.len() - 1];
        if units[parent].end_byte >= units[index].end_byte {
            settled = true;
        } else {
            ancestors.pop();
        }
    }
}

/// Units sorted by start byte (ties: longer first) get, each, the nearest
/// enclosing earlier unit as parent: a stack of open ancestors is popped
/// while its top ends before the unit does.
pub fn assign_parents(units: &mut Vec<ParsedUnit>)
    ensures
        final(units)@.len() == old(units)@.len(),
        forall|i: int|
            0 <= i < final(units)@.len() ==> same_but_parent(
                #[trigger] final(units)@[i],
                old(units)@[i],
            ),
        parents_enclose(final(units)@),
{
    let mut ancestors: Vec<usize> = Vec::new();
    let n = units.len();
    assert forall|i: int| 0 <= i < units@.len() implies same_but_parent(
        #[trigger] units@[i],
        old(units)@[i],
    ) by {
        reveal(same_but_parent);
    }
    for index in 0..n
        invariant
            n == units@.len(),
            units@.len() == old(units)@.len(),
            forall|i: int|
                0 <= i < units@.len() ==> same_but_parent(#[trigger] units@[i], old(units)@[i]),
            forall|k: int| 0 <= k < ancestors@.len() ==> #[trigger] ancestors@[k] < index,
            forall|i: int| 0 <= i < index ==> #[trigger] parent_ok(units@, i),
    {
        settle(&mut ancestors, units, index);
        let parent_unit = if ancestors.len() > 0 {
            Some(ancestors[ancestors.len() - 1])
        } else {
            None
        };
        let ghost before = units@;
        set_parent(units, index, parent_unit);
        proof {
            lemma_same_trans(units@[index as int], before[index as int], old(units)@[index as int]);
            assert forall|i: int| 0 <= i <= index implies #[trigger] parent_ok(units@, i) by {
                if i < index {
                    assert(parent_ok(before, i));
                }
            }
        }
        ancestors.push(index);
    }
}

} // verus!
