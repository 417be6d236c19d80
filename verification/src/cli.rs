//! The command-line driver's errors and the small computations it makes on
//! its arguments.

use vstd::prelude::*;
use crate::text::{chars_of, dec_digits, decimal, str_eq, string_from_chars};
use crate::token::Span;
use crate::ast::{BlockKind, Identifier, Statement, TypeRef};
use crate::error::{ParseError, spec_message, spec_help, spec_error_span};
use crate::ids::{join_seqs, join_strings, strings_view};
use crate::text::push_str;

verus! {

/// A command-line error.
#[derive(Debug)]
pub enum CliError {
    /// An I/O error (file not found, permission denied, ...).
    Io { message: String, source: Option<std::io::Error> },
    /// Parse errors in a file, with its source text.
    Parse { file: String, errors: Vec<ParseErrorInfo>, source_code: String },
    /// Semantic errors in a file, with its source text.
    Semantic { file: String, errors: Vec<SemanticErrorInfo>, source_code: String },
    /// Several files had errors.
    MultipleErrors { count: usize },
}

/// A parse error: its message, its location as start and length, and a hint.
#[derive(Debug, Clone)]
pub struct ParseErrorInfo {
    pub message: String,
    pub span: Option<(usize, usize)>,
    pub help: Option<String>,
}

/// A semantic error: its message, its location as start and length, and a hint.
#[derive(Debug, Clone)]
pub struct SemanticErrorInfo {
    pub message: String,
    pub span: Option<(usize, usize)>,
    pub help: Option<String>,
}

impl CliError {
    /// An I/O error with a message.
    pub fn io(message: &str) -> (e: Self)
        ensures
            e matches CliError::Io { message: m, source: None } && m@ == message@,
    {
        CliError::Io { message: message.to_owned(), source: None }
    }

    /// An I/O error with a message and its cause.
    pub fn io_with_source(message: &str, source: std::io::Error) -> (e: Self)
        ensures
            e matches CliError::Io { message: m, source: Some(s) } && m@ == message@ && s == source,
    {
        CliError::Io { message: message.to_owned(), source: Some(source) }
    }

    /// Parse errors in `file`.
    pub fn parse(file: &str, errors: Vec<ParseErrorInfo>, source_code: String) -> (e: Self)
        ensures
            e matches CliError::Parse { file: f, errors: es, source_code: s }
                && f@ == file@ && es == errors && s == source_code,
    {
        CliError::Parse { file: file.to_owned(), errors, source_code }
    }

    /// Semantic errors in `file`.
    pub fn semantic(file: &str, errors: Vec<SemanticErrorInfo>, source_code: String) -> (e: Self)
        ensures
            e matches CliError::Semantic { file: f, errors: es, source_code: s }
                && f@ == file@ && es == errors && s == source_code,
    {
        CliError::Semantic { file: file.to_owned(), errors, source_code }
    }
}

/// The message a command-line error shows.
pub open spec fn cli_message(e: CliError) -> Seq<char> {
    match e {
        CliError::Io { message, .. } => "IO error: "@ + message@,
        CliError::Parse { file, .. } => "Parse error in "@ + file@,
        CliError::Semantic { file, .. } => "Semantic error in "@ + file@,
        CliError::MultipleErrors { count } => "Build failed with "@ + dec_digits(count as nat) + " error(s)"@,
    }
}

impl CliError {
    /// The message this error shows.
    pub fn message(&self) -> (s: String)
        ensures
            s@ == cli_message(*self),
    {
        match self {
            CliError::Io { message, .. } => {
                let mut s = "IO error: ".to_owned();
                push_str(&mut s, message.as_str());
                s
            },
            CliError::Parse { file, .. } => {
                let mut s = "Parse error in ".to_owned();
                push_str(&mut s, file.as_str());
                s
            },
            CliError::Semantic { file, .. } => {
                let mut s = "Semantic error in ".to_owned();
                push_str(&mut s, file.as_str());
                s
            },
            CliError::MultipleErrors { count } => {
                let mut s = "Build failed with ".to_owned();
                let d = decimal(*count as u64);
                push_str(&mut s, d.as_str());
                push_str(&mut s, " error(s)");
                s
            },
        }
    }
}

/// An optional span as start and length.
pub open spec fn span_pair(span: Option<Span>) -> Option<(usize, usize)> {
    match span {
        Some(s) => Some((s.start, (s.end - s.start) as usize)),
        None => None,
    }
}

/// An optional span as start and length.
pub fn span_to_tuple(span: &Option<Span>) -> (r: Option<(usize, usize)>)
    requires
        span matches Some(s) ==> s.start <= s.end,
    ensures
        r == span_pair(*span),
{
    match span {
        Some(s) => Some((s.start, s.end - s.start)),
        None => None,
    }
}

/// The KiCad footprint suffix of an imperial chip package name; other
/// names are kept as they are.
pub open spec fn chip_suffix(p: Seq<char>) -> Seq<char> {
    if p == "0201"@ {
        "0201_0603Metric"@
    } else if p == "0402"@ {
        "0402_1005Metric"@
    } else if p == "0603"@ {
        "0603_1608Metric"@
    } else if p == "0805"@ {
        "0805_2012Metric"@
    } else if p == "1206"@ {
        "1206_3216Metric"@
    } else if p == "1210"@ {
        "1210_3225Metric"@
    } else if p == "1812"@ {
        "1812_4532Metric"@
    } else if p == "2010"@ {
        "2010_5025Metric"@
    } else if p == "2512"@ {
        "2512_6332Metric"@
    } else {
        p
    }
}

/// Maps an imperial package name (e.g., "0402") to KiCad's footprint suffix.
pub fn kicad_footprint_suffix(package: &str) -> (s: String)
    ensures
        s@ == chip_suffix(package@),
{
    let r = if str_eq(package, "0201") {
        "0201_0603Metric"
    } else if str_eq(package, "0402") {
        "0402_1005Metric"
    } else if str_eq(package, "0603") {
        "0603_1608Metric"
    } else if str_eq(package, "0805") {
        "0805_2012Metric"
    } else if str_eq(package, "1206") {
        "1206_3216Metric"
    } else if str_eq(package, "1210") {
        "1210_3225Metric"
    } else if str_eq(package, "1812") {
        "1812_4532Metric"
    } else if str_eq(package, "2010") {
        "2010_5025Metric"
    } else if str_eq(package, "2512") {
        "2512_6332Metric"
    } else {
        package
    };
    r.to_owned()
}

/// The position of the first `c` in `s`, if any.
pub open spec fn first_index_of(s: Seq<char>, c: char) -> Option<int> {
    if exists|i: int| 0 <= i < s.len() && s[i] == c {
        Some(choose|i: int| 0 <= i < s.len() && s[i] == c && forall|j: int| 0 <= j < i ==> s[j] != c)
    } else {
        None
    }
}

/// An entry point `file.ato:Module` split at its first colon into the file
/// part and the module name; without a colon, the whole entry is the file.
pub open spec fn entry_parts(entry: Seq<char>) -> (Seq<char>, Option<Seq<char>>) {
    match first_index_of(entry, ':') {
        Some(i) => (entry.take(i), Some(entry.skip(i + 1))),
        None => (entry, None),
    }
}

/// Splits an entry point at its first colon.
pub fn split_entry_point(entry: &str) -> (r: (String, Option<String>))
    ensures
        r.0@ == entry_parts(entry@).0,
        match entry_parts(entry@).1 {
            Some(m) => r.1 matches Some(x) && x@ == m,
            None => r.1 is None,
        },
{
    let v = chars_of(entry);
    let mut i: usize = 0;
    while i < v.len()
        invariant
            v@ == entry@,
            i <= v.len(),
            forall|j: int| 0 <= j < i ==> v@[j] != ':',
        decreases v.len() - i,
    {
        if v[i] == ':' {
            proof {
                let s = entry@;
                assert(0 <= i < s.len() && s[i as int] == ':' && forall|j: int| 0 <= j < i ==> s[j] != ':');
                assert(exists|k: int| 0 <= k < s.len() && s[k] == ':');
                let r = first_index_of(s, ':');
                let k = r->0;
                assert(0 <= k < s.len() && s[k] == ':' && forall|j: int| 0 <= j < k ==> s[j] != ':');
                assert(k == i) by {
                    if k > i {
                        assert(s[i as int] == ':');
                    }
                }
                assert(v@.take(i as int) =~= v@.subrange(0, i as int));
                assert(v@.skip(i + 1) =~= v@.subrange(i + 1, v.len() as int));
            }
            let file = string_from_chars(&v, 0, i);
            let module = string_from_chars(&v, i + 1, v.len());
            return (file, Some(module));
        }
        i = i + 1;
    }
    (entry.to_owned(), None)
}

/// What `Path::join` gives for `base` and the path text `part`.
pub uninterp spec fn joined_path(base: &std::path::Path, part: Seq<char>) -> std::path::PathBuf;

/// Calls `Path::join`: `base` with `part` appended as a path component
/// (which replaces `base` when `part` is absolute). The result depends on the
/// two arguments alone (and on the path syntax of the platform the program is
/// built for), so it is named by `joined_path`; what the joined path holds is
/// not stated, as a path has no plain-value form here.
#[verifier::external_body]
fn join_path(base: &std::path::Path, part: &str) -> (r: std::path::PathBuf)
    ensures
        r == joined_path(base, part@),
{
    base.join(part)
}

/// Parses an entry point like `file.ato:ModuleName` into the file path
/// (relative to `base_dir`) and the module name.
pub fn parse_entry_point(entry: &str, base_dir: &std::path::Path) -> (r: Result<(std::path::PathBuf, Option<String>), CliError>)
    ensures
        r is Ok,
        r matches Ok((p, _)) && p == joined_path(base_dir, entry_parts(entry@).0),
        r matches Ok((_, m)) && match entry_parts(entry@).1 {
            Some(name) => m matches Some(x) && x@ == name,
            None => m is None,
        },
{
    let (file, module) = split_entry_point(entry);
    let path = join_path(base_dir, file.as_str());
    Ok((path, module))
}

/// A standard path, carried through unchanged.
#[verifier::external_type_specification]
#[verifier::external_body]
pub struct ExPathBuf(std::path::PathBuf);

/// A borrowed standard path, carried through unchanged.
#[verifier::external_type_specification]
#[verifier::external_body]
pub struct ExPath(std::path::Path);

/// The name of a type reference: its parts joined with dots.
pub open spec fn type_ref_name(tr: TypeRef) -> Seq<char> {
    join_seqs(tr.parts@.map_values(|p: Identifier| p.name@), "."@)
}

/// The name of a block kind as `Debug` prints it.
pub open spec fn block_kind_name(k: BlockKind) -> Seq<char> {
    match k {
        BlockKind::Module => "Module"@,
        BlockKind::Component => "Component"@,
        BlockKind::Interface => "Interface"@,
    }
}

/// A one-line summary of a statement: a block's kind and name, the names an
/// import brings in, or what kind of statement it is.
pub open spec fn spec_stmt_summary(s: Statement) -> Seq<char> {
    match s {
        Statement::BlockDef(b) => block_kind_name(b.kind) + " '"@ + b.name.name@ + "'"@,
        Statement::Import(i) => "import "@ + join_seqs(i.imports@.map_values(|t: TypeRef| type_ref_name(t)), ", "@),
        Statement::DepImport(d) => "import "@ + type_ref_name(d.type_ref) + " from \"...\""@,
        Statement::Assignment(_) => "assignment"@,
        Statement::Connection(_) => "connection (~)"@,
        Statement::DirectedConnection(_) => "directed connection (~>)"@,
        Statement::PinDeclaration(_) => "pin declaration"@,
        Statement::SignalDef(_) => "signal definition"@,
        Statement::Declaration(_) => "declaration"@,
        Statement::Assert(_) => "assertion"@,
        Statement::For(_) => "for loop"@,
        Statement::Trait(_) => "trait"@,
        Statement::Retype(_) => "retype"@,
        Statement::CumAssignment(_) => "cumulative assignment"@,
        Statement::SetAssignment(_) => "set assignment"@,
        Statement::StringStmt(_) => "string statement"@,
        Statement::Pass(_) => "pass"@,
        Statement::Pragma(_) => "pragma"@,
    }
}

/// The name of a type reference.
fn type_ref_text(tr: &TypeRef) -> (s: String)
    ensures
        s@ == type_ref_name(*tr),
{
    let mut names: Vec<String> = Vec::new();
    let mut i: usize = 0;
    while i < tr.parts.len()
        invariant
            i <= tr.parts@.len(),
            names@.len() == i,
            forall|j: int| 0 <= j < i ==> #[trigger] names@[j]@ == tr.parts@[j].name@,
        decreases tr.parts@.len() - i,
    {
        names.push(tr.parts[i].name.clone());
        i = i + 1;
    }
    let s = join_strings(&names, ".");
    assert(strings_view(names@) =~= tr.parts@.map_values(|p: Identifier| p.name@));
    s
}

/// A one-line summary of a statement.
pub fn stmt_summary(stmt: &Statement) -> (s: String)
    ensures
        s@ == spec_stmt_summary(*stmt),
{
    match stmt {
        Statement::BlockDef(block) => {
            let mut s = String::new();
            let kind = match block.kind {
                BlockKind::Module => "Module",
                BlockKind::Component => "Component",
                BlockKind::Interface => "Interface",
            };
            push_str(&mut s, kind);
            push_str(&mut s, " '");
            push_str(&mut s, block.name.name.as_str());
            push_str(&mut s, "'");
            s
        },
        Statement::Import(import) => {
            let mut names: Vec<String> = Vec::new();
            let mut i: usize = 0;
            while i < import.imports.len()
                invariant
                    i <= import.imports@.len(),
                    names@.len() == i,
                    forall|j: int| 0 <= j < i ==> #[trigger] names@[j]@ == type_ref_name(import.imports@[j]),
                decreases import.imports@.len() - i,
            {
                names.push(type_ref_text(&import.imports[i]));
                i = i + 1;
            }
            let joined = join_strings(&names, ", ");
            assert(strings_view(names@) =~= import.imports@.map_values(|t: TypeRef| type_ref_name(t)));
            let mut s = String::new();
            push_str(&mut s, "import ");
            push_str(&mut s, joined.as_str());
            s
        },
        Statement::DepImport(import) => {
            let name = type_ref_text(&import.type_ref);
            let mut s = String::new();
            push_str(&mut s, "import ");
            push_str(&mut s, name.as_str());
            push_str(&mut s, " from \"...\"");
            s
        },
        Statement::Assignment(_) => "assignment".to_owned(),
        Statement::Connection(_) => "connection (~)".to_owned(),
        Statement::DirectedConnection(_) => "directed connection (~>)".to_owned(),
        Statement::PinDeclaration(_) => "pin declaration".to_owned(),
        Statement::SignalDef(_) => "signal definition".to_owned(),
        Statement::Declaration(_) => "declaration".to_owned(),
        Statement::Assert(_) => "assertion".to_owned(),
        Statement::For(_) => "for loop".to_owned(),
        Statement::Trait(_) => "trait".to_owned(),
        Statement::Retype(_) => "retype".to_owned(),
        Statement::CumAssignment(_) => "cumulative assignment".to_owned(),
        Statement::SetAssignment(_) => "set assignment".to_owned(),
        Statement::StringStmt(_) => "string statement".to_owned(),
        Statement::Pass(_) => "pass".to_owned(),
        Statement::Pragma(_) => "pragma".to_owned(),
    }
}

/// What the driver reports of a parse error: its message, its span as start and
/// length, and its hint.
pub fn parse_error_info(e: &ParseError) -> (r: ParseErrorInfo)
    requires
        spec_error_span(*e).start <= spec_error_span(*e).end,
    ensures
        r.message@ == spec_message(*e),
        r.span == Some((spec_error_span(*e).start, (spec_error_span(*e).end - spec_error_span(*e).start) as usize)),
        match spec_help(*e) {
            Some(t) => r.help matches Some(s) && s@ == t,
            None => r.help is None,
        },
{
    let span = e.span();
    ParseErrorInfo { message: e.message(), span: Some((span.start, span.end - span.start)), help: e.help() }
}

} // verus!
