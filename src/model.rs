use vstd::prelude::*;

verus! {

/// A position in a source file: a one-based line and a zero-based column.
#[derive(Clone, Copy, Debug, PartialEq, Eq, Structural)]
pub struct LineColumn {
    pub line: usize,
    pub column: usize,
}

/// The start and end positions of a piece of source.
#[derive(Clone, Copy, Debug, PartialEq, Eq, Structural)]
pub struct Span {
    pub start: LineColumn,
    pub end: LineColumn,
}

/// A literal in an attribute argument.
#[derive(Debug)]
pub enum Lit {
    /// A string literal: its value and where it stands.
    Str { value: String, span: Span },
    Bool(bool),
    Other,
}

/// One argument in the list of an attribute, `name = literal` or anything else.
#[derive(Debug)]
pub enum NestedMeta {
    NameValue { path: Vec<String>, lit: Lit, span: Span },
    Other { span: Span },
}

/// The parsed form of an attribute's contents.
#[derive(Debug)]
pub enum Meta {
    /// `#[name(arg, ...)]`
    List { nested: Vec<NestedMeta>, span: Span },
    /// `#[name = literal]`
    NameValue { lit: Lit, span: Span },
    /// `#[name]`
    Path { span: Span },
}

/// An attribute on a declaration: the segments of its path, where it stands, where its closing
/// bracket ends, and its contents where they parse.
#[derive(Debug)]
pub struct Attribute {
    pub path: Vec<String>,
    pub span: Span,
    pub bracket_end: LineColumn,
    pub meta: Option<Meta>,
}

/// The kinds of declaration that a generator can handle; everything else is `Other`.
#[derive(Clone, Copy, Debug, PartialEq, Eq, Structural)]
pub enum ItemKind {
    Struct,
    Enum,
    Trait,
    Mod,
    Other,
}

/// A module declaration: its name, and its items where it has an inline body.
#[derive(Debug)]
pub struct ModDecl {
    pub ident: String,
    pub content: Option<Vec<Item>>,
}

/// A declaration of a source file. `id` identifies it to the caller; `attrs` is `None` for
/// declarations that carry no attribute list; `end` is where its last token ends.
#[derive(Debug)]
pub struct Item {
    pub id: usize,
    pub kind: ItemKind,
    pub attrs: Option<Vec<Attribute>>,
    pub end: LineColumn,
    pub module: Option<ModDecl>,
}

/// Where the tokens that can close a declaration end: its semicolon and its body (braces,
/// fields or macro body), as far as the declaration has them, and its name (for a declaration
/// without one, its last token).
#[derive(Clone, Copy, Debug, PartialEq, Eq, Structural)]
pub struct ItemEnds {
    pub semi: Option<LineColumn>,
    pub body: Option<LineColumn>,
    pub ident: LineColumn,
}

/// Where a declaration ends: at its semicolon where it has one, else at the end of its body,
/// else (a module declared without either) at the end of its name.
pub open spec fn spec_item_end(ends: ItemEnds) -> LineColumn {
    match ends.semi {
        Some(s) => s,
        None => match ends.body {
            Some(b) => b,
            None => ends.ident,
        },
    }
}

/// Where a declaration ends.
pub fn item_end(ends: &ItemEnds) -> (r: LineColumn)
    ensures
        r == spec_item_end(*ends),
{
    match ends.semi {
        Some(s) => s,
        None => match ends.body {
            Some(b) => b,
            None => ends.ident,
        },
    }
}

/// A parsed source file: its inner attributes and its declarations.
#[derive(Debug)]
pub struct SourceFile {
    pub attrs: Vec<Attribute>,
    pub items: Vec<Item>,
}

/// Where an error was found: the file and the span in it.
#[derive(Debug)]
pub struct Location {
    pub path: String,
    pub start: LineColumn,
    pub end: LineColumn,
}

impl Location {
    /// The location of `span` in the file at `path`.
    pub fn from_path_span(path: &String, span: Span) -> (r: Location)
        ensures
            r.at(path@, span),
    {
        Location { path: path.clone(), start: span.start, end: span.end }
    }

    /// A copy of this location.
    pub fn duplicate(&self) -> (r: Location)
        ensures
            r.path@ == self.path@,
            r.start == self.start,
            r.end == self.end,
    {
        Location { path: self.path.clone(), start: self.start, end: self.end }
    }

    /// This location is `span` in the file at `path`.
    pub open spec fn at(self, path: Seq<char>, span: Span) -> bool {
        self.path@ == path && self.start == span.start && self.end == span.end
    }
}

/// What can go wrong while generating source.
#[derive(Debug)]
pub enum SourcegenErrorKind {
    MetadataError,
    ProcessFile(String),
    GeneratorNotFound(Location, String),
    GeneratorError(Location),
    MultipleGeneratorAttributes(Location),
    GeneratorAttributeMustBeString(Location),
    MissingGeneratorAttribute(Location),
    CannotResolveModule(String, String),
    NoRustFmt,
    WhichRustFmtFailed,
    RustFmtFailed,
    RustFmtError(String),
    InvalidPackageNames(String),
}

} // verus!
