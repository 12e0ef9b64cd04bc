use vstd::prelude::*;

verus! {

/// The identifier that stands for a plain comment in generated tokens; the string literal after
/// it is the comment's text.
pub const MAGIC_COMMENT_IDENT: &'static str = "__SOURCEGEN_MAGIC_COMMENT__";

/// The identifier that stands for an empty line in generated tokens.
pub const MAGIC_NEWLINE_IDENT: &'static str = "__SOURCEGEN_MAGIC_NEWLINE__";

/// Marker for a plain `//` comment in generated code: placed in front of a string literal.
#[derive(Clone, Copy, Debug, PartialEq, Eq, Structural)]
pub struct PlainComment;

/// Marker for an empty line in generated code.
#[derive(Clone, Copy, Debug, PartialEq, Eq, Structural)]
pub struct NewLine;

impl PlainComment {
    /// The identifier that this marker becomes in a token stream.
    pub fn marker(&self) -> (r: &'static str)
        ensures
            r@ == MAGIC_COMMENT_IDENT@,
    {
        MAGIC_COMMENT_IDENT
    }
}

impl NewLine {
    /// The identifier that this marker becomes in a token stream.
    pub fn marker(&self) -> (r: &'static str)
        ensures
            r@ == MAGIC_NEWLINE_IDENT@,
    {
        MAGIC_NEWLINE_IDENT
    }
}

} // verus!
