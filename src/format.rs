use vstd::prelude::*;
use vstd::string::*;

use crate::model::SourcegenErrorKind;
use crate::splice::eol;

verus! {

/// The comment put in front of each generated block.
pub const ITEM_COMMENT: &'static str =
    "// Generated. All manual edits to the block annotated with #[sourcegen...] will be discarded.";

/// The comment put in front of a generated file.
pub const FILE_COMMENT: &'static str = "// Generated. All manual edits below this line will be discarded.";

/// The bytes of the comment that marks a generated block, or a generated file.
pub open spec fn provenance(whole_file: bool) -> Seq<u8> {
    if whole_file {
        FILE_COMMENT.spec_bytes()
    } else {
        ITEM_COMMENT.spec_bytes()
    }
}

/// The text handed to the formatter for one block: the provenance comment, a line ending in the
/// file's style, then the generated code.
pub fn formatter_input(whole_file: bool, crlf: bool, code: &[u8]) -> (r: Vec<u8>)
    ensures
        r@ == provenance(whole_file) + eol(crlf) + code@,
{
    let comment = if whole_file {
        FILE_COMMENT.as_bytes()
    } else {
        ITEM_COMMENT.as_bytes()
    };
    let mut out: Vec<u8> = Vec::new();
    let mut i: usize = 0;
    while i < comment.len()
        invariant
            i <= comment@.len(),
            comment@ == provenance(whole_file),
            out@ == comment@.subrange(0, i as int),
        decreases comment@.len() - i,
    {
        out.push(comment[i]);
        i = i + 1;
        assert(out@ =~= comment@.subrange(0, i as int));
    }
    assert(out@ =~= provenance(whole_file));
    if crlf {
        out.push(0x0d);
    }
    out.push(0x0a);
    assert(out@ =~= provenance(whole_file) + eol(crlf));
    let ghost head = out@;
    let mut j: usize = 0;
    while j < code.len()
        invariant
            j <= code@.len(),
            out@ == head + code@.subrange(0, j as int),
        decreases code@.len() - j,
    {
        out.push(code[j]);
        j = j + 1;
        assert(out@ =~= head + code@.subrange(0, j as int));
    }
    assert(code@.subrange(0, code@.len() as int) =~= code@);
    out
}

/// The code formatter: the path of the `rustfmt` executable to run.
#[derive(Debug)]
pub struct Formatter {
    pub rustfmt: String,
}

impl Formatter {
    /// A formatter that runs the executable at `rustfmt`.
    pub fn from_path(rustfmt: String) -> (r: Self)
        ensures
            r.rustfmt@ == rustfmt@,
    {
        Formatter { rustfmt }
    }
}

/// What a run of the formatter gives: its output where it succeeded, else its error output as a
/// `RustFmtError`.
pub fn rustfmt_output(success: bool, stdout: String, stderr: String) -> (r: Result<
    String,
    SourcegenErrorKind,
>)
    ensures
        success ==> (r matches Ok(s) && s@ == stdout@),
        !success ==> (r matches Err(SourcegenErrorKind::RustFmtError(e)) && e@ == stderr@),
{
    if success {
        Ok(stdout)
    } else {
        Err(SourcegenErrorKind::RustFmtError(stderr))
    }
}

} // verus!
