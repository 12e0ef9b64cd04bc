use vstd::prelude::*;

use crate::position::{is_cr_lf, spec_is_cr_lf};

verus! {

/// A stretch of the input text that a generated block replaces: bytes `from..to`, with
/// continuation lines of the block indented by `indent` spaces.
#[derive(Clone, Copy, Debug, PartialEq, Eq, Structural)]
pub struct Region {
    pub from: usize,
    pub to: usize,
    pub indent: usize,
}

/// A region together with the formatted text that goes in its place (empty: the region is
/// removed).
#[derive(Debug)]
pub struct Splice {
    pub region: Region,
    pub text: Vec<u8>,
}

/// The line ending of a text: `\r\n` or `\n`.
pub open spec fn eol(crlf: bool) -> Seq<u8> {
    if crlf {
        seq![0x0du8, 0x0au8]
    } else {
        seq![0x0au8]
    }
}

/// `n` spaces.
pub open spec fn spaces(n: nat) -> Seq<u8> {
    Seq::new(n, |i: int| 0x20u8)
}

/// What goes between two lines of a block: a line ending, then the indentation.
pub open spec fn separator(crlf: bool, indent: nat) -> Seq<u8> {
    eol(crlf) + spaces(indent)
}

/// The lines of `text` from byte `i` on, joined by `sep`. A line ends at `\n`, or at `\r\n`
/// (the `\r` is dropped); a line ending at the very end of the text ends the last line.
pub open spec fn joined_lines(text: Seq<u8>, i: int, sep: Seq<u8>) -> Seq<u8>
    decreases text.len() - i,
{
    if i < 0 || i >= text.len() {
        Seq::empty()
    } else if text[i] == 0x0a {
        if i + 1 == text.len() {
            Seq::empty()
        } else {
            sep + joined_lines(text, i + 1, sep)
        }
    } else if text[i] == 0x0d && i + 1 < text.len() && text[i + 1] == 0x0a {
        joined_lines(text, i + 1, sep)
    } else {
        seq![text[i]] + joined_lines(text, i + 1, sep)
    }
}

/// The bytes that a splice puts in place of its region: the lines of its text, each one after
/// the first on a new line and indented to the region's column.
pub open spec fn emitted(s: Splice, crlf: bool) -> Seq<u8> {
    joined_lines(s.text@, 0, separator(crlf, s.region.indent as nat))
}

/// Where the copy of the input text resumes after the first `k` splices.
pub open spec fn cursor(sp: Seq<Splice>, k: int) -> int {
    if k <= 0 {
        0
    } else {
        sp[k - 1].region.to as int
    }
}

/// The regions lie inside the text, in order, and do not overlap.
pub open spec fn splices_fit(sp: Seq<Splice>, len: int) -> bool {
    &&& forall|k: int|
        0 <= k < sp.len() ==> #[trigger] sp[k].region.from <= sp[k].region.to <= len
    &&& forall|k: int| 0 <= k < sp.len() - 1 ==> #[trigger] sp[k].region.to <= sp[k + 1].region.from
}

/// The output up to the end of the first `k` blocks: each block preceded by the untouched text
/// since the previous one.
pub open spec fn spliced_prefix(src: Seq<u8>, sp: Seq<Splice>, crlf: bool, k: int) -> Seq<u8>
    decreases k,
{
    if k <= 0 {
        Seq::empty()
    } else {
        spliced_prefix(src, sp, crlf, k - 1) + src.subrange(
            cursor(sp, k - 1),
            sp[k - 1].region.from as int,
        ) + emitted(sp[k - 1], crlf)
    }
}

/// The rendered file. With `whole_file`, where the last region runs to the end of the text and
/// the output does not end in a line feed yet, a line ending is added.
pub open spec fn spec_render(src: Seq<u8>, sp: Seq<Splice>, whole_file: bool) -> Seq<u8> {
    let crlf = spec_is_cr_lf(src);
    let n = sp.len() as int;
    let body = spliced_prefix(src, sp, crlf, n);
    let c = cursor(sp, n);
    let needs_eol = whole_file && n > 0 && c == src.len() && !(body.len() > 0 && body.last()
        == 0x0a);
    (if needs_eol {
        body + eol(crlf)
    } else {
        body
    }) + src.subrange(c, src.len() as int)
}

/// Appends bytes `a..b` of `src` to `out`.
fn push_range(out: &mut Vec<u8>, src: &[u8], a: usize, b: usize)
    requires
        a <= b <= src@.len(),
    ensures
        final(out)@ == old(out)@ + src@.subrange(a as int, b as int),
{
    let mut i = a;
    while i < b
        invariant
            a <= i <= b <= src@.len(),
            out@ == old(out)@ + src@.subrange(a as int, i as int),
        decreases b - i,
    {
        out.push(src[i]);
        i = i + 1;
        assert(out@ =~= old(out)@ + src@.subrange(a as int, i as int));
    }
}

/// Appends a line ending and `indent` spaces to `out`.
fn push_separator(out: &mut Vec<u8>, crlf: bool, indent: usize)
    ensures
        final(out)@ == old(out)@ + separator(crlf, indent as nat),
{
    if crlf {
        out.push(0x0d);
    }
    out.push(0x0a);
    assert(out@ =~= old(out)@ + eol(crlf));
    let mut i: usize = 0;
    while i < indent
        invariant
            i <= indent,
            out@ == old(out)@ + eol(crlf) + spaces(i as nat),
        decreases indent - i,
    {
        out.push(0x20);
        i = i + 1;
        assert(out@ =~= old(out)@ + eol(crlf) + spaces(i as nat));
    }
    assert(out@ =~= old(out)@ + separator(crlf, indent as nat));
}

/// Appends the lines of `text` to `out`, joined by a line ending and `indent` spaces.
fn push_lines(out: &mut Vec<u8>, text: &Vec<u8>, crlf: bool, indent: usize)
    ensures
        final(out)@ == old(out)@ + joined_lines(text@, 0, separator(crlf, indent as nat)),
{
    let ghost sep = separator(crlf, indent as nat);
    let ghost done: Seq<u8> = Seq::empty();
    let mut i: usize = 0;
    while i < text.len() && !(text[i] == 0x0a && i + 1 == text.len())
        invariant
            i <= text@.len(),
            sep == separator(crlf, indent as nat),
            out@ == old(out)@ + done,
            joined_lines(text@, 0, sep) == done + joined_lines(text@, i as int, sep),
        decreases text@.len() - i,
    {
        let b = text[i];
        if b == 0x0a {
            push_separator(out, crlf, indent);
            proof {
                assert(joined_lines(text@, i as int, sep) == sep + joined_lines(
                    text@,
                    i + 1,
                    sep,
                ));
                done = done + sep;
            }
        } else if b == 0x0d && i + 1 < text.len() && text[i + 1] == 0x0a {
        } else {
            out.push(b);
            proof {
                assert(joined_lines(text@, i as int, sep) == seq![b] + joined_lines(
                    text@,
                    i + 1,
                    sep,
                ));
                done = done + seq![b];
            }
        }
        i = i + 1;
        assert(joined_lines(text@, 0, sep) =~= done + joined_lines(text@, i as int, sep));
        assert(out@ =~= old(out)@ + done);
    }
    assert(joined_lines(text@, i as int, sep) =~= Seq::<u8>::empty());
    assert(joined_lines(text@, 0, sep) =~= done);
}

/// Tells whether the regions of the splices lie inside a text of `len` bytes, in order, without
/// overlap.
pub fn splices_fit_check(sp: &Vec<Splice>, len: usize) -> (r: bool)
    ensures
        r == splices_fit(sp@, len as int),
{
    let mut k: usize = 0;
    while k < sp.len()
        invariant
            k <= sp@.len(),
            forall|j: int| 0 <= j < k ==> #[trigger] sp@[j].region.from <= sp@[j].region.to <= len,
            forall|j: int|
                0 <= j < k && j < sp@.len() - 1 ==> #[trigger] sp@[j].region.to <= sp@[j
                    + 1].region.from,
        decreases sp@.len() - k,
    {
        let r = sp[k].region;
        if !(r.from <= r.to && r.to <= len) {
            return false;
        }
        if k + 1 < sp.len() && r.to > sp[k + 1].region.from {
            return false;
        }
        k = k + 1;
    }
    true
}

/// Renders the output file: the text outside the regions is copied as it is, and each region is
/// replaced by its block, whose continuation lines are indented to the region's column and end
/// as the text's lines do (`\r\n` or `\n`, as its first line ending). With `whole_file`, a line
/// ending is added after a last block that closes the file.
pub fn render_expansions(source: &[u8], splices: &Vec<Splice>, whole_file: bool) -> (r: Vec<u8>)
    requires
        splices_fit(splices@, source@.len() as int),
    ensures
        r@ == spec_render(source@, splices@, whole_file),
{
    let crlf = is_cr_lf(source);
    let mut out: Vec<u8> = Vec::new();
    let mut offset: usize = 0;
    let mut k: usize = 0;
    while k < splices.len()
        invariant
            k <= splices@.len(),
            splices_fit(splices@, source@.len() as int),
            crlf == spec_is_cr_lf(source@),
            offset == cursor(splices@, k as int),
            offset <= source@.len(),
            out@ == spliced_prefix(source@, splices@, crlf, k as int),
            k < splices@.len() ==> offset <= splices@[k as int].region.from,
        decreases splices@.len() - k,
    {
        let s = &splices[k];
        push_range(&mut out, source, offset, s.region.from);
        push_lines(&mut out, &s.text, crlf, s.region.indent);
        offset = s.region.to;
        k = k + 1;
    }
    if whole_file && splices.len() > 0 && offset == source.len() && !(out.len() > 0 && out[out.len()
        - 1] == 0x0a) {
        if crlf {
            out.push(0x0d);
        }
        out.push(0x0a);
    }
    push_range(&mut out, source, offset, source.len());
    proof {
        let body = spliced_prefix(source@, splices@, crlf, splices@.len() as int);
        if whole_file && splices@.len() > 0 && offset == source@.len() && !(body.len() > 0
            && body.last() == 0x0a) {
            assert(out@ =~= body + eol(crlf) + source@.subrange(
                offset as int,
                source@.len() as int,
            ));
        }
    }
    out
}

/// The output up to the end of the first `k` blocks begins the output up to the end of any later
/// block.
pub proof fn lemma_prefix_grows(src: Seq<u8>, sp: Seq<Splice>, crlf: bool, k: int, m: int)
    requires
        0 <= k <= m,
    ensures
        spliced_prefix(src, sp, crlf, m).subrange(0, spliced_prefix(src, sp, crlf, k).len() as int)
            == spliced_prefix(src, sp, crlf, k),
        spliced_prefix(src, sp, crlf, k).len() <= spliced_prefix(src, sp, crlf, m).len(),
    decreases m - k,
{
    if k < m {
        lemma_prefix_grows(src, sp, crlf, k, m - 1);
        let a = spliced_prefix(src, sp, crlf, k);
        let b = spliced_prefix(src, sp, crlf, m - 1);
        let c = spliced_prefix(src, sp, crlf, m);
        assert(c.subrange(0, b.len() as int) =~= b);
        assert(c.subrange(0, a.len() as int) =~= b.subrange(0, a.len() as int));
    } else {
        assert(spliced_prefix(src, sp, crlf, k).subrange(0, spliced_prefix(src, sp, crlf, k).len() as int)
            =~= spliced_prefix(src, sp, crlf, k));
    }
}

/// Text outside the regions is kept byte for byte: the stretch of the input between the end of
/// one region and the start of the next (or from the start of the text to the first region)
/// appears unchanged in the output, right after the blocks that come before it; and so does
/// the stretch after the last region, at the end of the output.
pub proof fn lemma_verbatim_outside_regions(src: Seq<u8>, sp: Seq<Splice>, whole_file: bool, k: int)
    requires
        splices_fit(sp, src.len() as int),
        0 <= k < sp.len(),
    ensures
        ({
            let out = spec_render(src, sp, whole_file);
            let p = spliced_prefix(src, sp, spec_is_cr_lf(src), k).len() as int;
            let gap = src.subrange(cursor(sp, k), sp[k].region.from as int);
            out.subrange(p, p + gap.len()) == gap
        }),
        ({
            let out = spec_render(src, sp, whole_file);
            let tail = src.subrange(cursor(sp, sp.len() as int), src.len() as int);
            out.len() >= tail.len() && out.subrange(out.len() - tail.len(), out.len() as int)
                == tail
        }),
{
    let crlf = spec_is_cr_lf(src);
    let n = sp.len() as int;
    lemma_prefix_grows(src, sp, crlf, k + 1, n);
    let out = spec_render(src, sp, whole_file);
    let body = spliced_prefix(src, sp, crlf, n);
    let pre = spliced_prefix(src, sp, crlf, k);
    let next = spliced_prefix(src, sp, crlf, k + 1);
    let gap = src.subrange(cursor(sp, k), sp[k].region.from as int);
    assert(out.subrange(0, body.len() as int) =~= body);
    assert(out.subrange(0, next.len() as int) =~= next);
    assert(next.subrange(pre.len() as int, (pre.len() + gap.len()) as int) =~= gap);
    assert(out.subrange(pre.len() as int, (pre.len() + gap.len()) as int) =~= next.subrange(
        pre.len() as int,
        (pre.len() + gap.len()) as int,
    ));
    let tail = src.subrange(cursor(sp, n), src.len() as int);
    assert(out.subrange(out.len() - tail.len(), out.len() as int) =~= tail);
}

/// Every line feed of the bytes comes right after a carriage return.
pub open spec fn crlf_only(s: Seq<u8>) -> bool {
    forall|i: int| 0 <= i < s.len() && #[trigger] s[i] == 0x0a ==> i > 0 && s[i - 1] == 0x0d
}

/// The lines of a text joined with `\r\n` line endings hold no bare line feed, and do not
/// start with one.
proof fn lemma_joined_crlf(text: Seq<u8>, i: int, indent: nat)
    ensures
        crlf_only(joined_lines(text, i, separator(true, indent))),
        joined_lines(text, i, separator(true, indent)).len() > 0 ==> joined_lines(
            text,
            i,
            separator(true, indent),
        )[0] != 0x0a,
    decreases text.len() - i,
{
    let sep = separator(true, indent);
    let s = joined_lines(text, i, sep);
    if i < 0 || i >= text.len() {
    } else {
        lemma_joined_crlf(text, i + 1, indent);
        let rest = joined_lines(text, i + 1, sep);
        if text[i] == 0x0a {
            if i + 1 != text.len() {
                assert(s == sep + rest);
                assert forall|j: int| 0 <= j < s.len() && #[trigger] s[j] == 0x0a implies j > 0
                    && s[j - 1] == 0x0d by {
                    if j >= sep.len() {
                        assert(s[j] == rest[j - sep.len()]);
                        if j > sep.len() {
                            assert(s[j - 1] == rest[j - 1 - sep.len()]);
                        }
                    } else {
                        assert(sep[0] == 0x0d && sep[1] == 0x0a);
                        assert(j >= 2 ==> sep[j] == 0x20);
                    }
                }
            }
        } else if text[i] == 0x0d && i + 1 < text.len() && text[i + 1] == 0x0a {
        } else {
            assert(s == seq![text[i]] + rest);
            assert forall|j: int| 0 <= j < s.len() && #[trigger] s[j] == 0x0a implies j > 0
                && s[j - 1] == 0x0d by {
                if j > 0 {
                    assert(s[j] == rest[j - 1]);
                    if j > 1 {
                        assert(s[j - 1] == rest[j - 2]);
                    }
                }
            }
        }
    }
}

/// In a file whose line endings are `\r\n`, every line feed that a generated block brings in,
/// however many lines it has, comes as part of a `\r\n`.
pub proof fn lemma_blocks_keep_crlf(src: Seq<u8>, sp: Seq<Splice>, k: int)
    requires
        spec_is_cr_lf(src),
        0 <= k < sp.len(),
    ensures
        crlf_only(emitted(sp[k], spec_is_cr_lf(src))),
{
    lemma_joined_crlf(sp[k].text@, 0, sp[k].region.indent as nat);
}

/// Where every region already holds exactly the block that would go there, rendering gives the
/// text back unchanged: a second run over generated output changes nothing.
pub proof fn lemma_render_fixed_point(src: Seq<u8>, sp: Seq<Splice>)
    requires
        splices_fit(sp, src.len() as int),
        forall|k: int|
            0 <= k < sp.len() ==> src.subrange(
                #[trigger] sp[k].region.from as int,
                sp[k].region.to as int,
            ) == emitted(sp[k], spec_is_cr_lf(src)),
    ensures
        spec_render(src, sp, false) == src,
{
    let crlf = spec_is_cr_lf(src);
    lemma_prefix_is_source(src, sp, crlf, sp.len() as int);
    assert(spliced_prefix(src, sp, crlf, sp.len() as int) + src.subrange(
        cursor(sp, sp.len() as int),
        src.len() as int,
    ) =~= src);
}

/// Where the first `k` regions hold their blocks already, the output up to the end of the
/// `k`-th block is the text up to there.
proof fn lemma_prefix_is_source(src: Seq<u8>, sp: Seq<Splice>, crlf: bool, k: int)
    requires
        splices_fit(sp, src.len() as int),
        0 <= k <= sp.len(),
        forall|j: int|
            0 <= j < sp.len() ==> src.subrange(
                #[trigger] sp[j].region.from as int,
                sp[j].region.to as int,
            ) == emitted(sp[j], crlf),
    ensures
        spliced_prefix(src, sp, crlf, k) == src.subrange(0, cursor(sp, k)),
        0 <= cursor(sp, k) <= src.len(),
        k < sp.len() ==> cursor(sp, k) <= sp[k].region.from,
    decreases k,
{
    if k > 0 {
        lemma_prefix_is_source(src, sp, crlf, k - 1);
        let a = cursor(sp, k - 1);
        let s = sp[k - 1].region;
        assert(src.subrange(s.from as int, s.to as int) == emitted(sp[k - 1], crlf));
        assert(src.subrange(0, a) + src.subrange(a, s.from as int) + src.subrange(
            s.from as int,
            s.to as int,
        ) =~= src.subrange(0, s.to as int));
        if k < sp.len() {
            assert(sp[k - 1].region.to <= sp[k].region.from);
        }
    } else {
        assert(src.subrange(0, 0) =~= Seq::<u8>::empty());
        if sp.len() > 0 {
            assert(sp[0].region.from <= sp[0].region.to);
        }
    }
}

/// The whole-file case of a second run: where the single region runs to the end of the text and
/// holds the block followed by one line ending, rendering gives the text back unchanged.
pub proof fn lemma_render_whole_file_fixed_point(src: Seq<u8>, sp: Seq<Splice>)
    requires
        splices_fit(sp, src.len() as int),
        sp.len() == 1,
        sp[0].region.to == src.len(),
        emitted(sp[0], spec_is_cr_lf(src)).len() > 0,
        emitted(sp[0], spec_is_cr_lf(src)).last() != 0x0a,
        src.subrange(sp[0].region.from as int, src.len() as int) == emitted(
            sp[0],
            spec_is_cr_lf(src),
        ) + eol(spec_is_cr_lf(src)),
    ensures
        spec_render(src, sp, true) == src,
{
    let crlf = spec_is_cr_lf(src);
    let from = sp[0].region.from as int;
    let body = spliced_prefix(src, sp, crlf, 1);
    assert(spliced_prefix(src, sp, crlf, 0) =~= Seq::<u8>::empty());
    assert(body =~= src.subrange(0, from) + emitted(sp[0], crlf));
    assert(body.last() == emitted(sp[0], crlf).last());
    assert(src.subrange(src.len() as int, src.len() as int) =~= Seq::<u8>::empty());
    assert(src.subrange(0, from) + src.subrange(from, src.len() as int) =~= src);
    assert(body + eol(crlf) + src.subrange(src.len() as int, src.len() as int) =~= src);
}

} // verus!
