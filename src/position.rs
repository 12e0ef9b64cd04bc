use vstd::prelude::*;

verus! {

/// `p` is the index of the first line feed of the text.
pub open spec fn is_first_lf(text: Seq<u8>, p: int) -> bool {
    &&& 0 <= p < text.len()
    &&& text[p] == 0x0a
    &&& forall|q: int| 0 <= q < p ==> text[q] != 0x0a
}

/// Tells whether the text uses `\r\n` line endings: decided by the first line feed alone.
pub open spec fn spec_is_cr_lf(text: Seq<u8>) -> bool {
    exists|p: int| #[trigger] is_first_lf(text, p) && p > 0 && text[p - 1] == 0x0d
}

/// Looks at the first line feed and decides whether the text uses `\r\n` line endings.
pub fn is_cr_lf(text: &[u8]) -> (r: bool)
    ensures
        r == spec_is_cr_lf(text@),
{
    let mut i: usize = 0;
    while i < text.len()
        invariant
            0 <= i <= text@.len(),
            forall|q: int| 0 <= q < i ==> text@[q] != 0x0a,
        decreases text@.len() - i,
    {
        if text[i] == 0x0a {
            assert(is_first_lf(text@, i as int));
            assert forall|p: int| #[trigger] is_first_lf(text@, p) implies p == i by {
                if p < i {
                    assert(text@[p] != 0x0a);
                } else if p > i {
                    assert(text@[i as int] != 0x0a);
                }
            }
            return i > 0 && text[i - 1] == 0x0d;
        }
        i = i + 1;
    }
    false
}

/// Number of line feeds among the first `i` bytes of the text.
pub open spec fn lf_count(text: Seq<u8>, i: int) -> nat
    decreases i,
{
    if i <= 0 || text.len() < i {
        0
    } else {
        lf_count(text, i - 1) + if text[i - 1] == 0x0a {
            1nat
        } else {
            0nat
        }
    }
}

/// Byte `i` is the first byte of line `line` (lines count from one).
pub open spec fn starts_line(text: Seq<u8>, i: int, line: int) -> bool {
    &&& 0 <= i < text.len()
    &&& lf_count(text, i) == line - 1
    &&& (i == 0 || text[i - 1] == 0x0a)
}

/// Where the scan for line `line` stops: the first byte of that line, or, where the text has no
/// such line, its last byte (zero for an empty text).
pub open spec fn line_start(text: Seq<u8>, line: int) -> int {
    if exists|i: int| starts_line(text, i, line) {
        choose|i: int| starts_line(text, i, line)
    } else if text.len() == 0 {
        0
    } else {
        text.len() - 1
    }
}

/// Byte offset of a one-based line and a column: the start of the line plus the column, clamped
/// to the length of the text.
pub open spec fn spec_offset(text: Seq<u8>, line: int, column: int) -> int {
    let o = line_start(text, line) + column;
    if o < text.len() {
        o
    } else {
        text.len() as int
    }
}

/// Line feeds never go away as the prefix grows.
pub proof fn lemma_lf_count_monotone(text: Seq<u8>, a: int, b: int)
    requires
        0 <= a <= b <= text.len(),
    ensures
        lf_count(text, a) <= lf_count(text, b),
    decreases b - a,
{
    if a < b {
        lemma_lf_count_monotone(text, a, b - 1);
    }
}

/// A line has at most one first byte.
pub proof fn lemma_line_start_unique(text: Seq<u8>, i: int, j: int, line: int)
    requires
        starts_line(text, i, line),
        starts_line(text, j, line),
    ensures
        i == j,
{
    if i < j {
        lemma_lf_count_monotone(text, i, j - 1);
    } else if j < i {
        lemma_lf_count_monotone(text, j, i - 1);
    }
}

/// Maps a one-based line and a column back to a byte offset in the text; fails on line zero.
pub fn line_column_to_offset(text: &[u8], line: usize, column: usize) -> (r: Option<usize>)
    ensures
        line == 0 <==> r is None,
        r matches Some(o) ==> o == spec_offset(text@, line as int, column as int) && o
            <= text@.len(),
{
    if line == 0 {
        return None;
    }
    let mut remaining: usize = line;
    let mut i: usize = 0;
    while i < text.len() && remaining != 1
        invariant
            0 <= i <= text@.len(),
            1 <= remaining <= line,
            remaining == line - lf_count(text@, i as int),
            forall|j: int| 0 <= j < i ==> lf_count(text@, j) < line - 1,
        decreases text@.len() - i,
    {
        if text[i] == 0x0a {
            remaining = remaining - 1;
        }
        i = i + 1;
    }
    let offset: usize = if i < text.len() {
        i
    } else if text.len() == 0 {
        0
    } else {
        text.len() - 1
    };
    proof {
        if i < text@.len() {
            if i > 0 {
                assert(lf_count(text@, i - 1) < line - 1);
                assert(lf_count(text@, i as int) == lf_count(text@, i - 1) + if text@[i - 1]
                    == 0x0a {
                    1nat
                } else {
                    0nat
                });
            }
            assert(starts_line(text@, i as int, line as int));
            assert forall|j: int| starts_line(text@, j, line as int) implies j == i by {
                lemma_line_start_unique(text@, j, i as int, line as int);
            }
        } else {
            assert(!exists|j: int| starts_line(text@, j, line as int));
        }
    }
    if column >= text.len() - offset {
        Some(text.len())
    } else {
        Some(offset + column)
    }
}

/// Width in bytes of the UTF-8 encoded whitespace character (Unicode `White_Space`) that starts
/// at byte `i`, or zero where none does.
pub open spec fn ws_width(text: Seq<u8>, i: int) -> int {
    if 0 <= i < text.len() && (text[i] == 0x20 || (0x09 <= text[i] && text[i] <= 0x0d)) {
        1
    } else if 0 <= i && i + 1 < text.len() && text[i] == 0xc2 && (text[i + 1] == 0x85
        || text[i + 1] == 0xa0) {
        2
    } else if 0 <= i && i + 2 < text.len() && ((text[i] == 0xe1 && text[i + 1] == 0x9a
        && text[i + 2] == 0x80) || (text[i] == 0xe2 && text[i + 1] == 0x80 && ((0x80
        <= text[i + 2] && text[i + 2] <= 0x8a) || text[i + 2] == 0xa8 || text[i + 2] == 0xa9
        || text[i + 2] == 0xaf)) || (text[i] == 0xe2 && text[i + 1] == 0x81 && text[i + 2]
        == 0x9f) || (text[i] == 0xe3 && text[i + 1] == 0x80 && text[i + 2] == 0x80)) {
        3
    } else {
        0
    }
}

/// Number of bytes of whitespace from byte `i` up to the first other character.
pub open spec fn leading_ws(text: Seq<u8>, i: int) -> int
    decreases text.len() - i,
{
    if 0 <= i < text.len() && ws_width(text, i) > 0 {
        ws_width(text, i) + leading_ws(text, i + ws_width(text, i))
    } else {
        0
    }
}

/// Width of the whitespace character at byte `i`, as `ws_width` gives it.
fn ws_width_at(text: &[u8], i: usize) -> (r: usize)
    requires
        i < text@.len(),
    ensures
        r == ws_width(text@, i as int),
{
    let b = text[i];
    if b == 0x20 || (0x09 <= b && b <= 0x0d) {
        return 1;
    }
    let n = text.len() - i;
    if n >= 2 && b == 0xc2 && (text[i + 1] == 0x85 || text[i + 1] == 0xa0) {
        return 2;
    }
    if n >= 3 {
        let c = text[i + 1];
        let d = text[i + 2];
        if (b == 0xe1 && c == 0x9a && d == 0x80) || (b == 0xe2 && c == 0x80 && ((0x80 <= d && d
            <= 0x8a) || d == 0xa8 || d == 0xa9 || d == 0xaf)) || (b == 0xe2 && c == 0x81 && d
            == 0x9f) || (b == 0xe3 && c == 0x80 && d == 0x80) {
            return 3;
        }
    }
    0
}

/// Number of bytes of whitespace at the start of the text.
pub fn skip_whitespaces(text: &[u8]) -> (r: usize)
    ensures
        r == leading_ws(text@, 0),
        r <= text@.len(),
{
    let mut i: usize = 0;
    while i < text.len()
        invariant
            0 <= i <= text@.len(),
            leading_ws(text@, 0) == i + leading_ws(text@, i as int),
        decreases text@.len() - i,
    {
        let w = ws_width_at(text, i);
        if w == 0 {
            assert(leading_ws(text@, i as int) == 0);
            return i;
        }
        i = i + w;
    }
    i
}

} // verus!
