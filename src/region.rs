use vstd::prelude::*;

use crate::annotation::{is_generated, spec_is_generated};
use crate::model::{Attribute, Item, LineColumn};
use crate::position::{leading_ws, line_column_to_offset, skip_whitespaces, spec_offset, starts_line};
use crate::replacements::Replacements;
use crate::splice::Region;

verus! {

/// The declaration is marked as the output of an earlier run.
pub open spec fn item_generated(item: Item) -> bool {
    match item.attrs {
        Some(a) => spec_is_generated(a@),
        None => false,
    }
}

/// The attributes of a declaration; none where it carries no attribute list.
pub open spec fn attrs_of(item: Item) -> Seq<Attribute> {
    match item.attrs {
        Some(a) => a@,
        None => Seq::empty(),
    }
}

/// Number of declarations from `start` on that are marked as the output of an earlier run, up
/// to the first one that is not.
pub open spec fn run_len(items: Seq<Item>, start: int) -> nat
    decreases items.len() - start,
{
    if start < 0 || start >= items.len() || !item_generated(items[start]) {
        0
    } else {
        1 + run_len(items, start + 1)
    }
}

/// The run of generated declarations from `start` covers every such declaration up to the first
/// one that is not generated.
pub proof fn lemma_run_covers(items: Seq<Item>, start: int)
    requires
        0 <= start <= items.len(),
    ensures
        0 <= run_len(items, start),
        start + run_len(items, start) <= items.len(),
        forall|k: int| start <= k < start + run_len(items, start) ==> item_generated(#[trigger] items[k]),
        start + run_len(items, start) < items.len() ==> !item_generated(
            items[start + run_len(items, start)],
        ),
    decreases items.len() - start,
{
    if start < items.len() && item_generated(items[start]) {
        lemma_run_covers(items, start + 1);
    }
}

/// Counts the declarations from `start` on that are marked as the output of an earlier run,
/// up to the first one that is not.
pub fn generated_run(items: &Vec<Item>, start: usize) -> (r: usize)
    requires
        start <= items@.len(),
    ensures
        r == run_len(items@, start as int),
        start + r <= items@.len(),
        forall|k: int| start <= k < start + r ==> item_generated(#[trigger] items@[k]),
        start + r < items@.len() ==> !item_generated(items@[start + r]),
{
    proof {
        lemma_run_covers(items@, start as int);
    }
    let mut k = start;
    while k < items.len()
        invariant
            start <= k <= items@.len(),
            forall|j: int| start <= j < k ==> item_generated(#[trigger] items@[j]),
            run_len(items@, start as int) == (k - start) + run_len(items@, k as int),
        decreases items@.len() - k,
    {
        let g = match &items[k].attrs {
            Some(a) => is_generated(a),
            None => false,
        };
        if !g {
            return k - start;
        }
        k = k + 1;
    }
    k - start
}

/// The region that a block generated for `items[idx]`, requested by `attr`, owns: from the
/// first non-blank byte after the attribute to the end of the declaration, or of the last of
/// the declarations right after it that an earlier run generated; continuation lines are
/// indented to the attribute's column.
pub open spec fn owned_region(src: Seq<u8>, attr: Attribute, items: Seq<Item>, idx: int) -> Region {
    let o = offset_of(src, attr.bracket_end);
    let last = items[idx + run_len(items, idx + 1)];
    Region {
        from: (o + leading_ws(src.subrange(o, src.len() as int), 0)) as usize,
        to: offset_of(src, last.end) as usize,
        indent: attr.span.start.column,
    }
}

/// A position of the region is on line zero, so that the region has no offsets.
pub open spec fn region_unplaced(attr: Attribute, items: Seq<Item>, idx: int) -> bool {
    attr.bracket_end.line == 0 || items[idx + run_len(items, idx + 1)].end.line == 0
}

/// The region that a block generated for `items[idx]` owns, and how many generated
/// declarations after it the region takes in. `None` where a position has line zero.
pub fn item_region(source: &[u8], attr: &Attribute, items: &Vec<Item>, idx: usize) -> (r: Option<
    (Region, usize),
>)
    requires
        idx < items@.len(),
    ensures
        region_unplaced(*attr, items@, idx as int) <==> r is None,
        r matches Some((region, skip)) ==> region == owned_region(source@, *attr, items@, idx as int)
            && skip == run_len(items@, idx + 1) && idx + 1 + skip <= items@.len(),
        r matches Some((region, skip)) ==> offset_of(source@, attr.bracket_end) <= region.from
            && region.from <= source@.len() && region.to <= source@.len(),
        r matches Some((region, skip)) ==> region.to == offset_of(source@, items@[idx + skip].end),
        r matches Some((region, skip)) ==> region.from == offset_of(source@, attr.bracket_end)
            + leading_ws(
            source@.subrange(offset_of(source@, attr.bracket_end), source@.len() as int),
            0,
        ),
{
    proof {
        lemma_run_covers(items@, idx + 1);
    }
    let count = items.len();
    assert(idx < count);
    let skip = generated_run(items, idx + 1);
    let last = &items[idx + skip];
    let from = match line_column_to_offset(source, attr.bracket_end.line, attr.bracket_end.column) {
        Some(o) => o,
        None => {
            return None;
        },
    };
    let ws = skip_whitespaces(&source[from..source.len()]);
    let to = match line_column_to_offset(source, last.end.line, last.end.column) {
        Some(o) => o,
        None => {
            return None;
        },
    };
    Some((Region { from: from + ws, to, indent: attr.span.start.column }, skip))
}

/// Records the content `key` generated for `items[idx]` (requested by `attr`) against the
/// region that the block owns, and gives where the cursor goes next: past the declaration and
/// the generated declarations that the region takes in. `None`, with the set unchanged, where a
/// position has line zero.
pub fn record_expansion(
    source: &[u8],
    attr: &Attribute,
    items: &Vec<Item>,
    idx: usize,
    key: usize,
    replacements: &mut Replacements,
) -> (r: Option<usize>)
    requires
        idx < items@.len(),
        old(replacements).wf(),
    ensures
        final(replacements).wf(),
        region_unplaced(*attr, items@, idx as int) <==> r is None,
        r is None ==> *final(replacements) == *old(replacements),
        r matches Some(next) ==> {
            let region = owned_region(source@, *attr, items@, idx as int);
            &&& next == idx + 1 + run_len(items@, idx + 1)
            &&& next <= items@.len()
            &&& final(replacements).has(region, key)
            &&& forall|v: usize| #[trigger] final(replacements).has(region, v) ==> v == key
            &&& forall|g: Region, v: usize|
                g != region ==> (#[trigger] final(replacements).has(g, v) <==> old(
                    replacements,
                ).has(g, v))
        },
        r is Some ==> offset_of(source@, attr.bracket_end) <= owned_region(
            source@,
            *attr,
            items@,
            idx as int,
        ).from,
        r is Some ==> owned_region(source@, *attr, items@, idx as int).from <= source@.len()
            && owned_region(source@, *attr, items@, idx as int).to <= source@.len(),
        r is Some ==> owned_region(source@, *attr, items@, idx as int).from == offset_of(
            source@,
            attr.bracket_end,
        ) + leading_ws(
            source@.subrange(offset_of(source@, attr.bracket_end), source@.len() as int),
            0,
        ),
        r is Some ==> owned_region(source@, *attr, items@, idx as int).to == offset_of(
            source@,
            items@[idx + run_len(items@, idx + 1)].end,
        ),
{
    let count = items.len();
    match item_region(source, attr, items, idx) {
        Some((region, skip)) => {
            assert(idx + 1 + skip <= count);
            replacements.insert(region, key);
            Some(idx + 1 + skip)
        },
        None => None,
    }
}

/// Byte offset of a position in the text.
pub open spec fn offset_of(src: Seq<u8>, lc: LineColumn) -> int {
    spec_offset(src, lc.line as int, lc.column as int)
}

/// Where the text before declaration `k` ends: `lo` for the first one, else the end of the
/// declaration before it.
pub open spec fn bound_before(src: Seq<u8>, items: Seq<Item>, lo: int, k: int) -> int {
    if k <= 0 {
        lo
    } else {
        offset_of(src, items[k - 1].end)
    }
}

/// Every attribute of the declaration ends at or after offset `b`.
pub open spec fn attrs_after(src: Seq<u8>, item: Item, b: int) -> bool {
    forall|j: int|
        0 <= j < attrs_of(item).len() ==> b <= offset_of(src, #[trigger] attrs_of(item)[j].bracket_end)
}

/// After each attribute of the declaration, the first non-blank byte comes before the end of
/// the declaration: its own tokens follow its attributes.
pub open spec fn tokens_follow_attrs(src: Seq<u8>, item: Item) -> bool {
    forall|j: int|
        0 <= j < attrs_of(item).len() ==> {
            let o = offset_of(src, #[trigger] attrs_of(item)[j].bracket_end);
            o + leading_ws(src.subrange(o, src.len() as int), 0) < offset_of(src, item.end)
        }
}

/// The positions of the declarations follow the text, from offset `lo` on: each declaration's
/// attributes and end come after the end of the one before it, and the declarations of an
/// inline module lie before the end of the module; a declaration's own tokens follow its
/// attributes. A parser's positions are so.
pub open spec fn items_fit(src: Seq<u8>, items: Seq<Item>, lo: int) -> bool
    decreases items,
{
    forall|k: int|
        0 <= k < items.len() ==> {
            let b = bound_before(src, items, lo, k);
            &&& attrs_after(src, #[trigger] items[k], b)
            &&& tokens_follow_attrs(src, items[k])
            &&& b <= offset_of(src, items[k].end)
            &&& match items[k].module {
                Some(m) => match m.content {
                    Some(c) => items_fit(src, c@, b) && bound_before(src, c@, b, c@.len() as int)
                        <= offset_of(src, items[k].end),
                    None => true,
                },
                None => true,
            }
        }
}

/// The ends of the declarations do not go back.
pub proof fn lemma_bound_grows(src: Seq<u8>, items: Seq<Item>, lo: int, j: int, k: int)
    requires
        items_fit(src, items, lo),
        0 <= j <= k <= items.len(),
    ensures
        bound_before(src, items, lo, j) <= bound_before(src, items, lo, k),
    decreases k - j,
{
    if j < k {
        lemma_bound_grows(src, items, lo, j, k - 1);
        let b = bound_before(src, items, lo, k - 1);
        assert(attrs_after(src, items[k - 1], b));
    }
}

/// A declaration generated together with an annotated one, and marked as such, is taken into the
/// annotated declaration's region on the next run: every marked declaration right after it lies
/// between the end of the annotated declaration and the end of the region, and the first
/// declaration after the region is not marked and starts after it. So a run replaces the
/// companions that the previous run wrote, instead of keeping them beside new ones.
pub proof fn lemma_rerun_replaces_companions(
    src: Seq<u8>,
    attr: Attribute,
    items: Seq<Item>,
    lo: int,
    idx: int,
)
    requires
        items_fit(src, items, lo),
        0 <= idx < items.len(),
        src.len() <= usize::MAX,
    ensures
        ({
            let region = owned_region(src, attr, items, idx);
            let run = run_len(items, idx + 1);
            &&& forall|k: int|
                idx < k <= idx + run ==> item_generated(#[trigger] items[k]) && offset_of(
                    src,
                    items[idx].end,
                ) <= bound_before(src, items, lo, k) && offset_of(src, items[k].end)
                    <= region.to
            &&& idx + 1 + run < items.len() ==> !item_generated(items[idx + 1 + run])
                && region.to <= bound_before(src, items, lo, idx + 1 + run)
        }),
{
    lemma_run_covers(items, idx + 1);
    let run = run_len(items, idx + 1);
    let last = items[idx + run];
    lemma_offset_bounded(src, last.end);
    assert forall|k: int| idx < k <= idx + run implies item_generated(#[trigger] items[k]) && offset_of(
        src,
        items[idx].end,
    ) <= bound_before(src, items, lo, k) && offset_of(src, items[k].end) <= owned_region(
        src,
        attr,
        items,
        idx,
    ).to by {
        lemma_bound_grows(src, items, lo, idx + 1, k);
        lemma_bound_grows(src, items, lo, k + 1, idx + run + 1);
    }
    if idx + 1 + run < items.len() {
        lemma_bound_grows(src, items, lo, idx + run + 1, idx + 1 + run);
    }
}

/// An offset lies inside the text.
proof fn lemma_offset_bounded(src: Seq<u8>, lc: LineColumn)
    ensures
        0 <= offset_of(src, lc) <= src.len(),
{
    let line = lc.line as int;
    if exists|i: int| starts_line(src, i, line) {
        let i = choose|i: int| starts_line(src, i, line);
        assert(0 <= i);
    }
}

} // verus!
