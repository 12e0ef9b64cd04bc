use vstd::prelude::*;

use crate::annotation::{
    as_invocation, detect_invocation, generator_result, invocation_result, is_first_sourcegen,
    is_sourcegen_attr, Invocation,
};
use crate::dispatch::{
    capability_of, generator_callable, invoke_generator, key_generated, same_location, Capability,
};
use crate::model::{Attribute, Item, SourceFile, SourcegenErrorKind};
use crate::mods::{candidates_result, child_base, resolve_result, ModResolver, ModuleCandidates};
use crate::paths::joined;
use crate::position::{leading_ws, line_column_to_offset, skip_whitespaces};
use crate::region::{
    attrs_after, attrs_of, bound_before, items_fit, tokens_follow_attrs, lemma_bound_grows, lemma_run_covers,
    offset_of, owned_region, record_expansion, region_unplaced, run_len,
};
use crate::replacements::{region_lt, Replacements};
use crate::splice::Region;

verus! {

/// Every entry of `after` is an entry of `before` or maps its region to content that `generate`
/// gave for some request.
pub open spec fn entries_generated<G: Fn(usize, Capability, &Invocation) -> Result<
    Option<usize>,
    (),
>>(before: Replacements, after: Replacements, generate: &G) -> bool {
    forall|i: int|
        0 <= i < after.entries@.len() ==> before.has(#[trigger] after.entries@[i].0, after.entries@[i].1)
            || key_generated(after.entries@[i].1, generate)
}

/// Every region of the set is non-empty: it starts before it ends.
pub open spec fn regions_proper(rs: Replacements) -> bool {
    forall|i: int| 0 <= i < rs.entries@.len() ==> #[trigger] rs.entries@[i].0.from < rs.entries@[i].0.to
}

/// The regions of the set, in its order, are non-empty and each ends at or before the start of
/// the next: their starts strictly increase, and one pass from left to right applies them.
pub open spec fn ordered_regions(rs: Replacements) -> bool {
    &&& regions_proper(rs)
    &&& forall|i: int, j: int|
        0 <= i < j < rs.entries@.len() ==> #[trigger] rs.entries@[i].0.to <= #[trigger] rs.entries@[j].0.from
}

/// Sorted, non-overlapping, non-empty regions are ordered.
pub proof fn lemma_ordered(rs: Replacements)
    requires
        rs.wf(),
        pairwise_disjoint(rs),
        regions_proper(rs),
    ensures
        ordered_regions(rs),
{
    let e = rs.entries@;
    assert forall|i: int, j: int| 0 <= i < j < e.len() implies #[trigger] e[i].0.to
        <= #[trigger] e[j].0.from by {
        assert(region_lt(e[i].0, e[j].0));
        assert(e[i].0.to <= e[j].0.from || e[j].0.to <= e[i].0.from);
        assert(e[j].0.from < e[j].0.to);
    }
}

/// A non-empty region added to a set of non-empty regions keeps them so.
proof fn lemma_insert_proper(before: Replacements, after: Replacements, region: Region, value: usize)
    requires
        regions_proper(before),
        region.from < region.to,
        forall|r: Region, v: usize| r != region ==> (#[trigger] after.has(r, v) <==> before.has(r, v)),
    ensures
        regions_proper(after),
{
    assert forall|i: int| 0 <= i < after.entries@.len() implies #[trigger] after.entries@[i].0.from
        < after.entries@[i].0.to by {
        let (rg, v) = after.entries@[i];
        assert(after.has(rg, v));
        if rg != region {
            assert(before.has(rg, v));
            let j = choose|j: int| 0 <= j < before.entries@.len() && #[trigger] before.entries@[j] == (rg, v);
            assert(before.entries@[j].0.from < before.entries@[j].0.to);
        }
    }
}

/// Every region of the set ends at or before offset `b`.
pub open spec fn ends_by(rs: Replacements, b: int) -> bool {
    forall|i: int| 0 <= i < rs.entries@.len() ==> #[trigger] rs.entries@[i].0.to <= b
}

/// No two regions of the set overlap: of any two, one ends before the other starts.
pub open spec fn pairwise_disjoint(rs: Replacements) -> bool {
    forall|i: int, j: int|
        0 <= i < rs.entries@.len() && 0 <= j < rs.entries@.len() && i != j ==> #[trigger] rs.entries@[i].0.to
            <= #[trigger] rs.entries@[j].0.from || rs.entries@[j].0.to <= rs.entries@[i].0.from
}

/// A region that starts at or after `b`, added to a set whose regions end by `b`, overlaps
/// none of them.
proof fn lemma_insert_disjoint(before: Replacements, after: Replacements, region: Region, value: usize, b: int)
    requires
        before.wf(),
        after.wf(),
        pairwise_disjoint(before),
        ends_by(before, b),
        b <= region.from,
        after.has(region, value),
        forall|r: Region, v: usize| r != region ==> (#[trigger] after.has(r, v) <==> before.has(r, v)),
    ensures
        pairwise_disjoint(after),
        ends_by(after, if region.to <= b { b } else { region.to as int }),
{
    let e = after.entries@;
    let o = before.entries@;
    assert forall|i: int, j: int|
        0 <= i < e.len() && 0 <= j < e.len() && i != j implies #[trigger] e[i].0.to
            <= #[trigger] e[j].0.from || e[j].0.to <= e[i].0.from by {
        assert(after.has(e[i].0, e[i].1));
        assert(after.has(e[j].0, e[j].1));
        if e[i].0 == region {
            assert(before.has(e[j].0, e[j].1)) by {
                if e[j].0 == region {
                    if i < j {
                        assert(region_lt(e[i].0, e[j].0));
                    } else {
                        assert(region_lt(e[j].0, e[i].0));
                    }
                }
            }
            let j2 = choose|j2: int| 0 <= j2 < o.len() && #[trigger] o[j2] == (e[j].0, e[j].1);
            assert(o[j2].0.to <= b);
        } else if e[j].0 == region {
            assert(before.has(e[i].0, e[i].1));
            let i2 = choose|i2: int| 0 <= i2 < o.len() && #[trigger] o[i2] == (e[i].0, e[i].1);
            assert(o[i2].0.to <= b);
        } else {
            assert(before.has(e[i].0, e[i].1));
            assert(before.has(e[j].0, e[j].1));
            let i2 = choose|i2: int| 0 <= i2 < o.len() && #[trigger] o[i2] == (e[i].0, e[i].1);
            let j2 = choose|j2: int| 0 <= j2 < o.len() && #[trigger] o[j2] == (e[j].0, e[j].1);
            if i2 == j2 {
                if i < j {
                    assert(region_lt(e[i].0, e[j].0));
                } else {
                    assert(region_lt(e[j].0, e[i].0));
                }
            }
            assert(o[i2].0.to <= o[j2].0.from || o[j2].0.to <= o[i2].0.from);
        }
    }
    assert forall|i: int| 0 <= i < e.len() implies #[trigger] e[i].0.to <= (if region.to <= b {
        b
    } else {
        region.to as int
    }) by {
        assert(after.has(e[i].0, e[i].1));
        if e[i].0 != region {
            assert(before.has(e[i].0, e[i].1));
            let i2 = choose|i2: int| 0 <= i2 < o.len() && #[trigger] o[i2] == (e[i].0, e[i].1);
            assert(o[i2].0.to <= b);
        }
    }
}

/// A region inside the text, added to a set whose regions lie inside it, keeps them so.
proof fn lemma_insert_within(before: Replacements, after: Replacements, region: Region, value: usize, len: int)
    requires
        regions_within(before, len),
        region.from <= len,
        region.to <= len,
        forall|r: Region, v: usize| r != region ==> (#[trigger] after.has(r, v) <==> before.has(r, v)),
    ensures
        regions_within(after, len),
{
    assert forall|i: int| 0 <= i < after.entries@.len() implies #[trigger]
        after.entries@[i].0.from <= len && after.entries@[i].0.to <= len by {
        let (rg, v) = after.entries@[i];
        assert(after.has(rg, v));
        if rg != region {
            assert(before.has(rg, v));
            let j = choose|j: int|
                0 <= j < before.entries@.len() && #[trigger] before.entries@[j] == (rg, v);
            assert(before.entries@[j].0.from <= len);
        }
    }
}

/// Inserting content that `generate` gave keeps every entry accounted for.
proof fn lemma_insert_generated<G: Fn(usize, Capability, &Invocation) -> Result<Option<usize>, ()>>(
    first: Replacements,
    before: Replacements,
    after: Replacements,
    region: Region,
    value: usize,
    generate: &G,
    id: usize,
    c: Capability,
    inv: &Invocation,
)
    requires
        entries_generated(first, before, generate),
        generate.ensures((id, c, inv), Ok::<Option<usize>, ()>(Some(value))),
        forall|r: Region, v: usize| r != region ==> (#[trigger] after.has(r, v) <==> before.has(r, v)),
        forall|v: usize| #[trigger] after.has(region, v) ==> v == value,
    ensures
        entries_generated(first, after, generate),
{
    assert forall|i: int| 0 <= i < after.entries@.len() implies first.has(
        #[trigger] after.entries@[i].0,
        after.entries@[i].1,
    ) || key_generated(after.entries@[i].1, generate) by {
        let (rg, v) = after.entries@[i];
        assert(after.has(rg, v));
        if rg == region {
            assert(v == value);
            assert(generate.ensures((id, c, inv), Ok::<Option<usize>, ()>(Some(v))));
        } else {
            assert(before.has(rg, v));
            let j = choose|j: int| 0 <= j < before.entries@.len() && #[trigger] before.entries@[j] == (rg, v);
            assert(first.has(before.entries@[j].0, before.entries@[j].1) || key_generated(
                before.entries@[j].1,
                generate,
            ));
        }
    }
}

/// Entries accounted for against an empty set were all generated.
proof fn lemma_fresh_keys_generated<G: Fn(usize, Capability, &Invocation) -> Result<Option<usize>, ()>>(
    empty: Replacements,
    after: Replacements,
    generate: &G,
)
    requires
        empty.entries@.len() == 0,
        entries_generated(empty, after, generate),
    ensures
        forall|i: int|
            0 <= i < after.entries@.len() ==> key_generated(#[trigger] after.entries@[i].1, generate),
{
    assert forall|i: int| 0 <= i < after.entries@.len() implies key_generated(
        #[trigger] after.entries@[i].1,
        generate,
    ) by {
        if empty.has(after.entries@[i].0, after.entries@[i].1) {
            let j = choose|j: int| 0 <= j < empty.entries@.len() && #[trigger] empty.entries@[j] == (after.entries@[i].0, after.entries@[i].1);
        }
    }
}

/// Entries accounted for in two steps are accounted for.
proof fn lemma_generated_trans<G: Fn(usize, Capability, &Invocation) -> Result<Option<usize>, ()>>(
    a: Replacements,
    b: Replacements,
    c: Replacements,
    generate: &G,
)
    requires
        entries_generated(a, b, generate),
        entries_generated(b, c, generate),
    ensures
        entries_generated(a, c, generate),
{
    assert forall|i: int| 0 <= i < c.entries@.len() implies a.has(
        #[trigger] c.entries@[i].0,
        c.entries@[i].1,
    ) || key_generated(c.entries@[i].1, generate) by {
        if b.has(c.entries@[i].0, c.entries@[i].1) {
            let j = choose|j: int| 0 <= j < b.entries@.len() && #[trigger] b.entries@[j] == (c.entries@[i].0, c.entries@[i].1);
            assert(a.has(b.entries@[j].0, b.entries@[j].1) || key_generated(b.entries@[j].1, generate));
        }
    }
}

/// The set `after` holds what `before` holds with `region` mapped to `key`.
pub open spec fn recorded(before: Replacements, after: Replacements, region: Region, key: usize) -> bool {
    &&& after.wf()
    &&& after.has(region, key)
    &&& forall|v: usize| #[trigger] after.has(region, v) ==> v == key
    &&& forall|g: Region, v: usize| g != region ==> (#[trigger] after.has(g, v) <==> before.has(g, v))
}

/// Names the set and the result that a nested walk ended with. It holds of every pair; it marks
/// the pair that an existential statement over walks is instantiated with.
pub open spec fn nested_outcome(mid: Replacements, r1: Result<(), SourcegenErrorKind>) -> bool {
    true
}

/// `b1` and `b2` are what `is_file` answered for the conventional files of a module: the nested
/// file is asked about only where the flat one is not a file, and neither for a `#[path]` file.
pub open spec fn lookup_answers<F: Fn(&String) -> bool>(
    c: ModuleCandidates,
    b1: bool,
    b2: bool,
    is_file: &F,
) -> bool {
    match c {
        ModuleCandidates::Explicit(_) => !b1 && !b2,
        ModuleCandidates::Search { flat, nested, .. } => is_file.ensures((&flat,), b1) && (b1
            ==> !b2) && (!b1 ==> is_file.ensures((&nested,), b2)),
    }
}

/// The walk of the declarations `items` of the file at `path` (text `src`, registered generators
/// `gens`, child modules living in `base`), from the cursor at `k` on, takes the set from
/// `before` to `after` and ends with `r`, given what the hooks answered. At each declaration
/// the cursor reaches:
/// - its `sourcegen` attribute is read; an error there ends the walk with that error;
/// - where there is a request and the declaration's kind has a generator operation, the
///   generator is called with the declaration's id, that operation and the request: a failure
///   ends the walk with a `GeneratorError` at the request; content is recorded against the
///   region that the block owns (`ProcessFile` where that region has a position on line zero)
///   and the cursor moves past the generated declarations that the region takes in;
/// - otherwise a module with a body is walked into the same set, with its own base directory,
///   and a module without one is resolved (asking `is_file` about the conventional files) and
///   handed to `process_module` with the resolver for its own child modules; any error there
///   ends the walk; then the cursor moves to the next declaration.
/// Past the last declaration the walk ends with `Ok` and the set as it is.
pub open spec fn walk_rel<
    G: Fn(usize, Capability, &Invocation) -> Result<Option<usize>, ()>,
    F: Fn(&String) -> bool,
    P: Fn(&String, &ModResolver) -> Result<(), SourcegenErrorKind>,
>(
    src: Seq<u8>,
    path: Seq<char>,
    gens: Seq<String>,
    base: Seq<char>,
    items: Seq<Item>,
    k: int,
    before: Replacements,
    after: Replacements,
    r: Result<(), SourcegenErrorKind>,
    generate: &G,
    is_file: &F,
    process_module: &P,
) -> bool
    decreases items, if k < items.len() {
        items.len() - k
    } else {
        0
    },
{
    if k < 0 || k >= items.len() {
        r is Ok && after == before
    } else {
        let item = items[k];
        let attrs = attrs_of(item);
        let moves_on = match item.module {
            Some(m) => match m.content {
                Some(c) => exists|mid: Replacements, r1: Result<(), SourcegenErrorKind>|
                    #[trigger] nested_outcome(mid, r1) && walk_rel(
                        src,
                        path,
                        gens,
                        joined(base, m.ident@),
                        c@,
                        0,
                        before,
                        mid,
                        r1,
                        generate,
                        is_file,
                        process_module,
                    ) && match r1 {
                        Err(e) => r == Err::<(), SourcegenErrorKind>(e),
                        Ok(()) => walk_rel(
                            src,
                            path,
                            gens,
                            base,
                            items,
                            k + 1,
                            mid,
                            after,
                            r,
                            generate,
                            is_file,
                            process_module,
                        ),
                    },
                None => exists|cr: Result<ModuleCandidates, SourcegenErrorKind>|
                    #[trigger] candidates_result(base, path, m.ident@, attrs, cr) && match cr {
                        Err(e) => r == Err::<(), SourcegenErrorKind>(e),
                        Ok(cands) => exists|b1: bool, b2: bool, rr: Result<String, SourcegenErrorKind>|
                            lookup_answers(cands, b1, b2, is_file) && #[trigger] resolve_result(
                                cands,
                                b1,
                                b2,
                                rr,
                            ) && match rr {
                                Err(e) => r == Err::<(), SourcegenErrorKind>(e),
                                Ok(file) => exists|child: ModResolver, res: Result<(), SourcegenErrorKind>|
                                    child.base@ == child_base(file@, joined(base, m.ident@))
                                        && #[trigger] process_module.ensures((&file, &child), res)
                                        && match res {
                                        Err(e) => r == Err::<(), SourcegenErrorKind>(e),
                                        Ok(()) => walk_rel(
                                            src,
                                            path,
                                            gens,
                                            base,
                                            items,
                                            k + 1,
                                            before,
                                            after,
                                            r,
                                            generate,
                                            is_file,
                                            process_module,
                                        ),
                                    },
                            },
                    },
            },
            None => walk_rel(
                src,
                path,
                gens,
                base,
                items,
                k + 1,
                before,
                after,
                r,
                generate,
                is_file,
                process_module,
            ),
        };
        exists|d: Result<Option<Invocation>, SourcegenErrorKind>|
            #[trigger] invocation_result(path, attrs, gens, d) && match d {
                Err(e) => r == Err::<(), SourcegenErrorKind>(e),
                Ok(Some(inv)) => match capability_of(item.kind) {
                    Some(c) => exists|res: Result<Option<usize>, ()>|
                        #[trigger] generate.ensures((item.id, c, &inv), res) && match res {
                            Err(_) => r matches Err(SourcegenErrorKind::GeneratorError(l))
                                && same_location(l, inv.location),
                            Ok(Some(key)) => if region_unplaced(
                                attrs[inv.attr_index as int],
                                items,
                                k,
                            ) {
                                r matches Err(SourcegenErrorKind::ProcessFile(p)) && p@ == path
                            } else {
                                exists|mid: Replacements|
                                    #[trigger] recorded(
                                        before,
                                        mid,
                                        owned_region(src, attrs[inv.attr_index as int], items, k),
                                        key,
                                    ) && walk_rel(
                                        src,
                                        path,
                                        gens,
                                        base,
                                        items,
                                        k + 1 + run_len(items, k + 1),
                                        mid,
                                        after,
                                        r,
                                        generate,
                                        is_file,
                                        process_module,
                                    )
                            },
                            Ok(None) => moves_on,
                        },
                    None => moves_on,
                },
                Ok(None) => moves_on,
            }
    }
}

/// No declaration, at any depth of inline modules, carries a `sourcegen` attribute or is a
/// module declared without a body: a walk calls no hook.
pub open spec fn no_hooks(items: Seq<Item>) -> bool
    decreases items,
{
    forall|k: int|
        0 <= k < items.len() ==> {
            &&& forall|j: int|
                0 <= j < attrs_of(#[trigger] items[k]).len() ==> !is_sourcegen_attr(
                    attrs_of(items[k])[j],
                )
            &&& match items[k].module {
                Some(m) => match m.content {
                    Some(c) => no_hooks(c@),
                    None => false,
                },
                None => true,
            }
        }
}

/// Every region of the set lies inside a text of `len` bytes.
pub open spec fn regions_within(rs: Replacements, len: int) -> bool {
    forall|i: int|
        0 <= i < rs.entries@.len() ==> #[trigger] rs.entries@[i].0.from <= len
            && rs.entries@[i].0.to <= len
}

/// `is_file` and `process_module` accept every call.
pub open spec fn module_hooks_callable<
    F: Fn(&String) -> bool,
    P: Fn(&String, &ModResolver) -> Result<(), SourcegenErrorKind>,
>(is_file: &F, process_module: &P) -> bool {
    &&& forall|p: &String| #[trigger] is_file.requires((p,))
    &&& forall|p: &String, m: &ModResolver| #[trigger] process_module.requires((p, m))
}

/// Walks the declarations of the file at `path` (text `source`), in order, with a cursor. A
/// declaration with a `sourcegen` attribute has its generator run; where that gives content,
/// the region it owns is recorded and the cursor moves past the generated declarations that
/// the region takes in. Other inline modules are walked in turn, with their own resolver;
/// modules without a body are resolved to their file (`is_file` tells which files exist), which
/// `process_module` handles as a file of its own. The first error ends the walk. `walk_rel`
/// states the walk step by step, for whatever the hooks answered; with no annotation and no
/// module file anywhere it succeeds and changes nothing. Where the positions of the
/// declarations follow the text and the set starts empty, the regions found are non-empty and
/// ordered without overlap.
pub fn handle_content<
    G: Fn(usize, Capability, &Invocation) -> Result<Option<usize>, ()>,
    F: Fn(&String) -> bool,
    P: Fn(&String, &ModResolver) -> Result<(), SourcegenErrorKind>,
>(
    path: &String,
    source: &[u8],
    items: &Vec<Item>,
    generators: &Vec<String>,
    replacements: &mut Replacements,
    resolver: &ModResolver,
    generate: &G,
    is_file: &F,
    process_module: &P,
) -> (r: Result<(), SourcegenErrorKind>)
    requires
        old(replacements).wf(),
        regions_within(*old(replacements), source@.len() as int),
        generator_callable(generate),
        module_hooks_callable(is_file, process_module),
    ensures
        final(replacements).wf(),
        regions_within(*final(replacements), source@.len() as int),
        r is Ok && items_fit(source@, items@, 0) && old(replacements).entries@.len() == 0
            ==> pairwise_disjoint(*final(replacements)) && ordered_regions(*final(replacements)),
        r is Ok ==> entries_generated(*old(replacements), *final(replacements), generate),
        no_hooks(items@) ==> r is Ok && *final(replacements) == *old(replacements),
        walk_rel(
            source@,
            path@,
            generators@,
            resolver.base@,
            items@,
            0,
            *old(replacements),
            *final(replacements),
            r,
            generate,
            is_file,
            process_module,
        ),
{
    let ghost fits = items_fit(source@, items@, 0) && replacements.entries@.len() == 0;
    let r = walk_items(
        path,
        source,
        items,
        generators,
        replacements,
        resolver,
        generate,
        is_file,
        process_module,
        Ghost(0),
        Ghost(fits),
    );
    proof {
        if fits && r is Ok {
            lemma_ordered(*replacements);
        }
    }
    r
}

/// The walk of `handle_content`. With `fits`, the declarations' positions follow the text from
/// `lo` on and the regions found so far end by `lo` without overlapping; the regions found then
/// end by the end of the last declaration and still do not overlap.
#[verifier::rlimit(100)]
fn walk_items<
    G: Fn(usize, Capability, &Invocation) -> Result<Option<usize>, ()>,
    F: Fn(&String) -> bool,
    P: Fn(&String, &ModResolver) -> Result<(), SourcegenErrorKind>,
>(
    path: &String,
    source: &[u8],
    items: &Vec<Item>,
    generators: &Vec<String>,
    replacements: &mut Replacements,
    resolver: &ModResolver,
    generate: &G,
    is_file: &F,
    process_module: &P,
    Ghost(lo): Ghost<int>,
    Ghost(fits): Ghost<bool>,
) -> (r: Result<(), SourcegenErrorKind>)
    requires
        old(replacements).wf(),
        regions_within(*old(replacements), source@.len() as int),
        generator_callable(generate),
        module_hooks_callable(is_file, process_module),
        fits ==> items_fit(source@, items@, lo) && ends_by(*old(replacements), lo)
            && pairwise_disjoint(*old(replacements)) && regions_proper(*old(replacements)),
    ensures
        final(replacements).wf(),
        regions_within(*final(replacements), source@.len() as int),
        walk_rel(
            source@,
            path@,
            generators@,
            resolver.base@,
            items@,
            0,
            *old(replacements),
            *final(replacements),
            r,
            generate,
            is_file,
            process_module,
        ),
        fits && r is Ok ==> ends_by(
            *final(replacements),
            bound_before(source@, items@, lo, items@.len() as int),
        ) && pairwise_disjoint(*final(replacements)) && regions_proper(*final(replacements)),
        r is Ok ==> entries_generated(*old(replacements), *final(replacements), generate),
        no_hooks(items@) ==> r is Ok && *final(replacements) == *old(replacements),
    decreases items@,
{
    let ghost first = *replacements;
    let ghost base = resolver.base@;
    let empty: Vec<Attribute> = Vec::new();
    let mut idx: usize = 0;
    while idx < items.len()
        invariant
            idx <= items@.len(),
            first == *old(replacements),
            base == resolver.base@,
            replacements.wf(),
            regions_within(*replacements, source@.len() as int),
            generator_callable(generate),
            module_hooks_callable(is_file, process_module),
            empty@.len() == 0,
            fits ==> items_fit(source@, items@, lo),
            fits ==> ends_by(*replacements, bound_before(source@, items@, lo, idx as int))
                && pairwise_disjoint(*replacements) && regions_proper(*replacements),
            entries_generated(first, *replacements, generate),
            no_hooks(items@) ==> *replacements == first,
            forall|after: Replacements, rr: Result<(), SourcegenErrorKind>|
                #[trigger] walk_rel(
                    source@,
                    path@,
                    generators@,
                    base,
                    items@,
                    idx as int,
                    *replacements,
                    after,
                    rr,
                    generate,
                    is_file,
                    process_module,
                ) ==> walk_rel(
                    source@,
                    path@,
                    generators@,
                    base,
                    items@,
                    0,
                    first,
                    after,
                    rr,
                    generate,
                    is_file,
                    process_module,
                ),
        decreases items@.len() - idx,
    {
        let item = &items[idx];
        let ghost k = idx as int;
        let ghost b = bound_before(source@, items@, lo, k);
        let ghost cur = *replacements;
        proof {
            if fits {
                lemma_bound_grows(source@, items@, lo, k, k + 1);
            }
        }
        idx = idx + 1;
        let attrs = match &item.attrs {
            Some(a) => a,
            None => &empty,
        };
        assert(attrs@ == attrs_of(items@[k]));
        let det = detect_invocation(path, attrs, generators);
        let ghost d = det;
        proof {
            if no_hooks(items@) {
                assert forall|j: int| 0 <= j < attrs@.len() implies !is_sourcegen_attr(
                    #[trigger] attrs@[j],
                ) by {
                    assert(0 <= k < items@.len());
                }
            }
        }
        let invocation = match det {
            Ok(i) => i,
            Err(e) => {
                proof {
                    assert(invocation_result(path@, attrs_of(items@[k]), generators@, d));
                    assert(walk_rel(source@, path@, generators@, base, items@, k, cur, cur, Err::<(), SourcegenErrorKind>(e), generate, is_file, process_module));
                }
                return Err(e);
            },
        };
        let ghost mut called: bool = false;
        let ghost mut gres: Result<Option<usize>, ()> = Ok(None);
        let ghost dinv = invocation;
        if let Some(inv) = invocation {
            let gen_r = invoke_generator(item, &inv, generate);
            proof {
                if capability_of(item.kind) is Some {
                    called = true;
                    gres = choose|res: Result<Option<usize>, ()>|
                        #[trigger] generate.ensures((item.id, capability_of(item.kind)->Some_0, &inv), res) && match res {
                            Ok(x) => gen_r == Ok::<Option<usize>, SourcegenErrorKind>(x),
                            Err(_) => gen_r matches Err(SourcegenErrorKind::GeneratorError(l)) && same_location(
                                l,
                                inv.location,
                            ),
                        };
                }
            }
            let produced = match gen_r {
                Ok(p) => p,
                Err(e) => {
                    proof {
                        assert(invocation_result(path@, attrs_of(items@[k]), generators@, d));
                        assert(generate.ensures((item.id, capability_of(item.kind)->Some_0, &inv), gres));
                        assert(walk_rel(source@, path@, generators@, base, items@, k, cur, cur, Err::<(), SourcegenErrorKind>(e), generate, is_file, process_module));
                    }
                    return Err(e);
                },
            };
            if let Some(key) = produced {
                let attr = &attrs[inv.attr_index];
                let ghost region = owned_region(source@, *attr, items@, k);
                let next = match record_expansion(source, attr, items, idx - 1, key, replacements) {
                    Some(n) => n,
                    None => {
                        let err = SourcegenErrorKind::ProcessFile(path.clone());
                        proof {
                            assert(invocation_result(path@, attrs_of(items@[k]), generators@, d));
                            assert(generate.ensures((item.id, capability_of(item.kind)->Some_0, &inv), gres));
                            assert(walk_rel(source@, path@, generators@, base, items@, k, cur, *replacements, Err::<(), SourcegenErrorKind>(err), generate, is_file, process_module));
                        }
                        return Err(err);
                    },
                };
                proof {
                    let skip = run_len(items@, k + 1);
                    lemma_run_covers(items@, k + 1);
                    lemma_insert_within(cur, *replacements, region, key, source@.len() as int);
                    let c = capability_of(item.kind)->Some_0;
                    lemma_insert_generated(first, cur, *replacements, region, key, generate, item.id, c, &inv);
                    if fits {
                        assert(attrs_after(source@, items@[k], b));
                        assert(b <= offset_of(source@, attrs@[inv.attr_index as int].bracket_end));
                        lemma_bound_grows(source@, items@, lo, k, k + 1 + skip);
                        lemma_insert_disjoint(cur, *replacements, region, key, b);
                        assert(region.to == bound_before(source@, items@, lo, k + 1 + skip));
                        assert(tokens_follow_attrs(source@, items@[k]));
                        assert(attrs_of(items@[k])[inv.attr_index as int] == *attr);
                        assert(region.from < offset_of(source@, items@[k].end));
                        lemma_bound_grows(source@, items@, lo, k + 1, k + 1 + skip);
                        lemma_insert_proper(cur, *replacements, region, key);
                    }
                    assert(recorded(cur, *replacements, region, key));
                    assert forall|after: Replacements, rr: Result<(), SourcegenErrorKind>|
                        #[trigger] walk_rel(source@, path@, generators@, base, items@, next as int, *replacements, after, rr, generate, is_file, process_module)
                        implies walk_rel(source@, path@, generators@, base, items@, k, cur, after, rr, generate, is_file, process_module) by {
                        assert(invocation_result(path@, attrs_of(items@[k]), generators@, d));
                        assert(generate.ensures((item.id, c, &inv), gres));
                        assert(recorded(cur, *replacements, region, key));
                    }
                }
                idx = next;
                continue;
            }
        }
        if let Some(m) = &item.module {
            let nested_resolver = resolver.push_module(m.ident.as_str());
            match &m.content {
                Some(content) => {
                    proof {
                        assert(decreases_to!(items@ => content@));
                        if no_hooks(items@) {
                            assert(0 <= k < items@.len());
                        }
                    }
                    let res = walk_items(
                        path,
                        source,
                        content,
                        generators,
                        replacements,
                        &nested_resolver,
                        generate,
                        is_file,
                        process_module,
                        Ghost(b),
                        Ghost(fits),
                    );
                    assert(nested_resolver.base@ == joined(base, m.ident@));
                    if let Err(e) = res {
                        proof {
                            assert(invocation_result(path@, attrs_of(items@[k]), generators@, d));
                            if called {
                                assert(generate.ensures((item.id, capability_of(item.kind)->Some_0, &dinv->Some_0), gres));
                            }
                            assert(walk_rel(source@, path@, generators@, joined(base, m.ident@), content@, 0, cur, *replacements, res, generate, is_file, process_module));
                            assert(nested_outcome(*replacements, res));
                            assert(walk_rel(source@, path@, generators@, base, items@, k, cur, *replacements, res, generate, is_file, process_module));
                        }
                        return Err(e);
                    }
                    proof {
                        lemma_generated_trans(first, cur, *replacements, generate);
                        let mid = *replacements;
                        assert forall|after: Replacements, rr: Result<(), SourcegenErrorKind>|
                            #[trigger] walk_rel(source@, path@, generators@, base, items@, k + 1, mid, after, rr, generate, is_file, process_module)
                            implies walk_rel(source@, path@, generators@, base, items@, k, cur, after, rr, generate, is_file, process_module) by {
                            assert(invocation_result(path@, attrs_of(items@[k]), generators@, d));
                            if called {
                                assert(generate.ensures((item.id, capability_of(item.kind)->Some_0, &dinv->Some_0), gres));
                            }
                            assert(walk_rel(source@, path@, generators@, joined(base, m.ident@), content@, 0, cur, mid, res, generate, is_file, process_module));
                            assert(nested_outcome(mid, res));
                        }
                    }
                },
                None => {
                    proof {
                        if no_hooks(items@) {
                            assert(0 <= k < items@.len());
                        }
                    }
                    let cres = resolver.module_candidates(path, &m.ident, attrs);
                    let ghost cr = cres;
                    let candidates = match cres {
                        Ok(c) => c,
                        Err(e) => {
                            proof {
                                assert(invocation_result(path@, attrs_of(items@[k]), generators@, d));
                                if called {
                                    assert(generate.ensures((item.id, capability_of(item.kind)->Some_0, &dinv->Some_0), gres));
                                }
                                assert(candidates_result(base, path@, m.ident@, attrs_of(items@[k]), cr));
                                assert(walk_rel(source@, path@, generators@, base, items@, k, cur, cur, Err::<(), SourcegenErrorKind>(e), generate, is_file, process_module));
                            }
                            return Err(e);
                        },
                    };
                    let ghost cands = candidates;
                    let (flat_ok, nested_ok) = match &candidates {
                        ModuleCandidates::Explicit(_) => (false, false),
                        ModuleCandidates::Search { flat, nested, .. } => {
                            if is_file(flat) {
                                (true, false)
                            } else {
                                (false, is_file(nested))
                            }
                        },
                    };
                    assert(lookup_answers(cands, flat_ok, nested_ok, is_file));
                    let rres = candidates.resolve(flat_ok, nested_ok);
                    let ghost rr0 = rres;
                    let file = match rres {
                        Ok(f) => f,
                        Err(e) => {
                            proof {
                                assert(invocation_result(path@, attrs_of(items@[k]), generators@, d));
                                if called {
                                    assert(generate.ensures((item.id, capability_of(item.kind)->Some_0, &dinv->Some_0), gres));
                                }
                                assert(candidates_result(base, path@, m.ident@, attrs_of(items@[k]), cr));
                                assert(resolve_result(cands, flat_ok, nested_ok, rr0));
                                assert(walk_rel(source@, path@, generators@, base, items@, k, cur, cur, Err::<(), SourcegenErrorKind>(e), generate, is_file, process_module));
                            }
                            return Err(e);
                        },
                    };
                    let child = match ModResolver::for_file(&file, false) {
                        Some(c) => c,
                        None => nested_resolver,
                    };
                    assert(child.base@ == child_base(file@, joined(base, m.ident@)));
                    let pres = process_module(&file, &child);
                    proof {
                        assert(invocation_result(path@, attrs_of(items@[k]), generators@, d));
                        if called {
                            assert(generate.ensures((item.id, capability_of(item.kind)->Some_0, &dinv->Some_0), gres));
                        }
                        assert(candidates_result(base, path@, m.ident@, attrs_of(items@[k]), cr));
                        assert(resolve_result(cands, flat_ok, nested_ok, rr0));
                        assert(process_module.ensures((&file, &child), pres));
                    }
                    if let Err(e) = pres {
                        proof {
                            assert(walk_rel(source@, path@, generators@, base, items@, k, cur, cur, Err::<(), SourcegenErrorKind>(e), generate, is_file, process_module));
                        }
                        return Err(e);
                    }
                    proof {
                        assert forall|after: Replacements, rr: Result<(), SourcegenErrorKind>|
                            #[trigger] walk_rel(source@, path@, generators@, base, items@, k + 1, cur, after, rr, generate, is_file, process_module)
                            implies walk_rel(source@, path@, generators@, base, items@, k, cur, after, rr, generate, is_file, process_module) by {
                            assert(invocation_result(path@, attrs_of(items@[k]), generators@, d));
                            if called {
                                assert(generate.ensures((item.id, capability_of(item.kind)->Some_0, &dinv->Some_0), gres));
                            }
                            assert(candidates_result(base, path@, m.ident@, attrs_of(items@[k]), cr));
                            assert(resolve_result(cands, flat_ok, nested_ok, rr0));
                            assert(process_module.ensures((&file, &child), pres));
                        }
                    }
                },
            }
        } else {
            proof {
                assert forall|after: Replacements, rr: Result<(), SourcegenErrorKind>|
                    #[trigger] walk_rel(source@, path@, generators@, base, items@, k + 1, cur, after, rr, generate, is_file, process_module)
                    implies walk_rel(source@, path@, generators@, base, items@, k, cur, after, rr, generate, is_file, process_module) by {
                    assert(invocation_result(path@, attrs_of(items@[k]), generators@, d));
                    if called {
                        assert(generate.ensures((item.id, capability_of(item.kind)->Some_0, &dinv->Some_0), gres));
                    }
                }
            }
        }
    }
    proof {
        assert(walk_rel(source@, path@, generators@, base, items@, idx as int, *replacements, *replacements, Ok::<(), SourcegenErrorKind>(()), generate, is_file, process_module));
    }
    Ok(())
}

/// The result of reading inner attributes, with the whole-file flag turned off.
pub open spec fn inner_result(r: Result<Option<Invocation>, SourcegenErrorKind>) -> Result<
    Option<Invocation>,
    SourcegenErrorKind,
> {
    match r {
        Ok(Some(inv)) => Ok(Some(Invocation { is_file: false, ..inv })),
        _ => r,
    }
}

/// Whether the file as a whole is generated: by a `sourcegen` inner attribute of the file, or
/// by one on its first declaration that sets `file = true`.
pub open spec fn file_invocation_result(
    path: Seq<char>,
    file: SourceFile,
    gens: Seq<String>,
    r: Result<Option<Invocation>, SourcegenErrorKind>,
) -> bool {
    if exists|i: int| 0 <= i < file.attrs@.len() && #[trigger] is_sourcegen_attr(file.attrs@[i]) {
        exists|r0: Result<Option<Invocation>, SourcegenErrorKind>|
            #[trigger] invocation_result(path, file.attrs@, gens, r0) && r == inner_result(r0)
    } else if file.items@.len() > 0 {
        exists|r0: Result<Option<Invocation>, SourcegenErrorKind>|
            #[trigger] invocation_result(path, attrs_of(file.items@[0]), gens, r0) && match r0 {
                Ok(Some(inv)) => if inv.is_file {
                    r == r0
                } else {
                    r matches Ok(None)
                },
                Ok(None) => r matches Ok(None),
                Err(_) => r == r0,
            }
    } else {
        r matches Ok(None)
    }
}

/// Tells whether the file as a whole is generated, and by which generator.
pub fn detect_file_invocation(path: &String, file: &SourceFile, generators: &Vec<String>) -> (r:
    Result<Option<Invocation>, SourcegenErrorKind>)
    ensures
        file_invocation_result(path@, *file, generators@, r),
        r matches Ok(Some(inv)) ==> if inv.is_file {
            file.items@.len() > 0
        } else {
            inv.attr_index < file.attrs@.len()
        },
{
    let inner = detect_invocation(path, &file.attrs, generators);
    match inner {
        Ok(Some(inv)) => {
            let r = Ok(Some(Invocation { is_file: false, ..inv }));
            assert(invocation_result(path@, file.attrs@, generators@, Ok(Some(inv))));
            return r;
        },
        Err(e) => {
            assert(invocation_result(path@, file.attrs@, generators@, Err(e)));
            return Err(e);
        },
        Ok(None) => {},
    }
    if file.items.len() == 0 {
        return Ok(None);
    }
    let empty: Vec<Attribute> = Vec::new();
    let attrs = match &file.items[0].attrs {
        Some(a) => a,
        None => &empty,
    };
    let first = detect_invocation(path, attrs, generators);
    assert(invocation_result(path@, attrs_of(file.items@[0]), generators@, first));
    match first {
        Ok(Some(inv)) => if inv.is_file {
            Ok(Some(inv))
        } else {
            Ok(None)
        },
        Ok(None) => Ok(None),
        Err(e) => Err(e),
    }
}

/// Where the region of a generated file starts: at the first non-blank byte after the inner
/// attribute, or after the first declaration where that declaration asked for the whole file.
pub open spec fn whole_file_start(src: Seq<u8>, file: SourceFile, inv: Invocation) -> int {
    let at = if inv.is_file {
        file.items@[0].end
    } else {
        file.attrs@[inv.attr_index as int].bracket_end
    };
    let o = offset_of(src, at);
    o + leading_ws(src.subrange(o, src.len() as int), 0)
}

/// The set holds no region.
pub open spec fn empty_set(rs: Replacements) -> bool {
    rs.entries@.len() == 0
}

/// The start of a generated file's region has a position on line zero.
pub open spec fn whole_file_unplaced(file: SourceFile, inv: Invocation) -> bool {
    (if inv.is_file {
        file.items@[0].end
    } else {
        file.attrs@[inv.attr_index as int].bracket_end
    }).line == 0
}

/// What `plan_source_file` gives for the file at `path` (text `src`), given what the hooks
/// answered. An error in reading the file-level request comes back as it is. Where the file
/// as a whole is generated, the generator is called with `(0, Capability::File, inv)`: its
/// failure gives a `GeneratorError` at the request, no content gives `None`, and content gives
/// the single region from `whole_file_start` to the end of the text, without indentation
/// (`ProcessFile` where that start is on line zero). Otherwise the declarations are walked from
/// an empty set, and the plan holds the set that the walk ends with, or the walk's error.
pub open spec fn plan_result<
    G: Fn(usize, Capability, &Invocation) -> Result<Option<usize>, ()>,
    F: Fn(&String) -> bool,
    P: Fn(&String, &ModResolver) -> Result<(), SourcegenErrorKind>,
>(
    src: Seq<u8>,
    path: Seq<char>,
    file: SourceFile,
    gens: Seq<String>,
    base: Seq<char>,
    r: Result<Option<Plan>, SourcegenErrorKind>,
    generate: &G,
    is_file: &F,
    process_module: &P,
) -> bool {
    exists|d: Result<Option<Invocation>, SourcegenErrorKind>|
        #[trigger] file_invocation_result(path, file, gens, d) && match d {
            Err(e) => r == Err::<Option<Plan>, SourcegenErrorKind>(e),
            Ok(Some(inv)) => exists|res: Result<Option<usize>, ()>|
                #[trigger] generate.ensures((0usize, Capability::File, &inv), res) && match res {
                    Err(_) => r matches Err(SourcegenErrorKind::GeneratorError(l)) && same_location(
                        l,
                        inv.location,
                    ),
                    Ok(None) => r matches Ok(None),
                    Ok(Some(key)) => if whole_file_unplaced(file, inv) {
                        r matches Err(SourcegenErrorKind::ProcessFile(p)) && p@ == path
                    } else {
                        r matches Ok(Some(p)) && p.whole_file && p.replacements.entries@.len() == 1
                            && p.replacements.entries@[0] == (
                            Region {
                                from: whole_file_start(src, file, inv) as usize,
                                to: src.len() as usize,
                                indent: 0,
                            },
                            key,
                        )
                    },
                },
            Ok(None) => exists|empty: Replacements, after: Replacements, rw: Result<(), SourcegenErrorKind>|
                #![trigger empty_set(empty), nested_outcome(after, rw)]
                empty_set(empty) && nested_outcome(after, rw) && walk_rel(
                    src,
                    path,
                    gens,
                    base,
                    file.items@,
                    0,
                    empty,
                    after,
                    rw,
                    generate,
                    is_file,
                    process_module,
                ) && match rw {
                    Err(e) => r == Err::<Option<Plan>, SourcegenErrorKind>(e),
                    Ok(()) => r matches Ok(Some(p)) && !p.whole_file && p.replacements == after,
                },
        }
}

/// What a walk of a file found: whether the whole file is generated, and the regions to
/// replace.
#[derive(Debug)]
pub struct Plan {
    pub whole_file: bool,
    pub replacements: Replacements,
}

/// Works out what to replace in the file at `path` (text `source`, parsed as `file`). Where the
/// file as a whole is generated, the single region runs from the first non-blank byte after the
/// inner attribute (or after the first declaration, where that declaration asks for the whole
/// file) to the end of the text, with no indentation; `None` where the generator leaves the
/// file as it is. Otherwise the declarations are walked as `handle_content` does. `plan_result`
/// states the outcome exactly, for whatever the hooks answered.
pub fn plan_source_file<
    G: Fn(usize, Capability, &Invocation) -> Result<Option<usize>, ()>,
    F: Fn(&String) -> bool,
    P: Fn(&String, &ModResolver) -> Result<(), SourcegenErrorKind>,
>(
    path: &String,
    source: &[u8],
    file: &SourceFile,
    generators: &Vec<String>,
    resolver: &ModResolver,
    generate: &G,
    is_file: &F,
    process_module: &P,
) -> (r: Result<Option<Plan>, SourcegenErrorKind>)
    requires
        generator_callable(generate),
        module_hooks_callable(is_file, process_module),
    ensures
        r matches Ok(Some(p)) ==> p.replacements.wf() && regions_within(
            p.replacements,
            source@.len() as int,
        ),
        r matches Ok(Some(p)) ==> items_fit(source@, file.items@, 0) ==> pairwise_disjoint(
            p.replacements,
        ),
        r matches Ok(Some(p)) ==> !p.whole_file ==> items_fit(source@, file.items@, 0)
            ==> ordered_regions(p.replacements),
        r matches Ok(Some(p)) ==> forall|i: int|
            0 <= i < p.replacements.entries@.len() ==> key_generated(
                #[trigger] p.replacements.entries@[i].1,
                generate,
            ),
        no_hooks(file.items@) && (forall|j: int|
            0 <= j < file.attrs@.len() ==> !is_sourcegen_attr(#[trigger] file.attrs@[j])) ==> (r matches Ok(
            Some(p),
        ) && !p.whole_file && p.replacements.entries@.len() == 0),
        plan_result(
            source@,
            path@,
            *file,
            generators@,
            resolver.base@,
            r,
            generate,
            is_file,
            process_module,
        ),
{
    let det = detect_file_invocation(path, file, generators);
    let ghost d = det;
    let invocation = match det {
        Ok(i) => i,
        Err(e) => {
            assert(file_invocation_result(path@, *file, generators@, d));
            return Err(e);
        },
    };
    assert(file_invocation_result(path@, *file, generators@, d));
    proof {
        if no_hooks(file.items@) && file.items@.len() > 0 {
            assert forall|j: int| 0 <= j < attrs_of(file.items@[0]).len() implies !is_sourcegen_attr(
                #[trigger] attrs_of(file.items@[0])[j],
            ) by {
                assert(0 <= 0 < file.items@.len());
            }
        }
    }
    match invocation {
        Some(inv) => {
            let gres = generate(0, Capability::File, &inv);
            assert(generate.ensures((0usize, Capability::File, &inv), gres));
            let produced = match gres {
                Ok(p) => p,
                Err(_) => {
                    return Err(SourcegenErrorKind::GeneratorError(inv.location));
                },
            };
            let key = match produced {
                Some(k) => k,
                None => {
                    return Ok(None);
                },
            };
            let from_loc = if inv.is_file {
                file.items[0].end
            } else {
                file.attrs[inv.attr_index].bracket_end
            };
            let from = match line_column_to_offset(source, from_loc.line, from_loc.column) {
                Some(o) => o,
                None => {
                    return Err(SourcegenErrorKind::ProcessFile(path.clone()));
                },
            };
            assert(from_loc == (if inv.is_file {
                file.items@[0].end
            } else {
                file.attrs@[inv.attr_index as int].bracket_end
            }));
            let ws = skip_whitespaces(&source[from..source.len()]);
            let mut replacements = Replacements::new();
            let ghost no_regions = replacements;
            replacements.insert(Region { from: from + ws, to: source.len(), indent: 0 }, key);
            proof {
                lemma_insert_generated(
                    no_regions,
                    no_regions,
                    replacements,
                    Region { from: (from + ws) as usize, to: source@.len() as usize, indent: 0 },
                    key,
                    generate,
                    0,
                    Capability::File,
                    &inv,
                );
            }
            proof {
                let i = choose|i: int|
                    0 <= i < replacements.entries@.len() && #[trigger] replacements.entries@[i] == (
                        Region { from: (from + ws) as usize, to: source@.len() as usize, indent: 0 },
                        key,
                    );
                assert(i == 0);
            }
            let r = Ok(Some(Plan { whole_file: true, replacements }));
            r
        },
        None => {
            let mut replacements = Replacements::new();
            let ghost empty_set_value = replacements;
            let res = handle_content(
                path,
                source,
                &file.items,
                generators,
                &mut replacements,
                resolver,
                generate,
                is_file,
                process_module,
            );
            match res {
                Ok(()) => {
                    proof {
                        lemma_fresh_keys_generated(empty_set_value, replacements, generate);
                        assert(nested_outcome(replacements, res));
                        assert(empty_set(empty_set_value));
                    }
                    Ok(Some(Plan { whole_file: false, replacements }))
                },
                Err(e) => {
                    assert(nested_outcome(replacements, res));
                    assert(empty_set(empty_set_value));
                    Err(e)
                },
            }
        },
    }
}

} // verus!
