use vstd::prelude::*;

use crate::splice::Region;

verus! {

/// The order of regions: by start, then end, then indentation.
pub open spec fn region_lt(a: Region, b: Region) -> bool {
    ||| a.from < b.from
    ||| (a.from == b.from && a.to < b.to)
    ||| (a.from == b.from && a.to == b.to && a.indent < b.indent)
}

/// Compares two regions in the order of `region_lt`.
pub fn region_less(a: &Region, b: &Region) -> (r: bool)
    ensures
        r == region_lt(*a, *b),
{
    a.from < b.from || (a.from == b.from && a.to < b.to) || (a.from == b.from && a.to == b.to
        && a.indent < b.indent)
}

/// The regions that a file walk has found, each with the generated content that replaces it
/// (a key that the caller gave it), kept in region order with each region at most once.
#[derive(Debug)]
pub struct Replacements {
    pub entries: Vec<(Region, usize)>,
}

impl Replacements {
    /// The entries are sorted strictly by region.
    pub open spec fn wf(&self) -> bool {
        forall|i: int, j: int|
            0 <= i < j < self.entries@.len() ==> region_lt(
                #[trigger] self.entries@[i].0,
                #[trigger] self.entries@[j].0,
            )
    }

    /// The set maps `region` to `value`.
    pub open spec fn has(&self, region: Region, value: usize) -> bool {
        exists|i: int| 0 <= i < self.entries@.len() && #[trigger] self.entries@[i] == (region, value)
    }

    /// An empty set.
    pub fn new() -> (r: Self)
        ensures
            r.wf(),
            r.entries@.len() == 0,
    {
        Replacements { entries: Vec::new() }
    }

    /// Records that `region` is replaced by `value`, in place of what it was replaced by before.
    pub fn insert(&mut self, region: Region, value: usize)
        requires
            old(self).wf(),
        ensures
            final(self).wf(),
            final(self).has(region, value),
            final(self).entries@.len() <= old(self).entries@.len() + 1,
            forall|r: Region, v: usize|
                r != region ==> (#[trigger] final(self).has(r, v) <==> old(self).has(r, v)),
            forall|v: usize| #[trigger] final(self).has(region, v) ==> v == value,
    {
        let ghost old_entries = self.entries@;
        let mut p: usize = 0;
        while p < self.entries.len() && region_less(&self.entries[p].0, &region)
            invariant
                p <= self.entries@.len(),
                self.entries@ == old_entries,
                forall|i: int| 0 <= i < p ==> region_lt(#[trigger] self.entries@[i].0, region),
            decreases self.entries@.len() - p,
        {
            p = p + 1;
        }
        if p < self.entries.len() && self.entries[p].0 == region {
            self.entries.set(p, (region, value));
            proof {
                assert(self.entries@[p as int] == (region, value));
                assert forall|r: Region, v: usize| r != region implies (#[trigger] self.has(r, v)
                    <==> has_entry(old_entries, r, v)) by {
                    if has_entry(old_entries, r, v) {
                        let i = choose|i: int|
                            0 <= i < old_entries.len() && #[trigger] old_entries[i] == (r, v);
                        assert(self.entries@[i] == (r, v));
                    }
                }
                assert forall|v: usize| #[trigger] self.has(region, v) implies v == value by {
                    let i = choose|i: int|
                        0 <= i < self.entries@.len() && #[trigger] self.entries@[i] == (region, v);
                    if i != p {
                        if i < p {
                            assert(region_lt(self.entries@[i].0, self.entries@[p as int].0));
                        } else {
                            assert(region_lt(self.entries@[p as int].0, self.entries@[i].0));
                        }
                    }
                }
            }
        } else {
            proof {
                if p < self.entries@.len() {
                    lemma_region_total(self.entries@[p as int].0, region);
                }
            }
            self.entries.insert(p, (region, value));
            proof {
                assert(self.entries@[p as int] == (region, value));
                assert forall|i: int, j: int|
                    0 <= i < j < self.entries@.len() implies region_lt(
                    #[trigger] self.entries@[i].0,
                    #[trigger] self.entries@[j].0,
                ) by {
                    if j < p {
                        assert(region_lt(old_entries[i].0, old_entries[j].0));
                    } else if j == p {
                    } else if i < p {
                        assert(region_lt(old_entries[i].0, region));
                        if p < old_entries.len() {
                            assert(region_lt(region, old_entries[p as int].0));
                            if j - 1 > p {
                                assert(region_lt(old_entries[p as int].0, old_entries[j - 1].0));
                            }
                        }
                    } else if i == p {
                        assert(region_lt(region, old_entries[p as int].0));
                        if j - 1 > p {
                            assert(region_lt(old_entries[p as int].0, old_entries[j - 1].0));
                        }
                    } else {
                        assert(region_lt(old_entries[i - 1].0, old_entries[j - 1].0));
                    }
                }
                assert forall|r: Region, v: usize| r != region implies (#[trigger] self.has(r, v)
                    <==> has_entry(old_entries, r, v)) by {
                    if has_entry(old_entries, r, v) {
                        let i = choose|i: int|
                            0 <= i < old_entries.len() && #[trigger] old_entries[i] == (r, v);
                        if i < p {
                            assert(self.entries@[i] == (r, v));
                        } else {
                            assert(self.entries@[i + 1] == (r, v));
                        }
                    }
                    if self.has(r, v) {
                        let i = choose|i: int|
                            0 <= i < self.entries@.len() && #[trigger] self.entries@[i] == (r, v);
                        if i < p {
                            assert(old_entries[i] == (r, v));
                        } else {
                            assert(old_entries[i - 1] == (r, v));
                        }
                    }
                }
                assert forall|v: usize| #[trigger] self.has(region, v) implies v == value by {
                    let i = choose|i: int|
                        0 <= i < self.entries@.len() && #[trigger] self.entries@[i] == (region, v);
                    if i < p {
                        assert(region_lt(old_entries[i].0, region));
                    } else if i > p {
                        assert(region_lt(region, old_entries[p as int].0));
                        if i - 1 > p {
                            assert(region_lt(old_entries[p as int].0, old_entries[i - 1].0));
                        }
                    }
                }
            }
        }
    }
}

/// The sequence of entries maps `region` to `value`.
pub open spec fn has_entry(entries: Seq<(Region, usize)>, region: Region, value: usize) -> bool {
    exists|i: int| 0 <= i < entries.len() && #[trigger] entries[i] == (region, value)
}

/// Two different regions are ordered one way or the other.
pub proof fn lemma_region_total(a: Region, b: Region)
    requires
        !region_lt(a, b),
        a != b,
    ensures
        region_lt(b, a),
{
}

} // verus!
