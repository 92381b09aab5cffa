use crate::seqs::{
    lemma_same_outside_same_range_multiset, lemma_split_range_multiset, lemma_swap_keeps_multiset,
};
use crate::utility::random_int_from_values;
use vstd::prelude::*;

verus! {

/// A primitive as the tree builder sees it: its id and one sort key
/// per axis. A key is an integer that orders exactly as the
/// primitive's bounding-box minimum along that axis does; the caller
/// derives it from the box.
#[derive(Clone, Copy)]
pub struct BvhItem {
    pub id: usize,
    pub key_x: u64,
    pub key_y: u64,
    pub key_z: u64,
}

impl BvhItem {
    pub open spec fn spec_key(self, axis: int) -> u64 {
        if axis == 0 {
            self.key_x
        } else if axis == 1 {
            self.key_y
        } else {
            self.key_z
        }
    }

    pub fn key(&self, axis: usize) -> (k: u64)
        ensures
            k == self.spec_key(axis as int),
    {
        if axis == 0 {
            self.key_x
        } else if axis == 1 {
            self.key_y
        } else {
            self.key_z
        }
    }
}

/// Binary spatial partition over primitive ids: a leaf holds one id,
/// and an inner node remembers the axis its primitives were ordered
/// along before the median split.
pub enum BvhTree {
    Leaf { id: usize },
    Node { axis: usize, left: Box<BvhTree>, right: Box<BvhTree> },
}

impl BvhTree {
    /// The ids at the leaves, left to right.
    pub open spec fn leaf_ids(self) -> Seq<usize>
        decreases self,
    {
        match self {
            BvhTree::Leaf { id } => seq![id],
            BvhTree::Node { left, right, .. } => (*left).leaf_ids() + (*right).leaf_ids(),
        }
    }

    /// Median shape: of an inner node's n leaves, the left subtree
    /// carries exactly floor(n/2), and the split axis is one of the
    /// three.
    pub open spec fn well_shaped(self) -> bool
        decreases self,
    {
        match self {
            BvhTree::Leaf { .. } => true,
            BvhTree::Node { axis, left, right } => {
                &&& axis < 3
                &&& (*left).leaf_ids().len() == ((*left).leaf_ids().len()
                    + (*right).leaf_ids().len()) / 2
                &&& (*left).well_shaped()
                &&& (*right).well_shaped()
            },
        }
    }
}

/// The ids of the items, in the same order.
pub open spec fn ids_of(items: Seq<BvhItem>) -> Seq<usize> {
    items.map_values(|item: BvhItem| item.id)
}

/// Each inner node really is a split of ordered primitives: reading
/// the built list from position `off`, every item under the node's
/// left subtree has an `axis` key at most that of every item under
/// its right subtree.
pub open spec fn split_ordered(t: BvhTree, items: Seq<BvhItem>, off: int) -> bool
    decreases t,
{
    match t {
        BvhTree::Leaf { .. } => true,
        BvhTree::Node { axis, left, right } => {
            let nl = (*left).leaf_ids().len();
            let n = nl + (*right).leaf_ids().len();
            &&& forall|a: int, b: int|
                off <= a < off + nl && off + nl <= b < off + n ==> #[trigger] items[a].spec_key(
                    axis as int,
                ) <= #[trigger] items[b].spec_key(axis as int)
            &&& split_ordered(*left, items, off)
            &&& split_ordered(*right, items, off + nl)
        },
    }
}

/// `split_ordered` reads only the window the tree's leaves cover:
/// two lists that agree there agree on it.
proof fn lemma_split_ordered_frame(t: BvhTree, s1: Seq<BvhItem>, s2: Seq<BvhItem>, off: int)
    requires
        forall|k: int| off <= k < off + t.leaf_ids().len() ==> s1[k] == s2[k],
    ensures
        split_ordered(t, s1, off) == split_ordered(t, s2, off),
    decreases t,
{
    match t {
        BvhTree::Leaf { .. } => {
        },
        BvhTree::Node { axis, left, right } => {
            let nl = (*left).leaf_ids().len();
            let n = nl + (*right).leaf_ids().len();
            lemma_split_ordered_frame(*left, s1, s2, off);
            lemma_split_ordered_frame(*right, s1, s2, off + nl);
            assert forall|a: int, b: int|
                off <= a < off + nl && off + nl <= b < off + n implies (s1[a].spec_key(axis as int)
                <= s1[b].spec_key(axis as int)) == (s2[a].spec_key(axis as int) <= s2[b].spec_key(
                axis as int,
            )) by {
                assert(s1[a] == s2[a]);
                assert(s1[b] == s2[b]);
            }
        },
    }
}

/// The `axis` keys are ascending over `[lo, hi)`.
pub open spec fn sorted_range(s: Seq<BvhItem>, lo: int, hi: int, axis: int) -> bool {
    forall|a: int, b: int|
        lo <= a < b < hi ==> #[trigger] s[a].spec_key(axis) <= #[trigger] s[b].spec_key(axis)
}

fn swap_items(items: &mut Vec<BvhItem>, a: usize, b: usize)
    requires
        a < old(items)@.len(),
        b < old(items)@.len(),
    ensures
        final(items)@ == old(items)@.update(a as int, old(items)@[b as int]).update(
            b as int,
            old(items)@[a as int],
        ),
        final(items)@.to_multiset() == old(items)@.to_multiset(),
{
    let va = items[a];
    let vb = items[b];
    items.set(a, vb);
    items.set(b, va);
    proof {
        lemma_swap_keeps_multiset(old(items)@, a as int, b as int);
    }
}

/// Stable insertion sort of `[lo, hi)` by the `axis` key; entries
/// outside the range are untouched, and a range already in order —
/// equal keys among them — is not moved at all.
fn sort_range_by_key(items: &mut Vec<BvhItem>, lo: usize, hi: usize, axis: usize)
    requires
        lo <= hi <= old(items)@.len(),
    ensures
        final(items)@.len() == old(items)@.len(),
        forall|k: int|
            0 <= k < lo || hi <= k < final(items)@.len() ==> final(items)@[k] == old(items)@[k],
        final(items)@.subrange(lo as int, hi as int).to_multiset() == old(items)@.subrange(
            lo as int,
            hi as int,
        ).to_multiset(),
        sorted_range(final(items)@, lo as int, hi as int, axis as int),
        sorted_range(old(items)@, lo as int, hi as int, axis as int) ==> final(items)@ == old(
            items,
        )@,
{
    let ghost orig = items@;
    if hi - lo <= 1 {
        proof {
            assert(items@.subrange(lo as int, hi as int) =~= orig.subrange(lo as int, hi as int));
        }
        return ;
    }
    let mut idx: usize = lo + 1;
    while idx < hi
        invariant
            lo + 1 <= idx <= hi <= items@.len(),
            items@.len() == orig.len(),
            forall|k: int| 0 <= k < lo || hi <= k < items@.len() ==> items@[k] == orig[k],
            items@.to_multiset() == orig.to_multiset(),
            sorted_range(items@, lo as int, idx as int, axis as int),
            sorted_range(orig, lo as int, hi as int, axis as int) ==> items@ == orig,
        decreases hi - idx,
    {
        let mut j: usize = idx;
        while j > lo && items[j - 1].key(axis) > items[j].key(axis)
            invariant
                lo <= j <= idx < hi <= items@.len(),
                items@.len() == orig.len(),
                forall|k: int| 0 <= k < lo || hi <= k < items@.len() ==> items@[k] == orig[k],
                items@.to_multiset() == orig.to_multiset(),
                sorted_range(items@, lo as int, j as int, axis as int),
                sorted_range(items@, j as int, idx as int + 1, axis as int),
                forall|a: int, b: int|
                    lo <= a < j && j < b <= idx ==> #[trigger] items@[a].spec_key(axis as int)
                        <= #[trigger] items@[b].spec_key(axis as int),
                sorted_range(orig, lo as int, hi as int, axis as int) ==> items@ == orig && j
                    == idx,
            decreases j,
        {
            proof {
                if sorted_range(orig, lo as int, hi as int, axis as int) {
                    assert(items@[j - 1].spec_key(axis as int) <= items@[j as int].spec_key(
                        axis as int,
                    ));
                }
            }
            swap_items(items, j - 1, j);
            j = j - 1;
        }
        proof {
            assert(sorted_range(items@, lo as int, idx as int + 1, axis as int)) by {
                assert forall|a: int, b: int|
                    lo <= a < b < idx as int + 1 implies #[trigger] items@[a].spec_key(axis as int)
                    <= #[trigger] items@[b].spec_key(axis as int) by {
                    if b < j {
                    } else if a >= j {
                    } else if b == j {
                        assert(items@[j - 1].spec_key(axis as int) <= items@[j as int].spec_key(
                            axis as int,
                        ));
                        if a < j - 1 {
                            assert(items@[a].spec_key(axis as int) <= items@[j - 1].spec_key(
                                axis as int,
                            ));
                        }
                    }
                }
            }
        }
        idx = idx + 1;
    }
    proof {
        lemma_same_outside_same_range_multiset(items@, orig, lo as int, hi as int);
    }
}

/// Builds the subtree over `[lo, hi)`: one primitive makes a leaf;
/// more are ordered along a randomly drawn axis and split at the
/// median, and each half is built on its own. The leaves, left to
/// right, are exactly the range as the build leaves it.
fn build_range(items: &mut Vec<BvhItem>, lo: usize, hi: usize) -> (t: BvhTree)
    requires
        lo < hi <= old(items)@.len(),
    ensures
        final(items)@.len() == old(items)@.len(),
        forall|k: int|
            0 <= k < lo || hi <= k < final(items)@.len() ==> final(items)@[k] == old(items)@[k],
        final(items)@.subrange(lo as int, hi as int).to_multiset() == old(items)@.subrange(
            lo as int,
            hi as int,
        ).to_multiset(),
        t.leaf_ids() == ids_of(final(items)@.subrange(lo as int, hi as int)),
        t.leaf_ids().len() == hi - lo,
        t.well_shaped(),
        split_ordered(t, final(items)@, lo as int),
    decreases hi - lo,
{
    let span = hi - lo;
    if span == 1 {
        let item = items[lo];
        let t = BvhTree::Leaf { id: item.id };
        proof {
            assert(items@.subrange(lo as int, hi as int) =~= old(items)@.subrange(
                lo as int,
                hi as int,
            ));
            assert(t.leaf_ids() =~= ids_of(items@.subrange(lo as int, hi as int)));
        }
        return t;
    }

    let axis = random_int_from_values(0, 2) as usize;
    sort_range_by_key(items, lo, hi, axis);
    let ghost sorted = items@;

    let mid = lo + span / 2;
    let left = build_range(items, lo, mid);
    let ghost after_left = items@;
    let right = build_range(items, mid, hi);

    let t = BvhTree::Node { axis, left: Box::new(left), right: Box::new(right) };
    proof {
        // The right build left `[lo, mid)` alone, and the left build
        // left `[mid, hi)` alone.
        assert(items@.subrange(lo as int, mid as int) =~= after_left.subrange(
            lo as int,
            mid as int,
        ));
        assert(after_left.subrange(mid as int, hi as int) =~= sorted.subrange(
            mid as int,
            hi as int,
        ));

        // Leaves, left to right, are the range as it now stands.
        assert(t.leaf_ids() == left.leaf_ids() + right.leaf_ids());
        assert(t.leaf_ids() =~= ids_of(items@.subrange(lo as int, hi as int))) by {
            assert(items@.subrange(lo as int, hi as int) =~= items@.subrange(lo as int, mid as int)
                + items@.subrange(mid as int, hi as int));
        }

        // The range keeps its multiset through the sort and the two
        // recursive builds.
        lemma_split_range_multiset(items@, lo as int, mid as int, hi as int);
        lemma_split_range_multiset(sorted, lo as int, mid as int, hi as int);
        assert(items@.subrange(mid as int, hi as int).to_multiset() == sorted.subrange(
            mid as int,
            hi as int,
        ).to_multiset());
        assert(items@.subrange(lo as int, hi as int).to_multiset() == sorted.subrange(
            lo as int,
            hi as int,
        ).to_multiset());

        // The sort put every key on the left of the median at or below
        // every key on its right, and each half's rebuild only
        // rearranges that half, so the relation stands in the final
        // order as well.
        lemma_split_ordered_frame(left, after_left, items@, lo as int);
        assert forall|a: int, b: int|
            lo <= a < mid && mid <= b < hi implies #[trigger] items@[a].spec_key(axis as int)
            <= #[trigger] items@[b].spec_key(axis as int) by {
            let la = items@.subrange(lo as int, mid as int);
            let ra = items@.subrange(mid as int, hi as int);
            let ls = sorted.subrange(lo as int, mid as int);
            let rs = sorted.subrange(mid as int, hi as int);
            assert(la[a - lo] == items@[a]);
            assert(ra[b - mid] == items@[b]);
            vstd::seq_lib::to_multiset_contains(la, items@[a]);
            vstd::seq_lib::to_multiset_contains(ls, items@[a]);
            vstd::seq_lib::to_multiset_contains(ra, items@[b]);
            vstd::seq_lib::to_multiset_contains(rs, items@[b]);
            assert(la.to_multiset() == ls.to_multiset());
            assert(ls.contains(items@[a]));
            assert(rs.contains(items@[b]));
            let a0 = choose|i: int| 0 <= i < ls.len() && ls[i] == items@[a];
            let b0 = choose|i: int| 0 <= i < rs.len() && rs[i] == items@[b];
            assert(sorted[lo + a0] == items@[a]);
            assert(sorted[mid + b0] == items@[b]);
            assert(sorted[lo + a0].spec_key(axis as int) <= sorted[mid + b0].spec_key(
                axis as int,
            ));
        }
    }
    t
}

/// Builds the tree over the whole list, reordering it in place; the
/// leaves, left to right, carry exactly the reordered list's ids, and
/// the reordering keeps the multiset of items.
pub fn build(items: &mut Vec<BvhItem>) -> (t: BvhTree)
    requires
        old(items)@.len() >= 1,
    ensures
        final(items)@.len() == old(items)@.len(),
        final(items)@.to_multiset() == old(items)@.to_multiset(),
        t.leaf_ids() == ids_of(final(items)@),
        t.leaf_ids().len() == final(items)@.len(),
        t.well_shaped(),
        split_ordered(t, final(items)@, 0),
{
    let n = items.len();
    let t = build_range(items, 0, n);
    proof {
        assert(items@.subrange(0, n as int) =~= items@);
        assert(old(items)@.subrange(0, n as int) =~= old(items)@);
    }
    t
}

} // verus!
