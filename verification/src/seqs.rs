use vstd::prelude::*;

verus! {

/// Trading the entries at two positions keeps the multiset of values.
pub proof fn lemma_swap_keeps_multiset<A>(s: Seq<A>, a: int, b: int)
    requires
        0 <= a < s.len(),
        0 <= b < s.len(),
    ensures
        s.update(a, s[b]).update(b, s[a]).to_multiset() == s.to_multiset(),
{
    broadcast use vstd::multiset::group_multiset_axioms;
    broadcast use vstd::multiset::group_multiset_properties;

    let t1 = s.update(a, s[b]);
    vstd::seq_lib::to_multiset_update(s, a, s[b]);
    vstd::seq_lib::to_multiset_update(t1, b, s[a]);
    vstd::seq_lib::to_multiset_contains(s, s[a]);
    assert(s.contains(s[a]));
    assert(t1[b] == s[b]);
    assert(t1.update(b, s[a]).to_multiset() =~= s.to_multiset());
}

/// A range's multiset is the two halves' multisets put together.
pub proof fn lemma_split_range_multiset<A>(s: Seq<A>, lo: int, mid: int, hi: int)
    requires
        0 <= lo <= mid <= hi <= s.len(),
    ensures
        s.subrange(lo, hi).to_multiset() == s.subrange(lo, mid).to_multiset().add(
            s.subrange(mid, hi).to_multiset(),
        ),
{
    assert(s.subrange(lo, hi) =~= s.subrange(lo, mid) + s.subrange(mid, hi));
    vstd::seq_lib::lemma_multiset_commutative(s.subrange(lo, mid), s.subrange(mid, hi));
}

/// Two sequences that agree outside a range and hold the same multiset
/// overall also hold the same multiset over that range.
pub proof fn lemma_same_outside_same_range_multiset<A>(s: Seq<A>, t: Seq<A>, lo: int, hi: int)
    requires
        s.len() == t.len(),
        0 <= lo <= hi <= s.len(),
        s.to_multiset() == t.to_multiset(),
        forall|k: int| 0 <= k < lo || hi <= k < s.len() ==> s[k] == t[k],
    ensures
        s.subrange(lo, hi).to_multiset() == t.subrange(lo, hi).to_multiset(),
{
    broadcast use vstd::multiset::group_multiset_axioms;

    lemma_split_range_multiset(s, 0, lo, s.len() as int);
    lemma_split_range_multiset(s, lo, hi, s.len() as int);
    lemma_split_range_multiset(t, 0, lo, t.len() as int);
    lemma_split_range_multiset(t, lo, hi, t.len() as int);
    assert(s.subrange(0, s.len() as int) =~= s);
    assert(t.subrange(0, t.len() as int) =~= t);
    assert(s.subrange(0, lo) =~= t.subrange(0, lo));
    assert(s.subrange(hi, s.len() as int) =~= t.subrange(hi, t.len() as int));
    assert(s.subrange(lo, hi).to_multiset() =~= t.subrange(lo, hi).to_multiset()) by {
        assert forall|v: A|
            s.subrange(lo, hi).to_multiset().count(v) == t.subrange(lo, hi).to_multiset().count(
                v,
            ) by {
            assert(s.to_multiset().count(v) == s.subrange(0, lo).to_multiset().count(v)
                + s.subrange(lo, hi).to_multiset().count(v) + s.subrange(
                hi,
                s.len() as int,
            ).to_multiset().count(v));
            assert(t.to_multiset().count(v) == t.subrange(0, lo).to_multiset().count(v)
                + t.subrange(lo, hi).to_multiset().count(v) + t.subrange(
                hi,
                t.len() as int,
            ).to_multiset().count(v));
        }
    }
}

} // verus!
