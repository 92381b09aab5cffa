use crate::seqs::lemma_swap_keeps_multiset;
use crate::utility::random_int_from_values;
use vstd::prelude::*;

verus! {

/// Number of entries in each axis's permutation table.
pub const POINT_COUNT: usize = 256;

/// A table that rearranges the lattice indices `0..256`: every entry is
/// in range, and every index occurs somewhere in the table.
pub open spec fn is_perm_table(s: Seq<i32>) -> bool {
    &&& s.len() == 256
    &&& forall|i: int| 0 <= i < s.len() ==> 0 <= #[trigger] s[i] < 256
    &&& forall|v: i32| 0 <= v < 256 ==> s.contains(v)
}

/// Fisher–Yates pass over the first `n` entries: each position, from
/// the top down, trades places with a randomly drawn position at or
/// below it. Entries at `n` and beyond are untouched.
pub fn permute(p: &mut Vec<i32>, n: usize)
    requires
        n <= old(p)@.len(),
        n <= 0x7fff_ffff,
    ensures
        final(p)@.len() == old(p)@.len(),
        final(p)@.to_multiset() == old(p)@.to_multiset(),
        forall|k: int| n <= k < final(p)@.len() ==> final(p)@[k] == old(p)@[k],
{
    let ghost orig = p@;
    let mut i: usize = n;
    while i > 0
        invariant
            i <= n,
            n <= p@.len(),
            n <= 0x7fff_ffff,
            p@.len() == orig.len(),
            p@.to_multiset() == orig.to_multiset(),
            forall|k: int| n <= k < p@.len() ==> p@[k] == orig[k],
        decreases i,
    {
        i = i - 1;
        let target = random_int_from_values(0, i as i32) as usize;
        let ghost before = p@;
        let pi = p[i];
        let pt = p[target];
        p.set(i, pt);
        p.set(target, pi);
        proof {
            lemma_swap_keeps_multiset(before, i as int, target as int);
        }
    }
}

/// Builds one permutation table: the identity sequence `0..256`
/// shuffled in place.
pub fn perlin_generate_perm() -> (r: Vec<i32>)
    ensures
        is_perm_table(r@),
{
    let mut p: Vec<i32> = Vec::new();
    let mut i: usize = 0;
    while i < POINT_COUNT
        invariant
            i <= 256,
            p@.len() == i,
            forall|k: int| 0 <= k < i ==> p@[k] == k as i32,
        decreases 256 - i,
    {
        p.push(i as i32);
        i = i + 1;
    }
    let ghost ident = p@;
    permute(&mut p, POINT_COUNT);
    proof {
        assert forall|i: int| 0 <= i < p@.len() implies 0 <= #[trigger] p@[i] < 256 by {
            vstd::seq_lib::to_multiset_contains(p@, p@[i]);
            vstd::seq_lib::to_multiset_contains(ident, p@[i]);
            let j = choose|j: int| 0 <= j < ident.len() && ident[j] == p@[i];
            assert(ident[j] == j as i32);
        }
        assert forall|v: i32| 0 <= v < 256 implies p@.contains(v) by {
            assert(ident[v as int] == v);
            vstd::seq_lib::to_multiset_contains(ident, v);
            vstd::seq_lib::to_multiset_contains(p@, v);
        }
    }
    p
}

/// Index of the gradient assigned to the lattice corner `(i, j, k)`:
/// each coordinate is folded to `0..256`, sent through its axis's
/// table, and the three entries are combined by exclusive or.
pub fn lattice_hash(
    perm_x: &Vec<i32>,
    perm_y: &Vec<i32>,
    perm_z: &Vec<i32>,
    i: i32,
    j: i32,
    k: i32,
) -> (h: usize)
    requires
        is_perm_table(perm_x@),
        is_perm_table(perm_y@),
        is_perm_table(perm_z@),
    ensures
        h == (perm_x@[(i & 255) as int] ^ perm_y@[(j & 255) as int] ^ perm_z@[(k & 255) as int]) as usize,
        h < 256,
{
    proof {
        assert(0 <= (i & 255) < 256) by (bit_vector);
        assert(0 <= (j & 255) < 256) by (bit_vector);
        assert(0 <= (k & 255) < 256) by (bit_vector);
    }
    let xi = (i & 255) as usize;
    let yi = (j & 255) as usize;
    let zi = (k & 255) as usize;
    let a = perm_x[xi];
    let b = perm_y[yi];
    let c = perm_z[zi];
    proof {
        assert(0 <= (a ^ b ^ c) < 256) by (bit_vector)
            requires
                0 <= a < 256,
                0 <= b < 256,
                0 <= c < 256,
        ;
    }
    (a ^ b ^ c) as usize
}

} // verus!
