use tracer_core::perlin::{lattice_hash, perlin_generate_perm, permute};
use tracer_core::utility::random_int_from_values;

#[test]
fn generated_table_is_a_permutation() {
    let p = perlin_generate_perm();
    assert_eq!(p.len(), 256);
    let mut sorted = p.clone();
    sorted.sort();
    let identity: Vec<i32> = (0..256).collect();
    assert_eq!(sorted, identity);
}

#[test]
fn independent_tables_differ_eventually() {
    // 256 independent shuffles all landing on the identity is out of the
    // question; one matching table among ten draws is already unlikely.
    let identity: Vec<i32> = (0..256).collect();
    let mut saw_shuffled = false;
    for _ in 0..10 {
        if perlin_generate_perm() != identity {
            saw_shuffled = true;
        }
    }
    assert!(saw_shuffled);
}

#[test]
fn permute_keeps_the_values() {
    let mut v: Vec<i32> = vec![9, 3, 7, 5, 1, 8];
    permute(&mut v, 6);
    let mut sorted = v.clone();
    sorted.sort();
    assert_eq!(sorted, vec![1, 3, 5, 7, 8, 9]);
}

#[test]
fn permute_leaves_the_tail_alone() {
    let mut v: Vec<i32> = vec![4, 2, 0, 100, 200, 300];
    permute(&mut v, 3);
    assert_eq!(&v[3..], &[100, 200, 300]);
    let mut head: Vec<i32> = v[..3].to_vec();
    head.sort();
    assert_eq!(head, vec![0, 2, 4]);
}

#[test]
fn permute_of_nothing_changes_nothing() {
    let mut v: Vec<i32> = vec![6, 5, 4];
    permute(&mut v, 0);
    assert_eq!(v, vec![6, 5, 4]);
}

#[test]
fn random_int_stays_in_range() {
    for _ in 0..200 {
        let r = random_int_from_values(-3, 7);
        assert!(-3 <= r && r <= 7);
    }
    assert_eq!(random_int_from_values(2, 2), 2);
}

#[test]
fn lattice_hash_on_identity_tables() {
    let identity: Vec<i32> = (0..256).collect();
    // On identity tables the hash is the exclusive or of the folded
    // coordinates.
    assert_eq!(lattice_hash(&identity, &identity, &identity, 1, 2, 4), 1 ^ 2 ^ 4);
    assert_eq!(lattice_hash(&identity, &identity, &identity, 0, 0, 0), 0);
    // 257 folds to 1; -1 folds to 255.
    assert_eq!(lattice_hash(&identity, &identity, &identity, 257, 0, 0), 1);
    assert_eq!(lattice_hash(&identity, &identity, &identity, -1, 2, 4), 255 ^ 2 ^ 4);
}

#[test]
fn lattice_hash_stays_in_gradient_range() {
    let px = perlin_generate_perm();
    let py = perlin_generate_perm();
    let pz = perlin_generate_perm();
    for c in [-1000, -256, -1, 0, 1, 255, 256, 1000] {
        let h = lattice_hash(&px, &py, &pz, c, 2 * c, 3 * c);
        assert!(h < 256);
    }
}

#[test]
fn lattice_hash_uses_the_tables() {
    // A reversed table must be looked up, not handed back: with the x
    // table reversed, coordinate 0 hashes to the last entry, 255.
    let identity: Vec<i32> = (0..256).collect();
    let reversed: Vec<i32> = (0..256).rev().collect();
    assert_eq!(lattice_hash(&reversed, &identity, &identity, 0, 0, 0), 255);
}
