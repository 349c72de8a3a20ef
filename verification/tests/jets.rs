use nolan::jets::{hess_index, hess_idx, hess_size, tens_idx, tens_index, tens_size};

#[test]
fn test_hess_index() {
    assert_eq!(hess_index(0, 0).unwrap(), 0);
    assert_eq!(hess_index(1, 0).unwrap(), 1);
    assert_eq!(hess_index(1, 1).unwrap(), 2);
    assert_eq!(hess_index(2, 0).unwrap(), 3);
    assert_eq!(hess_index(2, 1).unwrap(), 4);
    assert_eq!(hess_index(2, 2).unwrap(), 5);

    for i in 0..5 {
        for j in 0..5 {
            assert_eq!(hess_index(i, j), hess_index(j, i))
        }
    }
}

#[test]
fn test_hess_size() {
    assert_eq!(hess_size(1), 1);
    assert_eq!(hess_size(2), 3);
    assert_eq!(hess_size(3), 6);
    assert_eq!(hess_size(4), 10);
}

#[test]
fn test_tens_index() {
    // (0,0,0) -> 0
    assert_eq!(tens_index(0, 0, 0).unwrap(), 0);
    // (1,0,0) -> 1
    assert_eq!(tens_index(1, 0, 0).unwrap(), 1);
    // (1,1,0) -> 2
    assert_eq!(tens_index(1, 1, 0).unwrap(), 2);
    // (1,1,1) -> 3
    assert_eq!(tens_index(1, 1, 1).unwrap(), 3);
    // (2,0,0) -> 4
    assert_eq!(tens_index(2, 0, 0).unwrap(), 4);
    // (2,1,0) -> 5
    assert_eq!(tens_index(2, 1, 0).unwrap(), 5);
    // (2,1,1) -> 6
    assert_eq!(tens_index(2, 1, 1).unwrap(), 6);
    // (2,2,0) -> 7
    assert_eq!(tens_index(2, 2, 0).unwrap(), 7);
    // (2,2,1) -> 8
    assert_eq!(tens_index(2, 2, 1).unwrap(), 8);
    // (2,2,2) -> 9
    assert_eq!(tens_index(2, 2, 2).unwrap(), 9);

    // All permutations map to the same index
    for i in 0..4 {
        for j in 0..4 {
            for k in 0..4 {
                assert_eq!(tens_index(i, j, k), tens_index(i, k, j));
                assert_eq!(tens_index(i, j, k), tens_index(j, i, k));
                assert_eq!(tens_index(i, j, k), tens_index(j, k, i));
                assert_eq!(tens_index(i, j, k), tens_index(k, i, j));
                assert_eq!(tens_index(i, j, k), tens_index(k, j, i));
            }
        }
    }
}

#[test]
fn test_tens_size() {
    assert_eq!(tens_size(1), 1);
    assert_eq!(tens_size(2), 4);
    assert_eq!(tens_size(3), 10);
    assert_eq!(tens_size(6), 56);
    assert_eq!(tens_size(9), 165);
}

#[test]
fn hess_idx_matches_hess_index_on_canonical_pairs() {
    for i in 0..8 {
        for j in 0..=i {
            assert_eq!(hess_index(i, j), Some(hess_idx(i, j)));
        }
    }
    assert_eq!(hess_idx(5, 3), 18);
    assert_eq!(hess_index(3, 5), Some(18));
}

#[test]
fn tens_idx_matches_tens_index_on_canonical_triples() {
    for i in 0..6 {
        for j in 0..=i {
            for k in 0..=j {
                assert_eq!(tens_index(i, j, k), Some(tens_idx(i, j, k)));
            }
        }
    }
    assert_eq!(tens_idx(4, 2, 1), 24);
    assert_eq!(tens_index(1, 4, 2), Some(24));
}

#[test]
fn hessian_packing_is_a_bijection_onto_storage() {
    for n in 0..10usize {
        let size = hess_size(n);
        let mut seen = vec![false; size];
        for i in 0..n {
            for j in 0..=i {
                let idx = hess_idx(i, j);
                assert!(idx < size);
                assert!(!seen[idx]);
                seen[idx] = true;
            }
        }
        assert!(seen.iter().all(|s| *s));
    }
}

#[test]
fn tensor_packing_is_a_bijection_onto_storage() {
    for n in 0..9usize {
        let size = tens_size(n);
        let mut seen = vec![false; size];
        for i in 0..n {
            for j in 0..=i {
                for k in 0..=j {
                    let idx = tens_idx(i, j, k);
                    assert!(idx < size);
                    assert!(!seen[idx]);
                    seen[idx] = true;
                }
            }
        }
        assert!(seen.iter().all(|s| *s));
    }
}

#[test]
fn sizes_grow_by_one_row_and_one_layer() {
    for n in 0..20usize {
        assert_eq!(hess_size(n + 1), hess_size(n) + n + 1);
        assert_eq!(tens_size(n + 1), tens_size(n) + hess_size(n + 1));
    }
}

#[test]
fn large_indices_near_the_limit() {
    // 2^32 - 1 squared stays below 2^64 on 64-bit targets.
    let n: usize = 1 << 20;
    assert_eq!(hess_size(n), n * (n + 1) / 2);
    assert_eq!(hess_index(n - 1, 0), Some((n - 1) * n / 2));
}
