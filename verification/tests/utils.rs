use cobu::cli::{bin_targets, find_bin, find_package, has_duplicate_names, parse_key_val, TargetInfo};
use cobu::grid::{Grid, GridSum, NotAGridError};
use cobu::itertools::{cartesian_product, Itertools};
use cobu::matrix::{mat_mul_mod, matrix_power_mod};
use cobu::nums::{One, Zero};
use cobu::prefix::{PrefixSum, PrefixXor};
use cobu::scanner::Scanner;
use cobu::sorted::sorted;
use cobu::vectors::{iter_all_vectors, AllVectorsIterator};

#[test]
fn test_sorted() {
    assert!(sorted(&vec![1, 1, 2, 2, 3, 4, 4]));
    assert!(!sorted(&vec![0, 1, 1, 0, 1, 2, 3]));
    assert!(sorted(&Vec::new()));
    assert!(sorted(&vec![1]));
    assert!(!sorted(&vec![2, 1]));
}

#[test]
fn prefix_sum_queries() {
    let p = PrefixSum::new(&vec![3, -1, 4, 1, -5, 9]);
    assert_eq!(p.sum(0..6), 11);
    assert_eq!(p.sum(0..1), 3);
    assert_eq!(p.sum(1..4), 4);
    assert_eq!(p.sum(3..3), 0);
    assert_eq!(p.sum(5..6), 9);
    let empty = PrefixSum::new(&Vec::new());
    assert_eq!(empty.sum(0..0), 0);
}

#[test]
fn prefix_xor_queries() {
    let p = PrefixXor::new(&vec![0b1010, 0b0110, 0b0001]);
    assert_eq!(p.xor(0..3), 0b1101);
    assert_eq!(p.xor(1..2), 0b0110);
    assert_eq!(p.xor(0..2), 0b1100);
    assert_eq!(p.xor(2..2), 0);
}

#[test]
fn grid_dimensions_and_cells() {
    let mut g = Grid::new(2, 3);
    assert_eq!(g.rows(), 2);
    assert_eq!(g.cols(), 3);
    assert_eq!(g.inner_index((1, 2)), 5);
    assert_eq!(g.get((1, 2)), 0);
    g.set((1, 2), 42);
    assert_eq!(g.get((1, 2)), 42);
    assert_eq!(g.get((0, 2)), 0);
}

#[test]
fn grid_try_from_rejects_ragged_rows() {
    let ok = Grid::try_from(vec![vec![1, 2], vec![3, 4], vec![5, 6]]);
    let g = match ok {
        Ok(g) => g,
        Err(_) => panic!("a rectangle must be accepted"),
    };
    assert_eq!(g.rows(), 3);
    assert_eq!(g.cols(), 2);
    assert_eq!(g.get((2, 1)), 6);
    let bad = Grid::try_from(vec![vec![1, 2], vec![3]]);
    assert_eq!(bad.err(), Some(NotAGridError));
}

#[test]
fn grid_sum_rectangles() {
    let g = Grid::try_from(vec![
        vec![1, 2, 3],
        vec![4, 5, 6],
        vec![7, 8, 9],
    ])
    .unwrap();
    let s = GridSum::from(g);
    assert_eq!(s.sum((0, 0), (2, 2)), 45);
    assert_eq!(s.sum((0, 0), (0, 0)), 1);
    assert_eq!(s.sum((1, 1), (2, 2)), 28);
    assert_eq!(s.sum((0, 1), (1, 2)), 16);
    assert_eq!(s.sum((2, 0), (2, 2)), 24);
}

#[test]
fn matrix_multiplication_modulo() {
    let a = vec![vec![1, 2], vec![3, 4]];
    let b = vec![vec![5, 6], vec![7, 8]];
    let c = mat_mul_mod(&a, &b, 1000);
    assert_eq!(c, vec![vec![19, 22], vec![43, 50]]);
    let small = mat_mul_mod(&a, &b, 7);
    assert_eq!(small, vec![vec![5, 1], vec![1, 1]]);
}

#[test]
fn matrix_power_fibonacci() {
    let fib = vec![vec![1, 1], vec![1, 0]];
    let p = matrix_power_mod(fib.clone(), 10, 1_000_000);
    assert_eq!(p, vec![vec![89, 55], vec![55, 34]]);
    let id = matrix_power_mod(fib.clone(), 0, 1_000_000);
    assert_eq!(id, vec![vec![1, 0], vec![0, 1]]);
    let once = matrix_power_mod(fib.clone(), 1, 1_000_000);
    assert_eq!(once, fib);
    let wrapped = matrix_power_mod(fib, 10, 10);
    assert_eq!(wrapped, vec![vec![9, 5], vec![5, 4]]);
}

#[test]
fn one_and_zero_identities() {
    assert_eq!(<i32 as One>::one(), 1);
    assert_eq!(<u64 as One>::one(), 1);
    assert_eq!(<i8 as Zero>::zero(), 0);
    assert_eq!(<u128 as Zero>::zero(), 0);
}

#[test]
fn cartesian_product_row_major() {
    let mut it = cartesian_product(vec![0, 1], vec![10, 20]);
    assert_eq!(it.size_hint(), (4, Some(4)));
    assert_eq!(it.next(), Some((0, 10)));
    assert_eq!(it.next(), Some((0, 20)));
    assert_eq!(it.size_hint(), (2, Some(2)));
    assert_eq!(it.next(), Some((1, 10)));
    assert_eq!(it.next(), Some((1, 20)));
    assert_eq!(it.next(), None);
    assert_eq!(it.size_hint(), (0, Some(0)));

    let mut empty = cartesian_product(vec![1, 2, 3], Vec::new());
    assert_eq!(empty.next(), None);
    assert_eq!(empty.size_hint(), (0, Some(0)));

    let mut via_trait = vec![7].cartesian_product(vec![8]);
    assert_eq!(via_trait.next(), Some((7, 8)));
    assert_eq!(via_trait.next(), None);
}

#[test]
fn size_hint_arithmetic() {
    assert_eq!(cobu::size_hint::add((2, Some(3)), (4, Some(5))), (6, Some(8)));
    assert_eq!(cobu::size_hint::add((2, None), (4, Some(5))), (6, None));
    assert_eq!(
        cobu::size_hint::add((usize::MAX, Some(usize::MAX)), (1, Some(1))),
        (usize::MAX, None)
    );
    assert_eq!(cobu::size_hint::mul((2, Some(3)), (4, Some(5))), (8, Some(15)));
    assert_eq!(cobu::size_hint::mul((0, Some(0)), (4, None)), (0, Some(0)));
    assert_eq!(cobu::size_hint::mul((2, None), (0, Some(0))), (0, Some(0)));
    assert_eq!(cobu::size_hint::mul((3, None), (4, Some(5))), (12, None));
    assert_eq!(
        cobu::size_hint::mul((usize::MAX, Some(usize::MAX)), (2, Some(2))),
        (usize::MAX, None)
    );
}

#[test]
fn all_vectors_of_one_length() {
    let mut it = AllVectorsIterator::new(2, 0, 1);
    assert_eq!(it.next(), Some(vec![0, 1]));
    assert_eq!(it.next(), Some(vec![1, 0]));
    assert_eq!(it.next(), Some(vec![1, 1]));
    assert_eq!(it.next(), None);
    assert_eq!(it.next(), None);

    let mut flat = AllVectorsIterator::new(3, 5, 5);
    assert_eq!(flat.next(), None);
}

#[test]
fn all_vectors_across_lengths() {
    let mut it = iter_all_vectors(0, 2, 0, 1);
    assert_eq!(it.next(), Some(vec![1]));
    assert_eq!(it.next(), Some(vec![0, 1]));
    assert_eq!(it.next(), Some(vec![1, 0]));
    assert_eq!(it.next(), Some(vec![1, 1]));
    assert_eq!(it.next(), None);
    assert_eq!(it.next(), None);
}

#[test]
fn parse_key_val_splits_at_first_separator() {
    assert_eq!(parse_key_val("key=value"), Ok(("key".to_string(), "value".to_string())));
    assert_eq!(parse_key_val("k=v=w"), Ok(("k".to_string(), "v=w".to_string())));
    assert_eq!(parse_key_val("=x"), Ok(("".to_string(), "x".to_string())));
    assert!(parse_key_val("no separator").is_err());
    assert!(parse_key_val("").is_err());
}

#[test]
fn duplicate_library_names_are_detected() {
    let unique = vec![b"a".to_vec(), b"b".to_vec(), b"c".to_vec()];
    assert!(!has_duplicate_names(&unique));
    let dup = vec![b"a".to_vec(), b"b".to_vec(), b"a".to_vec()];
    assert!(has_duplicate_names(&dup));
    assert!(!has_duplicate_names(&Vec::new()));
}

#[test]
fn package_and_binary_selection() {
    let names = vec![b"alpha".to_vec(), b"beta".to_vec(), b"beta".to_vec()];
    assert_eq!(find_package(&names, &b"beta".to_vec()), Some(1));
    assert_eq!(find_package(&names, &b"gamma".to_vec()), None);

    let targets = vec![
        TargetInfo { name: b"lib".to_vec(), is_bin: false },
        TargetInfo { name: b"solve".to_vec(), is_bin: true },
        TargetInfo { name: b"bench".to_vec(), is_bin: true },
    ];
    assert_eq!(bin_targets(&targets), vec![1, 2]);
    assert_eq!(find_bin(&targets, &b"bench".to_vec()), Some(2));
    assert_eq!(find_bin(&targets, &b"lib".to_vec()), None);
    assert_eq!(find_bin(&targets, &b"missing".to_vec()), None);
}

#[test]
fn scanner_buffers_tokens() {
    let mut s = Scanner::new();
    assert_eq!(s.pop_token(), None);
    s.refill(vec!["3".to_string(), "2".to_string(), "1".to_string()]);
    assert_eq!(s.pop_token(), Some("1".to_string()));
    assert_eq!(s.pop_token(), Some("2".to_string()));
    assert_eq!(s.pop_token(), Some("3".to_string()));
    assert_eq!(s.pop_token(), None);
    let mut d: Scanner = Default::default();
    assert_eq!(d.pop_token(), None);
}

#[test]
fn prefix_sum_handles_extreme_values() {
    let p = PrefixSum::new(&vec![i64::MAX]);
    assert_eq!(p.sum(0..1), i64::MAX);
    let n = PrefixSum::new(&vec![i64::MIN, i64::MAX]);
    assert_eq!(n.sum(0..2), -1);
    assert_eq!(n.sum(1..2), i64::MAX);
}

#[test]
fn grid_with_no_cells() {
    let g = Grid::new(0, 0);
    assert_eq!(g.cols(), 0);
    let from_empty = Grid::try_from(Vec::new()).unwrap();
    assert_eq!(from_empty.cols(), 0);
}
