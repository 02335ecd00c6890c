use labworks::matrix::{generate_matrix, parallel_matrix_sum};

#[test]
fn generated_matrix_entries() {
    let m = generate_matrix(3);
    assert_eq!(m, vec![vec![0, 1, 2], vec![1, 2, 3], vec![2, 3, 4]]);
    assert!(generate_matrix(0).is_empty());
    let big = generate_matrix(120);
    assert_eq!(big[119][119], (238 % 100) as u32);
    assert_eq!(big[50][49], 99);
    assert_eq!(big[50][50], 0);
}

#[test]
fn matrix_sum_adds_every_entry() {
    assert_eq!(parallel_matrix_sum(&generate_matrix(3)), 18);
    assert_eq!(parallel_matrix_sum(&Vec::new()), 0);
    let m = vec![vec![u32::MAX, u32::MAX], vec![1]];
    assert_eq!(parallel_matrix_sum(&m), 2 * u32::MAX as u64 + 1);
    let g = generate_matrix(200);
    let expected: u64 = g.iter().flatten().map(|&v| v as u64).sum();
    assert_eq!(parallel_matrix_sum(&g), expected);
}

#[test]
fn generated_total_stays_within_its_bound() {
    for size in [0usize, 1, 7, 100, 150] {
        let total = parallel_matrix_sum(&generate_matrix(size));
        assert!(total <= 99 * (size as u64) * (size as u64));
    }
}
