use num_complex::{Complex, ComplexFloat};
use rand::Rng;
use rand_distr::StandardNormal;
use sse_solver::banded::BandedArray;

fn random_complex<R: Rng>(rng: &mut R) -> Complex<f64> {
    Complex { re: rng.sample(StandardNormal), im: rng.sample(StandardNormal) }
}

fn is_zero(c: &Complex<f64>) -> bool {
    c.re == 0.0 && c.im == 0.0
}

fn zero() -> Complex<f64> {
    Complex { re: 0f64, im: 0f64 }
}

fn mul_add(acc: Complex<f64>, entry: Complex<f64>, x: &Complex<f64>) -> Complex<f64> {
    acc + entry * x
}

#[test]
fn test_banded_dot_product() {
    let mut rng = rand::thread_rng();
    let shape = [10, 100];
    let full: Vec<Vec<Complex<f64>>> = (0..shape[0])
        .map(|_| (0..shape[1]).map(|_| random_complex(&mut rng)).collect())
        .collect();
    let banded = BandedArray::from_dense(&full, shape[1], zero(), &is_zero);
    let state: Vec<Complex<f64>> = (0..shape[1]).map(|_| random_complex(&mut rng)).collect();

    let expected: Vec<Complex<f64>> = full
        .iter()
        .map(|row| row.iter().zip(state.iter()).map(|(a, b)| a * b).sum())
        .collect();
    let actual = banded.dot(&state, &zero, &mul_add);
    for i in 0..shape[0] {
        assert!((expected[i] - actual[i]).abs() < 1e-8);
    }
    assert_eq!(expected.len(), actual.len());
}

#[test]
fn test_banded_transposed_dot_product() {
    let mut rng = rand::thread_rng();
    let shape = [100, 10];
    let full: Vec<Vec<Complex<f64>>> = (0..shape[1])
        .map(|_| (0..shape[0]).map(|_| random_complex(&mut rng)).collect())
        .collect();
    let banded = BandedArray::from_dense(&full, shape[0], zero(), &is_zero);
    let state: Vec<Complex<f64>> = (0..shape[1]).map(|_| random_complex(&mut rng)).collect();

    let expected: Vec<Complex<f64>> = (0..shape[0])
        .map(|i| (0..shape[1]).map(|j| full[j][i] * state[j]).sum())
        .collect();
    let actual = banded.transpose().dot(&state, &zero, &mul_add);
    for i in 0..shape[0] {
        assert!((expected[i] - actual[i]).abs() < 1e-8);
    }
    assert_eq!(expected.len(), actual.len());
}

fn tridiagonal() -> Vec<Vec<i64>> {
    vec![
        vec![1, 2, 0, 0, 0],
        vec![3, 4, 5, 0, 0],
        vec![0, 6, 7, 8, 0],
        vec![0, 0, 9, 10, 11],
    ]
}

#[test]
fn tridiagonal_band_reads_back_every_entry() {
    let dense = tridiagonal();
    let band = BandedArray::from_dense(&dense, 5, 0, &|x: &i64| *x == 0);
    for i in 0..4 {
        for j in 0..5 {
            assert_eq!(band.get(i, j), dense[i][j]);
        }
    }
    assert_eq!(band.row_band(0), (0, 2));
    assert_eq!(band.row_band(2), (1, 4));
    assert_eq!(band.row_band(3), (2, 5));
}

#[test]
fn transposed_view_swaps_indices() {
    let dense = tridiagonal();
    let band = BandedArray::from_dense(&dense, 5, 0, &|x: &i64| *x == 0);
    let t = band.transpose();
    for i in 0..5 {
        for j in 0..4 {
            assert_eq!(t.get(i, j), dense[j][i]);
        }
    }
    assert_eq!(t.row_band(4), (3, 4));
    assert_eq!(t.row_band(0), (0, 2));
}

#[test]
fn band_of_diagonal_matrix_is_one_wide() {
    let dense = vec![vec![2, 0, 0], vec![0, 3, 0], vec![0, 0, 4]];
    let band = BandedArray::from_dense(&dense, 3, 0, &|x: &i64| *x == 0);
    assert_eq!(band.row_band(1), (1, 2));
    assert_eq!(band.get(0, 2), 0);
    assert_eq!(band.get(2, 2), 4);
}

#[test]
fn empty_matrix_has_no_rows() {
    let dense: Vec<Vec<i64>> = Vec::new();
    let band = BandedArray::from_dense(&dense, 0, 0, &|x: &i64| *x == 0);
    let t = band.transpose();
    let _ = t;
}

#[test]
fn conjugating_entries_conjugates_the_matrix() {
    let dense = vec![
        vec![Complex { re: 1.0, im: 2.0 }, Complex { re: 0.0, im: 0.0 }],
        vec![Complex { re: 0.0, im: -1.0 }, Complex { re: 3.0, im: 0.5 }],
    ];
    let band = BandedArray::from_dense(&dense, 2, zero(), &is_zero).map_entries(&|c: &Complex<f64>| c.conj());
    for i in 0..2 {
        for j in 0..2 {
            assert_eq!(band.get(i, j), dense[i][j].conj());
        }
    }
}

#[test]
fn band_product_matches_dense_product() {
    let dense = tridiagonal();
    let band = BandedArray::from_dense(&dense, 5, 0, &|x: &i64| *x == 0);
    let v = vec![1i64, -2, 3, 0, 5];
    let r = band.dot(&v, &|| 0i64, &|a: i64, t: i64, x: &i64| a + t * x);
    // rows: 1-4, 3-8+15, -12+21+0, 27+0+55
    assert_eq!(r, vec![-3, 10, 9, 82]);
}

#[test]
fn transposed_band_product_matches_dense_transpose_product() {
    let dense = tridiagonal();
    let band = BandedArray::from_dense(&dense, 5, 0, &|x: &i64| *x == 0);
    let v = vec![1i64, 2, 3, 4];
    let r = band.transpose().dot(&v, &|| 0i64, &|a: i64, t: i64, x: &i64| a + t * x);
    assert_eq!(r, vec![7, 28, 67, 64, 44]);
}

#[test]
fn band_product_skips_entries_outside_the_band() {
    // Only the entries the band covers are folded in.
    let dense = vec![vec![1i64, 0, 0, 0], vec![0, 2, 0, 0], vec![0, 0, 3, 0]];
    let band = BandedArray::from_dense(&dense, 4, 0, &|x: &i64| *x == 0);
    let v = vec![1i64, 1, 1, 1];
    let r = band.dot(&v, &|| Vec::new(), &|mut seen: Vec<i64>, t: i64, _x: &i64| {
        seen.push(t);
        seen
    });
    assert_eq!(r, vec![vec![1], vec![2], vec![3]]);
}
