use num_complex::Complex;
use sse_solver::factorized::FactorizedArray;
use sse_solver::shape::ShapeError;

fn apply(op: &FactorizedArray<i64>, v: &Vec<i64>) -> Vec<i64> {
    op.dot(v, &|| 0i64, &|a: i64, b: &i64, x: &i64| a + b * x, &|a: &i64, b: &i64| a * b)
}

#[test]
fn rank_one_apply_scales_the_ket() {
    // 2 |ket><bra| v with bra . v = 1*4 + 0*5 + 3*6 = 22
    let op = FactorizedArray::from_bra_ket(2i64, vec![1, 0, 3], vec![1, -1, 2]).unwrap();
    assert_eq!(apply(&op, &vec![4, 5, 6]), vec![44, -44, 88]);
}

#[test]
fn transpose_swaps_bra_and_ket() {
    let op = FactorizedArray::from_bra_ket(1i64, vec![1, 2], vec![3, 4]).unwrap().transpose();
    // |bra><ket| v: ket . v = 3*1 + 4*1 = 7; result 7 * [1, 2]
    assert_eq!(apply(&op, &vec![1, 1]), vec![7, 14]);
}

#[test]
fn mismatched_bra_and_ket_are_refused() {
    let r = FactorizedArray::from_bra_ket(1i64, vec![1, 2, 3], vec![1, 2]);
    assert_eq!(r.err().map(|e| (e.expected, e.found)), Some((3, 2)));
    let e: ShapeError = FactorizedArray::from_bra_ket(0i64, vec![], vec![5]).err().unwrap();
    assert_eq!(e, ShapeError { expected: 0, found: 1 });
}

#[test]
fn conjugate_transpose_is_the_adjoint() {
    let op = FactorizedArray::from_bra_ket(
        Complex { re: 0.0, im: 2.0 },
        vec![Complex { re: 1.0, im: 1.0 }, Complex { re: 0.0, im: 0.0 }],
        vec![Complex { re: 0.0, im: 0.0 }, Complex { re: 1.0, im: -1.0 }],
    )
    .unwrap();
    let adjoint = op.clone().map_entries(&|c: &Complex<f64>| c.conj()).transpose();
    let dense = |f: &FactorizedArray<Complex<f64>>, i: usize, j: usize| {
        let mut e = vec![Complex { re: 0.0, im: 0.0 }; 2];
        e[j] = Complex { re: 1.0, im: 0.0 };
        f.dot(
            &e,
            &|| Complex { re: 0.0, im: 0.0 },
            &|a: Complex<f64>, b: &Complex<f64>, x: &Complex<f64>| a + b * x,
            &|a: &Complex<f64>, b: &Complex<f64>| a * b,
        )[i]
    };
    for i in 0..2 {
        for j in 0..2 {
            assert_eq!(dense(&adjoint, i, j), dense(&op, j, i).conj());
        }
    }
    assert_eq!(adjoint.dim(), 2);
}
