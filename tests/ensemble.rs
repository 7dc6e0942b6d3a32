use sse_solver::ensemble::accumulate_in_order;
use sse_solver::shape::{check_apply, check_bra_ket, check_operators, ConstructionError, ShapeError};

#[test]
fn sources_are_visited_once_each_in_order() {
    let sources = vec![3u32, 1, 4, 1, 5];
    let acc = accumulate_in_order(&sources, Vec::new(), &|mut seen: Vec<u32>, s: &u32| {
        seen.push(*s);
        seen
    });
    assert_eq!(acc, sources);
}

#[test]
fn empty_ensemble_leaves_the_accumulator() {
    let sources: Vec<i64> = Vec::new();
    assert_eq!(accumulate_in_order(&sources, 42i64, &|a: i64, s: &i64| a + s), 42);
}

#[test]
fn accumulation_sums_contributions() {
    let sources = vec![(1i64, 2i64), (3, -1)];
    let r = accumulate_in_order(&sources, (0i64, 0i64), &|a: (i64, i64), s: &(i64, i64)| {
        (a.0 + s.0, a.1 + s.1)
    });
    assert_eq!(r, (4, 1));
}

#[test]
fn apply_shape_mismatch_is_reported() {
    assert_eq!(check_apply(4, 4), Ok(()));
    assert_eq!(check_apply(4, 3), Err(ShapeError { expected: 4, found: 3 }));
}

#[test]
fn bra_ket_counts_must_agree() {
    assert_eq!(check_bra_ket(2, 2, 5, 2, 5), Ok(5));
    assert_eq!(
        check_bra_ket(2, 3, 5, 2, 5),
        Err(ConstructionError::OperatorCount { amplitudes: 2, bras: 3, kets: 2 })
    );
    assert_eq!(
        check_bra_ket(2, 2, 5, 1, 5),
        Err(ConstructionError::OperatorCount { amplitudes: 2, bras: 2, kets: 1 })
    );
    assert_eq!(check_bra_ket(0, 0, 7, 0, 7), Ok(7));
}

#[test]
fn bra_ket_lengths_must_agree() {
    assert_eq!(
        check_bra_ket(1, 1, 5, 1, 4),
        Err(ConstructionError::VectorLength { bra: 5, ket: 4 })
    );
}

#[test]
fn operators_must_be_square_of_the_state_dimension() {
    assert_eq!(check_operators(&vec![(3, 3), (3, 3)], 3), Ok(()));
    assert_eq!(check_operators(&Vec::new(), 3), Ok(()));
    assert_eq!(
        check_operators(&vec![(3, 3), (3, 2), (2, 2)], 3),
        Err(ConstructionError::OperatorShape { index: 1, rows: 3, cols: 2 })
    );
}
