use vstd::prelude::*;

verus! {

/// An operator and a state whose dimensions do not match.
#[derive(Debug, Clone, Copy, PartialEq, Eq, Structural)]
pub struct ShapeError {
    pub expected: usize,
    pub found: usize,
}

/// Malformed shapes handed to a noise-ensemble constructor.
#[derive(Debug, Clone, Copy, PartialEq, Eq, Structural)]
pub enum ConstructionError {
    /// The amplitudes, bras and kets do not come in equal numbers.
    OperatorCount { amplitudes: usize, bras: usize, kets: usize },
    /// The bras and kets do not have one common length.
    VectorLength { bra: usize, ket: usize },
    /// Operator `index` is not a `dim x dim` matrix.
    OperatorShape { index: usize, rows: usize, cols: usize },
}

/// An operator of `cols` columns can be applied to a state of `state_len` amplitudes
/// exactly when the two agree.
pub fn check_apply(cols: usize, state_len: usize) -> (r: Result<(), ShapeError>)
    ensures
        r is Ok <==> cols == state_len,
        r is Err ==> r == Err::<(), ShapeError>(ShapeError { expected: cols, found: state_len }),
{
    if cols == state_len {
        Ok(())
    } else {
        Err(ShapeError { expected: cols, found: state_len })
    }
}

/// Checks the shapes of `n_amplitudes` amplitudes with a `bra_rows x bra_cols` matrix of
/// bras and a `ket_rows x ket_cols` matrix of kets; on success returns the state dimension.
pub fn check_bra_ket(
    n_amplitudes: usize,
    bra_rows: usize,
    bra_cols: usize,
    ket_rows: usize,
    ket_cols: usize,
) -> (r: Result<usize, ConstructionError>)
    ensures
        (n_amplitudes != bra_rows || n_amplitudes != ket_rows) <==> r == Err::<usize, ConstructionError>(
            ConstructionError::OperatorCount { amplitudes: n_amplitudes, bras: bra_rows, kets: ket_rows },
        ),
        (n_amplitudes == bra_rows && n_amplitudes == ket_rows && bra_cols != ket_cols) <==> r == Err::<
            usize,
            ConstructionError,
        >(ConstructionError::VectorLength { bra: bra_cols, ket: ket_cols }),
        r is Ok <==> (n_amplitudes == bra_rows && n_amplitudes == ket_rows && bra_cols == ket_cols),
        r is Ok ==> r == Ok::<usize, ConstructionError>(bra_cols),
{
    if n_amplitudes != bra_rows || n_amplitudes != ket_rows {
        Err(ConstructionError::OperatorCount { amplitudes: n_amplitudes, bras: bra_rows, kets: ket_rows })
    } else if bra_cols != ket_cols {
        Err(ConstructionError::VectorLength { bra: bra_cols, ket: ket_cols })
    } else {
        Ok(bra_cols)
    }
}

/// Every operator of `shapes` (given as `(rows, cols)`) is `dim x dim`.
pub open spec fn all_square(shapes: Seq<(usize, usize)>, dim: usize) -> bool {
    forall|k: int| 0 <= k < shapes.len() ==> (#[trigger] shapes[k]).0 == dim && shapes[k].1 == dim
}

/// Checks that the operators of shapes `shapes` all act on states of dimension `dim`;
/// reports the first one that does not.
pub fn check_operators(shapes: &Vec<(usize, usize)>, dim: usize) -> (r: Result<(), ConstructionError>)
    ensures
        r is Ok <==> all_square(shapes@, dim),
        r is Err ==> exists|k: int|
            {
                &&& 0 <= k < shapes.len()
                &&& all_square(shapes@.take(k), dim)
                &&& !((#[trigger] shapes@[k]).0 == dim && shapes@[k].1 == dim)
                &&& r == Err::<(), ConstructionError>(
                    ConstructionError::OperatorShape { index: k as usize, rows: shapes@[k].0, cols: shapes@[k].1 },
                )
            },
{
    let mut k: usize = 0;
    while k < shapes.len()
        invariant
            k <= shapes.len(),
            all_square(shapes@.take(k as int), dim),
        decreases shapes.len() - k,
    {
        let (rows, cols) = shapes[k];
        if rows != dim || cols != dim {
            assert(!(shapes@[k as int].0 == dim && shapes@[k as int].1 == dim));
            return Err(ConstructionError::OperatorShape { index: k, rows, cols });
        }
        assert(shapes@.take(k as int + 1) =~= shapes@.take(k as int).push(shapes@[k as int]));
        k = k + 1;
    }
    assert(shapes@.take(k as int) =~= shapes@);
    Ok(())
}

} // verus!
