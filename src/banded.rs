use vstd::prelude::*;

verus! {

/// A matrix that keeps only a contiguous band of diagonals: `lower` diagonals below the
/// main one and `upper` above it. Row `i` keeps `lower + upper + 1` slots; slot `b`
/// stands for column `i + b - lower`, and slots that fall outside the matrix hold `zero`.
#[derive(Clone, Debug)]
pub struct BandedArray<T> {
    data: Vec<Vec<T>>,
    lower: usize,
    upper: usize,
    n_cols: usize,
    zero: T,
}

/// The transpose of a banded matrix, read through the same band storage.
#[derive(Clone, Debug)]
pub struct TransposedBandedArray<T> {
    inner: BandedArray<T>,
}

/// `(i, j)` lies in the band `[i - lower, i + upper]` of row `i`.
pub open spec fn in_band(lower: nat, upper: nat, i: int, j: int) -> bool {
    i - lower <= j && j <= i + upper
}

/// Row `i` of `dense` keeps every entry outside the band a zero, as `is_zero` judges.
pub open spec fn band_covers<T, Z: Fn(&T) -> bool>(
    dense: Seq<Vec<T>>,
    is_zero: Z,
    lower: nat,
    upper: nat,
    rows: int,
) -> bool {
    forall|i: int, j: int|
        0 <= i < rows && 0 <= j < dense[i].len() && !in_band(lower, upper, i, j) ==> call_ensures(
            is_zero,
            (&#[trigger] dense[i]@[j],),
            true,
        )
}

/// `band` holds `dense` (a matrix of `n_cols` columns given by rows) with `zero` outside
/// its band: inside the band it keeps each entry of `dense`, and outside it `is_zero` holds
/// of every entry of `dense`.
pub open spec fn is_band_of<T: Copy, Z: Fn(&T) -> bool>(
    band: BandedArray<T>,
    dense: Seq<Vec<T>>,
    n_cols: usize,
    zero: T,
    is_zero: Z,
) -> bool {
    &&& band.wf()
    &&& band.rows() == dense.len()
    &&& band.cols() == n_cols
    &&& band.zero_value() == zero
    &&& band_covers(dense, is_zero, band.lower_width(), band.upper_width(), dense.len() as int)
    &&& forall|i: int, j: int|
        0 <= i < dense.len() && 0 <= j < n_cols && in_band(band.lower_width(), band.upper_width(), i, j)
            ==> band.entry(i, j) == #[trigger] dense[i]@[j]
}

/// Reading a band built from a dense matrix gives back the dense matrix: at every place
/// the stored entry is the dense one, or else it is `zero` where the dense entry is a zero.
/// Read through the transpose, place `(i, j)` gives what place `(j, i)` of the dense
/// matrix holds in the same sense.
pub proof fn lemma_band_reads_dense<T: Copy, Z: Fn(&T) -> bool>(
    band: BandedArray<T>,
    dense: Seq<Vec<T>>,
    n_cols: usize,
    zero: T,
    is_zero: Z,
    transposed: TransposedBandedArray<T>,
)
    requires
        is_band_of(band, dense, n_cols, zero, is_zero),
        transposed.inner_view() == band,
        forall|i: int| 0 <= i < dense.len() ==> (#[trigger] dense[i]).len() == n_cols,
    ensures
        forall|i: int, j: int|
            0 <= i < dense.len() && 0 <= j < n_cols ==> (band.entry(i, j) == #[trigger] dense[i]@[j]) || (
            band.entry(i, j) == zero && call_ensures(is_zero, (&dense[i]@[j],), true)),
        forall|i: int, j: int|
            0 <= j < dense.len() && 0 <= i < n_cols ==> (transposed.entry(i, j) == #[trigger] dense[j]@[i]) || (
            transposed.entry(i, j) == zero && call_ensures(is_zero, (&dense[j]@[i],), true)),
{
    assert forall|i: int, j: int| 0 <= i < dense.len() && 0 <= j < n_cols implies (band.entry(i, j)
        == #[trigger] dense[i]@[j]) || (band.entry(i, j) == zero && call_ensures(
        is_zero,
        (&dense[i]@[j],),
        true,
    )) by {
        if !in_band(band.lower_width(), band.upper_width(), i, j) {
            assert(band.entry(i, j) == band.zero_value());
        }
    }
    assert forall|i: int, j: int| 0 <= j < dense.len() && 0 <= i < n_cols implies (transposed.entry(i, j)
        == #[trigger] dense[j]@[i]) || (transposed.entry(i, j) == zero && call_ensures(
        is_zero,
        (&dense[j]@[i],),
        true,
    )) by {
        assert(transposed.entry(i, j) == band.entry(j, i));
        if !in_band(band.lower_width(), band.upper_width(), j, i) {
            assert(band.entry(j, i) == band.zero_value());
        }
    }
}

/// `width` is 0, or some entry of `dense` at distance `width` from the main diagonal
/// (below it for `side == -1`, above it for `side == 1`) is not a zero.
pub open spec fn edge_is_reached<T, Z: Fn(&T) -> bool>(dense: Seq<Vec<T>>, is_zero: Z, width: int, side: int) -> bool {
    width == 0 || exists|a: int, c: int|
        {
            &&& 0 <= a < dense.len()
            &&& 0 <= c < dense[a].len()
            &&& (c - a) * side == width
            &&& call_ensures(is_zero, (&#[trigger] dense[a]@[c],), false)
        }
}

/// `chain` folds `mul_add` over the products of `line(j)` with `v[j]`, for `j` from `lo`
/// up to `lo + chain.len() - 1`.
pub open spec fn is_line_fold<T, V, A, M: Fn(A, T, &V) -> A>(
    mul_add: M,
    line: spec_fn(int) -> T,
    v: Seq<V>,
    lo: int,
    chain: Seq<A>,
) -> bool {
    forall|k: int|
        0 <= k < chain.len() - 1 ==> call_ensures(mul_add, (chain[k], line(lo + k), &v[lo + k]), #[trigger] chain[k + 1])
}

/// `out` is an outcome of the product of `line` (of length `n`) with `v` taken over some
/// range `lo..lo + chain.len() - 1` outside which every entry of `line` is `zero`:
/// `mul_add` folded from an outcome of `start`.
pub open spec fn is_band_product<T, V, A, S: Fn() -> A, M: Fn(A, T, &V) -> A>(
    start: S,
    mul_add: M,
    line: spec_fn(int) -> T,
    zero: T,
    n: int,
    v: Seq<V>,
    out: A,
) -> bool {
    exists|lo: int, chain: Seq<A>|
        {
            &&& 0 <= lo
            &&& 1 <= chain.len()
            &&& lo + chain.len() - 1 <= n
            &&& forall|j: int| 0 <= j < n && !(lo <= j < lo + chain.len() - 1) ==> #[trigger] line(j) == zero
            &&& call_ensures(start, (), chain[0])
            &&& chain.last() == out
            &&& #[trigger] is_line_fold(mul_add, line, v, lo, chain)
        }
}

/// `out` is an outcome of the full product of `line` (of length `n`) with `v`:
/// `mul_add` folded from an outcome of `start` over every index `0..n`.
pub open spec fn is_full_product<T, V, A, S: Fn() -> A, M: Fn(A, T, &V) -> A>(
    start: S,
    mul_add: M,
    line: spec_fn(int) -> T,
    n: int,
    v: Seq<V>,
    out: A,
) -> bool {
    exists|chain: Seq<A>|
        {
            &&& chain.len() == n + 1
            &&& call_ensures(start, (), chain[0])
            &&& chain.last() == out
            &&& #[trigger] is_line_fold(mul_add, line, v, 0, chain)
        }
}

/// The product over the band agrees with the full product: where `start` and `mul_add`
/// give one outcome for given arguments and folding in a `zero` entry leaves the
/// accumulator as it is, every outcome of the one equals every outcome of the other.
pub proof fn lemma_band_product_is_full<T, V, A, S: Fn() -> A, M: Fn(A, T, &V) -> A>(
    start: S,
    mul_add: M,
    line: spec_fn(int) -> T,
    zero: T,
    n: int,
    v: Seq<V>,
    band_out: A,
    full_out: A,
)
    requires
        is_band_product(start, mul_add, line, zero, n, v, band_out),
        is_full_product(start, mul_add, line, n, v, full_out),
        forall|a: A, b: A| call_ensures(start, (), a) && call_ensures(start, (), b) ==> a == b,
        forall|a: A, t: T, x: &V, r1: A, r2: A|
            call_ensures(mul_add, (a, t, x), r1) && call_ensures(mul_add, (a, t, x), r2) ==> r1 == r2,
        absorbs(mul_add, zero),
    ensures
        band_out == full_out,
{
    let (lo, band) = choose|lo: int, chain: Seq<A>|
        {
            &&& 0 <= lo
            &&& 1 <= chain.len()
            &&& lo + chain.len() - 1 <= n
            &&& forall|j: int| 0 <= j < n && !(lo <= j < lo + chain.len() - 1) ==> #[trigger] line(j) == zero
            &&& call_ensures(start, (), chain[0])
            &&& chain.last() == band_out
            &&& #[trigger] is_line_fold(mul_add, line, v, lo, chain)
        };
    let full = choose|chain: Seq<A>|
        {
            &&& chain.len() == n + 1
            &&& call_ensures(start, (), chain[0])
            &&& chain.last() == full_out
            &&& #[trigger] is_line_fold(mul_add, line, v, 0, chain)
        };
    assert forall|k: int| 0 <= k < n && !(lo <= k < lo + band.len() - 1) implies absorbs(mul_add, #[trigger] line(k)) by {
        assert(line(k) == zero);
    }
    lemma_full_chain_follows_band(mul_add, line, line, n, v, lo, band, full, n);
}

/// Folding `t` in with `mul_add` leaves the accumulator as it is.
pub open spec fn absorbs<T, V, A, M: Fn(A, T, &V) -> A>(mul_add: M, t: T) -> bool {
    forall|a: A, x: &V, r: A| call_ensures(mul_add, (a, t, x), r) ==> r == a
}

proof fn lemma_full_chain_follows_band<T, V, A, M: Fn(A, T, &V) -> A>(
    mul_add: M,
    band_line: spec_fn(int) -> T,
    full_line: spec_fn(int) -> T,
    n: int,
    v: Seq<V>,
    lo: int,
    band: Seq<A>,
    full: Seq<A>,
    j: int,
)
    requires
        0 <= lo,
        1 <= band.len(),
        lo + band.len() - 1 <= n,
        forall|k: int| 0 <= k < n && !(lo <= k < lo + band.len() - 1) ==> absorbs(mul_add, #[trigger] full_line(k)),
        forall|k: int|
            lo <= k < lo + band.len() - 1 ==> #[trigger] band_line(k) == full_line(k) || (absorbs(
                mul_add,
                band_line(k),
            ) && absorbs(mul_add, full_line(k))),
        is_line_fold(mul_add, band_line, v, lo, band),
        full.len() == n + 1,
        is_line_fold(mul_add, full_line, v, 0, full),
        full[0] == band[0],
        0 <= j <= n,
        forall|a: A, t: T, x: &V, r1: A, r2: A|
            call_ensures(mul_add, (a, t, x), r1) && call_ensures(mul_add, (a, t, x), r2) ==> r1 == r2,
    ensures
        full[j] == (if j <= lo {
            band[0]
        } else if j < lo + band.len() {
            band[j - lo]
        } else {
            band.last()
        }),
    decreases j,
{
    if j > 0 {
        lemma_full_chain_follows_band(mul_add, band_line, full_line, n, v, lo, band, full, j - 1);
        let k = j - 1;
        assert(call_ensures(mul_add, (full[k], full_line(0 + k), &v[0 + k]), full[k + 1]));
        if lo <= k && k < lo + band.len() - 1 {
            assert(call_ensures(
                mul_add,
                (band[k - lo], band_line(lo + (k - lo)), &v[lo + (k - lo)]),
                band[(k - lo) + 1],
            ));
            if band_line(k) != full_line(k) {
                assert(absorbs(mul_add, band_line(k)) && absorbs(mul_add, full_line(k)));
            }
        } else {
            assert(absorbs(mul_add, full_line(k)));
        }
    }
}

/// Row `i` of `dense`, or with `transposed` its column `i`, as a function of the other index.
pub open spec fn dense_line<T>(dense: Seq<Vec<T>>, i: int, transposed: bool) -> spec_fn(int) -> T {
    |j: int|
        if transposed {
            dense[j]@[i]
        } else {
            dense[i]@[j]
        }
}

/// The product of a band built from a dense matrix, or of its transpose, agrees with the
/// product of the dense matrix, or of its transpose: where `start` and `mul_add` give one
/// outcome for given arguments, and folding in `zero` or an entry that `is_zero` judges a
/// zero leaves the accumulator as it is, every outcome of entry `i` of the band product
/// equals every outcome of the full product of line `i` of `dense` with `v`.
pub proof fn lemma_band_dot_is_dense_dot<T: Copy, V, A, Z: Fn(&T) -> bool, S: Fn() -> A, M: Fn(A, T, &V) -> A>(
    band: BandedArray<T>,
    dense: Seq<Vec<T>>,
    n_cols: usize,
    zero: T,
    is_zero: Z,
    transposed: bool,
    start: S,
    mul_add: M,
    v: Seq<V>,
    i: int,
    band_out: A,
    dense_out: A,
)
    requires
        is_band_of(band, dense, n_cols, zero, is_zero),
        forall|k: int| 0 <= k < dense.len() ==> (#[trigger] dense[k]).len() == n_cols,
        0 <= i < (if transposed { n_cols as int } else { dense.len() as int }),
        is_band_product(
            start,
            mul_add,
            band.line(i, transposed),
            zero,
            if transposed { dense.len() as int } else { n_cols as int },
            v,
            band_out,
        ),
        is_full_product(
            start,
            mul_add,
            dense_line(dense, i, transposed),
            if transposed { dense.len() as int } else { n_cols as int },
            v,
            dense_out,
        ),
        forall|a: A, b: A| call_ensures(start, (), a) && call_ensures(start, (), b) ==> a == b,
        forall|a: A, t: T, x: &V, r1: A, r2: A|
            call_ensures(mul_add, (a, t, x), r1) && call_ensures(mul_add, (a, t, x), r2) ==> r1 == r2,
        absorbs(mul_add, zero),
        forall|t: T| call_ensures(is_zero, (&t,), true) ==> absorbs(mul_add, t),
    ensures
        band_out == dense_out,
{
    let n: int = if transposed { dense.len() as int } else { n_cols as int };
    let band_line = band.line(i, transposed);
    let full_line = dense_line(dense, i, transposed);
    let (lo, chain) = choose|lo: int, chain: Seq<A>|
        {
            &&& 0 <= lo
            &&& 1 <= chain.len()
            &&& lo + chain.len() - 1 <= n
            &&& forall|j: int| 0 <= j < n && !(lo <= j < lo + chain.len() - 1) ==> #[trigger] band_line(j) == zero
            &&& call_ensures(start, (), chain[0])
            &&& chain.last() == band_out
            &&& #[trigger] is_line_fold(mul_add, band_line, v, lo, chain)
        };
    let full = choose|c: Seq<A>|
        {
            &&& c.len() == n + 1
            &&& call_ensures(start, (), c[0])
            &&& c.last() == dense_out
            &&& #[trigger] is_line_fold(mul_add, full_line, v, 0, c)
        };
    let t = TransposedBandedArray { inner: band };
    lemma_band_reads_dense(band, dense, n_cols, zero, is_zero, t);
    assert forall|k: int| 0 <= k < n implies #[trigger] band_line(k) == full_line(k) || (
    band_line(k) == zero && call_ensures(is_zero, (&full_line(k),), true)) by {
        if transposed {
            assert(band_line(k) == band.entry(k, i));
            assert(t.entry(i, k) == band.entry(k, i));
            assert(full_line(k) == dense[k]@[i]);
        } else {
            assert(band_line(k) == band.entry(i, k));
            assert(full_line(k) == dense[i]@[k]);
        }
    }
    assert forall|k: int| 0 <= k < n && !(lo <= k < lo + chain.len() - 1) implies absorbs(
        mul_add,
        #[trigger] full_line(k),
    ) by {
        assert(band_line(k) == zero);
    }
    assert forall|k: int| lo <= k < lo + chain.len() - 1 implies #[trigger] band_line(k) == full_line(k) || (
    absorbs(mul_add, band_line(k)) && absorbs(mul_add, full_line(k))) by {
        assert(band_line(k) == full_line(k) || (band_line(k) == zero && call_ensures(
            is_zero,
            (&full_line(k),),
            true,
        )));
    }
    lemma_full_chain_follows_band(mul_add, band_line, full_line, n, v, lo, chain, full, n);
}

impl<T: Copy> BandedArray<T> {
    /// Row `i` of the matrix, or with `transposed` its column `i`, as a function of the
    /// other index.
    pub open spec fn line(&self, i: int, transposed: bool) -> spec_fn(int) -> T {
        |j: int|
            if transposed {
                self.entry(j, i)
            } else {
                self.entry(i, j)
            }
    }

    pub closed spec fn wf(&self) -> bool {
        &&& self.lower + self.upper + 1 <= usize::MAX
        &&& self.lower <= self.data.len()
        &&& self.upper <= self.n_cols
        &&& self.data.len() + self.n_cols <= usize::MAX
        &&& forall|i: int|
            0 <= i < self.data.len() ==> (#[trigger] self.data[i]).len() == self.lower + self.upper + 1
    }

    pub closed spec fn rows(&self) -> nat {
        self.data.len() as nat
    }

    pub closed spec fn cols(&self) -> nat {
        self.n_cols as nat
    }

    pub closed spec fn lower_width(&self) -> nat {
        self.lower as nat
    }

    pub closed spec fn upper_width(&self) -> nat {
        self.upper as nat
    }

    pub closed spec fn zero_value(&self) -> T {
        self.zero
    }

    /// The matrix entry at `(i, j)`: the stored value inside the band, `zero` outside it.
    pub closed spec fn entry(&self, i: int, j: int) -> T {
        if in_band(self.lower as nat, self.upper as nat, i, j) {
            self.data[i]@[j - i + self.lower]
        } else {
            self.zero
        }
    }

    /// Builds the band of `dense`, a matrix of `n_cols` columns given by rows: the
    /// narrowest band outside which `is_zero` holds of every entry (each edge of the band
    /// is the main diagonal or holds an entry that is not a zero). Inside the band every
    /// entry equals the one of `dense`; outside it every entry is `zero`.
    pub fn from_dense<Z: Fn(&T) -> bool>(dense: &Vec<Vec<T>>, n_cols: usize, zero: T, is_zero: &Z) -> (r: Self)
        requires
            dense.len() + n_cols <= usize::MAX,
            forall|i: int| 0 <= i < dense.len() ==> (#[trigger] dense[i]).len() == n_cols,
            forall|t: &T| call_requires(*is_zero, (t,)),
        ensures
            is_band_of(r, dense@, n_cols, zero, *is_zero),
            edge_is_reached(dense@, *is_zero, r.lower_width() as int, -1),
            edge_is_reached(dense@, *is_zero, r.upper_width() as int, 1),
    {
        let n_rows = dense.len();
        let mut lower: usize = 0;
        let mut upper: usize = 0;
        let mut i: usize = 0;
        while i < n_rows
            invariant
                n_rows == dense.len(),
                n_rows + n_cols <= usize::MAX,
                i <= n_rows,
                lower < n_rows || lower == 0,
                upper < n_cols || upper == 0,
                forall|k: int| 0 <= k < dense.len() ==> (#[trigger] dense[k]).len() == n_cols,
                forall|t: &T| call_requires(*is_zero, (t,)),
                band_covers(dense@, *is_zero, lower as nat, upper as nat, i as int),
                edge_is_reached(dense@, *is_zero, lower as int, -1),
                edge_is_reached(dense@, *is_zero, upper as int, 1),
            decreases n_rows - i,
        {
            let row = &dense[i];
            let mut j: usize = 0;
            while j < n_cols
                invariant
                    n_rows == dense.len(),
                    n_rows + n_cols <= usize::MAX,
                    i < n_rows,
                    j <= n_cols,
                    row == dense[i as int],
                    lower < n_rows || lower == 0,
                    upper < n_cols || upper == 0,
                    forall|k: int| 0 <= k < dense.len() ==> (#[trigger] dense[k]).len() == n_cols,
                    forall|t: &T| call_requires(*is_zero, (t,)),
                    band_covers(dense@, *is_zero, lower as nat, upper as nat, i as int),
                    edge_is_reached(dense@, *is_zero, lower as int, -1),
                    edge_is_reached(dense@, *is_zero, upper as int, 1),
                    forall|c: int|
                        0 <= c < j && !in_band(lower as nat, upper as nat, i as int, c) ==> call_ensures(
                            *is_zero,
                            (&#[trigger] dense[i as int]@[c],),
                            true,
                        ),
                decreases n_cols - j,
            {
                let ghost old_lower = lower;
                let ghost old_upper = upper;
                let zero_here = is_zero(&row[j]);
                assert(call_ensures(*is_zero, (&dense[i as int]@[j as int],), zero_here));
                if !zero_here {
                    if i > j && i - j > lower {
                        lower = i - j;
                        assert((j - i) * -1 == lower as int);
                    }
                    if j > i && j - i > upper {
                        upper = j - i;
                        assert((j - i) * 1 == upper as int);
                    }
                }
                assert(i - lower <= i - old_lower && i + old_upper <= i + upper);
                assert(!zero_here ==> in_band(lower as nat, upper as nat, i as int, j as int));
                assert forall|a: int, c: int|
                    0 <= a < i && 0 <= c < dense[a].len() && !in_band(lower as nat, upper as nat, a, c)
                        implies call_ensures(*is_zero, (&#[trigger] dense[a]@[c],), true) by {
                    assert(!in_band(old_lower as nat, old_upper as nat, a, c));
                }
                assert forall|c: int|
                    0 <= c < j + 1 && !in_band(lower as nat, upper as nat, i as int, c) implies call_ensures(
                        *is_zero,
                        (&#[trigger] dense[i as int]@[c],),
                        true,
                    ) by {
                    if c < j {
                        assert(!in_band(old_lower as nat, old_upper as nat, i as int, c));
                    }
                }
                j = j + 1;
            }
            i = i + 1;
        }
        let width: usize = lower + upper + 1;
        let mut data: Vec<Vec<T>> = Vec::new();
        let mut r: usize = 0;
        while r < n_rows
            invariant
                n_rows == dense.len(),
                n_rows + n_cols <= usize::MAX,
                lower < n_rows || lower == 0,
                upper < n_cols || upper == 0,
                width == lower + upper + 1,
                r <= n_rows,
                data.len() == r,
                forall|k: int| 0 <= k < dense.len() ==> (#[trigger] dense[k]).len() == n_cols,
                forall|k: int| 0 <= k < r ==> (#[trigger] data[k]).len() == width,
                forall|k: int, b: int|
                    0 <= k < r && 0 <= b < width && 0 <= k + b - lower < n_cols ==> #[trigger] data[k]@[b]
                        == dense[k]@[k + b - lower],
            decreases n_rows - r,
        {
            let mut slots: Vec<T> = Vec::new();
            let mut b: usize = 0;
            while b < width
                invariant
                    n_rows == dense.len(),
                    n_rows + n_cols <= usize::MAX,
                    lower < n_rows || lower == 0,
                    upper < n_cols || upper == 0,
                    width == lower + upper + 1,
                    r < n_rows,
                    b <= width,
                    slots.len() == b,
                    forall|k: int| 0 <= k < dense.len() ==> (#[trigger] dense[k]).len() == n_cols,
                    forall|c: int|
                        0 <= c < b && 0 <= r + c - lower < n_cols ==> #[trigger] slots@[c] == dense[r as int]@[r
                            + c - lower],
                decreases width - b,
            {
                if b >= lower && r + (b - lower) < n_cols {
                    slots.push(dense[r][r + (b - lower)]);
                } else if b < lower && r >= lower - b && r - (lower - b) < n_cols {
                    slots.push(dense[r][r - (lower - b)]);
                } else {
                    slots.push(zero);
                }
                b = b + 1;
            }
            data.push(slots);
            r = r + 1;
        }
        let out = BandedArray { data, lower, upper, n_cols, zero };
        assert forall|i: int, j: int|
            0 <= i < dense.len() && 0 <= j < n_cols && in_band(lower as nat, upper as nat, i, j)
                implies out.entry(i, j) == #[trigger] dense[i]@[j] by {
            assert(out.data[i]@[j - i + lower] == dense[i]@[i + (j - i + lower) - lower]);
        }
        out
    }

    /// The number of rows.
    pub fn n_rows(&self) -> (r: usize)
        ensures
            r == self.rows(),
    {
        self.data.len()
    }

    /// The number of columns.
    pub fn n_cols(&self) -> (r: usize)
        ensures
            r == self.cols(),
    {
        self.n_cols
    }

    /// The entry at `(i, j)`.
    pub fn get(&self, i: usize, j: usize) -> (r: T)
        requires
            self.wf(),
            i < self.rows(),
            j < self.cols(),
        ensures
            r == self.entry(i as int, j as int),
    {
        if i <= j + self.lower && j <= i + self.upper {
            self.data[i][j + self.lower - i]
        } else {
            self.zero
        }
    }

    /// The columns `lo..hi` of row `i` that the band covers; every entry of row `i`
    /// outside them is `zero`.
    pub fn row_band(&self, i: usize) -> (r: (usize, usize))
        requires
            self.wf(),
            i < self.rows(),
        ensures
            r.0 <= r.1 <= self.cols(),
            forall|j: int| 0 <= j < self.cols() && !(r.0 <= j < r.1) ==> self.entry(i as int, j) == self.zero_value(),
            forall|j: int| r.0 <= j < r.1 ==> in_band(self.lower_width(), self.upper_width(), i as int, j),
    {
        let lo: usize = if i > self.lower { i - self.lower } else { 0 };
        let hi_band: usize = i + self.upper + 1;
        let hi: usize = if hi_band < self.n_cols { hi_band } else { self.n_cols };
        let hi2: usize = if hi < lo { lo } else { hi };
        if lo > self.n_cols {
            (self.n_cols, self.n_cols)
        } else {
            (lo, hi2)
        }
    }

    /// The rows `lo..hi` whose band covers column `j`; every entry of column `j` outside
    /// them is `zero`.
    fn col_band(&self, j: usize) -> (r: (usize, usize))
        requires
            self.wf(),
            j < self.cols(),
        ensures
            r.0 <= r.1 <= self.rows(),
            forall|i: int| 0 <= i < self.rows() && !(r.0 <= i < r.1) ==> self.entry(i, j as int) == self.zero_value(),
    {
        let n_rows = self.data.len();
        let lo: usize = if j > self.upper { j - self.upper } else { 0 };
        let hi_band: usize = j + self.lower + 1;
        let hi: usize = if hi_band < n_rows { hi_band } else { n_rows };
        if lo > hi {
            (hi, hi)
        } else {
            (lo, hi)
        }
    }

    /// Folds `mul_add` from an outcome of `start` over the entries `lo..hi` of row `i`
    /// (column `i` with `transposed`) and the same entries of `v`.
    fn fold_line<V, A, S: Fn() -> A, M: Fn(A, T, &V) -> A>(
        &self,
        i: usize,
        transposed: bool,
        lo: usize,
        hi: usize,
        v: &Vec<V>,
        start: &S,
        mul_add: &M,
    ) -> (r: A)
        requires
            self.wf(),
            lo <= hi <= v.len(),
            transposed ==> i < self.cols() && hi <= self.rows(),
            !transposed ==> i < self.rows() && hi <= self.cols(),
            call_requires(*start, ()),
            forall|a: A, t: T, x: &V| call_requires(*mul_add, (a, t, x)),
        ensures
            exists|chain: Seq<A>|
                {
                    &&& chain.len() == hi - lo + 1
                    &&& call_ensures(*start, (), chain[0])
                    &&& chain[hi - lo] == r
                    &&& is_line_fold(*mul_add, self.line(i as int, transposed), v@, lo as int, chain)
                },
    {
        let first = start();
        let ghost init = first;
        let mut acc = first;
        let ghost mut chain: Seq<A> = seq![init];
        let mut j: usize = lo;
        while j < hi
            invariant
                self.wf(),
                lo <= j <= hi <= v.len(),
                transposed ==> i < self.cols() && hi <= self.rows(),
                !transposed ==> i < self.rows() && hi <= self.cols(),
                forall|a: A, t: T, x: &V| call_requires(*mul_add, (a, t, x)),
                chain.len() == j - lo + 1,
                call_ensures(*start, (), chain[0]),
                chain[j - lo] == acc,
                is_line_fold(*mul_add, self.line(i as int, transposed), v@, lo as int, chain),
            decreases hi - j,
        {
            let t = if transposed {
                self.get(j, i)
            } else {
                self.get(i, j)
            };
            assert(t == self.line(i as int, transposed)(j as int));
            let next = mul_add(acc, t, &v[j]);
            proof {
                let before = chain;
                chain = chain.push(next);
                assert forall|k: int| 0 <= k < chain.len() - 1 implies call_ensures(
                    *mul_add,
                    (chain[k], self.line(i as int, transposed)(lo + k), &v@[lo + k]),
                    #[trigger] chain[k + 1],
                ) by {
                    if k < j - lo {
                        assert(chain[k] == before[k]);
                        assert(chain[k + 1] == before[k + 1]);
                    }
                }
            }
            acc = next;
            j = j + 1;
        }
        acc
    }

    /// The product with `v` of every row (of every column, with `transposed`), over the band.
    fn product<V, A, S: Fn() -> A, M: Fn(A, T, &V) -> A>(
        &self,
        transposed: bool,
        v: &Vec<V>,
        start: &S,
        mul_add: &M,
    ) -> (r: Vec<A>)
        requires
            self.wf(),
            v.len() == if transposed { self.rows() } else { self.cols() },
            call_requires(*start, ()),
            forall|a: A, t: T, x: &V| call_requires(*mul_add, (a, t, x)),
        ensures
            r.len() == if transposed { self.cols() } else { self.rows() },
            forall|i: int|
                0 <= i < r.len() ==> is_band_product(
                    *start,
                    *mul_add,
                    self.line(i, transposed),
                    self.zero,
                    v.len() as int,
                    v@,
                    #[trigger] r[i],
                ),
    {
        let n: usize = if transposed { self.n_cols } else { self.data.len() };
        let mut out: Vec<A> = Vec::new();
        let mut i: usize = 0;
        while i < n
            invariant
                self.wf(),
                n == if transposed { self.cols() } else { self.rows() },
                v.len() == if transposed { self.rows() } else { self.cols() },
                call_requires(*start, ()),
                forall|a: A, t: T, x: &V| call_requires(*mul_add, (a, t, x)),
                i <= n,
                out.len() == i,
                forall|k: int|
                    0 <= k < i ==> is_band_product(
                        *start,
                        *mul_add,
                        self.line(k, transposed),
                        self.zero,
                        v.len() as int,
                        v@,
                        #[trigger] out[k],
                    ),
            decreases n - i,
        {
            let (lo, hi) = if transposed {
                self.col_band(i)
            } else {
                self.row_band(i)
            };
            let x = self.fold_line(i, transposed, lo, hi, v, start, mul_add);
            proof {
                let line = self.line(i as int, transposed);
                let chain = choose|chain: Seq<A>|
                    {
                        &&& chain.len() == hi - lo + 1
                        &&& call_ensures(*start, (), chain[0])
                        &&& chain[hi - lo] == x
                        &&& is_line_fold(*mul_add, line, v@, lo as int, chain)
                    };
                assert forall|j: int| 0 <= j < v.len() && !(lo <= j < hi) implies #[trigger] line(j) == self.zero by {
                    if transposed {
                        assert(line(j) == self.entry(j, i as int));
                    } else {
                        assert(line(j) == self.entry(i as int, j));
                    }
                }
                assert(chain.last() == x);
                assert(is_band_product(*start, *mul_add, line, self.zero, v.len() as int, v@, x));
            }
            let ghost before = out@;
            out.push(x);
            assert forall|k: int|
                0 <= k < i + 1 implies is_band_product(
                *start,
                *mul_add,
                self.line(k, transposed),
                self.zero,
                v.len() as int,
                v@,
                #[trigger] out[k],
            ) by {
                if k < i {
                    assert(out[k] == before[k]);
                }
            }
            i = i + 1;
        }
        out
    }

    /// The product of the matrix with `v`, over the band only: entry `i` of the result
    /// folds `mul_add` from an outcome of `start` over the columns `lo..hi` that the band
    /// covers in row `i`, every other entry of that row being `zero`.
    pub fn dot<V, A, S: Fn() -> A, M: Fn(A, T, &V) -> A>(&self, v: &Vec<V>, start: &S, mul_add: &M) -> (r: Vec<A>)
        requires
            self.wf(),
            v.len() == self.cols(),
            call_requires(*start, ()),
            forall|a: A, t: T, x: &V| call_requires(*mul_add, (a, t, x)),
        ensures
            r.len() == self.rows(),
            forall|i: int|
                0 <= i < r.len() ==> is_band_product(
                    *start,
                    *mul_add,
                    self.line(i, false),
                    self.zero_value(),
                    v.len() as int,
                    v@,
                    #[trigger] r[i],
                ),
    {
        self.product(false, v, start, mul_add)
    }

    /// Applies `f` to every stored entry (a conjugation, say), keeping the band and `zero`.
    pub fn map_entries<M: Fn(&T) -> T>(self, f: &M) -> (r: Self)
        requires
            self.wf(),
            forall|t: &T| call_requires(*f, (t,)),
        ensures
            r.wf(),
            r.rows() == self.rows(),
            r.cols() == self.cols(),
            r.lower_width() == self.lower_width(),
            r.upper_width() == self.upper_width(),
            r.zero_value() == self.zero_value(),
            forall|i: int, j: int|
                0 <= i < self.rows() && in_band(self.lower_width(), self.upper_width(), i, j) ==> call_ensures(
                    *f,
                    (&self.entry(i, j),),
                    #[trigger] r.entry(i, j),
                ),
    {
        let width: usize = self.lower + self.upper + 1;
        let mut data: Vec<Vec<T>> = Vec::new();
        let mut i: usize = 0;
        while i < self.data.len()
            invariant
                self.wf(),
                width == self.lower + self.upper + 1,
                forall|t: &T| call_requires(*f, (t,)),
                i <= self.data.len(),
                data.len() == i,
                forall|k: int| 0 <= k < i ==> (#[trigger] data[k]).len() == width,
                forall|k: int, b: int|
                    0 <= k < i && 0 <= b < width ==> call_ensures(*f, (&self.data[k]@[b],), #[trigger] data[k]@[b]),
            decreases self.data.len() - i,
        {
            let mut slots: Vec<T> = Vec::new();
            let mut b: usize = 0;
            while b < width
                invariant
                    self.wf(),
                    width == self.lower + self.upper + 1,
                    forall|t: &T| call_requires(*f, (t,)),
                    i < self.data.len(),
                    b <= width,
                    slots.len() == b,
                    forall|c: int| 0 <= c < b ==> call_ensures(*f, (&self.data[i as int]@[c],), #[trigger] slots@[c]),
                decreases width - b,
            {
                slots.push(f(&self.data[i][b]));
                b = b + 1;
            }
            data.push(slots);
            i = i + 1;
        }
        let r = BandedArray { data, lower: self.lower, upper: self.upper, n_cols: self.n_cols, zero: self.zero };
        assert forall|i: int, j: int|
            0 <= i < self.rows() && in_band(self.lower_width(), self.upper_width(), i, j) implies call_ensures(
            *f,
            (&self.entry(i, j),),
            #[trigger] r.entry(i, j),
        ) by {
            assert(0 <= j - i + self.lower < width);
        }
        r
    }

    /// The transpose, kept in the same storage.
    pub fn transpose(self) -> (r: TransposedBandedArray<T>)
        ensures
            r.inner_view() == self,
    {
        TransposedBandedArray { inner: self }
    }
}

impl<T: Copy> TransposedBandedArray<T> {
    pub closed spec fn inner_view(&self) -> BandedArray<T> {
        self.inner
    }

    /// The entry at `(i, j)`: the entry at `(j, i)` of the stored matrix.
    pub open spec fn entry(&self, i: int, j: int) -> T {
        self.inner_view().entry(j, i)
    }

    /// The number of rows: the columns of the stored matrix.
    pub fn n_rows(&self) -> (r: usize)
        ensures
            r == self.inner_view().cols(),
    {
        self.inner.n_cols
    }

    /// The number of columns: the rows of the stored matrix.
    pub fn n_cols(&self) -> (r: usize)
        ensures
            r == self.inner_view().rows(),
    {
        self.inner.data.len()
    }

    /// The entry at `(i, j)`, which is the entry at `(j, i)` of the stored matrix.
    pub fn get(&self, i: usize, j: usize) -> (r: T)
        requires
            self.inner_view().wf(),
            i < self.inner_view().cols(),
            j < self.inner_view().rows(),
        ensures
            r == self.entry(i as int, j as int),
    {
        self.inner.get(j, i)
    }

    /// The rows `lo..hi` of the stored matrix whose band covers column `i`; every entry of
    /// row `i` of the transpose outside them is `zero`.
    pub fn row_band(&self, i: usize) -> (r: (usize, usize))
        requires
            self.inner_view().wf(),
            i < self.inner_view().cols(),
        ensures
            r.0 <= r.1 <= self.inner_view().rows(),
            forall|j: int|
                0 <= j < self.inner_view().rows() && !(r.0 <= j < r.1) ==> self.inner_view().entry(j, i as int)
                    == self.inner_view().zero_value(),
    {
        self.inner.col_band(i)
    }

    /// The product of the transpose with `v`, over the band only: entry `i` of the result
    /// folds `mul_add` from an outcome of `start` over the columns `lo..hi` that the band
    /// covers in row `i`, every other entry of that row being `zero`.
    pub fn dot<V, A, S: Fn() -> A, M: Fn(A, T, &V) -> A>(&self, v: &Vec<V>, start: &S, mul_add: &M) -> (r: Vec<A>)
        requires
            self.inner_view().wf(),
            v.len() == self.inner_view().rows(),
            call_requires(*start, ()),
            forall|a: A, t: T, x: &V| call_requires(*mul_add, (a, t, x)),
        ensures
            r.len() == self.inner_view().cols(),
            forall|i: int|
                0 <= i < r.len() ==> is_band_product(
                    *start,
                    *mul_add,
                    self.inner_view().line(i, true),
                    self.inner_view().zero_value(),
                    v.len() as int,
                    v@,
                    #[trigger] r[i],
                ),
    {
        self.inner.product(true, v, start, mul_add)
    }
}

} // verus!
