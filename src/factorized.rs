use vstd::prelude::*;

use crate::shape::ShapeError;

verus! {

/// A rank-one operator `amplitude |ket><bra|`: applied to `v` it gives
/// `ket * ((bra . v) * amplitude)`.
#[derive(Clone, Debug)]
pub struct FactorizedArray<T> {
    amplitude: T,
    bra: Vec<T>,
    ket: Vec<T>,
}

/// `chain` folds `mul_add` over the products of `bra[k]` with `v[k]`, from `chain[0]`.
pub open spec fn is_overlap_fold<T, V, A, M: Fn(A, &T, &V) -> A>(
    mul_add: M,
    bra: Seq<T>,
    v: Seq<V>,
    chain: Seq<A>,
) -> bool {
    &&& chain.len() == bra.len() + 1
    &&& forall|k: int|
        0 <= k < bra.len() ==> call_ensures(mul_add, (chain[k], &bra[k], &v[k]), #[trigger] chain[k + 1])
}

impl<T: Copy> FactorizedArray<T> {
    pub closed spec fn amplitude_view(&self) -> T {
        self.amplitude
    }

    pub closed spec fn bra_view(&self) -> Seq<T> {
        self.bra@
    }

    pub closed spec fn ket_view(&self) -> Seq<T> {
        self.ket@
    }

    /// The operator `amplitude |ket><bra|`; the bra and the ket must have one length.
    pub fn from_bra_ket(amplitude: T, bra: Vec<T>, ket: Vec<T>) -> (r: Result<Self, ShapeError>)
        ensures
            r is Ok <==> bra.len() == ket.len(),
            r matches Ok(f) ==> f.amplitude_view() == amplitude && f.bra_view() == bra@ && f.ket_view() == ket@,
            r is Err ==> r == Err::<Self, ShapeError>(ShapeError { expected: bra.len(), found: ket.len() }),
    {
        if bra.len() == ket.len() {
            Ok(FactorizedArray { amplitude, bra, ket })
        } else {
            Err(ShapeError { expected: bra.len(), found: ket.len() })
        }
    }

    /// The dimension of the states it acts on.
    pub fn dim(&self) -> (r: usize)
        ensures
            r == self.bra_view().len(),
    {
        self.bra.len()
    }

    /// The transpose `amplitude |bra><ket|`: the bra and the ket change places.
    pub fn transpose(self) -> (r: Self)
        ensures
            r.amplitude_view() == self.amplitude_view(),
            r.bra_view() == self.ket_view(),
            r.ket_view() == self.bra_view(),
    {
        FactorizedArray { amplitude: self.amplitude, bra: self.ket, ket: self.bra }
    }

    /// Applies `f` (a conjugation, say) to the amplitude and to every entry of the bra
    /// and the ket.
    pub fn map_entries<M: Fn(&T) -> T>(self, f: &M) -> (r: Self)
        requires
            forall|t: &T| call_requires(*f, (t,)),
        ensures
            call_ensures(*f, (&self.amplitude_view(),), r.amplitude_view()),
            r.bra_view().len() == self.bra_view().len(),
            r.ket_view().len() == self.ket_view().len(),
            forall|k: int|
                0 <= k < self.bra_view().len() ==> call_ensures(*f, (&self.bra_view()[k],), #[trigger] r.bra_view()[k]),
            forall|k: int|
                0 <= k < self.ket_view().len() ==> call_ensures(*f, (&self.ket_view()[k],), #[trigger] r.ket_view()[k]),
    {
        let amplitude = f(&self.amplitude);
        let bra = map_vec(&self.bra, f);
        let ket = map_vec(&self.ket, f);
        FactorizedArray { amplitude, bra, ket }
    }

    /// Applies the operator to `v`: `overlap` is `mul_add` folded from an outcome of
    /// `start` over `bra[k]` and `v[k]`, `scale` an outcome of `times(overlap, amplitude)`,
    /// and entry `i` of the result an outcome of `times(ket[i], scale)`.
    pub fn dot<V, S: Fn() -> T, M: Fn(T, &T, &V) -> T, P: Fn(&T, &T) -> T>(
        &self,
        v: &Vec<V>,
        start: &S,
        mul_add: &M,
        times: &P,
    ) -> (r: Vec<T>)
        requires
            v.len() == self.bra_view().len(),
            call_requires(*start, ()),
            forall|a: T, t: &T, x: &V| call_requires(*mul_add, (a, t, x)),
            forall|a: &T, b: &T| call_requires(*times, (a, b)),
        ensures
            r.len() == self.ket_view().len(),
            exists|chain: Seq<T>, scale: T|
                {
                    &&& call_ensures(*start, (), chain[0])
                    &&& #[trigger] is_overlap_fold(*mul_add, self.bra_view(), v@, chain)
                    &&& #[trigger] call_ensures(*times, (&chain.last(), &self.amplitude_view()), scale)
                    &&& forall|i: int|
                        0 <= i < r.len() ==> call_ensures(*times, (&self.ket_view()[i], &scale), #[trigger] r[i])
                },
    {
        let first = start();
        let ghost init = first;
        let mut acc = first;
        let ghost mut chain: Seq<T> = seq![init];
        let mut k: usize = 0;
        while k < self.bra.len()
            invariant
                v.len() == self.bra.len(),
                forall|a: T, t: &T, x: &V| call_requires(*mul_add, (a, t, x)),
                k <= self.bra.len(),
                chain.len() == k + 1,
                chain[0] == init,
                chain[k as int] == acc,
                forall|j: int|
                    0 <= j < k ==> call_ensures(*mul_add, (chain[j], &self.bra@[j], &v@[j]), #[trigger] chain[j + 1]),
            decreases self.bra.len() - k,
        {
            let next = mul_add(acc, &self.bra[k], &v[k]);
            proof {
                let before = chain;
                chain = chain.push(next);
                assert forall|j: int| 0 <= j < k + 1 implies call_ensures(
                    *mul_add,
                    (chain[j], &self.bra@[j], &v@[j]),
                    #[trigger] chain[j + 1],
                ) by {
                    if j < k {
                        assert(chain[j] == before[j]);
                        assert(chain[j + 1] == before[j + 1]);
                    }
                }
            }
            acc = next;
            k = k + 1;
        }
        assert(is_overlap_fold(*mul_add, self.bra@, v@, chain));
        let scale = times(&acc, &self.amplitude);
        let mut out: Vec<T> = Vec::new();
        let mut i: usize = 0;
        while i < self.ket.len()
            invariant
                forall|a: &T, b: &T| call_requires(*times, (a, b)),
                i <= self.ket.len(),
                out.len() == i,
                forall|j: int| 0 <= j < i ==> call_ensures(*times, (&self.ket@[j], &scale), #[trigger] out[j]),
            decreases self.ket.len() - i,
        {
            out.push(times(&self.ket[i], &scale));
            i = i + 1;
        }
        assert(chain.last() == acc);
        assert(call_ensures(*start, (), chain[0]));
        assert(call_ensures(*times, (&chain.last(), &self.amplitude_view()), scale));
        assert(is_overlap_fold(*mul_add, self.bra_view(), v@, chain));
        out
    }
}

/// Applies `f` to every entry of `v`.
fn map_vec<T, M: Fn(&T) -> T>(v: &Vec<T>, f: &M) -> (r: Vec<T>)
    requires
        forall|t: &T| call_requires(*f, (t,)),
    ensures
        r.len() == v.len(),
        forall|k: int| 0 <= k < v.len() ==> call_ensures(*f, (&v@[k],), #[trigger] r@[k]),
{
    let mut out: Vec<T> = Vec::new();
    let mut k: usize = 0;
    while k < v.len()
        invariant
            forall|t: &T| call_requires(*f, (t,)),
            k <= v.len(),
            out.len() == k,
            forall|j: int| 0 <= j < k ==> call_ensures(*f, (&v@[j],), #[trigger] out@[j]),
        decreases v.len() - k,
    {
        out.push(f(&v[k]));
        k = k + 1;
    }
    out
}

} // verus!
