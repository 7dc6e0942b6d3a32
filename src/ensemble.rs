use vstd::prelude::*;

verus! {

/// `chain` records a pass over `sources` in their order: each entry is an outcome of
/// `accumulate` on the entry before it and the source at the same place.
pub open spec fn is_ordered_pass<Src, Acc, F: Fn(Acc, &Src) -> Acc>(
    accumulate: F,
    sources: Seq<Src>,
    chain: Seq<Acc>,
) -> bool {
    &&& chain.len() == sources.len() + 1
    &&& forall|k: int|
        0 <= k < sources.len() ==> call_ensures(accumulate, (chain[k], &sources[k]), #[trigger] chain[k + 1])
}

/// Folds every source of the ensemble into `start`, once each and in the ensemble's
/// order, so that a seeded generator draws its increments in that order.
pub fn accumulate_in_order<Src, Acc, F: Fn(Acc, &Src) -> Acc>(
    sources: &Vec<Src>,
    start: Acc,
    accumulate: &F,
) -> (r: Acc)
    requires
        forall|a: Acc, s: &Src| call_requires(*accumulate, (a, s)),
    ensures
        exists|chain: Seq<Acc>|
            {
                &&& is_ordered_pass(*accumulate, sources@, chain)
                &&& chain[0] == start
                &&& chain[sources.len() as int] == r
            },
{
    let ghost first = start;
    let mut acc = start;
    let ghost mut chain: Seq<Acc> = seq![first];
    let mut k: usize = 0;
    while k < sources.len()
        invariant
            k <= sources.len(),
            forall|a: Acc, s: &Src| call_requires(*accumulate, (a, s)),
            chain.len() == k + 1,
            chain[0] == first,
            chain[k as int] == acc,
            forall|j: int|
                0 <= j < k ==> call_ensures(*accumulate, (chain[j], &sources@[j]), #[trigger] chain[j + 1]),
        decreases sources.len() - k,
    {
        let next = accumulate(acc, &sources[k]);
        proof {
            let before = chain;
            chain = chain.push(next);
            assert forall|j: int| 0 <= j < k + 1 implies call_ensures(
                *accumulate,
                (chain[j], &sources@[j]),
                #[trigger] chain[j + 1],
            ) by {
                if j < k {
                    assert(chain[j] == before[j]);
                    assert(chain[j + 1] == before[j + 1]);
                }
            }
        }
        acc = next;
        k = k + 1;
    }
    assert(is_ordered_pass(*accumulate, sources@, chain));
    acc
}

} // verus!
