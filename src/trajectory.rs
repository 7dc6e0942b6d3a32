use vstd::prelude::*;

verus! {

/// `chain` is a run of micro-steps: each entry is an outcome of `micro` applied to
/// the entry before it, the first step carrying the micro-step index `first`.
pub open spec fn is_micro_run<S, F: Fn(&S, usize) -> S>(micro: F, first: int, chain: Seq<S>) -> bool {
    forall|k: int|
        0 <= k < chain.len() - 1 ==> call_ensures(
            micro,
            (&chain[k], (first + k) as usize),
            #[trigger] chain[k + 1],
        )
}

/// `to` can be reached from `from` by `n_step` micro-steps whose indices start at `first`.
pub open spec fn advances<S, F: Fn(&S, usize) -> S>(
    micro: F,
    first: int,
    n_step: nat,
    from: S,
    to: S,
) -> bool {
    exists|chain: Seq<S>|
        {
            &&& chain.len() == n_step + 1
            &&& chain[0] == from
            &&& chain[n_step as int] == to
            &&& is_micro_run(micro, first, chain)
        }
}

/// `next` is the sample that follows `prev` when `prev` is the sample of number `i`:
/// `step` micro-steps from index `i * step`, then one renormalization.
pub open spec fn sample_follows<S, F: Fn(&S, usize) -> S, G: Fn(&S) -> S>(
    micro: F,
    renormalize: G,
    step: nat,
    i: int,
    prev: S,
    next: S,
) -> bool {
    exists|mid: S| advances(micro, i * step, step, prev, mid) && call_ensures(renormalize, (&mid,), next)
}

/// `rows` is a trajectory sampled every `step` micro-steps from `initial`: its first row
/// is `initial` itself and each later row follows the one before it.
pub open spec fn is_trajectory<S, F: Fn(&S, usize) -> S, G: Fn(&S) -> S>(
    micro: F,
    renormalize: G,
    step: nat,
    initial: S,
    rows: Seq<S>,
) -> bool {
    &&& rows.len() >= 1 ==> rows[0] == initial
    &&& forall|i: int|
        0 < i < rows.len() ==> sample_follows(micro, renormalize, step, i - 1, rows[i - 1], #[trigger] rows[i])
}

/// Applies `micro` to `state` `n_step` times, with the micro-step indices
/// `first`, `first + 1`, ... ; `n_step == 0` hands `state` back.
pub fn integrate<S, F: Fn(&S, usize) -> S>(state: S, first: usize, n_step: usize, micro: &F) -> (r: S)
    requires
        first + n_step <= usize::MAX,
        forall|s: &S, k: usize| first <= k < first + n_step ==> call_requires(*micro, (s, k)),
    ensures
        advances(*micro, first as int, n_step as nat, state, r),
{
    let ghost start = state;
    let mut out = state;
    let ghost mut chain: Seq<S> = seq![start];
    let mut k: usize = 0;
    while k < n_step
        invariant
            k <= n_step,
            first + n_step <= usize::MAX,
            forall|s: &S, j: usize| first <= j < first + n_step ==> call_requires(*micro, (s, j)),
            chain.len() == k + 1,
            chain[0] == start,
            chain[k as int] == out,
            is_micro_run(*micro, first as int, chain),
        decreases n_step - k,
    {
        let next = micro(&out, first + k);
        proof {
            let old_chain = chain;
            chain = chain.push(next);
            assert forall|j: int| 0 <= j < chain.len() - 1 implies call_ensures(
                *micro,
                (&chain[j], (first + j) as usize),
                #[trigger] chain[j + 1],
            ) by {
                if j < k {
                    assert(chain[j] == old_chain[j]);
                    assert(chain[j + 1] == old_chain[j + 1]);
                }
            }
        }
        out = next;
        k = k + 1;
    }
    assert(chain[n_step as int] == out);
    out
}

/// One sample interval: `step` micro-steps from `prev`, then the renormalization.
fn next_sample<S, F: Fn(&S, usize) -> S, G: Fn(&S) -> S>(
    prev: &S,
    i: usize,
    step: usize,
    micro: &F,
    renormalize: &G,
) -> (r: S)
    requires
        (i + 1) * step <= usize::MAX,
        forall|s: &S, k: usize| i * step <= k < (i + 1) * step ==> call_requires(*micro, (s, k)),
        forall|s: &S| call_requires(*renormalize, (s,)),
    ensures
        sample_follows(*micro, *renormalize, step as nat, i as int, *prev, r),
{
    assert((i + 1) * step == i * step + step) by (nonlinear_arith);
    let first: usize = i * step;
    if step == 0 {
        let r = renormalize(prev);
        let ghost chain = seq![*prev];
        assert(chain.len() == 1 && chain[0] == *prev && is_micro_run(*micro, first as int, chain));
        assert(advances(*micro, first as int, 0, *prev, *prev));
        r
    } else {
        let head = micro(prev, first);
        let mid = integrate(head, first + 1, step - 1, micro);
        let r = renormalize(&mid);
        proof {
            let tail = choose|c: Seq<S>|
                {
                    &&& c.len() == step as nat
                    &&& c[0] == head
                    &&& c[step - 1] == mid
                    &&& is_micro_run(*micro, first + 1, c)
                };
            let chain = seq![*prev] + tail;
            assert(chain[0] == *prev);
            assert(chain[step as int] == tail[step - 1]);
            assert forall|j: int| 0 <= j < chain.len() - 1 implies call_ensures(
                *micro,
                (&chain[j], (first + j) as usize),
                #[trigger] chain[j + 1],
            ) by {
                if j > 0 {
                    assert(chain[j] == tail[j - 1]);
                    assert(chain[j + 1] == tail[(j - 1) + 1]);
                } else {
                    assert(chain[1] == head);
                }
            }
            assert(chain.len() == step + 1 && chain[step as int] == mid);
            assert(is_micro_run(*micro, first as int, chain));
            assert(advances(*micro, first as int, step as nat, *prev, mid));
        }
        r
    }
}

/// Samples a trajectory of `n` rows: the first is `initial`; each later row is the
/// row before it advanced by `step` micro-steps and then renormalized. The micro-steps
/// are numbered from 0 across the whole run. `n == 0` gives no rows.
pub fn solve<S, F: Fn(&S, usize) -> S, G: Fn(&S) -> S>(
    initial: S,
    n: usize,
    step: usize,
    micro: &F,
    renormalize: &G,
) -> (rows: Vec<S>)
    requires
        n * step <= usize::MAX,
        forall|s: &S, k: usize| k < n * step ==> call_requires(*micro, (s, k)),
        forall|s: &S| call_requires(*renormalize, (s,)),
    ensures
        rows.len() == n,
        is_trajectory(*micro, *renormalize, step as nat, initial, rows@),
{
    let mut rows: Vec<S> = Vec::new();
    if n == 0 {
        return rows;
    }
    rows.push(initial);
    let mut i: usize = 1;
    while i < n
        invariant
            1 <= i <= n,
            rows.len() == i,
            n * step <= usize::MAX,
            forall|s: &S, k: usize| k < n * step ==> call_requires(*micro, (s, k)),
            forall|s: &S| call_requires(*renormalize, (s,)),
            is_trajectory(*micro, *renormalize, step as nat, initial, rows@),
        decreases n - i,
    {
        assert(i * step <= n * step) by (nonlinear_arith)
            requires
                i <= n,
        ;
        let next = next_sample(&rows[i - 1], i - 1, step, micro, renormalize);
        let ghost before = rows@;
        rows.push(next);
        assert forall|j: int| 0 < j < rows.len() implies sample_follows(
            *micro,
            *renormalize,
            step as nat,
            j - 1,
            rows@[j - 1],
            #[trigger] rows@[j],
        ) by {
            if j < i {
                assert(rows@[j] == before[j]);
                assert(rows@[j - 1] == before[j - 1]);
            }
        }
        i = i + 1;
    }
    rows
}

/// A property of states that holds of `initial` and that every micro-step and the
/// renormalization keep (the state's dimension, say) holds of every row of a trajectory.
pub proof fn lemma_trajectory_invariant<S, F: Fn(&S, usize) -> S, G: Fn(&S) -> S>(
    micro: F,
    renormalize: G,
    step: nat,
    initial: S,
    rows: Seq<S>,
    inv: spec_fn(S) -> bool,
)
    requires
        is_trajectory(micro, renormalize, step, initial, rows),
        inv(initial),
        forall|s: S, k: usize, r: S| inv(s) && call_ensures(micro, (&s, k), r) ==> inv(r),
        forall|s: S, r: S| inv(s) && call_ensures(renormalize, (&s,), r) ==> inv(r),
    ensures
        forall|i: int| 0 <= i < rows.len() ==> inv(#[trigger] rows[i]),
{
    assert forall|i: int| 0 <= i < rows.len() implies inv(#[trigger] rows[i]) by {
        lemma_invariant_prefix(micro, renormalize, step, initial, rows, inv, i);
    }
}

/// A trajectory started at a state that every micro-step and the renormalization
/// leave unchanged stays at that state: every row equals the initial state.
pub proof fn lemma_fixed_point_trajectory<S, F: Fn(&S, usize) -> S, G: Fn(&S) -> S>(
    micro: F,
    renormalize: G,
    step: nat,
    initial: S,
    rows: Seq<S>,
)
    requires
        is_trajectory(micro, renormalize, step, initial, rows),
        forall|k: usize, r: S| call_ensures(micro, (&initial, k), r) ==> r == initial,
        forall|r: S| call_ensures(renormalize, (&initial,), r) ==> r == initial,
    ensures
        forall|i: int| 0 <= i < rows.len() ==> rows[i] == initial,
{
    let inv = |s: S| s == initial;
    lemma_trajectory_invariant(micro, renormalize, step, initial, rows, inv);
    assert forall|i: int| 0 <= i < rows.len() implies rows[i] == initial by {
        assert(inv(rows[i]));
    }
}

/// Every row after the first is an outcome of the renormalization: whatever holds of
/// every such outcome (a unit norm, say) holds of each of those rows.
pub proof fn lemma_later_rows_renormalized<S, F: Fn(&S, usize) -> S, G: Fn(&S) -> S>(
    micro: F,
    renormalize: G,
    step: nat,
    initial: S,
    rows: Seq<S>,
    normalized: spec_fn(S) -> bool,
)
    requires
        is_trajectory(micro, renormalize, step, initial, rows),
        forall|s: S, r: S| call_ensures(renormalize, (&s,), r) ==> normalized(r),
    ensures
        forall|i: int| 0 < i < rows.len() ==> normalized(#[trigger] rows[i]),
{
    assert forall|i: int| 0 < i < rows.len() implies normalized(#[trigger] rows[i]) by {
        assert(sample_follows(micro, renormalize, step, i - 1, rows[i - 1], rows[i]));
    }
}

proof fn lemma_invariant_prefix<S, F: Fn(&S, usize) -> S, G: Fn(&S) -> S>(
    micro: F,
    renormalize: G,
    step: nat,
    initial: S,
    rows: Seq<S>,
    inv: spec_fn(S) -> bool,
    i: int,
)
    requires
        0 <= i < rows.len(),
        is_trajectory(micro, renormalize, step, initial, rows),
        inv(initial),
        forall|s: S, k: usize, r: S| inv(s) && call_ensures(micro, (&s, k), r) ==> inv(r),
        forall|s: S, r: S| inv(s) && call_ensures(renormalize, (&s,), r) ==> inv(r),
    ensures
        inv(rows[i]),
    decreases i,
{
    if i > 0 {
        lemma_invariant_prefix(micro, renormalize, step, initial, rows, inv, i - 1);
        assert(sample_follows(micro, renormalize, step, i - 1, rows[i - 1], rows[i]));
        let mid = choose|mid: S|
            advances(micro, (i - 1) * step, step, rows[i - 1], mid) && call_ensures(
                renormalize,
                (&mid,),
                rows[i],
            );
        let chain = choose|c: Seq<S>|
            {
                &&& c.len() == step + 1
                &&& c[0] == rows[i - 1]
                &&& c[step as int] == mid
                &&& is_micro_run(micro, (i - 1) * step, c)
            };
        lemma_run_keeps(micro, (i - 1) * step, chain, inv, step as int);
    }
}

proof fn lemma_run_keeps<S, F: Fn(&S, usize) -> S>(
    micro: F,
    first: int,
    chain: Seq<S>,
    inv: spec_fn(S) -> bool,
    k: int,
)
    requires
        0 <= k < chain.len(),
        inv(chain[0]),
        is_micro_run(micro, first, chain),
        forall|s: S, j: usize, r: S| inv(s) && call_ensures(micro, (&s, j), r) ==> inv(r),
    ensures
        inv(chain[k]),
    decreases k,
{
    if k > 0 {
        lemma_run_keeps(micro, first, chain, inv, k - 1);
        assert(call_ensures(micro, (&chain[k - 1], (first + (k - 1)) as usize), chain[(k - 1) + 1]));
    }
}

} // verus!
