//! Global laws of the simulation step.
//!
//! These hold of the pure step functions in [`crate::engine`], and so — by
//! the contracts of [`crate::engine::Model::advance_all`] and
//! [`crate::engine::Bucket::update`] — of every run of the executable
//! engine: quantities are never driven negative, and every committed move
//! carries its full amount from source to target, so the total quantity over
//! all buckets is invariant however many sweeps are run.

use vstd::arithmetic::mul::lemma_mul_nonnegative;
use vstd::prelude::*;

use crate::engine::{
    apply_outcome, behaviour_applies, move_amount, move_base, run_behaviours, run_sweep, Behaviour,
    SimError,
};
use crate::rate::lemma_round_scaled_bounds;

verus! {

/// The total quantity held across all buckets.
pub open spec fn total(qs: Seq<int>) -> int
    decreases qs.len(),
{
    if qs.len() == 0 {
        0
    } else {
        total(qs.drop_last()) + qs.last()
    }
}

/// No bucket's quantity is negative.
pub open spec fn all_nonneg(qs: Seq<int>) -> bool {
    forall|i: int| 0 <= i < qs.len() ==> qs[i] >= 0
}

/// Every behaviour of every bucket is well formed for an arena of `n`
/// buckets: live target, rate in [0, 1].
pub open spec fn behaviours_wf(behaviours: Seq<Seq<Behaviour>>, n: int) -> bool {
    forall|i: int, j: int|
        0 <= i < behaviours.len() && 0 <= j < behaviours[i].len() ==> (
        #[trigger] behaviours[i][j]).wf(n)
}

/// Every index in a processing order is live.
pub open spec fn order_wf(order: Seq<int>, n: int) -> bool {
    forall|k: int| 0 <= k < order.len() ==> 0 <= #[trigger] order[k] < n
}

/// The quantities and first error after `rounds` whole sweeps, each
/// advancing the clock by `ticks`.
pub open spec fn run_rounds(
    qs: Seq<int>,
    behaviours: Seq<Seq<Behaviour>>,
    order: Seq<int>,
    ticks: int,
    rounds: nat,
) -> (Seq<int>, Option<SimError>)
    decreases rounds,
{
    if rounds == 0 {
        (qs, None)
    } else {
        let first = run_sweep(qs, behaviours, order, ticks);
        if first.1 is Some {
            first
        } else {
            run_rounds(first.0, behaviours, order, ticks, (rounds - 1) as nat)
        }
    }
}

/// The guard is strict: a move amount at least as large as the quantity it
/// is checked against — in particular, exactly as large — is not committed,
/// and the tick leaves every bucket as it was.
pub proof fn lemma_guard_boundary(qs: Seq<int>, src: int, b: Behaviour, ticks: int)
    requires
        0 <= src < qs.len(),
        0 <= b.target_id() < qs.len(),
        move_amount(b, qs[src], qs[b.target_id()], ticks) >= move_base(
            b,
            qs[src],
            qs[b.target_id()],
        ),
    ensures
        apply_outcome(qs, src, b, ticks) == Ok::<Seq<int>, SimError>(qs),
{
}

/// Replacing one quantity changes the total by exactly the difference.
proof fn lemma_total_update(qs: Seq<int>, i: int, v: int)
    requires
        0 <= i < qs.len(),
    ensures
        total(qs.update(i, v)) == total(qs) - qs[i] + v,
    decreases qs.len(),
{
    if i == qs.len() - 1 {
        assert(qs.update(i, v).drop_last() =~= qs.drop_last());
    } else {
        lemma_total_update(qs.drop_last(), i, v);
        assert(qs.update(i, v).drop_last() =~= qs.drop_last().update(i, v));
    }
}

/// One behaviour application neither creates nor destroys quantity, and
/// never leaves a bucket negative: what the target gains the source loses,
/// the guard keeps the guarded bucket strictly positive, and a move the
/// source could not cover is refused before anything is mutated.
pub proof fn lemma_apply_preserves(qs: Seq<int>, src: int, b: Behaviour, ticks: int)
    requires
        0 <= src < qs.len(),
        b.wf(qs.len() as int),
        all_nonneg(qs),
        ticks >= 0,
    ensures
        match apply_outcome(qs, src, b, ticks) {
            Ok(qs2) => qs2.len() == qs.len() && total(qs2) == total(qs) && all_nonneg(qs2),
            Err(_) => true,
        },
{
    let t = b.target_id();
    let base = move_base(b, qs[src], qs[t]);
    lemma_round_scaled_bounds(b.rate(), base);
    lemma_mul_nonnegative(b.rate().round_scaled(base), ticks);
    let m = move_amount(b, qs[src], qs[t], ticks);
    if behaviour_applies(b, qs[src], qs[t], ticks) {
        let credited = qs.update(t, qs[t] + m);
        if m <= credited[src] && qs[t] + m <= u64::MAX {
            let settled = credited.update(src, credited[src] - m);
            lemma_total_update(qs, t, qs[t] + m);
            lemma_total_update(credited, src, credited[src] - m);
            assert(all_nonneg(settled));
        }
    }
}

/// Running a bucket's behaviour list preserves the bucket count, the total
/// quantity and non-negativity — also when it stops at an error, since the
/// failing behaviour mutates nothing.
pub proof fn lemma_behaviours_preserve(qs: Seq<int>, src: int, bs: Seq<Behaviour>, ticks: int)
    requires
        0 <= src < qs.len(),
        forall|j: int| 0 <= j < bs.len() ==> (#[trigger] bs[j]).wf(qs.len() as int),
        all_nonneg(qs),
        ticks >= 0,
    ensures
        ({
            let r = run_behaviours(qs, src, bs, ticks);
            r.0.len() == qs.len() && total(r.0) == total(qs) && all_nonneg(r.0)
        }),
    decreases bs.len(),
{
    if bs.len() > 0 {
        lemma_apply_preserves(qs, src, bs[0], ticks);
        match apply_outcome(qs, src, bs[0], ticks) {
            Ok(qs2) => {
                lemma_behaviours_preserve(qs2, src, bs.drop_first(), ticks);
            },
            Err(_) => {},
        }
    }
}

/// One whole sweep preserves the bucket count, the total quantity and
/// non-negativity, wherever it stops.
pub proof fn lemma_sweep_preserves(
    qs: Seq<int>,
    behaviours: Seq<Seq<Behaviour>>,
    order: Seq<int>,
    ticks: int,
)
    requires
        behaviours.len() == qs.len(),
        behaviours_wf(behaviours, qs.len() as int),
        order_wf(order, qs.len() as int),
        all_nonneg(qs),
        ticks >= 0,
    ensures
        ({
            let r = run_sweep(qs, behaviours, order, ticks);
            r.0.len() == qs.len() && total(r.0) == total(qs) && all_nonneg(r.0)
        }),
    decreases order.len(),
{
    if order.len() > 0 {
        let src = order[0];
        lemma_behaviours_preserve(qs, src, behaviours[src], ticks);
        let first = run_behaviours(qs, src, behaviours[src], ticks);
        if first.1 is None {
            lemma_sweep_preserves(first.0, behaviours, order.drop_first(), ticks);
        }
    }
}

/// However many sweeps are run, the total quantity across all buckets is
/// invariant and no bucket's quantity is ever negative.
pub proof fn lemma_rounds_preserve(
    qs: Seq<int>,
    behaviours: Seq<Seq<Behaviour>>,
    order: Seq<int>,
    ticks: int,
    rounds: nat,
)
    requires
        behaviours.len() == qs.len(),
        behaviours_wf(behaviours, qs.len() as int),
        order_wf(order, qs.len() as int),
        all_nonneg(qs),
        ticks >= 0,
    ensures
        ({
            let r = run_rounds(qs, behaviours, order, ticks, rounds);
            r.0.len() == qs.len() && total(r.0) == total(qs) && all_nonneg(r.0)
        }),
    decreases rounds,
{
    if rounds > 0 {
        lemma_sweep_preserves(qs, behaviours, order, ticks);
        let first = run_sweep(qs, behaviours, order, ticks);
        if first.1 is None {
            lemma_rounds_preserve(first.0, behaviours, order, ticks, (rounds - 1) as nat);
        }
    }
}

/// The laws above, stated of a well-formed model as the executable engine
/// holds it: however many sweeps [`crate::engine::Model::advance_all`] runs,
/// and wherever one stops at an error, the total quantity across all buckets
/// is invariant and no bucket's quantity is ever negative.
pub proof fn lemma_model_preserves(m: &crate::engine::Model, ticks: int, rounds: nat)
    requires
        m.wf(),
        ticks >= 0,
    ensures
        ({
            let r = run_rounds(m.quantities(), m.all_behaviours(), m.order(), ticks, rounds);
            r.0.len() == m.quantities().len() && total(r.0) == total(m.quantities())
                && all_nonneg(r.0)
        }),
{
    m.lemma_view_bounds();
    lemma_rounds_preserve(m.quantities(), m.all_behaviours(), m.order(), ticks, rounds);
}

} // verus!
