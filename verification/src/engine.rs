//! Buckets, behaviours, and the model that drives them.
//!
//! A [`Model`] owns an arena of bucket records; a [`Bucket`] is a copyable
//! handle (a stable index into that arena), so the same underlying record may
//! be referenced by the model's processing order and by any number of
//! behaviours, and every holder observes mutations jointly. Behaviours store
//! the handle of their target bucket and an exact rational rate.
//!
//! One simulated step is specified by the pure functions [`apply_outcome`],
//! [`run_behaviours`] and [`run_sweep`] over the sequence of quantities; the
//! executable methods are proved to realise exactly those functions.

use vstd::prelude::*;

use crate::rate::Rate;

verus! {

/// An error reported instead of committing a mutation that would wrap.
/// Every failed step leaves the failing behaviour's buckets untouched, so a
/// caller may stop (as a live simulation would) or report and carry on.
#[derive(Clone, Copy, Debug, PartialEq, Eq, Structural)]
pub enum SimError {
    /// A target bucket's quantity would exceed the range of its counter.
    Overflow,
    /// A source bucket's quantity would fall below zero.
    Underflow,
}

/// A handle to a bucket record owned by a [`Model`]: a stable index into the
/// model's arena. Copying a handle never copies the underlying record.
#[derive(Clone, Copy, Debug, PartialEq, Eq, Structural)]
pub struct Bucket {
    index: usize,
}

/// Moves a fraction of the *source* bucket's quantity into a target bucket
/// each tick.
#[derive(Clone, Copy, Debug)]
pub struct Diffusion {
    pub target: Bucket,
    pub probability: Rate,
}

/// Moves quantity from the source bucket into a target, the amount computed
/// from the *target's* quantity.
///
/// Note: a classical epidemic infection term would scale with the source
/// (susceptible) population; this variant deliberately reads the target
/// instead, and its guard protects only the target, so the source decrease
/// can fail with [`SimError::Underflow`].
#[derive(Clone, Copy, Debug)]
pub struct Infection {
    pub target: Bucket,
    pub probability: Rate,
}

/// A rule that moves quantity between buckets once per tick: the closed set
/// of behaviour variants, dispatched by match.
#[derive(Clone, Copy, Debug)]
pub enum Behaviour {
    Diffusion(Diffusion),
    Infection(Infection),
}

impl Bucket {
    /// The arena index this handle designates.
    pub closed spec fn id(&self) -> int {
        self.index as int
    }
}

impl Diffusion {
    /// Builds a diffusion behaviour moving `probability` of the source's
    /// quantity into `target` each tick.
    pub fn new(target: Bucket, probability: Rate) -> (b: Behaviour)
        ensures
            b == Behaviour::Diffusion(Diffusion { target, probability }),
    {
        Behaviour::Diffusion(Diffusion { target, probability })
    }
}

impl Infection {
    /// Builds an infection behaviour moving `probability` of the *target's*
    /// quantity from the source into `target` each tick.
    pub fn new(target: Bucket, probability: Rate) -> (b: Behaviour)
        ensures
            b == Behaviour::Infection(Infection { target, probability }),
    {
        Behaviour::Infection(Infection { target, probability })
    }
}

impl Behaviour {
    /// The arena index of this behaviour's target bucket.
    pub open spec fn target_id(&self) -> int {
        match self {
            Behaviour::Diffusion(d) => d.target.id(),
            Behaviour::Infection(i) => i.target.id(),
        }
    }

    /// This behaviour's rate coefficient.
    pub open spec fn rate(&self) -> Rate {
        match self {
            Behaviour::Diffusion(d) => d.probability,
            Behaviour::Infection(i) => i.probability,
        }
    }

    /// A behaviour is well formed within an arena of `n` buckets when its
    /// target is a live index and its rate lies in [0, 1].
    pub open spec fn wf(&self, n: int) -> bool {
        0 <= self.target_id() < n && self.rate().wf()
    }

    /// The target handle.
    pub fn target(&self) -> (t: Bucket)
        ensures
            t.id() == self.target_id(),
    {
        match self {
            Behaviour::Diffusion(d) => d.target,
            Behaviour::Infection(i) => i.target,
        }
    }

    /// The rate coefficient.
    pub fn probability(&self) -> (r: Rate)
        ensures
            r == self.rate(),
    {
        match self {
            Behaviour::Diffusion(d) => d.probability,
            Behaviour::Infection(i) => i.probability,
        }
    }
}

/// The quantity a behaviour computes its move from and guards against:
/// the source's for diffusion, the target's for infection.
pub open spec fn move_base(b: Behaviour, src_q: int, tgt_q: int) -> int {
    match b {
        Behaviour::Diffusion(_) => src_q,
        Behaviour::Infection(_) => tgt_q,
    }
}

/// The amount a behaviour moves in one step: the rate applied to the base
/// quantity, rounded to the nearest integer, times the elapsed ticks.
pub open spec fn move_amount(b: Behaviour, src_q: int, tgt_q: int, ticks: int) -> int {
    b.rate().round_scaled(move_base(b, src_q, tgt_q)) * ticks
}

/// A behaviour commits its move only when the base quantity would stay
/// strictly positive: a move that would leave it at exactly zero is skipped.
pub open spec fn behaviour_applies(b: Behaviour, src_q: int, tgt_q: int, ticks: int) -> bool {
    move_base(b, src_q, tgt_q) - move_amount(b, src_q, tgt_q, ticks) > 0
}

/// One behaviour application to the arena's quantities: either the new
/// quantities, or the error that a wrapping mutation would have raised, with
/// nothing mutated. The target is credited before the source is debited, so
/// overflow is detected first, and a behaviour whose source and target
/// coincide leaves the quantity unchanged.
pub open spec fn apply_outcome(qs: Seq<int>, src: int, b: Behaviour, ticks: int) -> Result<
    Seq<int>,
    SimError,
> {
    let t = b.target_id();
    let m = move_amount(b, qs[src], qs[t], ticks);
    if !behaviour_applies(b, qs[src], qs[t], ticks) {
        Ok(qs)
    } else if qs[t] + m > u64::MAX {
        Err(SimError::Overflow)
    } else {
        let credited = qs.update(t, qs[t] + m);
        if m > credited[src] {
            Err(SimError::Underflow)
        } else {
            Ok(credited.update(src, credited[src] - m))
        }
    }
}

/// Runs a source bucket's behaviours in attachment order, stopping at the
/// first error; returns the quantities reached and the error, if any.
pub open spec fn run_behaviours(qs: Seq<int>, src: int, bs: Seq<Behaviour>, ticks: int) -> (
    Seq<int>,
    Option<SimError>,
)
    decreases bs.len(),
{
    if bs.len() == 0 {
        (qs, None)
    } else {
        match apply_outcome(qs, src, bs[0], ticks) {
            Ok(qs2) => run_behaviours(qs2, src, bs.drop_first(), ticks),
            Err(e) => (qs, Some(e)),
        }
    }
}

/// One full sweep: every bucket in the model's processing order runs its
/// behaviours, each reading the quantities as already mutated by the
/// behaviours before it. Stops at the first error.
pub open spec fn run_sweep(
    qs: Seq<int>,
    behaviours: Seq<Seq<Behaviour>>,
    order: Seq<int>,
    ticks: int,
) -> (Seq<int>, Option<SimError>)
    decreases order.len(),
{
    if order.len() == 0 {
        (qs, None)
    } else {
        let step = run_behaviours(qs, order[0], behaviours[order[0]], ticks);
        if step.1 is Some {
            step
        } else {
            run_sweep(step.0, behaviours, order.drop_first(), ticks)
        }
    }
}

/// One bucket record: a human-readable name (not required unique), a
/// non-negative quantity, and the behaviours attached to it, in attachment
/// order.
pub struct BucketState {
    name: String,
    quantity: u64,
    behaviours: Vec<Behaviour>,
}

/// The simulation: an arena of bucket records, and the ordered list of
/// handles that fixes the processing (and display) order of one sweep. The
/// same handle may be listed more than once.
pub struct Model {
    states: Vec<BucketState>,
    buckets: Vec<Bucket>,
}

impl Model {
    /// How many bucket records the arena holds.
    pub closed spec fn n_buckets(&self) -> int {
        self.states@.len() as int
    }

    /// The current quantities, arena-indexed.
    pub closed spec fn quantities(&self) -> Seq<int> {
        Seq::new(self.states@.len(), |i: int| self.states@[i].quantity as int)
    }

    /// The name of the bucket at arena index `i`.
    pub closed spec fn name_at(&self, i: int) -> Seq<char> {
        self.states@[i].name@
    }

    /// The behaviours attached to the bucket at arena index `i`.
    pub closed spec fn behaviours_at(&self, i: int) -> Seq<Behaviour> {
        self.states@[i].behaviours@
    }

    /// The behaviours of every bucket, arena-indexed.
    pub closed spec fn all_behaviours(&self) -> Seq<Seq<Behaviour>> {
        Seq::new(self.states@.len(), |i: int| self.states@[i].behaviours@)
    }

    /// The processing order: the arena indices of the added handles.
    pub closed spec fn order(&self) -> Seq<int> {
        Seq::new(self.buckets@.len(), |i: int| self.buckets@[i].id())
    }

    /// Every attached behaviour targets a live bucket with a well-formed
    /// rate, and every handle in the processing order is live.
    pub open spec fn wf(&self) -> bool {
        &&& forall|i: int, j: int|
            0 <= i < self.all_behaviours().len() && 0 <= j < self.all_behaviours()[i].len()
                ==> (#[trigger] self.all_behaviours()[i][j]).wf(self.n_buckets())
        &&& forall|k: int|
            0 <= k < self.order().len() ==> 0 <= #[trigger] self.order()[k] < self.n_buckets()
    }

    /// The arena-indexed views all range over the same buckets, and every
    /// quantity sits in the range of its unsigned counter.
    pub proof fn lemma_view_bounds(&self)
        ensures
            self.quantities().len() == self.n_buckets(),
            self.all_behaviours().len() == self.n_buckets(),
            forall|i: int|
                0 <= i < self.quantities().len() ==> 0 <= #[trigger] self.quantities()[i]
                    <= u64::MAX,
    {
    }

    /// An empty model: no buckets, empty processing order.
    pub fn new() -> (m: Model)
        ensures
            m.wf(),
            m.n_buckets() == 0,
            m.quantities() == Seq::<int>::empty(),
            m.all_behaviours() == Seq::<Seq<Behaviour>>::empty(),
            m.order() == Seq::<int>::empty(),
    {
        let m = Model { states: Vec::new(), buckets: Vec::new() };
        proof {
            assert(m.quantities() =~= Seq::<int>::empty());
            assert(m.all_behaviours() =~= Seq::<Seq<Behaviour>>::empty());
            assert(m.order() =~= Seq::<int>::empty());
        }
        m
    }

    /// Appends a handle to the processing order; the bucket it designates
    /// will take part in every subsequent sweep, after those already added.
    pub fn add(&mut self, bucket: Bucket)
        requires
            old(self).wf(),
            0 <= bucket.id() < old(self).n_buckets(),
        ensures
            final(self).wf(),
            final(self).order() == old(self).order().push(bucket.id()),
            final(self).n_buckets() == old(self).n_buckets(),
            final(self).quantities() == old(self).quantities(),
            final(self).all_behaviours() == old(self).all_behaviours(),
            forall|i: int|
                0 <= i < old(self).n_buckets() ==> final(self).name_at(i) == old(self).name_at(i)
                    && final(self).behaviours_at(i) == old(self).behaviours_at(i),
    {
        self.buckets.push(bucket);
        proof {
            assert(self.order() =~= old(self).order().push(bucket.id()));
            assert(self.quantities() =~= old(self).quantities());
            assert(self.all_behaviours() =~= old(self).all_behaviours());
            assert forall|k: int| 0 <= k < self.order().len() implies 0 <= #[trigger] self.order()[k]
                < self.n_buckets() by {
                if k < old(self).order().len() {
                    assert(old(self).order()[k] == self.order()[k]);
                }
            }
        }
    }
}

impl Bucket {
    /// Creates a bucket record with the given name, quantity zero and no
    /// behaviours, and returns a handle to it. The new bucket takes part in
    /// sweeps only once a handle is passed to [`Model::add`].
    pub fn new(model: &mut Model, name: &str) -> (b: Bucket)
        requires
            old(model).wf(),
            old(model).n_buckets() < usize::MAX,
        ensures
            final(model).wf(),
            b.id() == old(model).n_buckets(),
            final(model).n_buckets() == old(model).n_buckets() + 1,
            final(model).quantities() == old(model).quantities().push(0),
            final(model).name_at(b.id()) == name@,
            final(model).behaviours_at(b.id()) == Seq::<Behaviour>::empty(),
            final(model).order() == old(model).order(),
            forall|i: int|
                0 <= i < old(model).n_buckets() ==> final(model).name_at(i) == old(model).name_at(
                    i,
                ) && final(model).behaviours_at(i) == old(model).behaviours_at(i),
    {
        let index = model.states.len();
        model.states.push(
            BucketState { name: name.to_owned(), quantity: 0, behaviours: Vec::new() },
        );
        let b = Bucket { index };
        proof {
            assert(model.quantities() =~= old(model).quantities().push(0));
            assert(model.order() =~= old(model).order());
            assert(model.all_behaviours() =~= old(model).all_behaviours().push(
                Seq::<Behaviour>::empty(),
            ));
            assert forall|i: int, j: int|
                0 <= i < model.all_behaviours().len() && 0 <= j
                    < model.all_behaviours()[i].len() implies (
            #[trigger] model.all_behaviours()[i][j]).wf(model.n_buckets()) by {
                if i < old(model).n_buckets() {
                    assert(model.all_behaviours()[i] == old(model).all_behaviours()[i]);
                    assert(old(model).all_behaviours()[i][j].wf(old(model).n_buckets()));
                } else {
                    assert(model.all_behaviours()[i].len() == 0);
                }
            }
            assert forall|k: int| 0 <= k < model.order().len() implies 0 <= #[trigger] model.order()[k]
                < model.n_buckets() by {
                assert(old(model).order()[k] == model.order()[k]);
                assert(0 <= old(model).order()[k] < old(model).n_buckets());
            }
        }
        b
    }

    /// The bucket's current quantity; never negative.
    pub fn get(&self, model: &Model) -> (q: u64)
        requires
            0 <= self.id() < model.n_buckets(),
        ensures
            q == model.quantities()[self.id()],
    {
        model.states[self.index].quantity
    }

    /// The bucket's name.
    pub fn name(&self, model: &Model) -> (n: String)
        requires
            0 <= self.id() < model.n_buckets(),
        ensures
            n@ == model.name_at(self.id()),
    {
        model.states[self.index].name.clone()
    }

    /// Renames the bucket; nothing else changes.
    pub fn set_name(&self, model: &mut Model, name: &str)
        requires
            old(model).wf(),
            0 <= self.id() < old(model).n_buckets(),
        ensures
            final(model).wf(),
            final(model).n_buckets() == old(model).n_buckets(),
            final(model).name_at(self.id()) == name@,
            final(model).quantities() == old(model).quantities(),
            final(model).all_behaviours() == old(model).all_behaviours(),
            final(model).order() == old(model).order(),
            forall|i: int|
                0 <= i < old(model).n_buckets() && i != self.id() ==> final(model).name_at(i)
                    == old(model).name_at(i),
            forall|i: int|
                0 <= i < old(model).n_buckets() ==> final(model).behaviours_at(i) == old(
                    model,
                ).behaviours_at(i),
    {
        model.states[self.index].name = name.to_owned();
        proof {
            assert(model.quantities() =~= old(model).quantities());
            assert(model.all_behaviours() =~= old(model).all_behaviours());
            assert(model.order() =~= old(model).order());
        }
    }

    /// Renames the bucket and hands the same handle back, for chained set-up.
    pub fn with_name(self, model: &mut Model, name: &str) -> (b: Bucket)
        requires
            old(model).wf(),
            0 <= self.id() < old(model).n_buckets(),
        ensures
            b == self,
            final(model).wf(),
            final(model).n_buckets() == old(model).n_buckets(),
            final(model).name_at(self.id()) == name@,
            final(model).quantities() == old(model).quantities(),
            final(model).all_behaviours() == old(model).all_behaviours(),
            final(model).order() == old(model).order(),
    {
        self.set_name(model, name);
        self
    }

    /// Attaches a behaviour to this bucket, after those already attached; it
    /// will run with this bucket as source on every subsequent sweep.
    pub fn add(&self, model: &mut Model, behaviour: Behaviour)
        requires
            old(model).wf(),
            0 <= self.id() < old(model).n_buckets(),
            behaviour.wf(old(model).n_buckets()),
        ensures
            final(model).wf(),
            final(model).n_buckets() == old(model).n_buckets(),
            final(model).behaviours_at(self.id()) == old(model).behaviours_at(self.id()).push(
                behaviour,
            ),
            final(model).quantities() == old(model).quantities(),
            final(model).order() == old(model).order(),
            forall|i: int|
                0 <= i < old(model).n_buckets() ==> final(model).name_at(i) == old(
                    model,
                ).name_at(i),
            forall|i: int|
                0 <= i < old(model).n_buckets() && i != self.id() ==> final(model).behaviours_at(i)
                    == old(model).behaviours_at(i),
    {
        model.states[self.index].behaviours.push(behaviour);
        proof {
            assert(model.quantities() =~= old(model).quantities());
            assert(model.order() =~= old(model).order());
            assert(model.all_behaviours() =~= old(model).all_behaviours().update(
                self.id(),
                old(model).all_behaviours()[self.id()].push(behaviour),
            ));
            assert forall|i: int, j: int|
                0 <= i < model.all_behaviours().len() && 0 <= j
                    < model.all_behaviours()[i].len() implies (
            #[trigger] model.all_behaviours()[i][j]).wf(model.n_buckets()) by {
                if i == self.id() && j == model.all_behaviours()[i].len() - 1 {
                    assert(model.all_behaviours()[i][j] == behaviour);
                } else {
                    assert(model.all_behaviours()[i][j] == old(model).all_behaviours()[i][j]);
                    assert(old(model).all_behaviours()[i][j].wf(old(model).n_buckets()));
                }
            }
        }
    }

    /// Adds `amount` to the bucket's quantity; the caller keeps the total
    /// within the counter's range.
    pub fn increase(&self, model: &mut Model, amount: u64)
        requires
            old(model).wf(),
            0 <= self.id() < old(model).n_buckets(),
            old(model).quantities()[self.id()] + amount <= u64::MAX,
        ensures
            final(model).wf(),
            final(model).n_buckets() == old(model).n_buckets(),
            final(model).quantities() == old(model).quantities().update(
                self.id(),
                old(model).quantities()[self.id()] + amount,
            ),
            final(model).all_behaviours() == old(model).all_behaviours(),
            final(model).order() == old(model).order(),
            forall|i: int|
                0 <= i < old(model).n_buckets() ==> final(model).name_at(i) == old(
                    model,
                ).name_at(i) && final(model).behaviours_at(i) == old(model).behaviours_at(i),
    {
        let q = model.states[self.index].quantity;
        model.states[self.index].quantity = q + amount;
        proof {
            assert(model.quantities() =~= old(model).quantities().update(
                self.id(),
                old(model).quantities()[self.id()] + amount,
            ));
            assert(model.all_behaviours() =~= old(model).all_behaviours());
            assert(model.order() =~= old(model).order());
        }
    }

    /// Subtracts `amount` from the bucket's quantity; taking more than the
    /// bucket holds is a contract violation, checked by every behaviour's
    /// guard before it calls.
    pub fn decrease(&self, model: &mut Model, amount: u64)
        requires
            old(model).wf(),
            0 <= self.id() < old(model).n_buckets(),
            amount <= old(model).quantities()[self.id()],
        ensures
            final(model).wf(),
            final(model).n_buckets() == old(model).n_buckets(),
            final(model).quantities() == old(model).quantities().update(
                self.id(),
                old(model).quantities()[self.id()] - amount,
            ),
            final(model).all_behaviours() == old(model).all_behaviours(),
            final(model).order() == old(model).order(),
            forall|i: int|
                0 <= i < old(model).n_buckets() ==> final(model).name_at(i) == old(
                    model,
                ).name_at(i) && final(model).behaviours_at(i) == old(model).behaviours_at(i),
    {
        let q = model.states[self.index].quantity;
        model.states[self.index].quantity = q - amount;
        proof {
            assert(model.quantities() =~= old(model).quantities().update(
                self.id(),
                old(model).quantities()[self.id()] - amount,
            ));
            assert(model.all_behaviours() =~= old(model).all_behaviours());
            assert(model.order() =~= old(model).order());
        }
    }
}

/// Applies one behaviour with the bucket at arena index `src` as source,
/// realising exactly [`apply_outcome`] on the model's quantities: on an
/// error nothing is mutated.
fn apply_behaviour(model: &mut Model, src: usize, b: Behaviour, ticks: u64) -> (r: Result<
    (),
    SimError,
>)
    requires
        old(model).wf(),
        src < old(model).n_buckets(),
        b.wf(old(model).n_buckets()),
    ensures
        final(model).wf(),
        final(model).n_buckets() == old(model).n_buckets(),
        final(model).all_behaviours() == old(model).all_behaviours(),
        final(model).order() == old(model).order(),
        forall|i: int|
            0 <= i < old(model).n_buckets() ==> final(model).name_at(i) == old(model).name_at(i),
        match apply_outcome(old(model).quantities(), src as int, b, ticks as int) {
            Ok(qs2) => r is Ok && final(model).quantities() == qs2,
            Err(e) => r == Err::<(), SimError>(e) && final(model).quantities() == old(
                model,
            ).quantities(),
        },
{
    let ghost qs0 = old(model).quantities();
    let t = b.target().index;
    let probability = b.probability();
    let src_q = model.states[src].quantity;
    let tgt_q = model.states[t].quantity;
    let is_diffusion = match &b {
        Behaviour::Diffusion(_) => true,
        Behaviour::Infection(_) => false,
    };
    let base = if is_diffusion {
        src_q
    } else {
        tgt_q
    };
    assert(base == move_base(b, qs0[src as int], qs0[t as int]));
    let rounded = probability.round_mul(base);
    assert((rounded as u128) * (ticks as u128) <= u128::MAX) by (nonlinear_arith)
        requires
            rounded <= u64::MAX,
            ticks <= u64::MAX,
    ;
    let m_wide: u128 = (rounded as u128) * (ticks as u128);
    assert(m_wide == move_amount(b, qs0[src as int], qs0[t as int], ticks as int));
    if (base as u128) <= m_wide {
        assert(!behaviour_applies(b, qs0[src as int], qs0[t as int], ticks as int));
        return Ok(());
    }
    let m = m_wide as u64;
    if m > u64::MAX - tgt_q {
        return Err(SimError::Overflow);
    }
    let ghost credited = qs0.update(t as int, qs0[t as int] + m);
    if src != t && m > src_q {
        assert(credited[src as int] == qs0[src as int]);
        return Err(SimError::Underflow);
    }
    let new_tgt = tgt_q + m;
    model.states[t].quantity = new_tgt;
    let cur_src = model.states[src].quantity;
    model.states[src].quantity = cur_src - m;
    proof {
        assert(model.quantities() =~= credited.update(
            src as int,
            credited[src as int] - m,
        ));
        assert(model.all_behaviours() =~= old(model).all_behaviours());
        assert(model.order() =~= old(model).order());
    }
    Ok(())
}

impl Bucket {
    /// Runs this bucket's behaviours in attachment order for `ticks` elapsed
    /// ticks, stopping at the first behaviour whose mutation would wrap; the
    /// buckets then still hold everything the behaviours before it moved.
    pub fn update(&self, model: &mut Model, ticks: u64) -> (r: Result<(), SimError>)
        requires
            old(model).wf(),
            0 <= self.id() < old(model).n_buckets(),
        ensures
            final(model).wf(),
            final(model).n_buckets() == old(model).n_buckets(),
            final(model).all_behaviours() == old(model).all_behaviours(),
            final(model).order() == old(model).order(),
            forall|i: int|
                0 <= i < old(model).n_buckets() ==> final(model).name_at(i) == old(
                    model,
                ).name_at(i),
            ({
                let step = run_behaviours(
                    old(model).quantities(),
                    self.id(),
                    old(model).behaviours_at(self.id()),
                    ticks as int,
                );
                final(model).quantities() == step.0 && match r {
                    Ok(_) => step.1 is None,
                    Err(e) => step.1 == Some(e),
                }
            }),
    {
        let ghost qs0 = old(model).quantities();
        let ghost bs = old(model).behaviours_at(self.id());
        let src = self.index;
        proof {
            assert(old(model).all_behaviours()[src as int] == bs);
            assert(bs.skip(0) =~= bs);
        }
        let n = model.states[src].behaviours.len();
        let mut j: usize = 0;
        while j < n
            invariant
                model.wf(),
                src == self.id(),
                src < model.n_buckets(),
                model.n_buckets() == old(model).n_buckets(),
                model.all_behaviours() == old(model).all_behaviours(),
                model.order() == old(model).order(),
                forall|i: int|
                    0 <= i < old(model).n_buckets() ==> model.name_at(i) == old(model).name_at(i),
                bs == old(model).behaviours_at(self.id()),
                qs0 == old(model).quantities(),
                n == bs.len(),
                j <= n,
                run_behaviours(qs0, self.id(), bs, ticks as int) == run_behaviours(
                    model.quantities(),
                    self.id(),
                    bs.skip(j as int),
                    ticks as int,
                ),
            decreases n - j,
        {
            proof {
                assert(model.all_behaviours()[src as int] == bs);
                assert(bs.skip(j as int)[0] == bs[j as int]);
                assert(bs[j as int].wf(model.n_buckets()));
            }
            let b = model.states[src].behaviours[j];
            let ghost qs_before = model.quantities();
            let step = apply_behaviour(model, src, b, ticks);
            proof {
                assert(bs.skip(j as int).drop_first() =~= bs.skip(j as int + 1));
            }
            match step {
                Ok(_) => {},
                Err(e) => {
                    proof {
                        let s = bs.skip(j as int);
                        assert(apply_outcome(qs_before, self.id(), bs[j as int], ticks as int)
                            == Err::<Seq<int>, SimError>(e));
                        assert(run_behaviours(qs_before, self.id(), s, ticks as int) == (
                        qs_before,
                        Some(e),
                        ));
                    }
                    return Err(e);
                },
            }
            j = j + 1;
        }
        proof {
            assert(bs.skip(n as int) =~= Seq::<Behaviour>::empty());
        }
        Ok(())
    }
}

impl Model {
    /// How many handles the processing order holds.
    pub fn bucket_count(&self) -> (n: usize)
        ensures
            n == self.order().len(),
    {
        self.buckets.len()
    }

    /// The bucket names in processing order, for a sink's header row.
    pub fn names(&self) -> (v: Vec<String>)
        requires
            self.wf(),
        ensures
            v@.len() == self.order().len(),
            forall|k: int| 0 <= k < v@.len() ==> (#[trigger] v@[k])@ == self.name_at(self.order()[k]),
    {
        let mut v: Vec<String> = Vec::new();
        let n = self.buckets.len();
        let mut k: usize = 0;
        while k < n
            invariant
                self.wf(),
                n == self.order().len(),
                k <= n,
                v@.len() == k,
                forall|i: int| 0 <= i < k ==> (#[trigger] v@[i])@ == self.name_at(self.order()[i]),
            decreases n - k,
        {
            proof {
                assert(0 <= self.order()[k as int] < self.n_buckets());
            }
            v.push(self.states[self.buckets[k].index].name.clone());
            k = k + 1;
        }
        v
    }

    /// The current quantity of every bucket in processing order: the
    /// rendering snapshot a sink consumes once per tick.
    pub fn snapshot(&self) -> (v: Vec<u64>)
        requires
            self.wf(),
        ensures
            v@.len() == self.order().len(),
            forall|k: int|
                0 <= k < v@.len() ==> #[trigger] v@[k] == self.quantities()[self.order()[k]],
    {
        let mut v: Vec<u64> = Vec::new();
        let n = self.buckets.len();
        let mut k: usize = 0;
        while k < n
            invariant
                self.wf(),
                n == self.order().len(),
                k <= n,
                v@.len() == k,
                forall|i: int|
                    0 <= i < k ==> #[trigger] v@[i] == self.quantities()[self.order()[i]],
            decreases n - k,
        {
            proof {
                assert(0 <= self.order()[k as int] < self.n_buckets());
            }
            v.push(self.states[self.buckets[k].index].quantity);
            k = k + 1;
        }
        v
    }

    /// One sweep of the whole model: every bucket in processing order runs
    /// its behaviours, later buckets reading the quantities as already
    /// mutated this sweep. Stops at the first error; the quantities then
    /// still hold everything moved before it.
    pub fn advance_all(&mut self, ticks: u64) -> (r: Result<(), SimError>)
        requires
            old(self).wf(),
        ensures
            final(self).wf(),
            final(self).n_buckets() == old(self).n_buckets(),
            final(self).all_behaviours() == old(self).all_behaviours(),
            final(self).order() == old(self).order(),
            forall|i: int|
                0 <= i < old(self).n_buckets() ==> final(self).name_at(i) == old(self).name_at(i),
            ({
                let sweep = run_sweep(
                    old(self).quantities(),
                    old(self).all_behaviours(),
                    old(self).order(),
                    ticks as int,
                );
                final(self).quantities() == sweep.0 && match r {
                    Ok(_) => sweep.1 is None,
                    Err(e) => sweep.1 == Some(e),
                }
            }),
    {
        let ghost qs0 = old(self).quantities();
        let ghost behs = old(self).all_behaviours();
        let ghost ord = old(self).order();
        proof {
            assert(ord.skip(0) =~= ord);
        }
        let n = self.buckets.len();
        let mut k: usize = 0;
        while k < n
            invariant
                self.wf(),
                self.n_buckets() == old(self).n_buckets(),
                self.all_behaviours() == behs,
                behs == old(self).all_behaviours(),
                self.order() == ord,
                ord == old(self).order(),
                qs0 == old(self).quantities(),
                forall|i: int|
                    0 <= i < old(self).n_buckets() ==> self.name_at(i) == old(self).name_at(i),
                n == ord.len(),
                k <= n,
                run_sweep(qs0, behs, ord, ticks as int) == run_sweep(
                    self.quantities(),
                    behs,
                    ord.skip(k as int),
                    ticks as int,
                ),
            decreases n - k,
        {
            let b = self.buckets[k];
            proof {
                assert(ord.skip(k as int)[0] == ord[k as int]);
                assert(b.id() == ord[k as int]);
                assert(0 <= ord[k as int] < self.n_buckets());
                assert(self.behaviours_at(b.id()) == behs[ord[k as int]]);
            }
            let ghost qs_before = self.quantities();
            let step = b.update(self, ticks);
            proof {
                assert(ord.skip(k as int).drop_first() =~= ord.skip(k as int + 1));
            }
            match step {
                Ok(_) => {},
                Err(e) => {
                    proof {
                        let s = ord.skip(k as int);
                        let inner = run_behaviours(
                            qs_before,
                            ord[k as int],
                            behs[ord[k as int]],
                            ticks as int,
                        );
                        assert(inner.1 == Some(e));
                        assert(run_sweep(qs_before, behs, s, ticks as int) == inner);
                        assert(self.quantities() == inner.0);
                    }
                    return Err(e);
                },
            }
            k = k + 1;
        }
        proof {
            assert(ord.skip(n as int) =~= Seq::<int>::empty());
        }
        Ok(())
    }
}

} // verus!
