//! One cell: an excitatory/inhibitory neuron pair, its synaptic weight
//! vector (one weight per input pixel) and the per-synapse plasticity
//! traces. The cell owns the learning rule: spike-timing-dependent updates
//! of the weights followed by multiplicative rescaling to a fixed total.
//!
//! Weights are clamped to at most 1.0 by the learning rule and floored at
//! zero; the floor is the variant chosen for the otherwise one-sided clamp,
//! and is stated by the contracts below.

use vstd::prelude::*;
use crate::fixed::{SCALE, spec_mul_frac, spec_div_fp, spec_exp_neg, mul_frac, div_fp, exp_neg};
use crate::neuron::{Neuron, DT_MIN, DT_MAX, DG_CAP};
use crate::sums::{
    wsum, wsum_scaled, lemma_wsum_take_succ, lemma_wsum_take_all, lemma_wsum_shift_ge,
    lemma_wsum_bounds, lemma_elem_le_wsum, lemma_wsum_scaled_bounds, lemma_wsum_scaled_pointwise,
};
use crate::IMAGE_SIZE;

verus! {

/// Fixed total that every learning step rescales the weight vector to.
pub const W_SUM: i64 = 78_000_000_000;
/// Conductance delivered to the inhibitory neuron when the cell's own
/// excitatory neuron spikes.
pub const W_EI: i64 = 10_400_000_000;
/// Conductance delivered to the excitatory neuron per lateral inhibitory
/// spike of another cell.
pub const W_IE: i64 = 17_000_000_000;
/// Decay time constants of the two post-synaptic traces (ms, fixed-point);
/// the depression trace decays faster than the potentiation trace.
pub const TC_LTD: i64 = 20_000_000_000;
pub const TC_LTP: i64 = 40_000_000_000;
/// Learning rates for depression and potentiation.
pub const NU_PRE: i64 = 100_000;
pub const NU_POST: i64 = 10_000_000;
/// Smallest pre-rescaling weight total that normalization accepts.
pub const NORM_MIN: i64 = 10_000_000;
/// Largest cell population a network may hold.
pub const CELLS_MAX: i64 = 65536;
/// Cap on a shared pre-synaptic trace value (far above what the decay
/// dynamics can reach; a range guard only).
pub const X_PRE_CAP: i64 = 1_000_000_000_000;

pub struct Cell {
    pub exc: Neuron,
    pub inh: Neuron,
    /// One weight per input pixel.
    pub weights: Vec<i64>,
    /// Per-synapse (depression, potentiation) trace pair.
    pub traces: Vec<(i64, i64)>,
}

/// Weighted count of the inputs that spiked.
pub open spec fn spec_dot(w: Seq<i64>, inp: Seq<bool>) -> int
    decreases w.len(),
{
    if w.len() == 0 {
        0
    } else {
        spec_dot(w.drop_last(), inp.drop_last())
            + if inp[w.len() - 1] { w[w.len() - 1] as int } else { 0 }
    }
}

proof fn lemma_dot_take_succ(w: Seq<i64>, inp: Seq<bool>, i: int)
    requires
        w.len() == inp.len(),
        0 <= i < w.len(),
    ensures
        spec_dot(w.take(i + 1), inp.take(i + 1))
            == spec_dot(w.take(i), inp.take(i)) + if inp[i] { w[i] as int } else { 0 },
{
    assert(w.take(i + 1).drop_last() =~= w.take(i));
    assert(inp.take(i + 1).drop_last() =~= inp.take(i));
}

/// An input vector with no spikes drives nothing.
pub proof fn lemma_dot_zero(w: Seq<i64>, inp: Seq<bool>)
    requires
        w.len() == inp.len(),
        forall|i: int| 0 <= i < inp.len() ==> !(#[trigger] inp[i]),
    ensures
        spec_dot(w, inp) == 0,
    decreases w.len(),
{
    if w.len() > 0 {
        let id = inp.drop_last();
        assert(forall|i: int| 0 <= i < id.len() ==> id[i] == inp[i]);
        lemma_dot_zero(w.drop_last(), id);
    }
}

/// Next value of the depression trace: set to 1 on a spike of this cell's
/// excitatory neuron, otherwise decayed.
pub open spec fn spec_ltd_next(ltd: i64, s: bool, dt: i64) -> int {
    if s {
        SCALE as int
    } else {
        spec_mul_frac(ltd as int, spec_exp_neg(spec_div_fp(dt as int, TC_LTD as int)))
    }
}

/// Next value of the potentiation trace.
pub open spec fn spec_ltp_next(ltp: i64, s: bool, dt: i64) -> int {
    if s {
        SCALE as int
    } else {
        spec_mul_frac(ltp as int, spec_exp_neg(spec_div_fp(dt as int, TC_LTP as int)))
    }
}

/// One synapse's weight after the plasticity update: depressed if its input
/// spiked, potentiated (scaled by the shared pre-synaptic trace) if the
/// cell spiked, then clamped to at most 1.0 and floored at 0.
pub open spec fn spec_w_stdp(w: i64, ltd1: int, ltp1: int, inp: bool, x: i64, s: bool) -> int {
    let dep = if inp { spec_mul_frac(NU_PRE as int, ltd1) } else { 0 };
    let pot = if s { spec_mul_frac(spec_mul_frac(x as int, ltp1), NU_POST as int) } else { 0 };
    let w1 = w + pot - dep;
    let w2 = if w1 > SCALE { SCALE as int } else { w1 };
    if w2 < 0 { 0 } else { w2 }
}

/// The whole weight vector after the plasticity update, before rescaling.
pub open spec fn spec_stdp_weights(
    w: Seq<i64>,
    tr: Seq<(i64, i64)>,
    inp: Seq<bool>,
    x_pre: Seq<i64>,
    s: bool,
    dt: i64,
) -> Seq<i64> {
    Seq::new(
        w.len(),
        |i: int| spec_w_stdp(
            w[i],
            spec_ltd_next(tr[i].0, s, dt),
            spec_ltp_next(tr[i].1, s, dt),
            inp[i],
            x_pre[i],
            s,
        ) as i64,
    )
}

/// The rescaled weight vector: every element multiplied by the ratio of the
/// target total to the present total, rounding down.
pub open spec fn spec_normalized(w: Seq<i64>) -> Seq<i64> {
    Seq::new(w.len(), |i: int| (w[i] * W_SUM / wsum(w)) as i64)
}

impl Cell {
    /// State kept within the ranges every step preserves.
    pub open spec fn wf(self) -> bool {
        &&& self.weights@.len() == IMAGE_SIZE
        &&& self.traces@.len() == IMAGE_SIZE
        &&& forall|i: int| 0 <= i < IMAGE_SIZE ==> 0 <= #[trigger] self.weights@[i] <= W_SUM
        &&& forall|i: int| 0 <= i < IMAGE_SIZE ==> 0 <= (#[trigger] self.traces@[i]).0 <= SCALE
            && 0 <= self.traces@[i].1 <= SCALE
        &&& self.exc.wf()
        &&& self.inh.wf()
        &&& self.exc.exc
        &&& !self.inh.exc
    }

    /// The homeostatic invariant: the weight total sits at the target, up
    /// to one rounding unit per weight.
    pub open spec fn norm(self) -> bool {
        W_SUM - IMAGE_SIZE < wsum(self.weights@) <= W_SUM
    }

    /// Lateral inhibitory drive: every other cell's inhibitory spike from
    /// the previous step, weighted.
    pub open spec fn spec_dgi(self, inh_spikes: i64) -> int {
        (inh_spikes - if self.inh.s { 1int } else { 0 }) * W_IE
    }

    /// A fresh cell from raw weight draws in [0, 1]: the draws are rescaled
    /// to the target total. A degenerate draw whose total is below
    /// `NORM_MIN` is replaced by a uniform vector first, so construction
    /// always establishes the invariant.
    pub fn new(raw: Vec<i64>) -> (c: Cell)
        requires
            raw@.len() == IMAGE_SIZE,
            forall|i: int| 0 <= i < IMAGE_SIZE ==> 0 <= #[trigger] raw@[i] <= SCALE,
        ensures
            c.wf(),
            c.norm(),
            c.exc == Neuron::spec_fresh(true),
            c.inh == Neuron::spec_fresh(false),
            forall|i: int| 0 <= i < IMAGE_SIZE ==> #[trigger] c.traces@[i] == (0i64, 0i64),
            wsum(raw@) >= NORM_MIN ==> c.weights@ == spec_normalized(raw@),
    {
        let mut weights = raw;
        let sum = sum_weights(&weights);
        if sum < NORM_MIN {
            let mut i: usize = 0;
            while i < weights.len()
                invariant
                    weights@.len() == IMAGE_SIZE,
                    0 <= i <= IMAGE_SIZE,
                    forall|j: int| 0 <= j < i ==> #[trigger] weights@[j] == 500_000_000i64,
                    forall|j: int| i <= j < IMAGE_SIZE ==> 0 <= #[trigger] weights@[j] <= SCALE,
                decreases IMAGE_SIZE - i,
            {
                weights.set(i, 500_000_000);
                i = i + 1;
            }
            proof {
                lemma_wsum_bounds(weights@, 500_000_000, 500_000_000);
                assert(wsum(weights@) >= NORM_MIN);
            }
        }
        normalize_weights(&mut weights);
        let mut traces: Vec<(i64, i64)> = Vec::new();
        let mut i: usize = 0;
        while i < IMAGE_SIZE
            invariant
                traces@.len() == i,
                0 <= i <= IMAGE_SIZE,
                forall|j: int| 0 <= j < i ==> #[trigger] traces@[j] == (0i64, 0i64),
            decreases IMAGE_SIZE - i,
        {
            traces.push((0, 0));
            i = i + 1;
        }
        Cell {
            exc: Neuron::new(true),
            inh: Neuron::new(false),
            weights,
            traces,
        }
    }

    /// A cell rebuilt from persisted weights: the weight vector is taken
    /// as given, the neurons and traces start fresh.
    pub fn from_weights(w: Vec<i64>) -> (c: Cell)
        requires
            w@.len() == IMAGE_SIZE,
            forall|i: int| 0 <= i < IMAGE_SIZE ==> 0 <= #[trigger] w@[i] <= SCALE,
        ensures
            c.wf(),
            c.weights@ == w@,
            c.exc == Neuron::spec_fresh(true),
            c.inh == Neuron::spec_fresh(false),
            forall|i: int| 0 <= i < IMAGE_SIZE ==> #[trigger] c.traces@[i] == (0i64, 0i64),
    {
        let mut traces: Vec<(i64, i64)> = Vec::new();
        let mut i: usize = 0;
        while i < IMAGE_SIZE
            invariant
                traces@.len() == i,
                0 <= i <= IMAGE_SIZE,
                forall|j: int| 0 <= j < i ==> #[trigger] traces@[j] == (0i64, 0i64),
            decreases IMAGE_SIZE - i,
        {
            traces.push((0, 0));
            i = i + 1;
        }
        Cell {
            exc: Neuron::new(true),
            inh: Neuron::new(false),
            weights: w,
            traces,
        }
    }

    /// Advances the cell one timestep.
    ///
    /// The excitatory neuron receives the spiking inputs weighted by the
    /// synapses, and lateral inhibition from every *other* cell's
    /// inhibitory spike of the previous step. The inhibitory neuron fires
    /// from the cell's own fresh excitatory spike. In learning mode the
    /// plasticity rule then updates traces and weights and rescales the
    /// weight vector to the fixed target total; in test mode weights and
    /// traces are left untouched.
    pub fn step(
        &mut self,
        dt: i64,
        test_mode: bool,
        inh_spikes: i64,
        input: &Vec<bool>,
        x_pre: &Vec<i64>,
    ) -> (r: (bool, bool))
        requires
            old(self).wf(),
            !test_mode ==> old(self).norm(),
            DT_MIN <= dt <= DT_MAX,
            input@.len() == IMAGE_SIZE,
            x_pre@.len() == IMAGE_SIZE,
            forall|i: int| 0 <= i < IMAGE_SIZE ==> 0 <= #[trigger] x_pre@[i] <= X_PRE_CAP,
            (if old(self).inh.s { 1int } else { 0 }) <= inh_spikes <= CELLS_MAX,
        ensures
            final(self).wf(),
            r.0 == final(self).exc.s && r.1 == final(self).inh.s,
            final(self).exc == old(self).exc.spec_step(
                test_mode,
                dt,
                spec_dot(old(self).weights@, input@) as i64,
                old(self).spec_dgi(inh_spikes) as i64,
            ),
            final(self).inh == old(self).inh.spec_step(
                test_mode,
                dt,
                if final(self).exc.s { W_EI } else { 0i64 },
                0,
            ),
            test_mode ==> final(self).weights@ == old(self).weights@
                && final(self).traces@ == old(self).traces@,
            !test_mode ==> final(self).weights@ == spec_normalized(spec_stdp_weights(
                old(self).weights@, old(self).traces@, input@, x_pre@,
                final(self).exc.s, dt,
            )),
            !test_mode ==> forall|i: int| 0 <= i < IMAGE_SIZE ==> #[trigger] final(self).traces@[i]
                == (spec_ltd_next(old(self).traces@[i].0, final(self).exc.s, dt) as i64,
                    spec_ltp_next(old(self).traces@[i].1, final(self).exc.s, dt) as i64),
            !test_mode ==> final(self).norm(),
            // Every weight stays at most 1.0 through a step: exactly, in
            // test mode; in learning mode whenever the post-plasticity
            // total is at least the rescaling target, so the rescaling
            // ratio is at most one (see `lemma_rescale_keeps_unit_cap`
            // for the corner where depression undercuts the target).
            test_mode && (forall|i: int|
                0 <= i < IMAGE_SIZE ==> #[trigger] old(self).weights@[i] <= SCALE)
                ==> forall|i: int| 0 <= i < IMAGE_SIZE
                    ==> #[trigger] final(self).weights@[i] <= SCALE,
            !test_mode && wsum(spec_stdp_weights(
                old(self).weights@, old(self).traces@, input@, x_pre@,
                final(self).exc.s, dt)) >= W_SUM
                ==> forall|i: int| 0 <= i < IMAGE_SIZE
                    ==> #[trigger] final(self).weights@[i] <= SCALE,
            old(self).exc.refr > 0 ==> !r.0,
    {
        let ghost w0 = self.weights@;
        let ghost tr0 = self.traces@;
        let n = self.weights.len();

        // Weighted input drive to the excitatory neuron.
        let mut dge: i64 = 0;
        let mut i: usize = 0;
        proof {
            assert(w0.take(0) =~= Seq::<i64>::empty());
            assert(input@.take(0) =~= Seq::<bool>::empty());
        }
        while i < n
            invariant
                n == IMAGE_SIZE,
                0 <= i <= n,
                self.weights@ == w0,
                w0.len() == IMAGE_SIZE,
                input@.len() == IMAGE_SIZE,
                forall|j: int| 0 <= j < IMAGE_SIZE ==> 0 <= #[trigger] w0[j] <= W_SUM,
                dge == spec_dot(w0.take(i as int), input@.take(i as int)),
                0 <= dge <= wsum(w0.take(i as int)),
                wsum(w0.take(i as int)) <= i * (W_SUM as int),
            decreases n - i,
        {
            proof {
                lemma_dot_take_succ(w0, input@, i as int);
                lemma_wsum_take_succ(w0, i as int);
                assert((i + 1) * (W_SUM as int) == i * (W_SUM as int) + W_SUM)
                    by (nonlinear_arith);
            }
            if input[i] {
                dge = dge + self.weights[i];
            }
            i = i + 1;
        }
        proof {
            assert(w0.take(n as int) =~= w0);
            assert(input@.take(n as int) =~= input@);
            assert(wsum(w0.take(n as int)) <= (IMAGE_SIZE as int) * (W_SUM as int))
                by (nonlinear_arith)
                requires
                    wsum(w0.take(n as int)) <= n * (W_SUM as int),
                    n == IMAGE_SIZE;
            assert(dge <= DG_CAP);
        }

        // Lateral inhibition, lagged one step: the pooled count minus this
        // cell's own contribution.
        let own: i64 = if self.inh.s { 1 } else { 0 };
        let dgi: i64 = (inh_spikes - own) * W_IE;

        self.exc.step(test_mode, dt, dge, dgi);
        let s1 = self.exc.s;
        let dge_inh: i64 = if s1 { W_EI } else { 0 };
        self.inh.step(test_mode, dt, dge_inh, 0);

        if !test_mode {
            self.apply_stdp(dt, s1, input, x_pre);
        }
        (self.exc.s, self.inh.s)
    }

    /// Plasticity and rescaling, in learning mode only: updates the trace
    /// pairs, applies depression and potentiation to each weight, clamps,
    /// and rescales the vector to the fixed target total.
    fn apply_stdp(&mut self, dt: i64, s1: bool, input: &Vec<bool>, x_pre: &Vec<i64>)
        requires
            old(self).wf(),
            old(self).norm(),
            DT_MIN <= dt <= DT_MAX,
            input@.len() == IMAGE_SIZE,
            x_pre@.len() == IMAGE_SIZE,
            forall|i: int| 0 <= i < IMAGE_SIZE ==> 0 <= #[trigger] x_pre@[i] <= X_PRE_CAP,
        ensures
            final(self).exc == old(self).exc,
            final(self).inh == old(self).inh,
            final(self).weights@.len() == IMAGE_SIZE,
            final(self).traces@.len() == IMAGE_SIZE,
            forall|i: int| 0 <= i < IMAGE_SIZE ==> 0 <= #[trigger] final(self).weights@[i] <= W_SUM,
            forall|i: int| 0 <= i < IMAGE_SIZE ==> 0 <= (#[trigger] final(self).traces@[i]).0 <= SCALE
                && 0 <= final(self).traces@[i].1 <= SCALE,
            final(self).weights@ == spec_normalized(
                spec_stdp_weights(old(self).weights@, old(self).traces@, input@, x_pre@, s1, dt),
            ),
            forall|i: int| 0 <= i < IMAGE_SIZE ==> #[trigger] final(self).traces@[i]
                == (spec_ltd_next(old(self).traces@[i].0, s1, dt) as i64,
                    spec_ltp_next(old(self).traces@[i].1, s1, dt) as i64),
            W_SUM - IMAGE_SIZE < wsum(final(self).weights@) <= W_SUM,
            wsum(spec_stdp_weights(
                old(self).weights@, old(self).traces@, input@, x_pre@, s1, dt)) >= W_SUM
                ==> forall|i: int| 0 <= i < IMAGE_SIZE
                    ==> #[trigger] final(self).weights@[i] <= SCALE,
    {
        let ghost w0 = self.weights@;
        let ghost tr0 = self.traces@;
        let ghost stdp = spec_stdp_weights(w0, tr0, input@, x_pre@, s1, dt);
        let n = self.weights.len();
        let decay_ltd = exp_neg(div_fp(dt, TC_LTD));
        let decay_ltp = exp_neg(div_fp(dt, TC_LTP));

        let mut i: usize = 0;
        while i < n
            invariant
                n == IMAGE_SIZE,
                0 <= i <= n,
                self.weights@.len() == IMAGE_SIZE,
                self.traces@.len() == IMAGE_SIZE,
                self.exc == old(self).exc,
                self.inh == old(self).inh,
                input@.len() == IMAGE_SIZE,
                x_pre@.len() == IMAGE_SIZE,
                forall|j: int| 0 <= j < IMAGE_SIZE ==> 0 <= #[trigger] x_pre@[j] <= X_PRE_CAP,
                decay_ltd == spec_exp_neg(spec_div_fp(dt as int, TC_LTD as int)),
                decay_ltp == spec_exp_neg(spec_div_fp(dt as int, TC_LTP as int)),
                0 <= decay_ltd <= SCALE,
                0 <= decay_ltp <= SCALE,
                stdp == spec_stdp_weights(w0, tr0, input@, x_pre@, s1, dt),
                w0.len() == IMAGE_SIZE,
                tr0.len() == IMAGE_SIZE,
                forall|j: int| 0 <= j < IMAGE_SIZE ==> 0 <= #[trigger] w0[j] <= W_SUM,
                forall|j: int| 0 <= j < IMAGE_SIZE ==> 0 <= (#[trigger] tr0[j]).0 <= SCALE
                    && 0 <= tr0[j].1 <= SCALE,
                forall|j: int| i <= j < IMAGE_SIZE ==> #[trigger] self.weights@[j] == w0[j],
                forall|j: int| i <= j < IMAGE_SIZE ==> #[trigger] self.traces@[j] == tr0[j],
                forall|j: int| 0 <= j < i ==> #[trigger] self.weights@[j] == stdp[j]
                    && 0 <= self.weights@[j] <= SCALE,
                forall|j: int| 0 <= j < i ==> #[trigger] self.traces@[j]
                    == (spec_ltd_next(tr0[j].0, s1, dt) as i64,
                        spec_ltp_next(tr0[j].1, s1, dt) as i64)
                    && 0 <= self.traces@[j].0 <= SCALE && 0 <= self.traces@[j].1 <= SCALE,
            decreases n - i,
        {
            let (ltd0, ltp0) = self.traces[i];
            let ltd1: i64 = if s1 { SCALE } else { mul_frac(ltd0, decay_ltd) };
            let ltp1: i64 = if s1 { SCALE } else { mul_frac(ltp0, decay_ltp) };
            self.traces.set(i, (ltd1, ltp1));

            let w = self.weights[i];
            let dep: i64 = if input[i] { mul_frac(NU_PRE, ltd1) } else { 0 };
            let pot: i64 = if s1 { mul_frac(mul_frac(x_pre[i], ltp1), NU_POST) } else { 0 };
            let w1 = w + pot - dep;
            let w2 = if w1 > SCALE { SCALE } else { w1 };
            let w3 = if w2 < 0 { 0 } else { w2 };
            self.weights.set(i, w3);
            proof {
                let j = i as int;
                assert(ltd1 == spec_ltd_next(tr0[j].0, s1, dt));
                assert(ltp1 == spec_ltp_next(tr0[j].1, s1, dt));
                assert(stdp[j] == spec_w_stdp(
                    w0[j],
                    spec_ltd_next(tr0[j].0, s1, dt),
                    spec_ltp_next(tr0[j].1, s1, dt),
                    input@[j],
                    x_pre@[j],
                    s1,
                ) as i64);
                assert(w3 == spec_w_stdp(w0[j], ltd1 as int, ltp1 as int, input@[j], x_pre@[j], s1));
                assert(self.weights@[j] == stdp[j]);
            }
            i = i + 1;
        }

        proof {
            assert(self.weights@ =~= stdp);
            if wsum(stdp) >= W_SUM {
                lemma_rescale_keeps_unit_cap(stdp);
            }
        }
        // The rescaling below is safe: starting from a normalized vector,
        // one plasticity update cannot push the total anywhere near zero.
        proof {
            assert forall|j: int| 0 <= j < IMAGE_SIZE implies #[trigger] stdp[j]
                >= (if w0[j] > SCALE { SCALE as int } else { w0[j] as int }) - NU_PRE by {
                let ltd1 = spec_ltd_next(tr0[j].0, s1, dt);
                let ltp1 = spec_ltp_next(tr0[j].1, s1, dt);
                crate::fixed::lemma_mul_frac_bounds(tr0[j].0 as int,
                    spec_exp_neg(spec_div_fp(dt as int, TC_LTD as int)));
                crate::fixed::lemma_mul_frac_bounds(tr0[j].1 as int,
                    spec_exp_neg(spec_div_fp(dt as int, TC_LTP as int)));
                assert(0 <= ltd1 <= SCALE);
                assert(0 <= ltp1 <= SCALE);
                let dep = if input@[j] { spec_mul_frac(NU_PRE as int, ltd1) } else { 0 };
                crate::fixed::lemma_mul_frac_bounds(NU_PRE as int, ltd1);
                assert(0 <= dep <= NU_PRE);
                let pot0 = spec_mul_frac(x_pre@[j] as int, ltp1);
                crate::fixed::lemma_mul_frac_bounds(x_pre@[j] as int, ltp1);
                crate::fixed::lemma_mul_frac_bounds(pot0, NU_POST as int);
            }
            lemma_stdp_sum_stays_up(w0, stdp);
        }
        normalize_weights(&mut self.weights);
        proof {
            assert(self.weights@ =~= spec_normalized(stdp));
        }
    }
}

/// The plasticity update clamps every weight to at most 1.0, and rescaling
/// keeps that bound whenever the pre-rescaling total is at least the
/// target, because the rescaling ratio is then at most one. (When
/// depression has pulled the total below the target, the ratio exceeds
/// one and a weight at the clamp can end slightly above 1.0.)
pub proof fn lemma_rescale_keeps_unit_cap(w: Seq<i64>)
    requires
        forall|i: int| 0 <= i < w.len() ==> 0 <= #[trigger] w[i] <= SCALE,
        wsum(w) >= W_SUM,
    ensures
        forall|i: int| 0 <= i < w.len() ==> #[trigger] spec_normalized(w)[i] <= SCALE,
{
    assert forall|i: int| 0 <= i < w.len() implies #[trigger] spec_normalized(w)[i] <= SCALE by {
        assert(w[i] * W_SUM / wsum(w) <= w[i]) by (nonlinear_arith)
            requires 0 <= w[i], wsum(w) >= W_SUM, W_SUM >= 1;
    }
}

/// From a normalized vector, one plasticity update keeps the weight total
/// far above the rescaling threshold: the clamp at 1.0 can cut a weight of
/// at most `W_SUM` down to 1.0, which still leaves at least a `1/W_SUM`
/// share of the old total, and depression removes at most `NU_PRE` per
/// synapse.
proof fn lemma_stdp_sum_stays_up(w0: Seq<i64>, stdp: Seq<i64>)
    requires
        w0.len() == IMAGE_SIZE,
        stdp.len() == IMAGE_SIZE,
        forall|i: int| 0 <= i < IMAGE_SIZE ==> 0 <= #[trigger] w0[i] <= W_SUM,
        W_SUM - IMAGE_SIZE < wsum(w0) <= W_SUM,
        forall|i: int| 0 <= i < IMAGE_SIZE ==> #[trigger] stdp[i]
            >= (if w0[i] > SCALE { SCALE as int } else { w0[i] as int }) - NU_PRE,
    ensures
        wsum(stdp) >= NORM_MIN,
{
    let q = Seq::new(w0.len(), |i: int| (w0[i] * SCALE / (W_SUM as int)) as i64);
    assert forall|i: int| 0 <= i < IMAGE_SIZE implies stdp[i] >= #[trigger] q[i] - NU_PRE by {
        let m: int = if w0[i] > SCALE { SCALE as int } else { w0[i] as int };
        assert(w0[i] * SCALE / (W_SUM as int) <= m) by (nonlinear_arith)
            requires
                0 <= w0[i] <= W_SUM,
                m == (if w0[i] > SCALE { SCALE as int } else { w0[i] as int }),
                SCALE >= 1,
                W_SUM >= SCALE;
        assert(0 <= w0[i] * SCALE / (W_SUM as int) <= SCALE) by (nonlinear_arith)
            requires 0 <= w0[i] <= W_SUM, SCALE >= 1, W_SUM >= 1;
    }
    lemma_wsum_shift_ge(stdp, q, NU_PRE as int);
    lemma_wsum_scaled_pointwise(q, w0, SCALE as int, W_SUM as int);
    lemma_wsum_scaled_bounds(w0, SCALE as int, W_SUM as int);
    let ws = wsum_scaled(w0, SCALE as int, W_SUM as int);
    assert(ws >= 998_000_000) by (nonlinear_arith)
        requires
            wsum(w0) * (SCALE as int) < (ws + IMAGE_SIZE) * (W_SUM as int),
            wsum(w0) * (SCALE as int) >= ws * (W_SUM as int),
            wsum(w0) > W_SUM - IMAGE_SIZE,
            W_SUM == 78_000_000_000,
            SCALE == 1_000_000_000,
            IMAGE_SIZE == 784;
    assert(wsum(stdp) >= wsum(q) - IMAGE_SIZE * (NU_PRE as int));
    assert(IMAGE_SIZE * (NU_PRE as int) == 78_400_000) by (nonlinear_arith)
        requires IMAGE_SIZE == 784, NU_PRE == 100_000;
}

/// Total of a weight vector.
fn sum_weights(w: &Vec<i64>) -> (sum: i64)
    requires
        w@.len() <= IMAGE_SIZE,
        forall|i: int| 0 <= i < w@.len() ==> 0 <= #[trigger] w@[i] <= W_SUM,
    ensures
        sum == wsum(w@),
        0 <= sum,
{
    let mut sum: i64 = 0;
    let mut i: usize = 0;
    proof {
        assert(w@.take(0) =~= Seq::<i64>::empty());
    }
    while i < w.len()
        invariant
            0 <= i <= w@.len(),
            w@.len() <= IMAGE_SIZE,
            forall|j: int| 0 <= j < w@.len() ==> 0 <= #[trigger] w@[j] <= W_SUM,
            sum == wsum(w@.take(i as int)),
            0 <= sum,
            sum <= i * (W_SUM as int),
        decreases w@.len() - i,
    {
        proof {
            lemma_wsum_take_succ(w@, i as int);
            assert((i + 1) * (W_SUM as int) == i * (W_SUM as int) + W_SUM) by (nonlinear_arith);
        }
        sum = sum + w[i];
        i = i + 1;
    }
    proof {
        lemma_wsum_take_all(w@);
    }
    sum
}

/// Rescales the vector so its total becomes the target `W_SUM`, rounding
/// each weight down; the resulting total differs from the target by less than one
/// rounding unit per weight.
fn normalize_weights(w: &mut Vec<i64>)
    requires
        old(w)@.len() == IMAGE_SIZE,
        forall|i: int| 0 <= i < IMAGE_SIZE ==> 0 <= #[trigger] old(w)@[i] <= SCALE,
        wsum(old(w)@) >= NORM_MIN,
    ensures
        final(w)@.len() == IMAGE_SIZE,
        forall|i: int| 0 <= i < IMAGE_SIZE ==> #[trigger] final(w)@[i]
            == old(w)@[i] * W_SUM / wsum(old(w)@),
        final(w)@ == spec_normalized(old(w)@),
        forall|i: int| 0 <= i < IMAGE_SIZE ==> 0 <= #[trigger] final(w)@[i] <= W_SUM,
        W_SUM - IMAGE_SIZE < wsum(final(w)@) <= W_SUM,
{
    let ghost w0 = w@;
    let sum = sum_weights(w);
    let n = w.len();
    let mut i: usize = 0;
    while i < n
        invariant
            n == IMAGE_SIZE,
            0 <= i <= n,
            w@.len() == IMAGE_SIZE,
            sum == wsum(w0),
            NORM_MIN <= sum,
            forall|j: int| 0 <= j < IMAGE_SIZE ==> 0 <= #[trigger] w0[j] <= SCALE,
            forall|j: int| i <= j < IMAGE_SIZE ==> #[trigger] w@[j] == w0[j],
            forall|j: int| 0 <= j < i ==> #[trigger] w@[j] == w0[j] * W_SUM / wsum(w0)
                && 0 <= w@[j] <= 10_000_000_000_000,
        decreases n - i,
    {
        let v = w[i];
        proof {
            assert(v * W_SUM <= (SCALE as int) * (W_SUM as int)) by (nonlinear_arith)
                requires 0 <= v <= SCALE, W_SUM >= 0;
            assert(v * W_SUM / (sum as int) <= 10_000_000_000_000) by (nonlinear_arith)
                requires
                    0 <= v * W_SUM <= (SCALE as int) * (W_SUM as int),
                    sum >= NORM_MIN,
                    NORM_MIN == 10_000_000,
                    SCALE == 1_000_000_000,
                    W_SUM == 78_000_000_000;
            assert(v * W_SUM / (sum as int) >= 0) by (nonlinear_arith)
                requires 0 <= v * W_SUM, sum >= 1;
        }
        let scaled: i64 = (((v as u128) * (W_SUM as u128)) / (sum as u128)) as i64;
        proof {
            assert(scaled == v * W_SUM / (sum as int));
        }
        w.set(i, scaled);
        i = i + 1;
    }
    proof {
        lemma_wsum_scaled_pointwise(w@, w0, W_SUM as int, wsum(w0));
        lemma_wsum_scaled_bounds(w0, W_SUM as int, wsum(w0));
        let ws = wsum_scaled(w0, W_SUM as int, wsum(w0));
        assert(ws <= W_SUM) by (nonlinear_arith)
            requires
                ws * wsum(w0) <= wsum(w0) * (W_SUM as int),
                wsum(w0) >= 1;
        assert(ws > W_SUM - IMAGE_SIZE) by (nonlinear_arith)
            requires
                wsum(w0) * (W_SUM as int) < (ws + IMAGE_SIZE) * wsum(w0),
                wsum(w0) >= 1;
        assert forall|j: int| 0 <= j < IMAGE_SIZE implies 0 <= #[trigger] w@[j] <= W_SUM by {
            lemma_elem_le_wsum(w@, j);
        }
        assert(w@ =~= spec_normalized(w0));
    }
}

} // verus!
