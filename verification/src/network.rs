//! The network: an ensemble of cells sharing one input layer.
//!
//! Each timestep the network draws a Bernoulli spike per input pixel,
//! updates the shared pre-synaptic traces, steps every cell against the
//! same input and the *previous* step's pooled inhibitory count (the
//! one-step lag that decouples the cells from each other within a step),
//! and finally pools the fresh inhibitory spikes for the next step.

use vstd::prelude::*;
use rand::SeedableRng;
use rand::Rng as _;
use rayon::iter::{IntoParallelRefMutIterator, ParallelIterator};
use crate::fixed::{SCALE, spec_mul_frac, spec_div_fp, spec_exp_neg, mul_frac, div_fp, exp_neg};
use crate::neuron::{Neuron, DT_MIN, DT_MAX, V_REST_EXC, V_REST_INH, THETA_CALM, THETA_INIT};
use crate::cell::{
    Cell, W_EI, CELLS_MAX, X_PRE_CAP, spec_dot, spec_normalized, spec_stdp_weights,
    spec_ltd_next, spec_ltp_next,
};
use crate::IMAGE_SIZE;

verus! {

/// Decay time constant of the shared pre-synaptic traces (ms, fixed-point).
pub const TC_PRE: i64 = 20_000_000_000;
/// Largest intensity multiplier the stimulus encoder accepts.
pub const INTENSITY_CAP: u32 = 1_000_000;

#[verifier::external_type_specification]
#[verifier::external_body]
pub struct ExStdRng(rand::rngs::StdRng);

/// Relies on rand's `StdRng::seed_from_u64`: builds the standard generator
/// deterministically from a 64-bit seed.
#[verifier::external_body]
fn rng_from_seed(seed: u64) -> rand::rngs::StdRng {
    rand::rngs::StdRng::seed_from_u64(seed)
}

/// Relies on rand's `Rng::next_u64` on `StdRng`: yields the generator's
/// next word and advances its state. Nothing is assumed about the value.
#[verifier::external_body]
fn rng_next_u64(rng: &mut rand::rngs::StdRng) -> u64 {
    rng.next_u64()
}

/// Number of cells whose excitatory neuron spiked on the current step.
pub open spec fn count_exc(s: Seq<Cell>) -> int
    decreases s.len(),
{
    if s.len() == 0 {
        0
    } else {
        count_exc(s.drop_last()) + if s.last().exc.s { 1int } else { 0 }
    }
}

/// Number of cells whose inhibitory neuron spiked on the current step.
pub open spec fn count_inh(s: Seq<Cell>) -> int
    decreases s.len(),
{
    if s.len() == 0 {
        0
    } else {
        count_inh(s.drop_last()) + if s.last().inh.s { 1int } else { 0 }
    }
}

pub proof fn lemma_counts_take_succ(s: Seq<Cell>, i: int)
    requires
        0 <= i < s.len(),
    ensures
        count_exc(s.take(i + 1)) == count_exc(s.take(i)) + if s[i].exc.s { 1int } else { 0 },
        count_inh(s.take(i + 1)) == count_inh(s.take(i)) + if s[i].inh.s { 1int } else { 0 },
{
    assert(s.take(i + 1).drop_last() =~= s.take(i));
    assert(s.take(i + 1).last() == s[i]);
}

pub proof fn lemma_counts_bounds(s: Seq<Cell>)
    ensures
        0 <= count_exc(s) <= s.len(),
        0 <= count_inh(s) <= s.len(),
    decreases s.len(),
{
    if s.len() > 0 {
        lemma_counts_bounds(s.drop_last());
    }
}

/// A cell's own inhibitory spike is part of the pooled count.
pub proof fn lemma_count_inh_elem(s: Seq<Cell>, i: int)
    requires
        0 <= i < s.len(),
    ensures
        (if s[i].inh.s { 1int } else { 0 }) <= count_inh(s),
    decreases s.len(),
{
    lemma_counts_bounds(s.drop_last());
    if i < s.len() - 1 {
        assert(s.drop_last()[i] == s[i]);
        lemma_count_inh_elem(s.drop_last(), i);
    }
}

/// If no cell spiked, the counts are zero.
pub proof fn lemma_counts_zero(s: Seq<Cell>)
    requires
        forall|i: int| 0 <= i < s.len() ==> !(#[trigger] s[i]).exc.s && !s[i].inh.s,
    ensures
        count_exc(s) == 0,
        count_inh(s) == 0,
    decreases s.len(),
{
    if s.len() > 0 {
        let sd = s.drop_last();
        assert(forall|i: int| 0 <= i < sd.len() ==> sd[i] == s[i]);
        lemma_counts_zero(sd);
    }
}

/// Next value of a shared pre-synaptic trace: decayed, bumped by a spike of
/// its pixel, and held under the range guard.
pub open spec fn spec_x_next(x: i64, sp: bool, dt: i64) -> int {
    let d = spec_mul_frac(x as int, spec_exp_neg(spec_div_fp(dt as int, TC_PRE as int)))
        + if sp { SCALE as int } else { 0 };
    if d > X_PRE_CAP { X_PRE_CAP as int } else { d }
}

/// The Bernoulli draw for one pixel: the spike probability is
/// `pixel/4 * intensity * dt/1000` (a pixel's intensity maps linearly to a
/// rate in Hz), and the uniform 64-bit draw is compared against that
/// probability's share of the 64-bit range.
pub open spec fn spec_spike(draw: u64, pix: u8, intensity: u32, dt: i64) -> bool {
    (draw as int) < (pix * intensity * dt / 4000) * 0x1_0000_0000_0000_0000 / (SCALE as int)
}

/// Decides one pixel's spike from a uniform 64-bit draw. A zero pixel or a
/// zero intensity never spikes.
fn bernoulli_spike(draw: u64, pix: u8, intensity: u32, dt: i64) -> (sp: bool)
    requires
        DT_MIN <= dt <= DT_MAX,
        intensity <= INTENSITY_CAP,
    ensures
        sp == spec_spike(draw, pix, intensity, dt),
        (pix == 0 || intensity == 0) ==> !sp,
{
    proof {
        assert(pix * intensity <= 255 * 1_000_000) by (nonlinear_arith)
            requires 0 <= pix <= 255, 0 <= intensity <= 1_000_000;
        assert(pix * intensity * dt <= 255_000_000 * 10_000_000_000) by (nonlinear_arith)
            requires 0 <= pix * intensity <= 255_000_000, 0 <= dt <= 10_000_000_000;
    }
    let p: u128 = (pix as u128) * (intensity as u128) * (dt as u128) / 4000;
    proof {
        assert(p == pix * intensity * dt / 4000);
        vstd::arithmetic::div_mod::lemma_div_is_ordered(
            (pix * intensity * dt) as int, 2_550_000_000_000_000_000, 4000);
        assert(p <= 0x4_0000_0000_0000);
        assert(p * 0x1_0000_0000_0000_0000
            <= 0x4_0000_0000_0000 * 0x1_0000_0000_0000_0000) by (nonlinear_arith)
            requires 0 <= p <= 0x4_0000_0000_0000;
    }
    let t: u128 = p * 0x1_0000_0000_0000_0000u128 / (SCALE as u128);
    (draw as u128) < t
}

/// One cell's transition within a network step, as a deterministic relation
/// between its old and new state given the shared input, traces and the
/// lagged pooled inhibition.
pub open spec fn cell_stepped(
    c0: Cell,
    c1: Cell,
    dt: i64,
    test_mode: bool,
    inh_prev: i64,
    inp: Seq<bool>,
    x_pre: Seq<i64>,
) -> bool {
    &&& c1.exc == c0.exc.spec_step(
        test_mode, dt, spec_dot(c0.weights@, inp) as i64, c0.spec_dgi(inh_prev) as i64)
    &&& c1.inh == c0.inh.spec_step(test_mode, dt, if c1.exc.s { W_EI } else { 0i64 }, 0)
    &&& test_mode ==> c1.weights@ == c0.weights@ && c1.traces@ == c0.traces@
    &&& !test_mode ==> c1.weights@ == spec_normalized(spec_stdp_weights(
        c0.weights@, c0.traces@, inp, x_pre, c1.exc.s, dt))
    &&& !test_mode ==> c1.traces@.len() == IMAGE_SIZE
        && forall|i: int| 0 <= i < IMAGE_SIZE ==> #[trigger] c1.traces@[i]
            == (spec_ltd_next(c0.traces@[i].0, c1.exc.s, dt) as i64,
                spec_ltp_next(c0.traces@[i].1, c1.exc.s, dt) as i64)
}

pub struct Network {
    /// Deterministic generator for the stimulus encoding.
    pub rng: rand::rngs::StdRng,
    /// Index is the unit's identity: it fixes the export layout.
    pub cells: Vec<Cell>,
    /// The input spikes drawn on the current step.
    pub input: Vec<bool>,
    /// The shared pre-synaptic eligibility traces, one per pixel.
    pub x_pre: Vec<i64>,
    /// Pooled inhibitory spike count of the previous step.
    pub inh_spikes: i64,
}

/// The whole network's transition for one step on a given input spike
/// vector: every trace and cell moves by its deterministic update, and the
/// fresh inhibitory count is pooled for the next step.
pub open spec fn network_stepped(
    n0: Network,
    n1: Network,
    test_mode: bool,
    dt: i64,
    inp: Seq<bool>,
) -> bool {
    &&& n1.cells@.len() == n0.cells@.len()
    &&& n1.input@ == inp
    &&& n1.x_pre@.len() == IMAGE_SIZE
    &&& (test_mode ==> n1.x_pre@ == n0.x_pre@)
    &&& (!test_mode ==> forall|i: int| 0 <= i < IMAGE_SIZE ==> #[trigger] n1.x_pre@[i]
        == spec_x_next(n0.x_pre@[i], inp[i], dt))
    &&& forall|i: int| 0 <= i < n0.cells@.len() ==> cell_stepped(
        #[trigger] n0.cells@[i], n1.cells@[i], dt, test_mode, n0.inh_spikes, inp, n1.x_pre@)
    &&& n1.inh_spikes == count_inh(n1.cells@)
}

impl Network {
    /// State kept within the ranges every step preserves; the stored
    /// inhibitory count is exactly the pooled count of the cells' current
    /// inhibitory spikes.
    pub open spec fn wf(self) -> bool {
        &&& self.cells@.len() <= CELLS_MAX
        &&& forall|i: int| 0 <= i < self.cells@.len() ==> (#[trigger] self.cells@[i]).wf()
        &&& self.input@.len() == IMAGE_SIZE
        &&& self.x_pre@.len() == IMAGE_SIZE
        &&& forall|i: int| 0 <= i < IMAGE_SIZE ==> 0 <= #[trigger] self.x_pre@[i] <= X_PRE_CAP
        &&& self.inh_spikes == count_inh(self.cells@)
    }

    /// Every cell's weight vector sits at the normalization target; holds
    /// of freshly built networks and is re-established by every learning
    /// step, and is what a learning step requires on entry.
    pub open spec fn norm_all(self) -> bool {
        forall|i: int| 0 <= i < self.cells@.len() ==> (#[trigger] self.cells@[i]).norm()
    }

    /// A network at rest: no spikes, no conductances, potentials at or
    /// below rest, and adaptive thresholds comfortably above the floor at
    /// which a resting neuron could fire.
    pub open spec fn calm(self) -> bool {
        &&& forall|i: int| 0 <= i < self.cells@.len() ==> {
            let c = #[trigger] self.cells@[i];
            &&& c.exc.g_e == 0 && c.exc.g_i == 0 && !c.exc.s
            &&& c.exc.v <= V_REST_EXC
            &&& THETA_CALM <= c.exc.theta <= THETA_INIT
            &&& c.inh.g_e == 0 && c.inh.g_i == 0 && !c.inh.s
            &&& c.inh.v <= V_REST_INH
        }
        &&& self.inh_spikes == 0
    }

    /// Builds a fresh network: `size` cells with random weight vectors
    /// (each rescaled to the target total), cleared traces, and a
    /// deterministic stimulus generator seeded from `seed`.
    pub fn new(size: usize, seed: u64) -> (n: Network)
        requires
            size <= CELLS_MAX,
        ensures
            n.wf(),
            n.norm_all(),
            n.calm(),
            n.cells@.len() == size,
            forall|i: int| 0 <= i < size ==> (#[trigger] n.cells@[i]).exc
                == Neuron::spec_fresh(true),
            forall|i: int| 0 <= i < size ==> (#[trigger] n.cells@[i]).inh
                == Neuron::spec_fresh(false),
            forall|i: int, j: int| 0 <= i < size && 0 <= j < IMAGE_SIZE
                ==> #[trigger] n.cells@[i].traces@[j] == (0i64, 0i64),
            forall|i: int| 0 <= i < IMAGE_SIZE ==> !(#[trigger] n.input@[i]),
            forall|i: int| 0 <= i < IMAGE_SIZE ==> #[trigger] n.x_pre@[i] == 0i64,
            n.inh_spikes == 0,
    {
        let mut rng = rng_from_seed(seed);
        let mut cells: Vec<Cell> = Vec::new();
        let mut c: usize = 0;
        while c < size
            invariant
                0 <= c <= size,
                cells@.len() == c,
                forall|i: int| 0 <= i < c ==> (#[trigger] cells@[i]).wf(),
                forall|i: int| 0 <= i < c ==> (#[trigger] cells@[i]).norm(),
                forall|i: int| 0 <= i < c ==> (#[trigger] cells@[i]).exc
                    == Neuron::spec_fresh(true),
                forall|i: int| 0 <= i < c ==> (#[trigger] cells@[i]).inh
                    == Neuron::spec_fresh(false),
                forall|i: int, j: int| 0 <= i < c && 0 <= j < IMAGE_SIZE
                    ==> #[trigger] cells@[i].traces@[j] == (0i64, 0i64),
            decreases size - c,
        {
            let mut raw: Vec<i64> = Vec::new();
            let mut i: usize = 0;
            while i < IMAGE_SIZE
                invariant
                    raw@.len() == i,
                    0 <= i <= IMAGE_SIZE,
                    forall|j: int| 0 <= j < i ==> 0 <= #[trigger] raw@[j] <= SCALE,
                decreases IMAGE_SIZE - i,
            {
                let d = rng_next_u64(&mut rng);
                raw.push((d % 1_000_000_001u64) as i64);
                i = i + 1;
            }
            cells.push(Cell::new(raw));
            c = c + 1;
        }
        let mut input: Vec<bool> = Vec::new();
        let mut x_pre: Vec<i64> = Vec::new();
        let mut i: usize = 0;
        while i < IMAGE_SIZE
            invariant
                input@.len() == i,
                x_pre@.len() == i,
                0 <= i <= IMAGE_SIZE,
                forall|j: int| 0 <= j < i ==> !(#[trigger] input@[j]),
                forall|j: int| 0 <= j < i ==> #[trigger] x_pre@[j] == 0i64,
            decreases IMAGE_SIZE - i,
        {
            input.push(false);
            x_pre.push(0);
            i = i + 1;
        }
        let n = Network { rng, cells, input, x_pre, inh_spikes: 0 };
        proof {
            lemma_counts_zero(n.cells@);
        }
        n
    }

    /// Records the drawn input spikes in the shared input buffer.
    fn publish_input(&mut self, input: &Vec<bool>)
        requires
            old(self).input@.len() == IMAGE_SIZE,
            input@.len() == IMAGE_SIZE,
        ensures
            final(self).input@ == input@,
            final(self).cells == old(self).cells,
            final(self).x_pre == old(self).x_pre,
            final(self).inh_spikes == old(self).inh_spikes,
            final(self).rng == old(self).rng,
    {
        let ghost n0 = *old(self);
        let n_pix = self.input.len();
        let mut i: usize = 0;
        while i < n_pix
            invariant
                n_pix == IMAGE_SIZE,
                0 <= i <= n_pix,
                self.input@.len() == IMAGE_SIZE,
                input@.len() == IMAGE_SIZE,
                self.cells == n0.cells,
                self.x_pre == n0.x_pre,
                self.inh_spikes == n0.inh_spikes,
                self.rng == n0.rng,
                forall|j: int| 0 <= j < i ==> #[trigger] self.input@[j] == input@[j],
            decreases n_pix - i,
        {
            let v = input[i];
            self.input.set(i, v);
            i = i + 1;
        }
        proof {
            assert(self.input@ =~= input@);
        }
    }

    /// Decays the shared pre-synaptic traces and feeds in the new spikes
    /// (learning mode only; inference leaves them untouched).
    fn advance_traces(&mut self, dt: i64, input: &Vec<bool>)
        requires
            old(self).x_pre@.len() == IMAGE_SIZE,
            forall|j: int| 0 <= j < IMAGE_SIZE ==> 0 <= #[trigger] old(self).x_pre@[j] <= X_PRE_CAP,
            input@.len() == IMAGE_SIZE,
            DT_MIN <= dt <= DT_MAX,
        ensures
            final(self).x_pre@.len() == IMAGE_SIZE,
            forall|j: int| 0 <= j < IMAGE_SIZE ==> #[trigger] final(self).x_pre@[j]
                == spec_x_next(old(self).x_pre@[j], input@[j], dt)
                && 0 <= final(self).x_pre@[j] <= X_PRE_CAP,
            final(self).cells == old(self).cells,
            final(self).input == old(self).input,
            final(self).inh_spikes == old(self).inh_spikes,
            final(self).rng == old(self).rng,
    {
        let ghost n0 = *old(self);
        let n_pix = self.x_pre.len();
        let decay_pre = exp_neg(div_fp(dt, TC_PRE));
        let mut i: usize = 0;
        while i < n_pix
            invariant
                n_pix == IMAGE_SIZE,
                0 <= i <= n_pix,
                self.x_pre@.len() == IMAGE_SIZE,
                n0.x_pre@.len() == IMAGE_SIZE,
                input@.len() == IMAGE_SIZE,
                DT_MIN <= dt <= DT_MAX,
                self.cells == n0.cells,
                self.input == n0.input,
                self.inh_spikes == n0.inh_spikes,
                self.rng == n0.rng,
                decay_pre == spec_exp_neg(spec_div_fp(dt as int, TC_PRE as int)),
                0 <= decay_pre <= SCALE,
                forall|j: int| 0 <= j < IMAGE_SIZE ==> 0 <= #[trigger] n0.x_pre@[j] <= X_PRE_CAP,
                forall|j: int| i <= j < IMAGE_SIZE ==> #[trigger] self.x_pre@[j] == n0.x_pre@[j],
                forall|j: int| 0 <= j < i ==> #[trigger] self.x_pre@[j]
                    == spec_x_next(n0.x_pre@[j], input@[j], dt)
                    && 0 <= self.x_pre@[j] <= X_PRE_CAP,
            decreases n_pix - i,
        {
            let x = self.x_pre[i];
            let d = mul_frac(x, decay_pre) + if input[i] { SCALE } else { 0 };
            let x2 = if d > X_PRE_CAP { X_PRE_CAP } else { d };
            self.x_pre.set(i, x2);
            i = i + 1;
        }
    }

    /// Advances the whole network one timestep on an explicit input spike
    /// vector. This is the deterministic core of a step: every part of the
    /// new state is an exact function of the old state and the input, as
    /// `network_stepped` states, so two networks in equal states stepped on
    /// equal inputs move to equal states.
    pub fn step_with_input(&mut self, test_mode: bool, dt: i64, input: &Vec<bool>)
        -> (r: (usize, usize))
        requires
            old(self).wf(),
            !test_mode ==> old(self).norm_all(),
            DT_MIN <= dt <= DT_MAX,
            input@.len() == IMAGE_SIZE,
        ensures
            final(self).wf(),
            network_stepped(*old(self), *final(self), test_mode, dt, input@),
            final(self).rng == old(self).rng,
            final(self).cells@.len() == old(self).cells@.len(),
            r.0 == count_exc(final(self).cells@),
            r.1 == count_inh(final(self).cells@),
            final(self).inh_spikes == r.1,
            !test_mode ==> final(self).norm_all(),
            test_mode ==> final(self).x_pre@ == old(self).x_pre@
                && forall|i: int| 0 <= i < old(self).cells@.len()
                    ==> (#[trigger] final(self).cells@[i]).weights@ == old(self).cells@[i].weights@
                        && final(self).cells@[i].traces@ == old(self).cells@[i].traces@,
    {
        let ghost n0 = *old(self);
        self.publish_input(input);
        if !test_mode {
            self.advance_traces(dt, input);
        }

        // Step every cell against the shared buffers and the lagged pooled
        // inhibitory count; pool the fresh spikes.
        let ghost xp1 = self.x_pre@;
        let ghost cells0 = self.cells@;
        let inh_prev = self.inh_spikes;
        let n_cells = self.cells.len();
        let mut exc_n: usize = 0;
        let mut inh_n: usize = 0;
        let mut i: usize = 0;
        proof {
            assert(self.cells@.take(0) =~= Seq::<Cell>::empty());
        }
        while i < n_cells
            invariant
                n_cells == cells0.len(),
                n_cells <= CELLS_MAX,
                0 <= i <= n_cells,
                DT_MIN <= dt <= DT_MAX,
                self.cells@.len() == n_cells,
                input@.len() == IMAGE_SIZE,
                xp1.len() == IMAGE_SIZE,
                forall|j: int| 0 <= j < IMAGE_SIZE ==> 0 <= #[trigger] xp1[j] <= X_PRE_CAP,
                self.x_pre@ == xp1,
                self.input@ == input@,
                self.inh_spikes == n0.inh_spikes,
                self.rng == n0.rng,
                inh_prev == n0.inh_spikes,
                inh_prev == count_inh(cells0),
                forall|j: int| 0 <= j < n_cells ==> (#[trigger] cells0[j]).wf(),
                !test_mode ==> forall|j: int| 0 <= j < n_cells ==> (#[trigger] cells0[j]).norm(),
                forall|j: int| i <= j < n_cells ==> #[trigger] self.cells@[j] == cells0[j],
                forall|j: int| 0 <= j < i ==> cell_stepped(
                    #[trigger] cells0[j], self.cells@[j], dt, test_mode, inh_prev, input@, xp1),
                forall|j: int| 0 <= j < i ==> (#[trigger] self.cells@[j]).wf(),
                !test_mode ==> forall|j: int| 0 <= j < i ==> (#[trigger] self.cells@[j]).norm(),
                test_mode ==> forall|j: int| 0 <= j < i
                    ==> (#[trigger] self.cells@[j]).weights@ == cells0[j].weights@
                        && self.cells@[j].traces@ == cells0[j].traces@,
                exc_n == count_exc(self.cells@.take(i as int)),
                inh_n == count_inh(self.cells@.take(i as int)),
                exc_n <= i,
                inh_n <= i,
            decreases n_cells - i,
        {
            proof {
                lemma_count_inh_elem(cells0, i as int);
                lemma_counts_bounds(cells0);
            }
            let ghost pre_cells = self.cells@;
            let c = cell_at(&mut self.cells, i);
            let r = c.step(dt, test_mode, inh_prev, input, &self.x_pre);
            proof {
                assert(self.cells@.take(i as int) =~= pre_cells.take(i as int));
                lemma_counts_take_succ(self.cells@, i as int);
            }
            if r.0 {
                exc_n = exc_n + 1;
            }
            if r.1 {
                inh_n = inh_n + 1;
            }
            i = i + 1;
        }
        proof {
            assert(self.cells@.take(n_cells as int) =~= self.cells@);
        }
        self.inh_spikes = inh_n as i64;
        proof {
            lemma_counts_bounds(self.cells@);
        }
        (exc_n, inh_n)
    }
}

/// If two populations spike alike, they pool alike.
pub proof fn lemma_counts_congruent(a: Seq<Cell>, b: Seq<Cell>)
    requires
        a.len() == b.len(),
        forall|i: int| 0 <= i < a.len() ==> (#[trigger] a[i]).exc.s == b[i].exc.s
            && a[i].inh.s == b[i].inh.s,
    ensures
        count_exc(a) == count_exc(b),
        count_inh(a) == count_inh(b),
    decreases a.len(),
{
    if a.len() > 0 {
        let ad = a.drop_last();
        let bd = b.drop_last();
        assert(forall|i: int| 0 <= i < ad.len() ==> ad[i] == a[i] && bd[i] == b[i]);
        lemma_counts_congruent(ad, bd);
    }
}

/// Determinism of the step: two networks that start from the same state
/// and receive the same input spike vector move to the same state, part
/// for part, and report the same pooled counts.
pub proof fn lemma_step_deterministic(
    n0: Network,
    a: Network,
    b: Network,
    test_mode: bool,
    dt: i64,
    inp: Seq<bool>,
)
    requires
        n0.wf(),
        inp.len() == IMAGE_SIZE,
        network_stepped(n0, a, test_mode, dt, inp),
        network_stepped(n0, b, test_mode, dt, inp),
    ensures
        a.cells@.len() == b.cells@.len(),
        a.x_pre@ == b.x_pre@,
        a.input@ == b.input@,
        a.inh_spikes == b.inh_spikes,
        forall|i: int| 0 <= i < a.cells@.len()
            ==> (#[trigger] a.cells@[i]).exc == b.cells@[i].exc
                && a.cells@[i].inh == b.cells@[i].inh
                && a.cells@[i].weights@ == b.cells@[i].weights@
                && a.cells@[i].traces@ == b.cells@[i].traces@,
{
    assert(a.x_pre@ =~= b.x_pre@);
    assert forall|i: int| 0 <= i < a.cells@.len()
        implies (#[trigger] a.cells@[i]).exc == b.cells@[i].exc
            && a.cells@[i].inh == b.cells@[i].inh
            && a.cells@[i].weights@ == b.cells@[i].weights@
            && a.cells@[i].traces@ == b.cells@[i].traces@ by {
        let c0 = n0.cells@[i];
        assert(cell_stepped(c0, a.cells@[i], dt, test_mode, n0.inh_spikes, inp, a.x_pre@));
        assert(cell_stepped(c0, b.cells@[i], dt, test_mode, n0.inh_spikes, inp, b.x_pre@));
        if !test_mode {
            assert(a.cells@[i].traces@ =~= b.cells@[i].traces@);
        }
    }
    lemma_counts_congruent(a.cells@, b.cells@);
}

/// A blank stimulus wakes nothing: from a calm state, a step on an input
/// without spikes reports zero spike counts; inference leaves the network
/// calm, and a learning step only lets each adaptive threshold slip by at
/// most 20001 fixed-point units.
pub proof fn lemma_blank_step_silent(
    n0: Network,
    n1: Network,
    test_mode: bool,
    dt: i64,
    inp: Seq<bool>,
)
    requires
        n0.wf(),
        n0.calm(),
        DT_MIN <= dt <= DT_MAX,
        inp.len() == IMAGE_SIZE,
        forall|i: int| 0 <= i < IMAGE_SIZE ==> !(#[trigger] inp[i]),
        network_stepped(n0, n1, test_mode, dt, inp),
    ensures
        count_exc(n1.cells@) == 0,
        count_inh(n1.cells@) == 0,
        n1.inh_spikes == 0,
        test_mode ==> n1.calm(),
        forall|i: int| 0 <= i < n1.cells@.len() ==> {
            let c = #[trigger] n1.cells@[i];
            &&& c.exc.g_e == 0 && c.exc.g_i == 0 && !c.exc.s
            &&& c.exc.v <= V_REST_EXC
            &&& c.inh.g_e == 0 && c.inh.g_i == 0 && !c.inh.s
            &&& c.inh.v <= V_REST_INH
            &&& c.exc.theta <= n0.cells@[i].exc.theta
            &&& c.exc.theta >= n0.cells@[i].exc.theta - 20_001
        },
{
    assert forall|i: int| 0 <= i < n1.cells@.len() implies {
        let c = #[trigger] n1.cells@[i];
        &&& c.exc.g_e == 0 && c.exc.g_i == 0 && !c.exc.s
        &&& c.exc.v <= V_REST_EXC
        &&& c.inh.g_e == 0 && c.inh.g_i == 0 && !c.inh.s
        &&& c.inh.v <= V_REST_INH
        &&& c.exc.theta <= n0.cells@[i].exc.theta
        &&& c.exc.theta >= n0.cells@[i].exc.theta - 20_001
        &&& (test_mode ==> c.exc.theta == n0.cells@[i].exc.theta)
    } by {
        let c0 = n0.cells@[i];
        let c1 = n1.cells@[i];
        assert(cell_stepped(c0, c1, dt, test_mode, n0.inh_spikes, inp, n1.x_pre@));
        crate::cell::lemma_dot_zero(c0.weights@, inp);
        assert(c0.spec_dgi(n0.inh_spikes) == 0);
        c0.exc.lemma_step_at_rest(test_mode, dt);
        assert(c1.exc == c0.exc.spec_step(test_mode, dt, 0, 0));
        c0.inh.lemma_step_at_rest(test_mode, dt);
        assert(c1.inh == c0.inh.spec_step(test_mode, dt, 0, 0));
    }
    assert forall|i: int| 0 <= i < n1.cells@.len()
        implies !(#[trigger] n1.cells@[i]).exc.s && !n1.cells@[i].inh.s by {}
    lemma_counts_zero(n1.cells@);
}

/// Relies on rayon's `par_iter_mut` over the cell vector: the verified
/// `Cell::step` is applied to each cell exactly once, in place, and the
/// per-cell spike pairs are collected in cell order. What each call does
/// to its cell is fixed by `Cell::step`'s own contract; the cells are
/// independent within a step, which is what makes this fan-out sound.
#[verifier::external_body]
fn par_step_cells(
    cells: &mut Vec<Cell>,
    dt: i64,
    test_mode: bool,
    inh_prev: i64,
    input: &Vec<bool>,
    x_pre: &Vec<i64>,
) -> (rs: Vec<(bool, bool)>)
    requires
        forall|i: int| 0 <= i < old(cells)@.len() ==> (#[trigger] old(cells)@[i]).wf(),
        !test_mode ==> forall|i: int| 0 <= i < old(cells)@.len()
            ==> (#[trigger] old(cells)@[i]).norm(),
        DT_MIN <= dt <= DT_MAX,
        input@.len() == IMAGE_SIZE,
        x_pre@.len() == IMAGE_SIZE,
        forall|i: int| 0 <= i < IMAGE_SIZE ==> 0 <= #[trigger] x_pre@[i] <= X_PRE_CAP,
        forall|i: int| 0 <= i < old(cells)@.len()
            ==> (if (#[trigger] old(cells)@[i]).inh.s { 1int } else { 0 }) <= inh_prev,
        inh_prev <= CELLS_MAX,
    ensures
        final(cells)@.len() == old(cells)@.len(),
        forall|i: int| 0 <= i < old(cells)@.len() ==> cell_stepped(
            #[trigger] old(cells)@[i], final(cells)@[i], dt, test_mode, inh_prev,
            input@, x_pre@),
        forall|i: int| 0 <= i < old(cells)@.len() ==> (#[trigger] final(cells)@[i]).wf(),
        !test_mode ==> forall|i: int| 0 <= i < old(cells)@.len()
            ==> (#[trigger] final(cells)@[i]).norm(),
        test_mode ==> forall|i: int| 0 <= i < old(cells)@.len()
            ==> (#[trigger] final(cells)@[i]).weights@ == old(cells)@[i].weights@
                && final(cells)@[i].traces@ == old(cells)@[i].traces@,
        rs@.len() == old(cells)@.len(),
        forall|i: int| 0 <= i < old(cells)@.len() ==> #[trigger] rs@[i]
            == (final(cells)@[i].exc.s, final(cells)@[i].inh.s),
{
    cells
        .par_iter_mut()
        .map(|c: &mut Cell| c.step(dt, test_mode, inh_prev, input, x_pre))
        .collect()
}

impl Network {
    /// Advances the network one timestep on a stimulus image: draws one
    /// Bernoulli spike per pixel at a rate proportional to the pixel's
    /// intensity, then performs the deterministic step on those spikes,
    /// fanning the independent cell updates out across worker threads.
    /// Returns the pooled excitatory and inhibitory spike counts.
    ///
    /// Whatever the draws were, the new state relates to the old one by
    /// `network_stepped` on some input vector that is silent wherever the
    /// image or the intensity is zero; on a calm network a zero-intensity
    /// inference step returns `(0, 0)` and leaves the network calm.
    pub fn step(&mut self, test_mode: bool, dt: i64, image: &Vec<u8>, intensity: u32)
        -> (r: (usize, usize))
        requires
            old(self).wf(),
            !test_mode ==> old(self).norm_all(),
            DT_MIN <= dt <= DT_MAX,
            image@.len() == IMAGE_SIZE,
            intensity <= INTENSITY_CAP,
        ensures
            final(self).wf(),
            final(self).cells@.len() == old(self).cells@.len(),
            r.0 == count_exc(final(self).cells@),
            r.1 == count_inh(final(self).cells@),
            final(self).inh_spikes == r.1,
            r.0 <= old(self).cells@.len() && r.1 <= old(self).cells@.len(),
            !test_mode ==> final(self).norm_all(),
            test_mode ==> final(self).x_pre@ == old(self).x_pre@
                && forall|i: int| 0 <= i < old(self).cells@.len()
                    ==> (#[trigger] final(self).cells@[i]).weights@
                            == old(self).cells@[i].weights@
                        && final(self).cells@[i].traces@ == old(self).cells@[i].traces@,
            exists|inp: Seq<bool>|
                #[trigger] network_stepped(*old(self), *final(self), test_mode, dt, inp)
                && inp.len() == IMAGE_SIZE
                && forall|i: int| 0 <= i < IMAGE_SIZE && (image@[i] == 0 || intensity == 0)
                    ==> !inp[i],
            (test_mode && old(self).calm()
                && (intensity == 0 || forall|i: int| 0 <= i < IMAGE_SIZE ==> image@[i] == 0))
                ==> r.0 == 0 && r.1 == 0 && final(self).calm(),
    {
        let ghost n0 = *old(self);
        let mut inp: Vec<bool> = Vec::new();
        let mut i: usize = 0;
        while i < IMAGE_SIZE
            invariant
                0 <= i <= IMAGE_SIZE,
                inp@.len() == i,
                image@.len() == IMAGE_SIZE,
                intensity <= INTENSITY_CAP,
                DT_MIN <= dt <= DT_MAX,
                self.cells == n0.cells,
                self.input == n0.input,
                self.x_pre == n0.x_pre,
                self.inh_spikes == n0.inh_spikes,
                forall|j: int| 0 <= j < i && (image@[j] == 0 || intensity == 0)
                    ==> !(#[trigger] inp@[j]),
            decreases IMAGE_SIZE - i,
        {
            let d = rng_next_u64(&mut self.rng);
            let sp = bernoulli_spike(d, image[i], intensity, dt);
            inp.push(sp);
            i = i + 1;
        }

        self.publish_input(&inp);
        if !test_mode {
            self.advance_traces(dt, &inp);
        }
        let ghost xp1 = self.x_pre@;
        let ghost cells0 = self.cells@;
        let inh_prev = self.inh_spikes;
        proof {
            assert forall|j: int| 0 <= j < cells0.len()
                implies (if (#[trigger] cells0[j]).inh.s { 1int } else { 0 }) <= inh_prev by {
                lemma_count_inh_elem(cells0, j);
            }
            lemma_counts_bounds(cells0);
        }
        let rs = par_step_cells(&mut self.cells, dt, test_mode, inh_prev, &inp, &self.x_pre);

        let n_cells = rs.len();
        let mut exc_n: usize = 0;
        let mut inh_n: usize = 0;
        let mut k: usize = 0;
        proof {
            assert(self.cells@.take(0) =~= Seq::<Cell>::empty());
        }
        while k < n_cells
            invariant
                0 <= k <= n_cells,
                n_cells == rs@.len(),
                self.cells@.len() == n_cells,
                forall|j: int| 0 <= j < n_cells ==> #[trigger] rs@[j]
                    == (self.cells@[j].exc.s, self.cells@[j].inh.s),
                exc_n == count_exc(self.cells@.take(k as int)),
                inh_n == count_inh(self.cells@.take(k as int)),
                exc_n <= k,
                inh_n <= k,
            decreases n_cells - k,
        {
            proof {
                lemma_counts_take_succ(self.cells@, k as int);
            }
            let p = rs[k];
            if p.0 {
                exc_n = exc_n + 1;
            }
            if p.1 {
                inh_n = inh_n + 1;
            }
            k = k + 1;
        }
        proof {
            assert(self.cells@.take(n_cells as int) =~= self.cells@);
        }
        self.inh_spikes = inh_n as i64;
        proof {
            lemma_counts_bounds(self.cells@);
            assert(network_stepped(n0, *self, test_mode, dt, inp@));
            if test_mode && n0.calm()
                && (intensity == 0 || forall|i: int| 0 <= i < IMAGE_SIZE ==> image@[i] == 0) {
                assert(forall|i: int| 0 <= i < IMAGE_SIZE ==> !(#[trigger] inp@[i]));
                lemma_blank_step_silent(n0, *self, test_mode, dt, inp@);
            }
        }
        (exc_n, inh_n)
    }

    /// The cells' weight vectors, indexed by unit, for export.
    pub fn get_weights(&self) -> (r: Vec<Vec<i64>>)
        ensures
            r@.len() == self.cells@.len(),
            forall|i: int| 0 <= i < self.cells@.len() ==> (#[trigger] r@[i])@
                == self.cells@[i].weights@,
    {
        let mut r: Vec<Vec<i64>> = Vec::new();
        let mut i: usize = 0;
        while i < self.cells.len()
            invariant
                0 <= i <= self.cells@.len(),
                r@.len() == i,
                forall|j: int| 0 <= j < i ==> (#[trigger] r@[j])@ == self.cells@[j].weights@,
            decreases self.cells@.len() - i,
        {
            r.push(copy_i64s(&self.cells[i].weights));
            i = i + 1;
        }
        r
    }

    /// Which cells' excitatory neurons spiked on the current step.
    pub fn fired(&self) -> (r: Vec<bool>)
        ensures
            r@.len() == self.cells@.len(),
            forall|i: int| 0 <= i < self.cells@.len() ==> #[trigger] r@[i]
                == self.cells@[i].exc.s,
    {
        let mut r: Vec<bool> = Vec::new();
        let mut i: usize = 0;
        while i < self.cells.len()
            invariant
                0 <= i <= self.cells@.len(),
                r@.len() == i,
                forall|j: int| 0 <= j < i ==> #[trigger] r@[j] == self.cells@[j].exc.s,
            decreases self.cells@.len() - i,
        {
            r.push(self.cells[i].exc.s);
            i = i + 1;
        }
        r
    }

    /// A deep copy of the whole simulation state with its own stimulus
    /// generator, so independent inference runs cannot interfere.
    pub fn replicate(&self, seed: u64) -> (n: Network)
        ensures
            n.cells@.len() == self.cells@.len(),
            forall|i: int| 0 <= i < self.cells@.len()
                ==> (#[trigger] n.cells@[i]).exc == self.cells@[i].exc
                    && n.cells@[i].inh == self.cells@[i].inh
                    && n.cells@[i].weights@ == self.cells@[i].weights@
                    && n.cells@[i].traces@ == self.cells@[i].traces@,
            n.input@ == self.input@,
            n.x_pre@ == self.x_pre@,
            n.inh_spikes == self.inh_spikes,
            self.wf() ==> n.wf(),
            self.norm_all() ==> n.norm_all(),
            self.calm() ==> n.calm(),
    {
        let rng = rng_from_seed(seed);
        let mut cells: Vec<Cell> = Vec::new();
        let mut i: usize = 0;
        while i < self.cells.len()
            invariant
                0 <= i <= self.cells@.len(),
                cells@.len() == i,
                forall|j: int| 0 <= j < i
                    ==> (#[trigger] cells@[j]).exc == self.cells@[j].exc
                        && cells@[j].inh == self.cells@[j].inh
                        && cells@[j].weights@ == self.cells@[j].weights@
                        && cells@[j].traces@ == self.cells@[j].traces@,
            decreases self.cells@.len() - i,
        {
            let c = &self.cells[i];
            cells.push(Cell {
                exc: c.exc,
                inh: c.inh,
                weights: copy_i64s(&c.weights),
                traces: copy_pairs(&c.traces),
            });
            i = i + 1;
        }
        let n = Network {
            rng,
            cells,
            input: copy_bools(&self.input),
            x_pre: copy_i64s(&self.x_pre),
            inh_spikes: self.inh_spikes,
        };
        proof {
            if self.wf() {
                lemma_counts_congruent(n.cells@, self.cells@);
            }
        }
        n
    }

    /// Rebuilds a network from an exported weight matrix: one vector of
    /// fixed-point weights in [0, 1] per cell, neurons and traces fresh.
    /// Returns nothing if the matrix has the wrong shape or a value out of
    /// range. The rebuilt weights are taken as given, without rescaling,
    /// so an inference run sees exactly the persisted values.
    pub fn from_weights(weights: Vec<Vec<i64>>, seed: u64) -> (r: Option<Network>)
        ensures
            r.is_some() <==> (weights@.len() <= CELLS_MAX
                && (forall|i: int| 0 <= i < weights@.len()
                    ==> (#[trigger] weights@[i])@.len() == IMAGE_SIZE)
                && (forall|i: int, j: int|
                    0 <= i < weights@.len() && 0 <= j < IMAGE_SIZE
                    ==> 0 <= #[trigger] weights@[i]@[j] <= SCALE)),
            r.is_some() ==> {
                let n = r.unwrap();
                &&& n.wf()
                &&& n.calm()
                &&& n.cells@.len() == weights@.len()
                &&& forall|i: int| 0 <= i < weights@.len()
                    ==> (#[trigger] n.cells@[i]).weights@ == weights@[i]@
                &&& forall|i: int| 0 <= i < weights@.len()
                    ==> (#[trigger] n.cells@[i]).exc == Neuron::spec_fresh(true)
                        && n.cells@[i].inh == Neuron::spec_fresh(false)
                &&& forall|i: int, j: int| 0 <= i < weights@.len() && 0 <= j < IMAGE_SIZE
                    ==> #[trigger] n.cells@[i].traces@[j] == (0i64, 0i64)
                &&& forall|i: int| 0 <= i < IMAGE_SIZE ==> !(#[trigger] n.input@[i])
                &&& forall|i: int| 0 <= i < IMAGE_SIZE ==> #[trigger] n.x_pre@[i] == 0i64
                &&& n.inh_spikes == 0
            },
    {
        let nc = weights.len();
        if nc > 65536 {
            return None;
        }
        let mut k: usize = 0;
        while k < nc
            invariant
                0 <= k <= nc,
                nc == weights@.len(),
                forall|i: int| 0 <= i < k ==> (#[trigger] weights@[i])@.len() == IMAGE_SIZE,
                forall|i: int, j: int| 0 <= i < k && 0 <= j < IMAGE_SIZE
                    ==> 0 <= #[trigger] weights@[i]@[j] <= SCALE,
            decreases nc - k,
        {
            let row = &weights[k];
            if row.len() != IMAGE_SIZE {
                return None;
            }
            let mut j: usize = 0;
            while j < IMAGE_SIZE
                invariant
                    0 <= j <= IMAGE_SIZE,
                    k < weights@.len(),
                    weights@[k as int]@.len() == IMAGE_SIZE,
                    row == &weights[k as int],
                    forall|m: int| 0 <= m < j ==> 0 <= #[trigger] weights@[k as int]@[m] <= SCALE,
                decreases IMAGE_SIZE - j,
            {
                let x = row[j];
                if x < 0 || x > SCALE {
                    return None;
                }
                j = j + 1;
            }
            k = k + 1;
        }

        let rng = rng_from_seed(seed);
        let mut cells: Vec<Cell> = Vec::new();
        let mut k: usize = 0;
        while k < nc
            invariant
                0 <= k <= nc,
                nc == weights@.len(),
                nc <= CELLS_MAX,
                cells@.len() == k,
                forall|i: int| 0 <= i < nc ==> (#[trigger] weights@[i])@.len() == IMAGE_SIZE,
                forall|i: int, j: int| 0 <= i < nc && 0 <= j < IMAGE_SIZE
                    ==> 0 <= #[trigger] weights@[i]@[j] <= SCALE,
                forall|i: int| 0 <= i < k ==> (#[trigger] cells@[i]).wf(),
                forall|i: int| 0 <= i < k ==> (#[trigger] cells@[i]).weights@ == weights@[i]@,
                forall|i: int| 0 <= i < k ==> (#[trigger] cells@[i]).exc
                    == Neuron::spec_fresh(true),
                forall|i: int| 0 <= i < k ==> (#[trigger] cells@[i]).inh
                    == Neuron::spec_fresh(false),
                forall|i: int, j: int| 0 <= i < k && 0 <= j < IMAGE_SIZE
                    ==> #[trigger] cells@[i].traces@[j] == (0i64, 0i64),
            decreases nc - k,
        {
            cells.push(Cell::from_weights(copy_i64s(&weights[k])));
            k = k + 1;
        }
        let mut input: Vec<bool> = Vec::new();
        let mut x_pre: Vec<i64> = Vec::new();
        let mut i: usize = 0;
        while i < IMAGE_SIZE
            invariant
                input@.len() == i,
                x_pre@.len() == i,
                0 <= i <= IMAGE_SIZE,
                forall|j: int| 0 <= j < i ==> !(#[trigger] input@[j]),
                forall|j: int| 0 <= j < i ==> #[trigger] x_pre@[j] == 0i64,
            decreases IMAGE_SIZE - i,
        {
            input.push(false);
            x_pre.push(0);
            i = i + 1;
        }
        let n = Network { rng, cells, input, x_pre, inh_spikes: 0 };
        proof {
            lemma_counts_zero(n.cells@);
        }
        Some(n)
    }
}

/// An element-for-element copy of a weight or trace buffer.
fn copy_i64s(v: &Vec<i64>) -> (r: Vec<i64>)
    ensures
        r@ == v@,
{
    let mut r: Vec<i64> = Vec::new();
    let mut i: usize = 0;
    while i < v.len()
        invariant
            0 <= i <= v@.len(),
            r@.len() == i,
            forall|j: int| 0 <= j < i ==> #[trigger] r@[j] == v@[j],
        decreases v@.len() - i,
    {
        r.push(v[i]);
        i = i + 1;
    }
    proof {
        assert(r@ =~= v@);
    }
    r
}

fn copy_pairs(v: &Vec<(i64, i64)>) -> (r: Vec<(i64, i64)>)
    ensures
        r@ == v@,
{
    let mut r: Vec<(i64, i64)> = Vec::new();
    let mut i: usize = 0;
    while i < v.len()
        invariant
            0 <= i <= v@.len(),
            r@.len() == i,
            forall|j: int| 0 <= j < i ==> #[trigger] r@[j] == v@[j],
        decreases v@.len() - i,
    {
        r.push(v[i]);
        i = i + 1;
    }
    proof {
        assert(r@ =~= v@);
    }
    r
}

fn copy_bools(v: &Vec<bool>) -> (r: Vec<bool>)
    ensures
        r@ == v@,
{
    let mut r: Vec<bool> = Vec::new();
    let mut i: usize = 0;
    while i < v.len()
        invariant
            0 <= i <= v@.len(),
            r@.len() == i,
            forall|j: int| 0 <= j < i ==> #[trigger] r@[j] == v@[j],
        decreases v@.len() - i,
    {
        r.push(v[i]);
        i = i + 1;
    }
    proof {
        assert(r@ =~= v@);
    }
    r
}

/// A mutable borrow of one cell of the population.
fn cell_at<'a>(cells: &'a mut Vec<Cell>, i: usize) -> (c: &'a mut Cell)
    requires
        i < old(cells)@.len(),
    ensures
        *c == old(cells)@[i as int],
        final(cells)@ == old(cells)@.update(i as int, *final(c)),
{
    &mut cells[i]
}

} // verus!
