//! Leaky integrate-and-fire neuron.
//!
//! The membrane potential relaxes toward a conductance-weighted equilibrium
//! using the closed-form solution of the linear membrane equation over one
//! timestep (steady state plus exponential decay toward it), which stays
//! stable for any timestep in range. All quantities are fixed-point values
//! of `fixed::SCALE` units per 1.0; potentials are in mV, times in ms.
//!
//! Both reversal potentials are whole numbers of mV, so the inhibitory
//! drive `e_inh * g_i` is computed exactly as an integer multiple of `g_i`.

use vstd::prelude::*;
use crate::fixed::{SCALE, spec_mul_frac, spec_div_fp, spec_exp_neg, mul_frac, div_fp, exp_neg};

verus! {

/// Conductance decay time constants (ms, fixed-point).
pub const TAU_GE: i64 = 1_000_000_000;
pub const TAU_GI: i64 = 2_000_000_000;
/// Adaptive-threshold decay time constant (ms, fixed-point): very long, so
/// homeostasis forgets over hours of simulated time.
pub const TAU_THETA: i64 = 10_000_000_000_000_000;
/// Threshold increment applied on every spike of an excitatory neuron.
pub const THETA_INC: i64 = 50_000_000;
/// Initial adaptive threshold offset (20 mV).
pub const THETA_INIT: i64 = 20_000_000_000;
/// Centering applied to the adaptive threshold in the spike condition, so a
/// neuron that has never spiked uses exactly its resting threshold.
pub const THETA_SHIFT: i64 = 20_000_000_000;

/// Excitatory polarity parameters.
pub const V_REST_EXC: i64 = -65_000_000_000;
pub const V_RESET_EXC: i64 = -65_000_000_000;
pub const V_THRESH_EXC: i64 = -52_000_000_000;
pub const TAU_EXC: i64 = 100_000_000_000;
pub const REFRAC_EXC: i64 = 5_000_000_000;

/// Inhibitory polarity parameters.
pub const V_REST_INH: i64 = -60_000_000_000;
pub const V_RESET_INH: i64 = -45_000_000_000;
pub const V_THRESH_INH: i64 = -40_000_000_000;
pub const TAU_INH: i64 = 10_000_000_000;
pub const REFRAC_INH: i64 = 2_000_000_000;

/// Range guards. Conductances and the threshold are capped far above any
/// value the dynamics reach, so that every update provably stays in `i64`
/// range over arbitrarily long runs.
pub const G_CAP: i64 = 100_000_000_000_000;
pub const THETA_CAP: i64 = 1_000_000_000_000_000;
/// Lowest representable membrane potential (-120 mV); the dynamics keep the
/// potential between the strongest inhibitory equilibrium and 0.
pub const V_FLOOR: i64 = -120_000_000_000;
/// Largest per-step incoming conductance a caller may deliver.
pub const DG_CAP: i64 = 2_000_000_000_000_000;
/// Accepted timestep range (0.01 ms to 10 ms).
pub const DT_MIN: i64 = 10_000_000;
pub const DT_MAX: i64 = 10_000_000_000;
/// Floor on the adaptive threshold below which even a resting excitatory
/// neuron would eventually fire; freshly built neurons start well above it.
pub const THETA_CALM: i64 = 8_000_000_000;

#[derive(Clone, Copy)]
pub struct Neuron {
    /// Whether the neuron spiked on the current step.
    pub s: bool,
    /// Polarity: true for excitatory, false for inhibitory.
    pub exc: bool,
    /// Membrane potential.
    pub v: i64,
    /// Adaptive threshold offset (excitatory homeostasis; frozen otherwise).
    pub theta: i64,
    /// Excitatory and inhibitory synaptic conductances.
    pub g_e: i64,
    pub g_i: i64,
    /// Refractory time remaining.
    pub refr: i64,
}

pub open spec fn n_v_rest(exc: bool) -> i64 {
    if exc { V_REST_EXC } else { V_REST_INH }
}

pub open spec fn n_v_reset(exc: bool) -> i64 {
    if exc { V_RESET_EXC } else { V_RESET_INH }
}

pub open spec fn n_v_thresh(exc: bool) -> i64 {
    if exc { V_THRESH_EXC } else { V_THRESH_INH }
}

pub open spec fn n_tau(exc: bool) -> i64 {
    if exc { TAU_EXC } else { TAU_INH }
}

pub open spec fn n_refrac(exc: bool) -> i64 {
    if exc { REFRAC_EXC } else { REFRAC_INH }
}

/// Magnitude of the resting potential, in fixed-point units.
pub open spec fn n_v_rest_mag(exc: bool) -> int {
    if exc { 65 * (SCALE as int) } else { 60 * (SCALE as int) }
}

/// Magnitude of the inhibitory reversal potential, in whole mV.
pub open spec fn n_e_inh_mag(exc: bool) -> int {
    if exc { 100 } else { 85 }
}

impl Neuron {
    /// State kept within the ranges that every step preserves.
    pub open spec fn wf(self) -> bool {
        &&& 0 <= self.g_e <= G_CAP
        &&& 0 <= self.g_i <= G_CAP
        &&& V_FLOOR <= self.v <= 0
        &&& 0 <= self.theta <= THETA_CAP
        &&& 0 <= self.refr <= REFRAC_EXC
    }

    /// The state after one timestep, as an exact function of the old state
    /// and the incoming conductances.
    pub open spec fn spec_step(self, test_mode: bool, dt: i64, dge: i64, dgi: i64) -> Neuron {
        let ge0 = spec_mul_frac(self.g_e as int, spec_exp_neg(spec_div_fp(dt as int, TAU_GE as int))) + dge;
        let ge = if ge0 > G_CAP { G_CAP as int } else { ge0 };
        let gi0 = spec_mul_frac(self.g_i as int, spec_exp_neg(spec_div_fp(dt as int, TAU_GI as int))) + dgi;
        let gi = if gi0 > G_CAP { G_CAP as int } else { gi0 };
        let g_tot = SCALE + ge + gi;
        let num_mag = n_v_rest_mag(self.exc) + n_e_inh_mag(self.exc) * gi;
        let v_inf = -spec_div_fp(num_mag, g_tot);
        let e = spec_exp_neg(spec_mul_frac(g_tot, spec_div_fp(dt as int, n_tau(self.exc) as int)));
        let v1 = if self.v >= v_inf {
            v_inf + spec_mul_frac(self.v - v_inf, e)
        } else {
            v_inf - spec_mul_frac(v_inf - self.v, e)
        };
        let s1 = self.refr <= 0 && v1 > self.theta - THETA_SHIFT + n_v_thresh(self.exc);
        let theta1 = if self.exc && !test_mode {
            let th0 = spec_mul_frac(self.theta as int, spec_exp_neg(spec_div_fp(dt as int, TAU_THETA as int)))
                + if s1 { THETA_INC as int } else { 0 };
            if th0 > THETA_CAP { THETA_CAP as int } else { th0 }
        } else {
            self.theta as int
        };
        let v2 = if s1 { n_v_reset(self.exc) as int } else { v1 };
        let refr1 = if s1 { n_refrac(self.exc) as int } else { self.refr as int };
        let refr2 = if refr1 > dt { refr1 - dt } else { 0 };
        Neuron {
            s: s1,
            exc: self.exc,
            v: v2 as i64,
            theta: theta1 as i64,
            g_e: ge as i64,
            g_i: gi as i64,
            refr: refr2 as i64,
        }
    }

    /// A fresh neuron of the given polarity: resting well below threshold,
    /// no conductance, full initial threshold offset, not refractory.
    pub open spec fn spec_fresh(excitatory: bool) -> Neuron {
        Neuron {
            s: false,
            exc: excitatory,
            v: (n_v_reset(excitatory) - 40_000_000_000) as i64,
            theta: THETA_INIT,
            g_e: 0,
            g_i: 0,
            refr: 0,
        }
    }

    /// Builds a fresh neuron of the given polarity.
    pub fn new(excitatory: bool) -> (n: Neuron)
        ensures
            n == Neuron::spec_fresh(excitatory),
            n.wf(),
    {
        Neuron {
            s: false,
            exc: excitatory,
            v: if excitatory { V_RESET_EXC - 40_000_000_000 } else { V_RESET_INH - 40_000_000_000 },
            theta: THETA_INIT,
            g_e: 0,
            g_i: 0,
            refr: 0,
        }
    }

    /// A quiet neuron stays quiet: with no conductance, no incoming drive,
    /// the potential at or below rest, and (for an excitatory neuron) the
    /// adaptive threshold above its floor, a step produces no spike, keeps
    /// the conductances at zero and the potential at or below rest, and
    /// moves the threshold down by at most 20001 units in learning mode
    /// (it is frozen otherwise).
    pub proof fn lemma_step_at_rest(self, test_mode: bool, dt: i64)
        requires
            self.wf(),
            DT_MIN <= dt <= DT_MAX,
            self.g_e == 0,
            self.g_i == 0,
            self.v <= n_v_rest(self.exc),
            self.exc ==> THETA_CALM <= self.theta <= THETA_INIT,
        ensures
            !self.spec_step(test_mode, dt, 0, 0).s,
            self.spec_step(test_mode, dt, 0, 0).g_e == 0,
            self.spec_step(test_mode, dt, 0, 0).g_i == 0,
            self.spec_step(test_mode, dt, 0, 0).exc == self.exc,
            self.spec_step(test_mode, dt, 0, 0).v <= n_v_rest(self.exc),
            (test_mode || !self.exc) ==> self.spec_step(test_mode, dt, 0, 0).theta == self.theta,
            self.spec_step(test_mode, dt, 0, 0).theta <= self.theta,
            self.spec_step(test_mode, dt, 0, 0).theta >= self.theta - 20_001,
    {
        let dge: i64 = 0;
        let dgi: i64 = 0;
        let d_ge = spec_exp_neg(spec_div_fp(dt as int, TAU_GE as int));
        let d_gi = spec_exp_neg(spec_div_fp(dt as int, TAU_GI as int));
        crate::fixed::lemma_exp_neg_bounds(spec_div_fp(dt as int, TAU_GE as int));
        crate::fixed::lemma_exp_neg_bounds(spec_div_fp(dt as int, TAU_GI as int));
        assert(spec_div_fp(dt as int, TAU_GE as int) >= 0) by (nonlinear_arith)
            requires dt >= 0, SCALE >= 1, TAU_GE >= 1;
        assert(spec_div_fp(dt as int, TAU_GI as int) >= 0) by (nonlinear_arith)
            requires dt >= 0, SCALE >= 1, TAU_GI >= 1;
        assert(spec_mul_frac(0, d_ge) == 0) by (nonlinear_arith)
            requires SCALE >= 1;
        assert(spec_mul_frac(0, d_gi) == 0) by (nonlinear_arith)
            requires SCALE >= 1;
        let g_tot: int = SCALE as int;
        let num_mag = n_v_rest_mag(self.exc);
        assert(spec_div_fp(num_mag, g_tot) == num_mag) by (nonlinear_arith)
            requires g_tot == SCALE, SCALE >= 1, 0 <= num_mag;
        let v_inf: int = -num_mag;
        let tau: int = n_tau(self.exc) as int;
        assert(tau >= 1);
        let rate = spec_div_fp(dt as int, tau);
        assert(dt * SCALE / tau >= 0) by (nonlinear_arith)
            requires dt >= 0, SCALE >= 1, tau >= 1;
        assert(0 <= rate);
        let arg = spec_mul_frac(g_tot, rate);
        assert(g_tot * rate / (SCALE as int) >= 0) by (nonlinear_arith)
            requires g_tot >= 0, rate >= 0, SCALE >= 1;
        assert(arg >= 0);
        crate::fixed::lemma_exp_neg_bounds(arg);
        let e = spec_exp_neg(arg);
        if self.v >= v_inf {
            crate::fixed::lemma_mul_frac_bounds(self.v - v_inf, e);
        } else {
            crate::fixed::lemma_mul_frac_bounds(v_inf - self.v, e);
        }
        let n1 = self.spec_step(test_mode, dt, 0, 0);
        assert(n1.v <= n_v_rest(self.exc));
        assert(!n1.s);
        if self.exc && !test_mode {
            let arg2 = spec_div_fp(dt as int, TAU_THETA as int);
            assert(0 <= dt * SCALE / (TAU_THETA as int) <= 1000) by (nonlinear_arith)
                requires
                    0 <= dt <= 10_000_000_000,
                    SCALE == 1_000_000_000,
                    TAU_THETA == 10_000_000_000_000_000;
            assert(0 <= arg2 <= 1000);
            crate::fixed::lemma_exp_neg_bounds(arg2);
            let e2 = spec_exp_neg(arg2);
            crate::fixed::lemma_mul_frac_bounds(self.theta as int, e2);
            assert(spec_mul_frac(self.theta as int, e2) >= self.theta - 20_001)
                by (nonlinear_arith)
                requires
                    SCALE - 1000 <= e2 <= SCALE,
                    0 <= self.theta <= 20_000_000_000,
                    SCALE == 1_000_000_000;
        }
    }

    /// Advances the neuron one timestep: decays and accumulates the
    /// conductances, integrates the membrane potential exactly, decides the
    /// spike, adapts the threshold (excitatory, learning mode only), and
    /// applies reset and refractory bookkeeping.
    ///
    /// A refractory neuron never spikes, whatever its membrane potential.
    pub fn step(&mut self, test_mode: bool, dt: i64, dge: i64, dgi: i64)
        requires
            old(self).wf(),
            DT_MIN <= dt <= DT_MAX,
            0 <= dge <= DG_CAP,
            0 <= dgi <= DG_CAP,
        ensures
            *final(self) == old(self).spec_step(test_mode, dt, dge, dgi),
            final(self).wf(),
            final(self).exc == old(self).exc,
            old(self).refr > 0 ==> !final(self).s,
            (test_mode || !old(self).exc) ==> final(self).theta == old(self).theta,
    {
        let ghost n0 = *old(self);
        // Conductance decay and accumulation, capped at the range guard.
        let dce = exp_neg(div_fp(dt, TAU_GE));
        let ge0 = mul_frac(self.g_e, dce) + dge;
        let ge = if ge0 > G_CAP { G_CAP } else { ge0 };
        let dci = exp_neg(div_fp(dt, TAU_GI));
        let gi0 = mul_frac(self.g_i, dci) + dgi;
        let gi = if gi0 > G_CAP { G_CAP } else { gi0 };

        // Equilibrium potential: (v_rest + e_inh * g_i) / (1 + g_e + g_i),
        // expressed through nonnegative magnitudes.
        let g_tot = SCALE + ge + gi;
        let e_inh_mag: i64 = if self.exc { 100 } else { 85 };
        let v_rest_mag: i64 = if self.exc { 65 * SCALE } else { 60 * SCALE };
        let num_mag = v_rest_mag + e_inh_mag * gi;
        proof {
            assert(num_mag <= 9_000_000_000 * g_tot);
        }
        let v_inf_mag = div_fp(num_mag, g_tot);
        proof {
            assert(num_mag <= 100 * g_tot);
            assert(num_mag * SCALE / (g_tot as int) <= 100 * SCALE) by (nonlinear_arith)
                requires
                    0 <= num_mag,
                    num_mag <= 100 * g_tot,
                    g_tot >= 1,
                    SCALE >= 0;
        }
        let v_inf = -v_inf_mag;

        // Exact integration: v moves from v toward v_inf by the factor
        // exp(-dt * g_tot / tau).
        let tau: i64 = if self.exc { TAU_EXC } else { TAU_INH };
        let rate = div_fp(dt, tau);
        proof {
            assert(dt * SCALE / (tau as int) <= SCALE) by (nonlinear_arith)
                requires 0 <= dt <= tau, tau >= 1, SCALE >= 0;
        }
        let arg = mul_frac(g_tot, rate);
        let e = exp_neg(arg);
        let v1 = if self.v >= v_inf {
            v_inf + mul_frac(self.v - v_inf, e)
        } else {
            v_inf - mul_frac(v_inf - self.v, e)
        };

        // Spike decision on the freshly integrated potential.
        let v_thresh: i64 = if self.exc { V_THRESH_EXC } else { V_THRESH_INH };
        let s1 = self.refr <= 0 && v1 > self.theta - THETA_SHIFT + v_thresh;

        // Threshold homeostasis: excitatory neurons in learning mode only.
        if self.exc && !test_mode {
            let dct = exp_neg(div_fp(dt, TAU_THETA));
            let th0 = mul_frac(self.theta, dct) + if s1 { THETA_INC } else { 0 };
            self.theta = if th0 > THETA_CAP { THETA_CAP } else { th0 };
        }

        // Reset and refractory bookkeeping.
        if s1 {
            self.v = if self.exc { V_RESET_EXC } else { V_RESET_INH };
            let refrac: i64 = if self.exc { REFRAC_EXC } else { REFRAC_INH };
            self.refr = refrac;
        } else {
            self.v = v1;
        }
        self.refr = if self.refr > dt { self.refr - dt } else { 0 };
        self.s = s1;
        self.g_e = ge;
        self.g_i = gi;

        proof {
            assert(*self == n0.spec_step(test_mode, dt, dge, dgi));
        }
    }
}

} // verus!
