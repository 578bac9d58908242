//! Adaptive low-pass filtering of the pose signal.
//!
//! One [`OneEuroFilter`] instance filters one scalar channel: the signal's
//! derivative is low-pass filtered first, the effective cutoff grows with
//! the filtered speed (`min_cutoff + beta * |derivative|`), and the raw
//! sample is then smoothed with that cutoff.  A composite
//! [`EuroDataFilter`] holds exactly six instances, one per degree of
//! freedom.
//!
//! All quantities are 16.16 fixed point; the sampling rate is a fixed
//! ticks-per-second value.

use vstd::prelude::*;
use crate::fixed::{abs_i64, bounded, div_t, div_trunc, fx_mul, lemma_div_t_bound, FX_ONE};
use vstd::arithmetic::div_mod::{
    lemma_div_is_ordered, lemma_div_multiples_vanish, lemma_div_pos_is_pos,
    lemma_fundamental_div_mod, lemma_mod_bound,
};

verus! {

/// Two pi on the 16.16 grid, the factor between a cutoff frequency and the
/// smoothing time constant.
pub const TWO_PI: i64 = 411775;

/// Magnitude limit on a filtered signal value (fixed point).
pub const LIM_SIG: i64 = 0x1_0000_0000;

/// Magnitude limit on a filtered derivative value (fixed point).
pub const LIM_DERIV: i64 = 0x200_0000_0000;

/// Upper limit on the sampling rate (fixed point, ticks per second).
pub const LIM_RATE: i64 = 0x100_0000;

/// Upper limit on the cutoff parameters (fixed point).
pub const LIM_CUT: i64 = 0x100_0000;

/// Default sampling rate: 60 ticks per second on the 16.16 grid.
pub const DEFAULT_RATE: i64 = 3932160;

/// Default derivative cutoff: 1.0 on the 16.16 grid.
pub const DEFAULT_D_CUTOFF: i64 = 65536;

/// Absolute value on mathematical integers.
pub open spec fn abs_int(a: int) -> int {
    if a >= 0 {
        a
    } else {
        -a
    }
}

/// One exponential smoothing step: move from `prev` toward `x` by the
/// fraction `a / FX_ONE`.
pub open spec fn lowpass_spec(prev: int, x: int, a: int) -> int {
    prev + div_t(a * (x - prev), FX_ONE as int)
}

/// The smoothing factor derived from a cutoff frequency and the sampling
/// rate: `2*pi*cutoff / (2*pi*cutoff + rate)` scaled onto the 16.16 grid.
/// Zero cutoff gives zero smoothing (the output stays at the previous
/// value); a large cutoff approaches one (the output follows the input).
pub open spec fn alpha_spec(cutoff: int, rate: int) -> int {
    let g = div_t(cutoff * TWO_PI, FX_ONE as int);
    div_t(g * FX_ONE, g + rate)
}

/// The smoothing factor always lies in `[0, FX_ONE]`.
pub proof fn lemma_alpha_range(cutoff: int, rate: int)
    requires
        0 <= cutoff,
        1 <= rate,
    ensures
        0 <= alpha_spec(cutoff, rate) <= FX_ONE,
{
    let g = div_t(cutoff * TWO_PI, FX_ONE as int);
    assert(0 <= cutoff * TWO_PI) by (nonlinear_arith)
        requires
            0 <= cutoff,
    ;
    lemma_div_pos_is_pos(cutoff * TWO_PI, FX_ONE as int);
    assert(g * FX_ONE <= (FX_ONE as int) * (g + rate)) by (nonlinear_arith)
        requires
            0 <= g,
            1 <= rate,
    ;
    lemma_div_t_bound(g * FX_ONE, g + rate, FX_ONE as int);
    lemma_div_pos_is_pos(g * FX_ONE, g + rate);
}

/// The smoothing factor is monotone in the cutoff: a higher cutoff smooths
/// less.
pub proof fn lemma_alpha_monotone(c1: int, c2: int, rate: int)
    requires
        0 <= c1 <= c2,
        1 <= rate,
    ensures
        alpha_spec(c1, rate) <= alpha_spec(c2, rate),
{
    let g1 = div_t(c1 * TWO_PI, FX_ONE as int);
    let g2 = div_t(c2 * TWO_PI, FX_ONE as int);
    assert(0 <= c1 * TWO_PI <= c2 * TWO_PI) by (nonlinear_arith)
        requires
            0 <= c1 <= c2,
    ;
    lemma_div_is_ordered(c1 * TWO_PI, c2 * TWO_PI, FX_ONE as int);
    lemma_div_pos_is_pos(c1 * TWO_PI, FX_ONE as int);
    // 0 <= g1 <= g2; show g1*S/(g1+rate) <= g2*S/(g2+rate).
    let q1 = div_t(g1 * FX_ONE, g1 + rate);
    lemma_alpha_range(c1, rate);
    // q1 * (g1 + rate) <= g1 * S, from the fundamental division identity.
    lemma_fundamental_div_mod(g1 * FX_ONE, g1 + rate);
    lemma_mod_bound(g1 * FX_ONE, g1 + rate);
    assert(0 <= g1 * FX_ONE) by (nonlinear_arith)
        requires
            0 <= g1,
    ;
    assert(q1 * (g1 + rate) <= g1 * FX_ONE) by (nonlinear_arith)
        requires
            g1 * FX_ONE == (g1 + rate) * q1 + (g1 * FX_ONE) % (g1 + rate),
            0 <= (g1 * FX_ONE) % (g1 + rate),
    ;
    // Since q1 <= S and g1 <= g2: q1 * (g2 + rate) <= g2 * S.
    assert(q1 * (g2 + rate) <= g2 * FX_ONE) by (nonlinear_arith)
        requires
            q1 * (g1 + rate) <= g1 * FX_ONE,
            0 <= q1 <= FX_ONE,
            0 <= g1 <= g2,
            1 <= rate,
    ;
    // Divide both sides by g2 + rate.
    lemma_div_is_ordered(q1 * (g2 + rate), g2 * FX_ONE, g2 + rate);
    assert((g2 + rate) * q1 == q1 * (g2 + rate)) by (nonlinear_arith);
    lemma_div_multiples_vanish(q1, g2 + rate);
    assert(0 <= g2 * FX_ONE) by (nonlinear_arith)
        requires
            0 <= g2,
    ;
}

/// One exponential smoothing step, executable.  The result lies between
/// the previous value and the new sample.
fn lowpass(prev: i64, x: i64, a: i64) -> (y: i64)
    requires
        0 <= a <= FX_ONE,
        bounded(prev as int, 0x200_0000_0000),
        bounded(x as int, 0x200_0000_0000),
    ensures
        y as int == lowpass_spec(prev as int, x as int, a as int),
        x >= prev ==> prev <= y <= x,
        x <= prev ==> x <= y <= prev,
{
    let d: i128 = (x as i128) - (prev as i128);
    proof {
        assert(bounded(a as int * (d as int), (FX_ONE as int) * 0x400_0000_0000))
            by (nonlinear_arith)
            requires
                0 <= a <= FX_ONE,
                bounded(d as int, 0x400_0000_0000),
        ;
    }
    let p: i128 = (a as i128) * d;
    proof {
        if d >= 0 {
            assert(0 <= p <= (FX_ONE as int) * d) by (nonlinear_arith)
                requires
                    0 <= a <= FX_ONE,
                    0 <= d,
                    p == a as int * (d as int),
            ;
            lemma_div_is_ordered(p as int, (FX_ONE as int) * (d as int), FX_ONE as int);
            lemma_div_multiples_vanish(d as int, FX_ONE as int);
            assert((FX_ONE as int) * (d as int) == (d as int) * (FX_ONE as int))
                by (nonlinear_arith);
            lemma_div_pos_is_pos(p as int, FX_ONE as int);
        } else {
            assert(0 <= -p <= (FX_ONE as int) * (-d)) by (nonlinear_arith)
                requires
                    0 <= a <= FX_ONE,
                    d < 0,
                    p == a as int * (d as int),
            ;
            lemma_div_is_ordered(-p as int, (FX_ONE as int) * (-(d as int)), FX_ONE as int);
            lemma_div_multiples_vanish(-(d as int), FX_ONE as int);
            assert((FX_ONE as int) * (-(d as int)) == (-(d as int)) * (FX_ONE as int))
                by (nonlinear_arith);
            lemma_div_pos_is_pos(-p as int, FX_ONE as int);
        }
    }
    let q: i128 = div_trunc(p, FX_ONE as i128);
    (prev as i128 + q) as i64
}

/// The smoothing factor, executable.
fn alpha_fx(cutoff: i64, rate: i64) -> (a: i64)
    requires
        0 <= cutoff <= 0x4_0000_0000_0000,
        1 <= rate <= LIM_RATE,
    ensures
        a as int == alpha_spec(cutoff as int, rate as int),
        0 <= a <= FX_ONE,
{
    proof {
        assert(0 <= cutoff as int * (TWO_PI as int) <= 0x4_0000_0000_0000 * (TWO_PI as int))
            by (nonlinear_arith)
            requires
                0 <= cutoff <= 0x4_0000_0000_0000,
        ;
    }
    let cp: i128 = (cutoff as i128) * (TWO_PI as i128);
    proof {
        lemma_div_pos_is_pos(cp as int, FX_ONE as int);
    }
    let g: i128 = div_trunc(cp, FX_ONE as i128);
    let num: i128 = g * (FX_ONE as i128);
    let den: i128 = g + (rate as i128);
    proof {
        assert(0 <= num <= (FX_ONE as int) * den) by (nonlinear_arith)
            requires
                0 <= g,
                1 <= rate,
                num == g as int * (FX_ONE as int),
                den == g as int + rate as int,
        ;
        lemma_div_t_bound(num as int, den as int, FX_ONE as int);
        lemma_div_pos_is_pos(num as int, den as int);
    }
    let a: i128 = div_trunc(num, den);
    a as i64
}

/// One adaptive low-pass filter instance for a single scalar channel.
pub struct OneEuroFilter {
    /// Whether a first sample has been stored.
    pub initialized: bool,
    /// Previous filtered value.
    pub prev: i64,
    /// Previous filtered derivative.
    pub dprev: i64,
    /// Baseline cutoff frequency (fixed point, non-negative).
    pub min_cutoff: i64,
    /// Speed coefficient: how much faster motion relaxes smoothing.
    pub beta: i64,
    /// Cutoff used to smooth the derivative signal.
    pub d_cutoff: i64,
    /// Sampling rate in ticks per second (fixed point).
    pub rate: i64,
}

impl OneEuroFilter {
    /// Parameter and state ranges under which every step is exact.
    pub open spec fn wf(self) -> bool {
        &&& 1 <= self.rate <= LIM_RATE
        &&& 0 <= self.min_cutoff <= LIM_CUT
        &&& 0 <= self.beta <= LIM_CUT
        &&& 0 <= self.d_cutoff <= LIM_CUT
        &&& bounded(self.prev as int, LIM_SIG as int)
        &&& bounded(self.dprev as int, LIM_DERIV as int)
    }

    /// The filtered derivative this step produces: the raw derivative
    /// `(x - prev) * rate`, smoothed by the derivative cutoff.
    pub open spec fn deriv_spec(self, x: i64) -> int {
        lowpass_spec(
            self.dprev as int,
            div_t((x - self.prev) * self.rate, FX_ONE as int),
            alpha_spec(self.d_cutoff as int, self.rate as int),
        )
    }

    /// The effective cutoff this step uses: the baseline plus `beta` times
    /// the filtered speed.
    pub open spec fn cutoff_spec(self, x: i64) -> int {
        self.min_cutoff + div_t(self.beta * abs_int(self.deriv_spec(x)), FX_ONE as int)
    }

    /// The filtered output on an initialized filter.
    pub open spec fn filtered_spec(self, x: i64) -> int {
        lowpass_spec(
            self.prev as int,
            x as int,
            alpha_spec(self.cutoff_spec(x), self.rate as int),
        )
    }

    /// What a step returns: the very first call per channel stores and
    /// returns the input unchanged, whatever the parameters; later calls
    /// smooth adaptively.
    pub open spec fn out_val(self, x: i64) -> int {
        if !self.initialized {
            x as int
        } else {
            self.filtered_spec(x)
        }
    }

    /// The filter state after a step.
    pub open spec fn next_state(self, x: i64) -> OneEuroFilter {
        if !self.initialized {
            OneEuroFilter { initialized: true, prev: x, dprev: 0, ..self }
        } else {
            OneEuroFilter {
                prev: self.filtered_spec(x) as i64,
                dprev: self.deriv_spec(x) as i64,
                ..self
            }
        }
    }

    /// Builds a filter channel.  `min_cutoff` and `beta` of zero degrade to
    /// holding the first stored value.
    pub fn new(min_cutoff: i64, beta: i64, d_cutoff: i64, rate: i64) -> (r: OneEuroFilter)
        requires
            0 <= min_cutoff <= LIM_CUT,
            0 <= beta <= LIM_CUT,
            0 <= d_cutoff <= LIM_CUT,
            1 <= rate <= LIM_RATE,
        ensures
            r == (OneEuroFilter {
                initialized: false,
                prev: 0,
                dprev: 0,
                min_cutoff,
                beta,
                d_cutoff,
                rate,
            }),
            r.wf(),
            !r.initialized,
    {
        OneEuroFilter { initialized: false, prev: 0, dprev: 0, min_cutoff, beta, d_cutoff, rate }
    }

    /// Filters one sample.  The first call stores and returns the input
    /// unchanged; later calls return the adaptively smoothed value, which
    /// always lies between the previous output and the input.  On a
    /// constant stream the output stays at the constant.
    pub fn step(&mut self, x: i64) -> (r: i64)
        requires
            old(self).wf(),
            bounded(x as int, LIM_SIG as int),
        ensures
            r as int == old(self).out_val(x),
            *final(self) == old(self).next_state(x),
            final(self).wf(),
            final(self).initialized,
            bounded(r as int, LIM_SIG as int),
            old(self).initialized && x == old(self).prev && old(self).dprev == 0 ==> r == x
                && final(self).prev == x && final(self).dprev == 0,
    {
        if !self.initialized {
            self.initialized = true;
            self.prev = x;
            self.dprev = 0;
            return x;
        }
        let diff: i64 = x - self.prev;
        proof {
            assert(bounded(diff as int * (self.rate as int), 0x200_0000_0000 * (FX_ONE as int)))
                by (nonlinear_arith)
                requires
                    bounded(diff as int, 0x2_0000_0000),
                    0 <= self.rate <= LIM_RATE,
            ;
            lemma_div_t_bound(diff as int * (self.rate as int), FX_ONE as int, 0x200_0000_0000);
        }
        let dx: i64 = fx_mul(diff, self.rate);
        let ad: i64 = alpha_fx(self.d_cutoff, self.rate);
        let edx: i64 = lowpass(self.dprev, dx, ad);
        let sp: i64 = abs_i64(edx);
        proof {
            assert(bounded(self.beta as int * (sp as int), 0x2_0000_0000_0000 * (FX_ONE as int)))
                by (nonlinear_arith)
                requires
                    0 <= self.beta <= LIM_CUT,
                    0 <= sp <= LIM_DERIV,
            ;
            lemma_div_t_bound(self.beta as int * (sp as int), FX_ONE as int, 0x2_0000_0000_0000);
            lemma_div_pos_is_pos(self.beta as int * (sp as int), FX_ONE as int);
            assert(0 <= self.beta as int * (sp as int)) by (nonlinear_arith)
                requires
                    0 <= self.beta,
                    0 <= sp,
            ;
        }
        let cutoff: i64 = self.min_cutoff + fx_mul(self.beta, sp);
        let a: i64 = alpha_fx(cutoff, self.rate);
        let y: i64 = lowpass(self.prev, x, a);
        proof {
            if x == old(self).prev && old(self).dprev == 0 {
                let rt = self.rate as int;
                let pv = self.prev as int;
                let xi = x as int;
                let adi = ad as int;
                let ai = a as int;
                let dxi = dx as int;
                assert(diff == 0);
                assert(diff as int * rt == 0) by (nonlinear_arith)
                    requires
                        diff == 0,
                ;
                assert(div_t(0, FX_ONE as int) == 0);
                assert(dx == 0);
                assert(adi * (dxi - 0) == 0) by (nonlinear_arith)
                    requires
                        dxi == 0,
                ;
                assert(edx as int == lowpass_spec(0, 0, ad as int));
                assert(edx == 0);
                assert(ai * (xi - pv) == 0) by (nonlinear_arith)
                    requires
                        xi == pv,
                ;
                assert(y as int == lowpass_spec(pv, xi, ai));
                assert(y == x);
            }
        }
        self.prev = y;
        self.dprev = edx;
        y
    }
}

/// The parameters a composite filter is re-tuned with before a step, when
/// the control surface supplies new values.
pub open spec fn tuned(f: OneEuroFilter, min_cutoff: Option<i64>, beta: Option<i64>)
    -> OneEuroFilter {
    OneEuroFilter {
        min_cutoff: if min_cutoff is Some {
            min_cutoff->0
        } else {
            f.min_cutoff
        },
        beta: if beta is Some {
            beta->0
        } else {
            f.beta
        },
        ..f
    }
}

/// The composite filter: exactly one channel per degree of freedom
/// (x, y, z, yaw, pitch, roll).
pub struct EuroDataFilter {
    /// Channel for x.
    pub cx: OneEuroFilter,
    /// Channel for y.
    pub cy: OneEuroFilter,
    /// Channel for z.
    pub cz: OneEuroFilter,
    /// Channel for yaw.
    pub cyaw: OneEuroFilter,
    /// Channel for pitch.
    pub cpitch: OneEuroFilter,
    /// Channel for roll.
    pub croll: OneEuroFilter,
}

impl EuroDataFilter {
    /// All six channels are well-formed.
    pub open spec fn wf(self) -> bool {
        &&& self.cx.wf()
        &&& self.cy.wf()
        &&& self.cz.wf()
        &&& self.cyaw.wf()
        &&& self.cpitch.wf()
        &&& self.croll.wf()
    }

    /// Builds the six channels with shared parameters, the default
    /// derivative cutoff and the default rate.
    pub fn new(min_cutoff: i64, beta: i64) -> (r: EuroDataFilter)
        requires
            0 <= min_cutoff <= LIM_CUT,
            0 <= beta <= LIM_CUT,
        ensures
            r.wf(),
            !r.cx.initialized,
            !r.cy.initialized,
            !r.cz.initialized,
            !r.cyaw.initialized,
            !r.cpitch.initialized,
            !r.croll.initialized,
            r.cx.min_cutoff == min_cutoff,
            r.cx.beta == beta,
    {
        EuroDataFilter {
            cx: OneEuroFilter::new(min_cutoff, beta, DEFAULT_D_CUTOFF, DEFAULT_RATE),
            cy: OneEuroFilter::new(min_cutoff, beta, DEFAULT_D_CUTOFF, DEFAULT_RATE),
            cz: OneEuroFilter::new(min_cutoff, beta, DEFAULT_D_CUTOFF, DEFAULT_RATE),
            cyaw: OneEuroFilter::new(min_cutoff, beta, DEFAULT_D_CUTOFF, DEFAULT_RATE),
            cpitch: OneEuroFilter::new(min_cutoff, beta, DEFAULT_D_CUTOFF, DEFAULT_RATE),
            croll: OneEuroFilter::new(min_cutoff, beta, DEFAULT_D_CUTOFF, DEFAULT_RATE),
        }
    }

    /// Filters one 6-DOF sample, optionally re-tuning `min_cutoff` and
    /// `beta` on all channels first (live parameter updates from the
    /// control surface).
    pub fn filter_data(
        &mut self,
        data: &[i64; 6],
        min_cutoff: Option<i64>,
        beta: Option<i64>,
    ) -> (r: Vec<i64>)
        requires
            old(self).wf(),
            forall|i: int| 0 <= i < 6 ==> bounded(#[trigger] data[i] as int, LIM_SIG as int),
            min_cutoff is Some ==> 0 <= min_cutoff->0 <= LIM_CUT,
            beta is Some ==> 0 <= beta->0 <= LIM_CUT,
        ensures
            final(self).wf(),
            r@.len() == 6,
            r@[0] as int == tuned(old(self).cx, min_cutoff, beta).out_val(data[0]),
            r@[1] as int == tuned(old(self).cy, min_cutoff, beta).out_val(data[1]),
            r@[2] as int == tuned(old(self).cz, min_cutoff, beta).out_val(data[2]),
            r@[3] as int == tuned(old(self).cyaw, min_cutoff, beta).out_val(data[3]),
            r@[4] as int == tuned(old(self).cpitch, min_cutoff, beta).out_val(data[4]),
            r@[5] as int == tuned(old(self).croll, min_cutoff, beta).out_val(data[5]),
            final(self).cx == tuned(old(self).cx, min_cutoff, beta).next_state(data[0]),
            final(self).cy == tuned(old(self).cy, min_cutoff, beta).next_state(data[1]),
            final(self).cz == tuned(old(self).cz, min_cutoff, beta).next_state(data[2]),
            final(self).cyaw == tuned(old(self).cyaw, min_cutoff, beta).next_state(data[3]),
            final(self).cpitch == tuned(old(self).cpitch, min_cutoff, beta).next_state(data[4]),
            final(self).croll == tuned(old(self).croll, min_cutoff, beta).next_state(data[5]),
            forall|i: int| 0 <= i < 6 ==> bounded(#[trigger] r@[i] as int, LIM_SIG as int),
    {
        match min_cutoff {
            Some(mc) => {
                self.cx.min_cutoff = mc;
                self.cy.min_cutoff = mc;
                self.cz.min_cutoff = mc;
                self.cyaw.min_cutoff = mc;
                self.cpitch.min_cutoff = mc;
                self.croll.min_cutoff = mc;
            },
            None => {},
        }
        match beta {
            Some(b) => {
                self.cx.beta = b;
                self.cy.beta = b;
                self.cz.beta = b;
                self.cyaw.beta = b;
                self.cpitch.beta = b;
                self.croll.beta = b;
            },
            None => {},
        }
        let r0 = self.cx.step(data[0]);
        let r1 = self.cy.step(data[1]);
        let r2 = self.cz.step(data[2]);
        let r3 = self.cyaw.step(data[3]);
        let r4 = self.cpitch.step(data[4]);
        let r5 = self.croll.step(data[5]);
        let mut out: Vec<i64> = Vec::new();
        out.push(r0);
        out.push(r1);
        out.push(r2);
        out.push(r3);
        out.push(r4);
        out.push(r5);
        out
    }
}

/// On an initialized filter, raising the baseline cutoff (with everything
/// else equal) never increases the distance between a step input and the
/// filtered output: less smoothing means less lag.
pub proof fn lemma_lag_monotone(f1: OneEuroFilter, f2: OneEuroFilter, x: i64)
    requires
        f1.wf(),
        f2.wf(),
        f1.initialized,
        f2.initialized,
        f2 == (OneEuroFilter { min_cutoff: f2.min_cutoff, ..f1 }),
        f1.min_cutoff <= f2.min_cutoff,
        bounded(x as int, LIM_SIG as int),
    ensures
        abs_int(x - f2.out_val(x)) <= abs_int(x - f1.out_val(x)),
{
    let d = x - f1.prev;
    let a1 = alpha_spec(f1.cutoff_spec(x), f1.rate as int);
    let a2 = alpha_spec(f2.cutoff_spec(x), f2.rate as int);
    assert(f1.deriv_spec(x) == f2.deriv_spec(x));
    assert(f1.cutoff_spec(x) <= f2.cutoff_spec(x));
    lemma_cutoff_nonneg(f1, x);
    lemma_alpha_monotone(f1.cutoff_spec(x), f2.cutoff_spec(x), f1.rate as int);
    lemma_alpha_range(f1.cutoff_spec(x), f1.rate as int);
    lemma_alpha_range(f2.cutoff_spec(x), f2.rate as int);
    lemma_residual_monotone(f1.prev as int, x as int, a1, a2);
}

/// The effective cutoff of a step is never negative.
pub proof fn lemma_cutoff_nonneg(f: OneEuroFilter, x: i64)
    requires
        f.wf(),
    ensures
        0 <= f.cutoff_spec(x),
{
    assert(0 <= f.beta * abs_int(f.deriv_spec(x))) by (nonlinear_arith)
        requires
            0 <= f.beta,
    ;
    lemma_div_pos_is_pos(f.beta * abs_int(f.deriv_spec(x)), FX_ONE as int);
}

/// The core of the lag ordering: with a larger smoothing factor, one
/// smoothing step lands no farther from the input.
proof fn lemma_residual_monotone(prev: int, x: int, a1: int, a2: int)
    requires
        0 <= a1 <= a2 <= FX_ONE,
    ensures
        abs_int(x - lowpass_spec(prev, x, a2)) <= abs_int(x - lowpass_spec(prev, x, a1)),
{
    let d = x - prev;
    if d >= 0 {
        assert(0 <= a1 * d <= a2 * d <= (FX_ONE as int) * d) by (nonlinear_arith)
            requires
                0 <= a1 <= a2 <= FX_ONE,
                0 <= d,
        ;
        lemma_div_is_ordered(a1 * d, a2 * d, FX_ONE as int);
        lemma_div_is_ordered(a2 * d, (FX_ONE as int) * d, FX_ONE as int);
        lemma_div_pos_is_pos(a1 * d, FX_ONE as int);
        assert((FX_ONE as int) * d == d * (FX_ONE as int)) by (nonlinear_arith);
        lemma_div_multiples_vanish(d, FX_ONE as int);
    } else {
        assert(0 <= a1 * (-d) <= a2 * (-d) <= (FX_ONE as int) * (-d)) by (nonlinear_arith)
            requires
                0 <= a1 <= a2 <= FX_ONE,
                d < 0,
        ;
        lemma_div_is_ordered(a1 * (-d), a2 * (-d), FX_ONE as int);
        lemma_div_is_ordered(a2 * (-d), (FX_ONE as int) * (-d), FX_ONE as int);
        lemma_div_pos_is_pos(a1 * (-d), FX_ONE as int);
        assert((FX_ONE as int) * (-d) == (-d) * (FX_ONE as int)) by (nonlinear_arith);
        lemma_div_multiples_vanish(-d, FX_ONE as int);
        assert(a1 * d == -(a1 * (-d))) by (nonlinear_arith);
        assert(a2 * d == -(a2 * (-d))) by (nonlinear_arith);
    }
}

/// Strict version of the lag ordering: when the smoothing factors differ
/// enough that the gap survives the fixed-point grid, raising the baseline
/// cutoff strictly decreases the lag on a step input.
pub proof fn lemma_lag_strict(f1: OneEuroFilter, f2: OneEuroFilter, x: i64)
    requires
        f1.wf(),
        f2.wf(),
        f1.initialized,
        f2.initialized,
        f2 == (OneEuroFilter { min_cutoff: f2.min_cutoff, ..f1 }),
        f1.min_cutoff <= f2.min_cutoff,
        bounded(x as int, LIM_SIG as int),
        x != f1.prev,
        (alpha_spec(f2.cutoff_spec(x), f2.rate as int) - alpha_spec(
            f1.cutoff_spec(x),
            f1.rate as int,
        )) * abs_int(x - f1.prev) >= FX_ONE,
    ensures
        abs_int(x - f2.out_val(x)) < abs_int(x - f1.out_val(x)),
{
    let d = x - f1.prev;
    let a1 = alpha_spec(f1.cutoff_spec(x), f1.rate as int);
    let a2 = alpha_spec(f2.cutoff_spec(x), f2.rate as int);
    assert(f1.deriv_spec(x) == f2.deriv_spec(x));
    lemma_cutoff_nonneg(f1, x);
    lemma_alpha_monotone(f1.cutoff_spec(x), f2.cutoff_spec(x), f1.rate as int);
    lemma_alpha_range(f1.cutoff_spec(x), f1.rate as int);
    lemma_alpha_range(f2.cutoff_spec(x), f2.rate as int);
    if d >= 0 {
        assert(a1 * d + FX_ONE <= a2 * d) by (nonlinear_arith)
            requires
                (a2 - a1) * d >= FX_ONE,
                abs_int(d) == d,
        ;
        lemma_div_is_ordered(a1 * d + FX_ONE, a2 * d, FX_ONE as int);
        lemma_div_plus_one_multiple(a1 * d, FX_ONE as int);
        assert(0 <= a1 * d <= a2 * d <= (FX_ONE as int) * d) by (nonlinear_arith)
            requires
                0 <= a1 <= a2 <= FX_ONE,
                0 <= d,
        ;
        lemma_div_is_ordered(a2 * d, (FX_ONE as int) * d, FX_ONE as int);
        lemma_div_pos_is_pos(a1 * d, FX_ONE as int);
        assert((FX_ONE as int) * d == d * (FX_ONE as int)) by (nonlinear_arith);
        lemma_div_multiples_vanish(d, FX_ONE as int);
    } else {
        assert(a1 * (-d) + FX_ONE <= a2 * (-d)) by (nonlinear_arith)
            requires
                (a2 - a1) * abs_int(d) >= FX_ONE,
                d < 0,
                abs_int(d) == -d,
        ;
        lemma_div_is_ordered(a1 * (-d) + FX_ONE, a2 * (-d), FX_ONE as int);
        lemma_div_plus_one_multiple(a1 * (-d), FX_ONE as int);
        assert(0 <= a1 * (-d) <= a2 * (-d) <= (FX_ONE as int) * (-d)) by (nonlinear_arith)
            requires
                0 <= a1 <= a2 <= FX_ONE,
                d < 0,
        ;
        lemma_div_is_ordered(a2 * (-d), (FX_ONE as int) * (-d), FX_ONE as int);
        lemma_div_pos_is_pos(a1 * (-d), FX_ONE as int);
        assert((FX_ONE as int) * (-d) == (-d) * (FX_ONE as int)) by (nonlinear_arith);
        lemma_div_multiples_vanish(-d, FX_ONE as int);
        assert(a1 * d == -(a1 * (-d))) by (nonlinear_arith);
        assert(a2 * d == -(a2 * (-d))) by (nonlinear_arith);
    }
}

/// Adding one whole divisor to the dividend adds one to the quotient.
proof fn lemma_div_plus_one_multiple(n: int, d: int)
    requires
        0 <= n,
        1 <= d,
    ensures
        (n + d) / d == n / d + 1,
{
    lemma_fundamental_div_mod(n, d);
    lemma_mod_bound(n, d);
    let q = n / d;
    let m = n % d;
    assert(n + d == d * (q + 1) + m) by (nonlinear_arith)
        requires
            n == d * q + m,
    ;
    vstd::arithmetic::div_mod::lemma_fundamental_div_mod_converse(n + d, d, q + 1, m);
}

} // verus!
