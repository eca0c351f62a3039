//! Auto-wah: an envelope follower that sweeps a resonant filter.
//!
//! Each sample runs through four stages: a level detector follows the
//! magnitude of the signal; the level sets the centre frequency of the
//! filter; a one-pole low-pass smooths the signal; a state-variable filter
//! resonates at the centre frequency. What comes out is mixed with the
//! input.

use crate::approx::{exp_neg, exp_neg_spec, lemma_exp_neg_bounds, sqrt, sqrt_spec, PI};
use crate::effects::{pass_through, ConfigError, CtrlMsg, Effect};
use crate::fixed::{
    abs_spec, add_spec, clamp, clamp_spec, div_spec, lemma_mul_nonneg, mul_spec, sat_abs,
    sat_add, sat_div, sat_mul, sat_sub, saturate, sub_spec, MAX, ONE,
};
use vstd::prelude::*;

verus! {

/// One half.
pub const HALF: i64 = 0x8000_0000;

/// Two.
pub const TWO: i64 = 0x2_0000_0000;

/// The coefficient of the cube in the sine series: minus a sixth.
pub const SIN_C3: i64 = -715827883;

/// The coefficient of the fifth power in the sine series: one in 120.
pub const SIN_C5: i64 = 35791394;

/// The coefficient of the cube in the tangent series: a third.
pub const TAN_C3: i64 = 1431655765;

/// The coefficient of the fifth power in the tangent series: two in 15.
pub const TAN_C5: i64 = 572662306;

/// The highest centre frequency, in radians a sample: a quarter of the
/// circle constant, half way to the Nyquist limit. Up to here the filter
/// stays stable and the series stay close.
pub const CENTER_FREQ_MAX: i64 = 3373259426;

/// The attack time that an auto-wah starts with, in seconds: 0.04.
pub const DEFAULT_ATTACK: i64 = 171798691;

/// The release time that an auto-wah starts with, in seconds: 0.002.
pub const DEFAULT_RELEASE: i64 = 8589934;

/// The lowest frequency of the sweep that an auto-wah starts with, in
/// hertz: 20.
pub const DEFAULT_MIN_FREQ: i64 = 0x14_0000_0000;

/// The highest frequency of the sweep that an auto-wah starts with, in
/// hertz: 3000.
pub const DEFAULT_MAX_FREQ: i64 = 0xbb8_0000_0000;

/// The quality factor that an auto-wah starts with: a fifth.
pub const DEFAULT_QUALITY: i64 = 858993459;

/// The share of the filtered signal that an auto-wah starts with: eight
/// tenths.
pub const DEFAULT_MIX: i64 = 3435973836;

/// Which output of the state-variable filter is heard.
#[derive(Debug, Clone, Copy, PartialEq, Eq)]
pub enum FilterType {
    Lowpass,
    Bandpass,
    Highpass,
}

impl Default for FilterType {
    fn default() -> (r: Self)
        ensures
            r == FilterType::Highpass,
    {
        FilterType::Highpass
    }
}

/// The auto-wah pedal.
pub struct AutoWah {
    bypassing: bool,
    // Level detector: the coefficients of attack and release, and the
    // levels (smoothed, held).
    alpha_a: i64,
    alpha_r: i64,
    beta_a: i64,
    beta_r: i64,
    buffer_l: (i64, i64),
    // Low-pass filter.
    buffer_lp: i64,
    gain_lp: i64,
    // State-variable filter.
    min_freq: i64,
    freq_bandwidth: i64,
    q: i64,
    sample_rate: i64,
    center_freq: i64,
    y_highpass: i64,
    y_bandpass: i64,
    y_lowpass: i64,
    filter: FilterType,
    // Mixer.
    alpha_mix: i64,
    beta_mix: i64,
}

/// The state of an auto-wah.
pub struct WahState {
    pub bypassing: bool,
    /// How much of the smoothed level stays from sample to sample.
    pub alpha_a: int,
    /// How much of the held level goes into the smoothed one.
    pub beta_a: int,
    /// How much of the held level stays from sample to sample.
    pub alpha_r: int,
    /// How much of the signal goes into the held level.
    pub beta_r: int,
    /// The held level.
    pub peak: int,
    /// The smoothed level.
    pub envelope: int,
    /// The memory of the low-pass filter.
    pub lp_memory: int,
    /// The gain behind the low-pass filter.
    pub gain_lp: int,
    /// The bottom of the sweep, in radians a sample.
    pub min_freq: int,
    /// The width of the sweep, in radians a sample.
    pub bandwidth: int,
    /// The damping of the resonance.
    pub q: int,
    /// The sample rate in hertz.
    pub sample_rate: int,
    /// The centre frequency, in radians a sample.
    pub center_freq: int,
    pub highpass: int,
    pub bandpass: int,
    pub lowpass: int,
    pub filter: FilterType,
    /// The share of the filtered signal in the output.
    pub alpha_mix: int,
    /// The share of the input in the output.
    pub beta_mix: int,
}

impl View for AutoWah {
    type V = WahState;

    closed spec fn view(&self) -> WahState {
        WahState {
            bypassing: self.bypassing,
            alpha_a: self.alpha_a as int,
            beta_a: self.beta_a as int,
            alpha_r: self.alpha_r as int,
            beta_r: self.beta_r as int,
            peak: self.buffer_l.1 as int,
            envelope: self.buffer_l.0 as int,
            lp_memory: self.buffer_lp as int,
            gain_lp: self.gain_lp as int,
            min_freq: self.min_freq as int,
            bandwidth: self.freq_bandwidth as int,
            q: self.q as int,
            sample_rate: self.sample_rate as int,
            center_freq: self.center_freq as int,
            highpass: self.y_highpass as int,
            bandpass: self.y_bandpass as int,
            lowpass: self.y_lowpass as int,
            filter: self.filter,
            alpha_mix: self.alpha_mix as int,
            beta_mix: self.beta_mix as int,
        }
    }
}

/// The sine series `x - x^3/6 + x^5/120`.
pub open spec fn sin_spec(x: int) -> int {
    let x2 = mul_spec(x, x);
    let x4 = mul_spec(x2, x2);
    mul_spec(x, add_spec(add_spec(ONE as int, mul_spec(SIN_C3 as int, x2)), mul_spec(SIN_C5 as int, x4)))
}

/// The tangent series `x + x^3/3 + 2 x^5/15`.
pub open spec fn tan_spec(x: int) -> int {
    let x2 = mul_spec(x, x);
    let x4 = mul_spec(x2, x2);
    mul_spec(x, add_spec(add_spec(ONE as int, mul_spec(TAN_C3 as int, x2)), mul_spec(TAN_C5 as int, x4)))
}

/// The tangent series of an angle that is not negative is not negative.
pub proof fn lemma_tan_nonneg(x: int)
    requires
        x >= 0,
    ensures
        tan_spec(x) >= 0,
{
    let x2 = mul_spec(x, x);
    lemma_mul_nonneg(x, x);
    let x4 = mul_spec(x2, x2);
    lemma_mul_nonneg(x2, x2);
    lemma_mul_nonneg(TAN_C3 as int, x2);
    lemma_mul_nonneg(TAN_C5 as int, x4);
    let poly = add_spec(add_spec(ONE as int, mul_spec(TAN_C3 as int, x2)), mul_spec(TAN_C5 as int, x4));
    lemma_mul_nonneg(x, poly);
}

/// The sine series.
pub fn sin(x: i64) -> (r: i64)
    ensures
        r as int == sin_spec(x as int),
{
    let x2 = sat_mul(x, x);
    let x4 = sat_mul(x2, x2);
    sat_mul(x, sat_add(sat_add(ONE, sat_mul(SIN_C3, x2)), sat_mul(SIN_C5, x4)))
}

/// The tangent series.
pub fn tan(x: i64) -> (r: i64)
    ensures
        r as int == tan_spec(x as int),
        x >= 0 ==> r >= 0,
{
    proof {
        if x >= 0 {
            lemma_tan_nonneg(x as int);
        }
    }
    let x2 = sat_mul(x, x);
    let x4 = sat_mul(x2, x2);
    sat_mul(x, sat_add(sat_add(ONE, sat_mul(TAN_C3, x2)), sat_mul(TAN_C5, x4)))
}

/// How much of a level stays from one sample to the next when it dies away
/// in `tau` seconds: `e^(-1 / (tau * sample_rate))`. A time that is not
/// positive lets nothing stay.
pub open spec fn decay_coefficient(tau: int, sample_rate: int) -> int {
    let span = mul_spec(tau, sample_rate);
    if span <= 0 {
        0
    } else {
        exp_neg_spec(div_spec(ONE as int, span))
    }
}

/// The state with an attack time of `tau` seconds.
pub open spec fn with_attack(s: WahState, tau: int) -> WahState {
    let alpha = decay_coefficient(tau, s.sample_rate);
    WahState { alpha_a: alpha, beta_a: sub_spec(ONE as int, alpha), ..s }
}

/// The state with a release time of `tau` seconds.
pub open spec fn with_release(s: WahState, tau: int) -> WahState {
    let alpha = decay_coefficient(tau, s.sample_rate);
    WahState { alpha_r: alpha, beta_r: sub_spec(ONE as int, alpha), ..s }
}

/// The state with a sweep from `min` hertz over a width of twice `max`
/// less `min` hertz, both turned into radians a sample.
pub open spec fn with_sweep(s: WahState, min: int, max: int) -> WahState {
    WahState {
        bandwidth: div_spec(
            mul_spec(PI as int, sub_spec(add_spec(max, max), min)),
            s.sample_rate,
        ),
        min_freq: div_spec(mul_spec(PI as int, min), s.sample_rate),
        ..s
    }
}

/// The state with a quality factor: the gain behind the low-pass filter is
/// the square root of half of it.
pub open spec fn with_quality(s: WahState, q: int) -> WahState {
    WahState { q, gain_lp: sqrt_spec(mul_spec(HALF as int, q)), ..s }
}

/// The state with a share `alpha` of filtered signal in the output; the
/// input has the rest of one.
pub open spec fn with_mix(s: WahState, alpha: int) -> WahState {
    WahState { alpha_mix: alpha, beta_mix: sub_spec(ONE as int, alpha), ..s }
}

/// The state of an auto-wah that has heard nothing and has no settings yet.
pub open spec fn blank(sample_rate: int) -> WahState {
    WahState {
        bypassing: false,
        alpha_a: 0,
        beta_a: 0,
        alpha_r: 0,
        beta_r: 0,
        peak: 0,
        envelope: 0,
        lp_memory: 0,
        gain_lp: 0,
        min_freq: 0,
        bandwidth: 0,
        q: 0,
        sample_rate,
        center_freq: 0,
        highpass: 0,
        bandpass: 0,
        lowpass: 0,
        filter: FilterType::Highpass,
        alpha_mix: 0,
        beta_mix: 0,
    }
}

/// The state that an auto-wah starts with at a sample rate in hertz.
pub open spec fn fresh(sample_rate: int) -> WahState {
    with_mix(
        with_quality(
            with_sweep(
                with_release(
                    with_attack(blank(sample_rate), DEFAULT_ATTACK as int),
                    DEFAULT_RELEASE as int,
                ),
                DEFAULT_MIN_FREQ as int,
                DEFAULT_MAX_FREQ as int,
            ),
            DEFAULT_QUALITY as int,
        ),
        DEFAULT_MIX as int,
    )
}

/// Whether a state is one that an auto-wah can be in: the sample rate is
/// positive and the centre frequency within its range.
pub open spec fn wah_wf(s: WahState) -> bool {
    &&& s.sample_rate > 0
    &&& 0 <= s.center_freq <= CENTER_FREQ_MAX
}

/// The level detector at a magnitude `x`: the held level falls back
/// towards `x` but never below it; the smoothed level follows the held one.
pub open spec fn detected(s: WahState, x: int) -> WahState {
    let y1 = add_spec(mul_spec(s.alpha_r, s.peak), mul_spec(s.beta_r, x));
    let peak = if x > y1 {
        x
    } else {
        y1
    };
    WahState {
        peak,
        envelope: add_spec(mul_spec(s.alpha_a, s.envelope), mul_spec(s.beta_a, peak)),
        ..s
    }
}

/// The centre frequency that the smoothed level asks for: the level times
/// the width of the sweep, plus its bottom, held within the stable range.
pub open spec fn swept_freq(s: WahState) -> int {
    clamp_spec(add_spec(mul_spec(s.envelope, s.bandwidth), s.min_freq), 0, CENTER_FREQ_MAX as int)
}

/// The feed-forward coefficient of the low-pass filter, `K / (K + 1)` with
/// `K` the tangent of the centre frequency.
pub open spec fn lp_coefficient(s: WahState) -> int {
    let k = tan_spec(s.center_freq);
    div_spec(k, add_spec(k, ONE as int))
}

/// What the low-pass filter keeps at a sample `x`.
pub open spec fn lp_kept(s: WahState, x: int) -> int {
    let a1 = mul_spec(TWO as int, sub_spec(lp_coefficient(s), HALF as int));
    sub_spec(x, mul_spec(a1, s.lp_memory))
}

/// What the low-pass filter puts out at a sample `x`.
pub open spec fn lp_out(s: WahState, x: int) -> int {
    mul_spec(s.gain_lp, mul_spec(lp_coefficient(s), add_spec(lp_kept(s, x), s.lp_memory)))
}

/// The state-variable filter at a sample `x`: with `f` twice the sine of
/// the centre frequency, the high-pass output is `x` less the low-pass
/// output less the damped band-pass output; the band-pass output gains `f`
/// times the high-pass one, the low-pass output `f` times the band-pass
/// one.
pub open spec fn resonated(s: WahState, x: int) -> WahState {
    let f = mul_spec(TWO as int, sin_spec(s.center_freq));
    let highpass = sub_spec(sub_spec(x, s.lowpass), mul_spec(s.q, s.bandpass));
    let bandpass = add_spec(s.bandpass, mul_spec(f, highpass));
    let lowpass = add_spec(s.lowpass, mul_spec(f, bandpass));
    WahState { highpass, bandpass, lowpass, ..s }
}

/// The output of the state-variable filter that is heard.
pub open spec fn selected(s: WahState) -> int {
    match s.filter {
        FilterType::Lowpass => s.lowpass,
        FilterType::Bandpass => s.bandpass,
        FilterType::Highpass => s.highpass,
    }
}

/// The mix of a filtered sample `y` with the input sample `x`.
pub open spec fn mixed(s: WahState, x: int, y: int) -> int {
    add_spec(mul_spec(s.alpha_mix, y), mul_spec(s.beta_mix, x))
}

/// The state after the level detector has heard a sample and has set the
/// centre frequency.
pub open spec fn followed(s: WahState, x: int) -> WahState {
    let d = detected(s, abs_spec(x));
    WahState { center_freq: swept_freq(d), ..d }
}

/// The state after a sample.
pub open spec fn wah_step(s: WahState, x: int) -> WahState {
    let d = followed(s, x);
    resonated(WahState { lp_memory: lp_kept(d, x), ..d }, lp_out(d, x))
}

/// What the effect makes of a sample, before the output stage.
pub open spec fn wah_raw(s: WahState, x: int) -> int {
    mixed(s, x, selected(wah_step(s, x)))
}

/// The output for a sample: twice what the effect makes of it, held
/// between minus one and one.
pub open spec fn wah_sample(s: WahState, x: int) -> int {
    clamp_spec(add_spec(wah_raw(s, x), wah_raw(s, x)), -(ONE as int), ONE as int)
}

/// The state after a row of samples.
pub open spec fn wah_run(s: WahState, xs: Seq<i64>) -> WahState
    decreases xs.len(),
{
    if xs.len() == 0 {
        s
    } else {
        wah_step(wah_run(s, xs.drop_last()), xs.last() as int)
    }
}

/// Whether two states have the same level detector and the same sweep:
/// all that the centre frequency is made from.
pub open spec fn same_follower(s1: WahState, s2: WahState) -> bool {
    &&& s1.alpha_a == s2.alpha_a
    &&& s1.beta_a == s2.beta_a
    &&& s1.alpha_r == s2.alpha_r
    &&& s1.beta_r == s2.beta_r
    &&& s1.peak == s2.peak
    &&& s1.envelope == s2.envelope
    &&& s1.min_freq == s2.min_freq
    &&& s1.bandwidth == s2.bandwidth
}

/// The centre frequency follows the signal and the sweep settings alone:
/// two auto-wahs that differ only in what their filters remember (and in
/// quality, mix, filter type or bypass) have the same centre frequency
/// after the same signal.
pub proof fn lemma_center_freq_ignores_filter_memory(s1: WahState, s2: WahState, xs: Seq<i64>)
    requires
        same_follower(s1, s2),
        xs.len() > 0,
    ensures
        same_follower(wah_run(s1, xs), wah_run(s2, xs)),
        wah_run(s1, xs).center_freq == wah_run(s2, xs).center_freq,
{
    lemma_run_keeps_follower(s1, s2, xs.drop_last());
}

/// A run keeps two equal level detectors equal.
pub proof fn lemma_run_keeps_follower(s1: WahState, s2: WahState, xs: Seq<i64>)
    requires
        same_follower(s1, s2),
    ensures
        same_follower(wah_run(s1, xs), wah_run(s2, xs)),
    decreases xs.len(),
{
    if xs.len() > 0 {
        lemma_run_keeps_follower(s1, s2, xs.drop_last());
    }
}

/// Whether the level detector has coefficients that attack and release
/// times lead to: what stays of a level, between nothing and all, and the
/// rest of one for what comes in.
pub open spec fn follower_wf(s: WahState) -> bool {
    &&& 0 <= s.alpha_a <= ONE
    &&& s.beta_a == ONE - s.alpha_a
    &&& 0 <= s.alpha_r <= ONE
    &&& s.beta_r == ONE - s.alpha_r
}

/// Attack and release times of any length lead to coefficients of that
/// kind.
pub proof fn lemma_times_give_follower(s: WahState, tau_a: int, tau_r: int)
    ensures
        follower_wf(with_release(with_attack(s, tau_a), tau_r)),
        follower_wf(with_attack(with_release(s, tau_r), tau_a)),
{
    let span_a = mul_spec(tau_a, s.sample_rate);
    let span_r = mul_spec(tau_r, s.sample_rate);
    lemma_exp_neg_bounds(div_spec(ONE as int, span_a));
    lemma_exp_neg_bounds(div_spec(ONE as int, span_r));
}

/// Under a signal of magnitude `a` the level detector does not overshoot:
/// where neither level lies above `a`, the held level is `a` after the
/// sample, and the smoothed level lies between zero and `a`.
pub proof fn lemma_follower_holds_level(s: WahState, a: int)
    requires
        follower_wf(s),
        0 <= a <= MAX,
        0 <= s.peak <= a,
        0 <= s.envelope <= a,
    ensures
        detected(s, a).peak == a,
        0 <= detected(s, a).envelope <= a,
{
    let one = ONE as int;
    assert(0 <= (s.alpha_r * s.peak) / one && 0 <= (s.beta_r * a) / one && (s.alpha_r * s.peak)
        / one + (s.beta_r * a) / one <= a) by (nonlinear_arith)
        requires
            0 <= s.alpha_r <= one,
            s.beta_r == one - s.alpha_r,
            0 <= s.peak <= a,
            one == 0x1_0000_0000,
    ;
    assert(0 <= (s.alpha_a * s.envelope) / one && 0 <= (s.beta_a * a) / one && (s.alpha_a
        * s.envelope) / one + (s.beta_a * a) / one <= a) by (nonlinear_arith)
        requires
            0 <= s.alpha_a <= one,
            s.beta_a == one - s.alpha_a,
            0 <= s.envelope <= a,
            one == 0x1_0000_0000,
    ;
}

/// The output stage lets nothing out beyond minus one and one.
pub proof fn lemma_output_is_clamped(s: WahState, x: int)
    ensures
        -ONE <= wah_sample(s, x) <= ONE,
{
}

/// A step leads to a valid state, and keeps the settings.
pub proof fn lemma_step_wf(s: WahState, x: int)
    requires
        wah_wf(s),
    ensures
        wah_wf(wah_step(s, x)),
        wah_step(s, x).bypassing == s.bypassing,
{
}

impl AutoWah {
    /// Runs one sample through the four stages and the mixer.
    pub fn run_effect(&mut self, x: i64) -> (y: i64)
        requires
            old(self).wf(),
        ensures
            final(self).wf(),
            final(self)@ == wah_step(old(self)@, x as int),
            y as int == wah_raw(old(self)@, x as int),
    {
        let ghost s0 = self@;
        let x_l = sat_abs(x);
        let y_l = self.level_detector(x_l);
        self.center_freq = clamp(
            sat_add(sat_mul(y_l, self.freq_bandwidth), self.min_freq),
            0,
            CENTER_FREQ_MAX,
        );
        assert(self@ == followed(s0, x as int));
        let x_f = self.low_pass_filter(x);
        let y_f = self.state_variable_filter(x_f);
        assert(self@ == wah_step(s0, x as int));
        self.mixer(x, y_f)
    }

    /// Chooses the output of the state-variable filter that is heard.
    pub fn set_filter_type(&mut self, typ: FilterType)
        requires
            old(self).wf(),
        ensures
            final(self).wf(),
            final(self)@ == (WahState { filter: typ, ..old(self)@ }),
    {
        self.filter = typ;
    }

    /// Sets the attack time, in seconds.
    pub fn set_attack(&mut self, tau_a: i64)
        requires
            old(self).wf(),
        ensures
            final(self).wf(),
            final(self)@ == with_attack(old(self)@, tau_a as int),
    {
        self.alpha_a = decay(tau_a, self.sample_rate);
        self.beta_a = sat_sub(ONE, self.alpha_a);
    }

    /// Sets the release time, in seconds.
    pub fn set_release(&mut self, tau_r: i64)
        requires
            old(self).wf(),
        ensures
            final(self).wf(),
            final(self)@ == with_release(old(self)@, tau_r as int),
    {
        self.alpha_r = decay(tau_r, self.sample_rate);
        self.beta_r = sat_sub(ONE, self.alpha_r);
    }

    /// Sets the sweep from its lowest and highest frequency, in hertz.
    #[allow(non_snake_case)]
    pub fn set_min_maxFreq(&mut self, min_freq: i64, max_freq: i64)
        requires
            old(self).wf(),
        ensures
            final(self).wf(),
            final(self)@ == with_sweep(old(self)@, min_freq as int, max_freq as int),
    {
        self.freq_bandwidth = sat_div(
            sat_mul(PI, sat_sub(sat_add(max_freq, max_freq), min_freq)),
            self.sample_rate,
        );
        self.min_freq = sat_div(sat_mul(PI, min_freq), self.sample_rate);
    }

    /// Sets the sample rate, in hertz. A rate that is not positive is
    /// refused. Times and frequencies that were set before keep the
    /// coefficients that they had.
    pub fn set_sample_rate(&mut self, sample_rate: i64) -> (r: Result<(), ConfigError>)
        requires
            old(self).wf(),
        ensures
            final(self).wf(),
            r.is_ok() <==> sample_rate > 0,
            r.is_ok() ==> final(self)@ == (WahState {
                sample_rate: sample_rate as int,
                ..old(self)@
            }),
            r.is_ok() ==> r == Ok::<(), ConfigError>(()),
            r.is_err() ==> r == Err::<(), ConfigError>(ConfigError::BadSampleRate),
            r.is_err() ==> *final(self) == *old(self),
    {
        if sample_rate > 0 {
            self.sample_rate = sample_rate;
            Ok(())
        } else {
            Err(ConfigError::BadSampleRate)
        }
    }

    /// Sets the quality factor.
    pub fn set_quality_factor(&mut self, q: i64)
        requires
            old(self).wf(),
        ensures
            final(self).wf(),
            final(self)@ == with_quality(old(self)@, q as int),
    {
        self.q = q;
        self.gain_lp = sqrt(sat_mul(HALF, q));
    }

    /// Sets the share of the filtered signal in the output; the input has
    /// the rest of one.
    pub fn set_mixing(&mut self, alpha_mix: i64)
        requires
            old(self).wf(),
        ensures
            final(self).wf(),
            final(self)@ == with_mix(old(self)@, alpha_mix as int),
    {
        self.alpha_mix = alpha_mix;
        self.beta_mix = sat_sub(ONE, alpha_mix);
    }

    /// The centre frequency of the filter, in radians a sample.
    pub fn center_frequency(&self) -> (f: i64)
        ensures
            f as int == self@.center_freq,
    {
        self.center_freq
    }

    /// Follows the level of a magnitude.
    fn level_detector(&mut self, x: i64) -> (y: i64)
        ensures
            final(self)@ == detected(old(self)@, x as int),
            y as int == final(self)@.envelope,
    {
        let y1 = sat_add(sat_mul(self.alpha_r, self.buffer_l.1), sat_mul(self.beta_r, x));
        if x > y1 {
            self.buffer_l.1 = x;
        } else {
            self.buffer_l.1 = y1;
        }
        self.buffer_l.0 = sat_add(
            sat_mul(self.alpha_a, self.buffer_l.0),
            sat_mul(self.beta_a, self.buffer_l.1),
        );
        self.buffer_l.0
    }

    /// Smooths a sample in front of the resonant filter.
    fn low_pass_filter(&mut self, x: i64) -> (y: i64)
        requires
            old(self).wf(),
        ensures
            final(self)@ == (WahState { lp_memory: lp_kept(old(self)@, x as int), ..old(self)@ }),
            y as int == lp_out(old(self)@, x as int),
    {
        let k = tan(self.center_freq);
        let b0 = sat_div(k, sat_add(k, ONE));
        let a1 = sat_mul(TWO, sat_sub(b0, HALF));
        let xh = sat_sub(x, sat_mul(a1, self.buffer_lp));
        let y = sat_mul(b0, sat_add(xh, self.buffer_lp));
        self.buffer_lp = xh;
        sat_mul(self.gain_lp, y)
    }

    /// Runs a sample through the resonant filter and picks the output that
    /// is heard.
    fn state_variable_filter(&mut self, x: i64) -> (y: i64)
        ensures
            final(self)@ == resonated(old(self)@, x as int),
            y as int == selected(final(self)@),
    {
        let f = sat_mul(TWO, sin(self.center_freq));
        self.y_highpass = sat_sub(sat_sub(x, self.y_lowpass), sat_mul(self.q, self.y_bandpass));
        self.y_bandpass = sat_add(self.y_bandpass, sat_mul(f, self.y_highpass));
        self.y_lowpass = sat_add(self.y_lowpass, sat_mul(f, self.y_bandpass));
        match self.filter {
            FilterType::Lowpass => self.y_lowpass,
            FilterType::Bandpass => self.y_bandpass,
            FilterType::Highpass => self.y_highpass,
        }
    }

    /// Mixes a filtered sample `y` with the input sample `x`.
    fn mixer(&self, x: i64, y: i64) -> (r: i64)
        ensures
            r as int == mixed(self@, x as int, y as int),
    {
        sat_add(sat_mul(self.alpha_mix, y), sat_mul(self.beta_mix, x))
    }
}

/// How much of a level stays from one sample to the next when it dies away
/// in `tau` seconds.
fn decay(tau: i64, sample_rate: i64) -> (alpha: i64)
    ensures
        alpha as int == decay_coefficient(tau as int, sample_rate as int),
{
    let span = sat_mul(tau, sample_rate);
    if span <= 0 {
        0
    } else {
        exp_neg(sat_div(ONE, span))
    }
}

impl Effect for AutoWah {
    open spec fn wf(&self) -> bool {
        wah_wf(self@)
    }

    open spec fn bypassed(&self) -> bool {
        self@.bypassing
    }

    /// The coefficients are made from the sample rate, which must be
    /// positive.
    open spec fn accepts(sample_rate: usize, frame_size: u32) -> bool {
        sample_rate > 0
    }

    /// An auto-wah that has heard nothing, with an attack of 0.04 s, a
    /// release of 0.002 s, a sweep from 20 Hz to 3000 Hz, a quality
    /// factor of a fifth, the high-pass output, and eight tenths of
    /// filtered signal in the output.
    fn new(sample_rate: usize, _frame_size: u32) -> (effect: Self)
        ensures
            effect@ == fresh(saturate(sample_rate as int * ONE)),
    {
        proof {
            assert(sample_rate < 0x8000_0000 ==> 0 < sample_rate as int * ONE <= 0x7fff_ffff
                * 0x1_0000_0000) by (nonlinear_arith)
                requires
                    sample_rate > 0,
                    ONE == 0x1_0000_0000,
            ;
            assert(sample_rate >= 0x8000_0000 ==> sample_rate as int * ONE >= 0x8000_0000
                * 0x1_0000_0000) by (nonlinear_arith)
                requires
                    ONE == 0x1_0000_0000,
            ;
        }
        let rate: i64 = if sample_rate >= 0x8000_0000 {
            MAX
        } else {
            (sample_rate as i64) * ONE
        };
        let mut aw = AutoWah {
            bypassing: false,
            alpha_a: 0,
            alpha_r: 0,
            beta_a: 0,
            beta_r: 0,
            buffer_l: (0, 0),
            buffer_lp: 0,
            gain_lp: 0,
            min_freq: 0,
            freq_bandwidth: 0,
            q: 0,
            sample_rate: rate,
            center_freq: 0,
            y_highpass: 0,
            y_bandpass: 0,
            y_lowpass: 0,
            filter: FilterType::default(),
            alpha_mix: 0,
            beta_mix: 0,
        };
        assert(aw@ == blank(rate as int));
        aw.set_attack(DEFAULT_ATTACK);
        aw.set_release(DEFAULT_RELEASE);
        aw.set_min_maxFreq(DEFAULT_MIN_FREQ, DEFAULT_MAX_FREQ);
        aw.set_quality_factor(DEFAULT_QUALITY);
        aw.set_mixing(DEFAULT_MIX);
        aw
    }

    fn name(&self) -> (name: &'static str)
        ensures
            name@ == "autowah"@,
    {
        "autowah"
    }

    /// A bypassed auto-wah copies the input and keeps its state. Else each
    /// sample runs through the effect, and the output is twice the result,
    /// held between minus one and one.
    fn process_samples(&mut self, input: &[i64], output_l: &mut Vec<i64>, output_r: &mut Vec<i64>)
        ensures
            old(self)@.bypassing ==> *final(self) == *old(self),
            !old(self)@.bypassing ==> final(self)@ == wah_run(old(self)@, input@),
            !old(self)@.bypassing ==> forall|i: int|
                0 <= i < input@.len() ==> (#[trigger] final(output_l)@[i]) as int == wah_sample(
                    wah_run(old(self)@, input@.take(i)),
                    input@[i] as int,
                ),
    {
        if self.bypassing {
            pass_through(input, output_l, output_r);
            return ;
        }
        let n = input.len();
        let mut i: usize = 0;
        proof {
            assert(input@.take(0).len() == 0);
        }
        while i < n
            invariant
                n == input@.len(),
                output_l@.len() == n,
                output_r@.len() == n,
                i <= n,
                self.bypassing == old(self).bypassing,
                wah_wf(self@),
                self@ == wah_run(old(self)@, input@.take(i as int)),
                forall|k: int|
                    0 <= k < i ==> (#[trigger] output_l@[k]) as int == wah_sample(
                        wah_run(old(self)@, input@.take(k)),
                        input@[k] as int,
                    ),
                forall|k: int| 0 <= k < i ==> output_r@[k] == output_l@[k],
            decreases n - i,
        {
            proof {
                let prefix = input@.take(i as int + 1);
                assert(prefix.drop_last() =~= input@.take(i as int));
                assert(prefix.last() == input@[i as int]);
                lemma_step_wf(self@, input@[i as int] as int);
            }
            let x = input[i];
            let raw = self.run_effect(x);
            let y = clamp(sat_add(raw, raw), -ONE, ONE);
            output_l[i] = y;
            output_r[i] = y;
            i += 1;
        }
        proof {
            assert(input@.take(n as int) =~= input@);
            assert(output_r@ =~= output_l@);
        }
    }

    fn bypass(&mut self)
        ensures
            final(self)@ == (WahState { bypassing: !old(self)@.bypassing, ..old(self)@ }),
    {
        self.bypassing = !self.bypassing;
    }

    fn is_bypassing(&self) -> (b: bool) {
        self.bypassing
    }

    /// Every message is ignored.
    fn ctrl(&mut self, msg: &CtrlMsg) -> (r: Result<(), ConfigError>)
        ensures
            r == Ok::<(), ConfigError>(()),
            *final(self) == *old(self),
    {
        Ok(())
    }
}

} // verus!
