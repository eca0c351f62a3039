//! Tuner: a tap that keeps the last second of the signal, and picks the
//! strongest frequency out of its power spectrum.

use crate::effects::{pass_through, ConfigError, CtrlMsg, Effect};
use crate::fixed::{saturate, MAX, ONE};
use vstd::prelude::*;

verus! {

/// The power that a frequency must exceed to be heard: one.
pub const NOISE_THRESHOLD: i64 = 0x1_0000_0000;

/// The tuner. It never alters the signal: it reports itself as bypassed,
/// and its bypass switch does nothing.
pub struct Tuner {
    tuner_buffer: Vec<i64>,
    i_idx: usize,
    sample_rate: usize,
}

/// The state of a tuner: the samples it has kept, the place that was
/// written last plus one, and the sample rate.
pub struct Capture {
    pub buffer: Seq<i64>,
    pub cursor: int,
    pub sample_rate: int,
}

impl View for Tuner {
    type V = Capture;

    closed spec fn view(&self) -> Capture {
        Capture {
            buffer: self.tuner_buffer@,
            cursor: self.i_idx as int,
            sample_rate: self.sample_rate as int,
        }
    }
}

/// Whether a state is one that a tuner can be in.
pub open spec fn capture_wf(s: Capture) -> bool {
    &&& s.buffer.len() > 0
    &&& 0 <= s.cursor <= s.buffer.len()
}

/// The state after a sample: it is written at the cursor, wrapped to the
/// start at the end of the buffer, over the oldest sample.
pub open spec fn capture_step(s: Capture, x: i64) -> Capture {
    let w = if s.cursor >= s.buffer.len() {
        0
    } else {
        s.cursor
    };
    Capture { buffer: s.buffer.update(w, x), cursor: w + 1, ..s }
}

/// The state after a row of samples.
pub open spec fn capture_run(s: Capture, xs: Seq<i64>) -> Capture
    decreases xs.len(),
{
    if xs.len() == 0 {
        s
    } else {
        capture_step(capture_run(s, xs.drop_last()), xs.last())
    }
}

/// The state that a tuner starts with: a second of silence.
pub open spec fn silent_capture(sample_rate: int) -> Capture {
    Capture { buffer: Seq::new(sample_rate as nat, |i: int| 0i64), cursor: 0, sample_rate }
}

/// The frequencies of a spectrum that are told apart: those up to the
/// middle one. The spectrum of a real signal mirrors them in the rest.
pub open spec fn is_bin(power: Seq<i64>, k: int) -> bool {
    0 <= k <= power.len() / 2 && k < power.len()
}

/// Whether `k` is the strongest frequency of a power spectrum: it is heard
/// above the noise, none is stronger, and none before it is as strong.
pub open spec fn is_peak(power: Seq<i64>, k: int) -> bool {
    &&& is_bin(power, k)
    &&& power[k] > NOISE_THRESHOLD
    &&& forall|j: int| is_bin(power, j) ==> power[j] <= power[k]
    &&& forall|j: int| 0 <= j < k ==> power[j] < power[k]
}

/// Whether nothing in a power spectrum is heard above the noise.
pub open spec fn is_silent(power: Seq<i64>) -> bool {
    forall|j: int| is_bin(power, j) ==> power[j] <= NOISE_THRESHOLD
}

/// The frequency in hertz that place `bin` of a spectrum of `len` places
/// stands for at a sample rate: `bin / len * sample_rate`, rounded down.
pub open spec fn bin_frequency_spec(bin: int, len: int, sample_rate: int) -> int {
    saturate((bin * sample_rate * ONE) / len)
}

/// A spectrum has one strongest frequency at most.
pub proof fn lemma_peak_unique(power: Seq<i64>, k1: int, k2: int)
    requires
        is_peak(power, k1),
        is_peak(power, k2),
    ensures
        k1 == k2,
{
    if k1 < k2 {
        assert(power[k1] < power[k2]);
        assert(is_bin(power, k2));
    } else if k2 < k1 {
        assert(power[k2] < power[k1]);
        assert(is_bin(power, k1));
    }
}

/// A spectrum with a strongest frequency is not silent.
pub proof fn lemma_peak_not_silent(power: Seq<i64>, k: int)
    requires
        is_peak(power, k),
    ensures
        !is_silent(power),
{
}

/// The strongest frequency of a power spectrum, if any is heard.
pub fn strongest_bin(power: &[i64]) -> (r: Option<usize>)
    ensures
        match r {
            Some(k) => is_peak(power@, k as int),
            None => is_silent(power@),
        },
{
    let len = power.len();
    if len == 0 {
        return None;
    }
    let top = len / 2;
    let mut best: Option<usize> = None;
    let mut i: usize = 0;
    while i <= top
        invariant
            len == power@.len(),
            len > 0,
            top == len / 2,
            i <= top + 1,
            match best {
                Some(k) => {
                    &&& k < i
                    &&& power@[k as int] > NOISE_THRESHOLD
                    &&& forall|j: int| 0 <= j < i ==> power@[j] <= power@[k as int]
                    &&& forall|j: int| 0 <= j < k ==> power@[j] < power@[k as int]
                },
                None => forall|j: int| 0 <= j < i ==> power@[j] <= NOISE_THRESHOLD,
            },
        decreases top + 1 - i,
    {
        let p = power[i];
        if p > NOISE_THRESHOLD {
            match best {
                Some(k) => {
                    if p > power[k] {
                        best = Some(i);
                    }
                },
                None => {
                    best = Some(i);
                },
            }
        }
        i += 1;
    }
    best
}

/// The frequency in hertz, in fixed point, that place `bin` of a spectrum
/// of `len` places stands for.
pub fn bin_frequency(bin: usize, len: usize, sample_rate: usize) -> (hz: i64)
    requires
        len > 0,
    ensures
        hz as int == bin_frequency_spec(bin as int, len as int, sample_rate as int),
{
    proof {
        assert(0 <= bin as int * sample_rate as int <= 0xffff_ffff_ffff_ffff
            * 0xffff_ffff_ffff_ffff) by (nonlinear_arith)
            requires
                0 <= bin <= 0xffff_ffff_ffff_ffff,
                0 <= sample_rate <= 0xffff_ffff_ffff_ffff,
        ;
    }
    let product: u128 = (bin as u128) * (sample_rate as u128);
    let whole: u128 = product / (len as u128);
    let rest: u128 = product % (len as u128);
    proof {
        let d = len as int;
        let one = ONE as int;
        assert(rest as int * one <= 0xffff_ffff_ffff_ffff * 0x1_0000_0000) by (nonlinear_arith)
            requires
                0 <= rest < d,
                d <= 0xffff_ffff_ffff_ffff,
                one == 0x1_0000_0000,
        ;
        assert((product as int * one) / d == whole as int * one + (rest as int * one) / d)
            by (nonlinear_arith)
            requires
                d > 0,
                whole as int == product as int / d,
                rest as int == product as int % d,
        ;
        assert(0 <= (rest as int * one) / d < one) by (nonlinear_arith)
            requires
                0 <= rest < d,
                one > 0,
        ;
        assert(whole >= 0x8000_0000 ==> whole as int * one >= 0x8000_0000 * one)
            by (nonlinear_arith)
            requires
                one > 0,
        ;
        assert(whole < 0x8000_0000 ==> whole as int * one <= 0x7fff_ffff * one)
            by (nonlinear_arith)
            requires
                one > 0,
                whole >= 0,
        ;
    }
    if whole >= 0x8000_0000 {
        MAX
    } else {
        let fraction: u128 = (rest * (ONE as u128)) / (len as u128);
        (whole * (ONE as u128) + fraction) as i64
    }
}

impl Tuner {
    /// The pitch in hertz that the tuner hears, given the power spectrum of
    /// what it has kept: the frequency of the strongest place of the
    /// spectrum, or nothing where the spectrum is silent.
    pub fn tune(&self, power: &[i64]) -> (r: Option<i64>)
        ensures
            match r {
                Some(hz) => exists|k: int|
                    is_peak(power@, k) && hz as int == bin_frequency_spec(
                        k,
                        power@.len() as int,
                        self@.sample_rate,
                    ),
                None => is_silent(power@),
            },
    {
        match strongest_bin(power) {
            Some(k) => Some(bin_frequency(k, power.len(), self.sample_rate)),
            None => None,
        }
    }

    /// The samples that the tuner has kept: the last second of the signal,
    /// the oldest sample at the cursor.
    pub fn capture(&self) -> (buffer: &Vec<i64>)
        ensures
            buffer@ == self@.buffer,
    {
        &self.tuner_buffer
    }

    /// The place behind the sample that was written last.
    pub fn cursor(&self) -> (cursor: usize)
        ensures
            cursor as int == self@.cursor,
    {
        self.i_idx
    }
}

impl Effect for Tuner {
    open spec fn wf(&self) -> bool {
        capture_wf(self@)
    }

    open spec fn bypassed(&self) -> bool {
        true
    }

    /// The tuner keeps one second, which is one sample at least.
    open spec fn accepts(sample_rate: usize, frame_size: u32) -> bool {
        sample_rate > 0
    }

    /// A tuner that has kept a second of silence.
    fn new(sample_rate: usize, _frame_size: u32) -> (effect: Self)
        ensures
            effect@ == silent_capture(sample_rate as int),
    {
        let mut buffer: Vec<i64> = Vec::new();
        let mut i: usize = 0;
        while i < sample_rate
            invariant
                i <= sample_rate,
                buffer@.len() == i,
                forall|k: int| 0 <= k < i ==> buffer@[k] == 0,
            decreases sample_rate - i,
        {
            buffer.push(0);
            i += 1;
        }
        proof {
            assert(buffer@ =~= Seq::new(sample_rate as nat, |i: int| 0i64));
        }
        Tuner { tuner_buffer: buffer, i_idx: 0, sample_rate }
    }

    fn name(&self) -> (name: &'static str)
        ensures
            name@ == "tuner"@,
    {
        "tuner"
    }

    /// Keeps the block and hands it on unchanged.
    fn process_samples(&mut self, input: &[i64], output_l: &mut Vec<i64>, output_r: &mut Vec<i64>)
        ensures
            final(output_l)@ == input@,
            final(self)@ == capture_run(old(self)@, input@),
    {
        let n = input.len();
        let size = self.tuner_buffer.len();
        let mut i: usize = 0;
        proof {
            assert(input@.take(0).len() == 0);
        }
        while i < n
            invariant
                n == input@.len(),
                i <= n,
                size == self.tuner_buffer@.len(),
                capture_wf(self@),
                self@ == capture_run(old(self)@, input@.take(i as int)),
            decreases n - i,
        {
            let ghost before = self@;
            proof {
                let prefix = input@.take(i as int + 1);
                assert(prefix.drop_last() =~= input@.take(i as int));
                assert(prefix.last() == input@[i as int]);
            }
            if self.i_idx >= size {
                self.i_idx = 0;
            }
            self.tuner_buffer[self.i_idx] = input[i];
            self.i_idx += 1;
            assert(self@ == capture_step(before, input@[i as int]));
            i += 1;
        }
        proof {
            assert(input@.take(n as int) =~= input@);
        }
        pass_through(input, output_l, output_r);
    }

    fn bypass(&mut self)
        ensures
            *final(self) == *old(self),
    {
    }

    fn is_bypassing(&self) -> (b: bool) {
        true
    }

    /// Every message is ignored.
    fn ctrl(&mut self, msg: &CtrlMsg) -> (r: Result<(), ConfigError>)
        ensures
            r == Ok::<(), ConfigError>(()),
            *final(self) == *old(self),
    {
        match msg {
            CtrlMsg::Bypass => self.bypass(),
            _ => (),
        }
        Ok(())
    }
}

} // verus!
