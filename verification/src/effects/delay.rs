//! Delay: a comb filter, one second of delay line with feedback, and a
//! cosine waveshape on what comes out.

use crate::approx::{cos_spec, cosine};
use crate::effects::{pass_through, same_text, Command, ConfigError, CtrlMsg, Effect};
use crate::fixed::{add_spec, mul_spec, sat_add, sat_mul, ONE};
use vstd::prelude::*;

verus! {

/// The feedback that a delay starts with: three tenths, rounded down.
pub const DEFAULT_FEEDBACK: i64 = 1288490188;

/// How many samples back the echo that a delay starts with lies.
pub const DEFAULT_DELAY: usize = 8820;

/// What is added to the sum before the waveshape: one half.
pub const WAVESHAPE_SHIFT: i64 = 0x8000_0000;

/// The delay pedal.
pub struct Delay {
    pub bypassing: bool,
    delay_buffer: Vec<i64>,
    feedback: i64,
    i_idx: usize,
    delay_time: usize,
}

/// The state of a delay: the line, the place that was written last plus
/// one, how far back the echo lies, and the feedback.
pub struct DelayLine {
    pub bypassing: bool,
    pub line: Seq<i64>,
    pub cursor: int,
    pub offset: int,
    pub feedback: int,
}

impl View for Delay {
    type V = DelayLine;

    closed spec fn view(&self) -> DelayLine {
        DelayLine {
            bypassing: self.bypassing,
            line: self.delay_buffer@,
            cursor: self.i_idx as int,
            offset: self.delay_time as int,
            feedback: self.feedback as int,
        }
    }
}

/// Whether a state is one that a delay can be in: the echo lies within the
/// line, the cursor on it or just behind its end, the feedback below one.
pub open spec fn line_wf(s: DelayLine) -> bool {
    &&& 0 <= s.offset < s.line.len()
    &&& 0 <= s.cursor <= s.line.len()
    &&& s.feedback < ONE
}

/// The place that the next sample is written to: the cursor, wrapped to the
/// start at the end of the line.
pub open spec fn write_index(s: DelayLine) -> int {
    if s.cursor >= s.line.len() {
        0
    } else {
        s.cursor
    }
}

/// The place that the echo is read from: the offset behind the place that
/// is written, wrapped into the line.
pub open spec fn read_index(s: DelayLine) -> int {
    let w = write_index(s);
    if w >= s.offset {
        w - s.offset
    } else {
        s.line.len() + w - s.offset
    }
}

/// The sum of a sample and its echo: the sample plus the feedback times
/// what the line holds at the place that is read.
pub open spec fn echo_sum(s: DelayLine, x: i64) -> int {
    add_spec(x as int, mul_spec(s.line[read_index(s)] as int, s.feedback))
}

/// The state after a sample: the sum is written to the line and the cursor
/// moves on.
pub open spec fn echo_step(s: DelayLine, x: i64) -> DelayLine {
    DelayLine {
        line: s.line.update(write_index(s), echo_sum(s, x) as i64),
        cursor: write_index(s) + 1,
        ..s
    }
}

/// The state after a row of samples.
pub open spec fn echo_run(s: DelayLine, xs: Seq<i64>) -> DelayLine
    decreases xs.len(),
{
    if xs.len() == 0 {
        s
    } else {
        echo_step(echo_run(s, xs.drop_last()), xs.last())
    }
}

/// The waveshape on a sum `y`: the cosine of `y` plus one half.
pub open spec fn waveshape(y: int) -> int {
    cos_spec(add_spec(y, WAVESHAPE_SHIFT as int))
}

/// The output for the sample at place `i` of a block.
pub open spec fn echo_out(s: DelayLine, xs: Seq<i64>, i: int) -> int {
    waveshape(echo_sum(echo_run(s, xs.take(i)), xs[i]))
}

/// How many samples a delay of `t` seconds is at a sample rate: their
/// product, rounded down; none where `t` is negative.
pub open spec fn delay_samples(t: int, sample_rate: int) -> int {
    if t <= 0 {
        0
    } else {
        (t * sample_rate) / (ONE as int)
    }
}

/// The state that a delay starts with: a silent line of one second, the
/// echo 8820 samples back, a feedback of three tenths.
pub open spec fn silent_line(sample_rate: int) -> DelayLine {
    DelayLine {
        bypassing: false,
        line: Seq::new(sample_rate as nat, |i: int| 0i64),
        cursor: 0,
        offset: DEFAULT_DELAY as int,
        feedback: DEFAULT_FEEDBACK as int,
    }
}

/// What a control message does to a delay, and whether it is accepted:
/// the bypass message switches the bypass over; a setting of `feedback` or
/// of `delay` (in seconds) is taken where it is valid and refused where it
/// is not; every other message is ignored.
pub open spec fn delay_ctrl(s: DelayLine, c: Command) -> (DelayLine, Result<(), ConfigError>) {
    match c {
        Command::Bypass => (DelayLine { bypassing: !s.bypassing, ..s }, Ok(())),
        Command::SetParam(_, param, value) => if param == "feedback"@ {
            if value < ONE {
                (DelayLine { feedback: value, ..s }, Ok(()))
            } else {
                (s, Err(ConfigError::FeedbackTooLarge))
            }
        } else if param == "delay"@ {
            let samples = delay_samples(value, s.line.len() as int);
            if samples < s.line.len() {
                (DelayLine { offset: samples, ..s }, Ok(()))
            } else {
                (s, Err(ConfigError::DelayTooLong))
            }
        } else {
            (s, Ok(()))
        },
        _ => (s, Ok(())),
    }
}

/// A run keeps a state valid, and keeps all of it but the line and the
/// cursor.
pub proof fn lemma_echo_run_wf(s: DelayLine, xs: Seq<i64>)
    requires
        line_wf(s),
    ensures
        line_wf(echo_run(s, xs)),
        echo_run(s, xs).line.len() == s.line.len(),
        echo_run(s, xs).offset == s.offset,
        echo_run(s, xs).feedback == s.feedback,
        echo_run(s, xs).bypassing == s.bypassing,
    decreases xs.len(),
{
    if xs.len() > 0 {
        lemma_echo_run_wf(s, xs.drop_last());
    }
}

impl Delay {
    /// Sets how far back the echo lies, in seconds. A time that the line
    /// does not reach is refused.
    pub fn set_delay(&mut self, t: i64) -> (r: Result<(), ConfigError>)
        requires
            old(self).wf(),
        ensures
            final(self).wf(),
            r.is_ok() <==> delay_samples(t as int, old(self)@.line.len() as int) < old(self)@.line.len(),
            r.is_ok() ==> final(self)@ == (DelayLine {
                offset: delay_samples(t as int, old(self)@.line.len() as int),
                ..old(self)@
            }),
            r.is_ok() ==> r == Ok::<(), ConfigError>(()),
            r.is_err() ==> r == Err::<(), ConfigError>(ConfigError::DelayTooLong) && *final(self)
                == *old(self),
    {
        let size = self.delay_buffer.len();
        if t <= 0 {
            self.delay_time = 0;
            return Ok(());
        }
        proof {
            assert(0 <= t as int * size as int <= 0x7fff_ffff_ffff_ffff * 0xffff_ffff_ffff_ffff)
                by (nonlinear_arith)
                requires
                    0 < t <= 0x7fff_ffff_ffff_ffff,
                    0 <= size <= 0xffff_ffff_ffff_ffff,
            ;
        }
        let samples: u128 = ((t as u128) * (size as u128)) / (ONE as u128);
        if samples < size as u128 {
            self.delay_time = samples as usize;
            Ok(())
        } else {
            Err(ConfigError::DelayTooLong)
        }
    }

    /// Sets the feedback. One or more is refused.
    pub fn set_feedback(&mut self, f: i64) -> (r: Result<(), ConfigError>)
        requires
            old(self).wf(),
        ensures
            final(self).wf(),
            r.is_ok() <==> f < ONE,
            r.is_ok() ==> final(self)@ == (DelayLine { feedback: f as int, ..old(self)@ }),
            r.is_ok() ==> r == Ok::<(), ConfigError>(()),
            r.is_err() ==> r == Err::<(), ConfigError>(ConfigError::FeedbackTooLarge),
            r.is_err() ==> *final(self) == *old(self),
    {
        if f < ONE {
            self.feedback = f;
            Ok(())
        } else {
            Err(ConfigError::FeedbackTooLarge)
        }
    }

    /// The delay line: the sums of samples and echoes, as they were
    /// written.
    pub fn line(&self) -> (line: &Vec<i64>)
        ensures
            line@ == self@.line,
    {
        &self.delay_buffer
    }

    /// How many samples back the echo lies.
    pub fn delay_time(&self) -> (offset: usize)
        ensures
            offset as int == self@.offset,
    {
        self.delay_time
    }

    /// The feedback.
    pub fn feedback(&self) -> (feedback: i64)
        ensures
            feedback as int == self@.feedback,
    {
        self.feedback
    }
}

impl Effect for Delay {
    open spec fn wf(&self) -> bool {
        line_wf(self@)
    }

    open spec fn bypassed(&self) -> bool {
        self@.bypassing
    }

    /// The line holds one second, which must reach the echo that a delay
    /// starts with.
    open spec fn accepts(sample_rate: usize, frame_size: u32) -> bool {
        sample_rate > DEFAULT_DELAY
    }

    /// A delay with a silent line of one second, the echo 8820 samples
    /// back and a feedback of three tenths.
    fn new(sample_rate: usize, _frame_size: u32) -> (effect: Self)
        ensures
            effect@ == silent_line(sample_rate as int),
    {
        let mut buffer: Vec<i64> = Vec::new();
        let mut i: usize = 0;
        while i < sample_rate
            invariant
                i <= sample_rate,
                buffer@.len() == i,
                forall|k: int| 0 <= k < i ==> buffer@[k] == 0,
            decreases sample_rate - i,
        {
            buffer.push(0);
            i += 1;
        }
        proof {
            assert(buffer@ =~= Seq::new(sample_rate as nat, |i: int| 0i64));
        }
        Delay {
            bypassing: false,
            delay_buffer: buffer,
            feedback: DEFAULT_FEEDBACK,
            i_idx: 0,
            delay_time: DEFAULT_DELAY,
        }
    }

    fn name(&self) -> (name: &'static str)
        ensures
            name@ == "delay"@,
    {
        "delay"
    }

    /// A bypassed delay copies the input and keeps its line. Else each
    /// sample is added to its echo, the sum is written to the line, and the
    /// output is the waveshape on the sum.
    fn process_samples(&mut self, input: &[i64], output_l: &mut Vec<i64>, output_r: &mut Vec<i64>)
        ensures
            old(self)@.bypassing ==> *final(self) == *old(self),
            !old(self)@.bypassing ==> final(self)@ == echo_run(old(self)@, input@),
            !old(self)@.bypassing ==> forall|i: int|
                0 <= i < input@.len() ==> (#[trigger] final(output_l)@[i]) as int == echo_out(
                    old(self)@,
                    input@,
                    i,
                ),
    {
        if self.bypassing {
            pass_through(input, output_l, output_r);
            return ;
        }
        let n = input.len();
        let size = self.delay_buffer.len();
        let mut i: usize = 0;
        proof {
            assert(input@.take(0).len() == 0);
        }
        while i < n
            invariant
                n == input@.len(),
                output_l@.len() == n,
                output_r@.len() == n,
                i <= n,
                size == self.delay_buffer@.len(),
                self.bypassing == old(self).bypassing,
                line_wf(self@),
                line_wf(old(self)@),
                self@ == echo_run(old(self)@, input@.take(i as int)),
                forall|k: int|
                    0 <= k < i ==> (#[trigger] output_l@[k]) as int == echo_out(
                        old(self)@,
                        input@,
                        k,
                    ),
                forall|k: int| 0 <= k < i ==> output_r@[k] == output_l@[k],
            decreases n - i,
        {
            let ghost before = self@;
            proof {
                let prefix = input@.take(i as int + 1);
                assert(prefix.drop_last() =~= input@.take(i as int));
                assert(prefix.last() == input@[i as int]);
            }
            if self.i_idx >= size {
                self.i_idx = 0;
            }
            let o_idx: usize = if self.i_idx >= self.delay_time {
                self.i_idx - self.delay_time
            } else {
                size - self.delay_time + self.i_idx
            };
            let y = sat_add(input[i], sat_mul(self.delay_buffer[o_idx], self.feedback));
            assert(y as int == echo_sum(before, input@[i as int]));
            self.delay_buffer[self.i_idx] = y;
            let out = cosine(sat_add(y, WAVESHAPE_SHIFT));
            output_l[i] = out;
            output_r[i] = out;
            self.i_idx += 1;
            assert(self@ == echo_step(before, input@[i as int]));
            i += 1;
        }
        proof {
            assert(input@.take(n as int) =~= input@);
            assert(output_r@ =~= output_l@);
        }
    }

    fn bypass(&mut self)
        ensures
            final(self)@ == (DelayLine { bypassing: !old(self)@.bypassing, ..old(self)@ }),
    {
        self.bypassing = !self.bypassing;
    }

    fn is_bypassing(&self) -> (b: bool) {
        self.bypassing
    }

    /// The bypass message switches the bypass over; a setting of
    /// `feedback` or of `delay` goes to its setter; every other message is
    /// ignored.
    fn ctrl(&mut self, msg: &CtrlMsg) -> (r: Result<(), ConfigError>)
        ensures
            final(self)@ == delay_ctrl(old(self)@, msg@).0,
            r == delay_ctrl(old(self)@, msg@).1,
    {
        match msg {
            CtrlMsg::Bypass => {
                self.bypass();
                Ok(())
            },
            CtrlMsg::SetParam(_pedal_name, conf_name, val) => {
                if same_text(conf_name.as_str(), "feedback") {
                    self.set_feedback(*val)
                } else if same_text(conf_name.as_str(), "delay") {
                    self.set_delay(*val)
                } else {
                    Ok(())
                }
            },
            _ => Ok(()),
        }
    }
}

} // verus!
