//! Overdrive: a soft clip of each sample's magnitude.

use crate::effects::{pass_through, Command, ConfigError, CtrlMsg, Effect};
use crate::fixed::{abs_spec, sat_abs, ONE};
use vstd::prelude::*;

verus! {

/// The overdrive pedal. It has no memory of the signal.
pub struct Overdrive {
    pub bypassing: bool,
}

/// The clipping curve at a magnitude `m` that is not negative: twice `m`
/// below a third, `(3 - t^2) / 3` with `t = 2 - 3 m` from a third to below
/// two thirds, rounded down, and `m` itself from two thirds on.
pub open spec fn clip_magnitude(m: int) -> int {
    if 3 * m < ONE {
        2 * m
    } else if 3 * m < 2 * ONE {
        let t = 2 * ONE - 3 * m;
        (3 * ONE * ONE - t * t) / (3 * ONE)
    } else {
        m
    }
}

/// The clipping curve at a sample: the curve at its magnitude. The sign is
/// not put back.
pub open spec fn soft_clip(x: int) -> int {
    clip_magnitude(abs_spec(x))
}

/// Clips one sample.
pub fn clip_sample(x: i64) -> (y: i64)
    ensures
        y as int == soft_clip(x as int),
        y >= 0,
{
    let m: i64 = sat_abs(x);
    let tripled: i128 = 3 * (m as i128);
    if tripled < ONE as i128 {
        2 * m
    } else if tripled < 2 * (ONE as i128) {
        let t: i128 = 2 * (ONE as i128) - tripled;
        proof {
            assert(0 <= t * t <= 0x1_0000_0000 * 0x1_0000_0000) by (nonlinear_arith)
                requires
                    0 < t <= 0x1_0000_0000,
            ;
        }
        let top: i128 = 3 * (ONE as i128) * (ONE as i128) - t * t;
        let y: i128 = top / (3 * (ONE as i128));
        proof {
            assert(0 <= (top as int) / (3 * (ONE as int)) <= ONE) by (nonlinear_arith)
                requires
                    0 <= top as int <= 3 * (ONE as int) * (ONE as int),
                    ONE == 0x1_0000_0000,
            ;
        }
        y as i64
    } else {
        m
    }
}

/// The curve starts at zero.
pub proof fn lemma_clip_zero()
    ensures
        soft_clip(0) == 0,
{
}

/// Below two thirds the curve never falls and never rises faster than twice
/// the magnitude, up to one unit of rounding: it has no jump there, and none
/// at a third.
pub proof fn lemma_clip_steady_below_two_thirds(a: int, b: int)
    requires
        0 <= a <= b,
        3 * b < 2 * ONE,
    ensures
        clip_magnitude(a) <= clip_magnitude(b) <= clip_magnitude(a) + 2 * (b - a) + 1,
{
    let one = ONE as int;
    if 3 * b < one {
    } else if 3 * a < one {
        // `a` lies below a third, `b` from a third on.
        let t = 2 * one - 3 * b;
        let top = 3 * one * one - t * t;
        assert(0 < t <= one);
        assert(t * t <= one * one) by (nonlinear_arith)
            requires
                0 < t <= one,
        ;
        assert(top / (3 * one) >= (2 * one) / 3) by (nonlinear_arith)
            requires
                top >= 2 * one * one,
                one == 0x1_0000_0000,
        ;
        assert(top <= 2 * b * (3 * one)) by (nonlinear_arith)
            requires
                top == 3 * one * one - t * t,
                t == 2 * one - 3 * b,
        ;
        assert(top / (3 * one) <= 2 * b) by (nonlinear_arith)
            requires
                top <= 2 * b * (3 * one),
                one == 0x1_0000_0000,
        ;
    } else {
        let ta = 2 * one - 3 * a;
        let tb = 2 * one - 3 * b;
        let top_a = 3 * one * one - ta * ta;
        let top_b = 3 * one * one - tb * tb;
        assert(top_a <= top_b <= top_a + 2 * (b - a) * (3 * one)) by (nonlinear_arith)
            requires
                top_a == 3 * one * one - ta * ta,
                top_b == 3 * one * one - tb * tb,
                ta == 2 * one - 3 * a,
                tb == 2 * one - 3 * b,
                0 < tb <= ta <= one,
                a <= b,
        ;
        assert(top_a / (3 * one) <= top_b / (3 * one) <= top_a / (3 * one) + 2 * (b - a) + 1)
            by (nonlinear_arith)
            requires
                top_a <= top_b <= top_a + 2 * (b - a) * (3 * one),
                one == 0x1_0000_0000,
        ;
    }
}

/// From two thirds on the curve is the magnitude itself.
pub proof fn lemma_clip_from_two_thirds(m: int)
    requires
        3 * m >= 2 * ONE,
    ensures
        clip_magnitude(m) == m,
{
}

impl Effect for Overdrive {
    open spec fn wf(&self) -> bool {
        true
    }

    open spec fn bypassed(&self) -> bool {
        self.bypassing
    }

    open spec fn accepts(sample_rate: usize, frame_size: u32) -> bool {
        true
    }

    fn new(_sample_rate: usize, _frame_size: u32) -> (effect: Self)
        ensures
            !effect.bypassing,
    {
        Overdrive { bypassing: false }
    }

    fn name(&self) -> (name: &'static str)
        ensures
            name@ == "overdrive"@,
    {
        "overdrive"
    }

    /// A bypassed pedal copies the input; else each output sample is the
    /// clipping curve at the input sample.
    fn process_samples(&mut self, input: &[i64], output_l: &mut Vec<i64>, output_r: &mut Vec<i64>)
        ensures
            *final(self) == *old(self),
            !old(self).bypassing ==> forall|i: int|
                0 <= i < input@.len() ==> (#[trigger] final(output_l)@[i]) as int == soft_clip(
                    input@[i] as int,
                ),
    {
        if self.bypassing {
            pass_through(input, output_l, output_r);
            return ;
        }
        let n = input.len();
        let mut i: usize = 0;
        while i < n
            invariant
                n == input@.len(),
                output_l@.len() == n,
                output_r@.len() == n,
                i <= n,
                forall|k: int|
                    0 <= k < i ==> (#[trigger] output_l@[k]) as int == soft_clip(input@[k] as int),
                forall|k: int| 0 <= k < i ==> output_r@[k] == output_l@[k],
            decreases n - i,
        {
            let y = clip_sample(input[i]);
            output_l[i] = y;
            output_r[i] = y;
            i += 1;
        }
        proof {
            assert(output_r@ =~= output_l@);
        }
    }

    fn bypass(&mut self)
        ensures
            final(self).bypassing == !old(self).bypassing,
    {
        self.bypassing = !self.bypassing;
    }

    fn is_bypassing(&self) -> (b: bool) {
        self.bypassing
    }

    /// The bypass message switches the bypass over; every other message is
    /// ignored.
    fn ctrl(&mut self, msg: &CtrlMsg) -> (r: Result<(), ConfigError>)
        ensures
            r == Ok::<(), ConfigError>(()),
            final(self).bypassing == if msg@ == Command::Bypass {
                !old(self).bypassing
            } else {
                old(self).bypassing
            },
    {
        match msg {
            CtrlMsg::Bypass => self.bypass(),
            _ => (),
        }
        Ok(())
    }
}

} // verus!
