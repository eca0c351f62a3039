//! Tremolo: the volume swept up and down, one step with every block.

use crate::effects::{pass_through, same_text, Command, ConfigError, CtrlMsg, Effect};
use crate::fixed::{
    add_spec, mul_spec, sat_add, sat_mul, sat_sub, scale, scale_spec, sub_spec, whole_part,
    whole_part_spec, ONE,
};
use vstd::prelude::*;

verus! {

/// The wet share that a tremolo starts with: eight tenths, rounded down.
pub const DEFAULT_MIX: i64 = 3435973836;

/// The sweep limit that a tremolo starts with.
pub const DEFAULT_LIMIT: i16 = 50;

/// The tremolo pedal.
///
/// `modulo` is the sweep counter, `control` the step that it takes with each
/// block (one up or one down), `counter_limit` where it turns round.
/// `offset` is the volume at the bottom of the sweep, one minus `depth`.
/// `alpha_mix` is the share of the swept signal in the output, `beta_mix`
/// that of the input.
#[derive(Debug, Clone, Copy, PartialEq, Eq)]
pub struct Tremelo {
    pub bypassing: bool,
    pub depth: i64,
    pub control: i16,
    pub modulo: i16,
    pub counter_limit: i16,
    pub offset: i64,
    pub alpha_mix: i64,
    pub beta_mix: i64,
}

/// The state after a block: the counter has taken its step, and turns
/// downwards where it has reached the limit, upwards where it has reached
/// zero.
pub open spec fn swept(t: Tremelo) -> Tremelo {
    let next = t.modulo + t.control;
    Tremelo {
        modulo: next as i16,
        control: if next >= t.counter_limit {
            -1i16
        } else if next == 0 {
            1i16
        } else {
            t.control
        },
        ..t
    }
}

/// The state after `n` blocks.
pub open spec fn swept_times(t: Tremelo, n: nat) -> Tremelo
    decreases n,
{
    if n == 0 {
        t
    } else {
        swept(swept_times(t, (n - 1) as nat))
    }
}

/// The volume of the swept signal during a block: the counter's share of
/// the limit, times the depth, plus the offset.
pub open spec fn sweep_gain(t: Tremelo) -> int {
    add_spec(scale_spec(t.depth as int, t.modulo as int, t.counter_limit as int), t.offset as int)
}

/// The output for an input sample `x`: the swept signal, `x` at the volume
/// of the sweep, mixed with `x` itself.
pub open spec fn tremolo_sample(t: Tremelo, x: int) -> int {
    add_spec(
        mul_spec(t.alpha_mix as int, mul_spec(sweep_gain(t), x)),
        mul_spec(t.beta_mix as int, x),
    )
}

/// The state after the limit is set to `limit`: a counter at or above the
/// new limit turns downwards.
pub open spec fn with_limit(t: Tremelo, limit: i16) -> Tremelo {
    Tremelo {
        counter_limit: limit,
        control: if t.modulo >= limit {
            -1i16
        } else {
            t.control
        },
        ..t
    }
}

/// The state after the wet share is set to `alpha`: the dry share is the
/// rest of one.
pub open spec fn with_mix(t: Tremelo, alpha: i64) -> Tremelo {
    Tremelo { alpha_mix: alpha, beta_mix: sub_spec(ONE as int, alpha as int) as i64, ..t }
}

/// The state that a tremolo starts with: at rest, with full depth, a limit
/// of 50, and eight tenths of swept signal in the output.
pub open spec fn at_rest() -> Tremelo {
    Tremelo {
        bypassing: false,
        depth: ONE,
        control: 1,
        modulo: 0,
        counter_limit: DEFAULT_LIMIT,
        offset: 0,
        alpha_mix: DEFAULT_MIX,
        beta_mix: (ONE - DEFAULT_MIX) as i64,
    }
}

/// What a control message does to a tremolo, and whether it is accepted:
/// the bypass message switches the bypass over; a setting of `limit` sets
/// the limit to the whole part of the value, and is refused below one; a
/// setting of `mix` sets the share of the swept signal; every other
/// message is ignored.
pub open spec fn tremolo_ctrl(t: Tremelo, c: Command) -> (Tremelo, Result<(), ConfigError>) {
    match c {
        Command::Bypass => (Tremelo { bypassing: !t.bypassing, ..t }, Ok(())),
        Command::SetParam(_, param, value) => if param == "limit"@ {
            let limit = whole_part_spec(value);
            if limit >= 1 {
                (with_limit(t, limit as i16), Ok(()))
            } else {
                (t, Err(ConfigError::LimitTooSmall))
            }
        } else if param == "mix"@ {
            (with_mix(t, value as i64), Ok(()))
        } else {
            (t, Ok(()))
        },
        _ => (t, Ok(())),
    }
}

/// A sweep keeps a state valid.
pub proof fn lemma_swept_wf(t: Tremelo)
    requires
        t.wf(),
    ensures
        swept(t).wf(),
        swept(t).modulo == t.modulo + t.control,
{
}

/// The counter stays between zero and the limit once it is there.
pub proof fn lemma_sweep_stays_within_limit(t: Tremelo, n: nat)
    requires
        t.wf(),
        t.modulo <= t.counter_limit,
    ensures
        swept_times(t, n).wf(),
        0 <= swept_times(t, n).modulo <= t.counter_limit,
        swept_times(t, n).counter_limit == t.counter_limit,
    decreases n,
{
    if n > 0 {
        lemma_sweep_stays_within_limit(t, (n - 1) as nat);
    }
}

/// The sweep is a triangle: from rest the counter climbs one step a block
/// up to the limit, falls one step a block back to zero, and is then at
/// rest again, after twice the limit in blocks.
pub proof fn lemma_sweep_triangle(t: Tremelo, n: nat)
    requires
        t.wf(),
        t.modulo == 0,
        n <= 2 * t.counter_limit,
    ensures
        swept_times(t, n).wf(),
        swept_times(t, n).modulo == if n <= t.counter_limit {
            n as int
        } else {
            2 * t.counter_limit - n
        },
        swept_times(t, n).control == if n < t.counter_limit {
            1int
        } else if n < 2 * t.counter_limit {
            -1int
        } else {
            1int
        },
        swept_times(t, n) == (Tremelo {
            modulo: swept_times(t, n).modulo,
            control: swept_times(t, n).control,
            ..t
        }),
        n == 2 * t.counter_limit ==> swept_times(t, n) == t,
    decreases n,
{
    if n > 0 {
        lemma_sweep_triangle(t, (n - 1) as nat);
        lemma_swept_wf(swept_times(t, (n - 1) as nat));
    }
}

/// At the bottom of the sweep the volume of the swept signal is the
/// offset.
pub proof fn lemma_gain_at_rest(t: Tremelo)
    requires
        t.wf(),
        t.modulo == 0,
    ensures
        sweep_gain(t) == t.offset,
{
    assert((t.depth as int * 0) / (t.counter_limit as int) == 0) by (nonlinear_arith)
        requires
            t.counter_limit >= 1,
    ;
}

impl Tremelo {
    /// Moves the sweep on by one block.
    fn sweep(&mut self)
        requires
            old(self).wf(),
        ensures
            *final(self) == swept(*old(self)),
            final(self).wf(),
    {
        self.modulo = self.modulo + self.control;
        if self.modulo >= self.counter_limit {
            self.control = -1;
        } else if self.modulo == 0 {
            self.control = 1;
        }
    }

    /// Sets the limit of the sweep. A limit below one is refused.
    pub fn set_limit(&mut self, val: i16) -> (r: Result<(), ConfigError>)
        requires
            old(self).wf(),
        ensures
            final(self).wf(),
            r.is_ok() <==> val >= 1,
            r.is_ok() ==> *final(self) == with_limit(*old(self), val),
            r.is_ok() ==> r == Ok::<(), ConfigError>(()),
            r.is_err() ==> r == Err::<(), ConfigError>(ConfigError::LimitTooSmall),
            r.is_err() ==> *final(self) == *old(self),
    {
        if val < 1 {
            return Err(ConfigError::LimitTooSmall);
        }
        self.counter_limit = val;
        if self.modulo >= val {
            self.control = -1;
        }
        Ok(())
    }

    /// Mixes a swept sample `y` with the input sample `x`.
    fn mixer(&self, x: i64, y: i64) -> (r: i64)
        ensures
            r as int == add_spec(
                mul_spec(self.alpha_mix as int, y as int),
                mul_spec(self.beta_mix as int, x as int),
            ),
    {
        sat_add(sat_mul(self.alpha_mix, y), sat_mul(self.beta_mix, x))
    }

    /// Sets the share of the swept signal in the output; the input has the
    /// rest of one.
    pub fn set_mixing(&mut self, alpha_mix: i64)
        requires
            old(self).wf(),
        ensures
            final(self).wf(),
            *final(self) == with_mix(*old(self), alpha_mix),
    {
        self.alpha_mix = alpha_mix;
        self.beta_mix = sat_sub(ONE, alpha_mix);
    }
}

impl Effect for Tremelo {
    /// The limit is one at least, the counter not negative; the step is one
    /// up or one down, up at zero and down from the limit on.
    open spec fn wf(&self) -> bool {
        &&& self.counter_limit >= 1
        &&& self.modulo >= 0
        &&& (self.control == 1 || self.control == -1)
        &&& (self.modulo == 0 ==> self.control == 1)
        &&& (self.modulo >= self.counter_limit ==> self.control == -1)
    }

    open spec fn bypassed(&self) -> bool {
        self.bypassing
    }

    open spec fn accepts(sample_rate: usize, frame_size: u32) -> bool {
        true
    }

    /// A tremolo at rest with full depth, a limit of 50, and eight tenths
    /// of swept signal in the output.
    fn new(_sample_rate: usize, _frame_size: u32) -> (effect: Self)
        ensures
            effect == at_rest(),
    {
        let depth: i64 = ONE;
        Tremelo {
            bypassing: false,
            counter_limit: DEFAULT_LIMIT,
            depth,
            control: 1,
            modulo: 0,
            offset: ONE - depth,
            alpha_mix: DEFAULT_MIX,
            beta_mix: ONE - DEFAULT_MIX,
        }
    }

    fn name(&self) -> (name: &'static str)
        ensures
            name@ == "tremelo"@,
    {
        "tremelo"
    }

    /// A bypassed tremolo copies the input and stays where it is. Else
    /// every sample of the block gets the volume that the counter gives, and
    /// the counter takes its step when the block is done.
    fn process_samples(&mut self, input: &[i64], output_l: &mut Vec<i64>, output_r: &mut Vec<i64>)
        ensures
            old(self).bypassing ==> *final(self) == *old(self),
            !old(self).bypassing ==> *final(self) == swept(*old(self)),
            !old(self).bypassing ==> forall|i: int|
                0 <= i < input@.len() ==> (#[trigger] final(output_l)@[i]) as int == tremolo_sample(
                    *old(self),
                    input@[i] as int,
                ),
    {
        if self.bypassing {
            pass_through(input, output_l, output_r);
            return ;
        }
        let m = scale(self.depth, self.modulo as i64, self.counter_limit as i64);
        let gain = sat_add(m, self.offset);
        let n = input.len();
        let mut i: usize = 0;
        while i < n
            invariant
                n == input@.len(),
                output_l@.len() == n,
                output_r@.len() == n,
                i <= n,
                *self == *old(self),
                gain as int == sweep_gain(*self),
                forall|k: int|
                    0 <= k < i ==> (#[trigger] output_l@[k]) as int == tremolo_sample(
                        *self,
                        input@[k] as int,
                    ),
                forall|k: int| 0 <= k < i ==> output_r@[k] == output_l@[k],
            decreases n - i,
        {
            let x = input[i];
            let y_wet = sat_mul(gain, x);
            let y = self.mixer(x, y_wet);
            output_r[i] = y;
            output_l[i] = y;
            i += 1;
        }
        proof {
            assert(output_r@ =~= output_l@);
        }
        self.sweep();
    }

    fn bypass(&mut self)
        ensures
            *final(self) == (Tremelo { bypassing: !old(self).bypassing, ..*old(self) }),
    {
        self.bypassing = !self.bypassing;
    }

    fn is_bypassing(&self) -> (b: bool) {
        self.bypassing
    }

    /// The bypass message switches the bypass over; a setting of `limit`
    /// sets the limit to the whole part of the value, a setting of `mix` the
    /// share of the swept signal; every other message is ignored.
    fn ctrl(&mut self, msg: &CtrlMsg) -> (r: Result<(), ConfigError>)
        ensures
            *final(self) == tremolo_ctrl(*old(self), msg@).0,
            r == tremolo_ctrl(*old(self), msg@).1,
    {
        match msg {
            CtrlMsg::Bypass => {
                self.bypass();
                Ok(())
            },
            CtrlMsg::SetParam(_pedal_name, conf_name, val) => {
                if same_text(conf_name.as_str(), "limit") {
                    self.set_limit(whole_part(*val))
                } else if same_text(conf_name.as_str(), "mix") {
                    self.set_mixing(*val);
                    Ok(())
                } else {
                    Ok(())
                }
            },
            _ => Ok(()),
        }
    }
}

} // verus!
