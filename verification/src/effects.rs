//! What every pedal can do, and the control messages that it takes.
//!
//! A sample is a fixed-point number with 32 fractional bits, nominally
//! between minus one and one. A block is a row of samples; every pedal
//! turns one block of input into two equal blocks of output, left and right.

pub mod autowah;
pub mod delay;
pub mod overdrive;
pub mod pedals;
pub mod tremelo;
pub mod tuner;

pub use crate::effects::pedals::Pedals;
use vstd::prelude::*;

verus! {

/// A control message.
#[derive(Debug, PartialEq, Eq)]
pub enum CtrlMsg {
    /// Toggle the bypass of the whole chain.
    Bypass,
    /// Toggle the bypass of the named pedal.
    BypassPedal(String),
    /// Ask the tuner for the pitch it hears.
    Tuner,
    /// Route the output of the first node into the second.
    Connect(String, String),
    /// Apply the messages in order.
    Chain(Vec<CtrlMsg>),
    /// Remove the edge that leaves the node.
    Disconnect(String),
    /// Report the routing table and the registered pedals.
    Connections,
    /// Register a pedal of the given kind (second) under a name (first).
    Add(String, String),
    /// Set the named parameter (second) of the named pedal (first) to a
    /// fixed-point value.
    SetParam(String, String, i64),
}

/// What a control message says, with names as sequences of characters.
pub enum Command {
    Bypass,
    BypassPedal(Seq<char>),
    Tuner,
    Connect(Seq<char>, Seq<char>),
    Chain(Seq<Command>),
    Disconnect(Seq<char>),
    Connections,
    Add(Seq<char>, Seq<char>),
    SetParam(Seq<char>, Seq<char>, int),
}

impl View for CtrlMsg {
    type V = Command;

    open spec fn view(&self) -> Command
        decreases self,
    {
        match self {
            CtrlMsg::Bypass => Command::Bypass,
            CtrlMsg::BypassPedal(name) => Command::BypassPedal(name@),
            CtrlMsg::Tuner => Command::Tuner,
            CtrlMsg::Connect(from, to) => Command::Connect(from@, to@),
            CtrlMsg::Chain(list) => Command::Chain(
                Seq::new(
                    list@.len(),
                    |i: int|
                        if 0 <= i < list@.len() {
                            list@[i].view()
                        } else {
                            Command::Bypass
                        },
                ),
            ),
            CtrlMsg::Disconnect(name) => Command::Disconnect(name@),
            CtrlMsg::Connections => Command::Connections,
            CtrlMsg::Add(name, kind) => Command::Add(name@, kind@),
            CtrlMsg::SetParam(name, param, value) => Command::SetParam(name@, param@, *value as int),
        }
    }
}

/// The views of a list of strings.
pub open spec fn views(list: Seq<String>) -> Seq<Seq<char>> {
    Seq::new(list.len(), |i: int| list[i]@)
}

/// Why a setting is refused. A refused setting changes nothing.
#[derive(Debug, Clone, Copy, PartialEq, Eq)]
pub enum ConfigError {
    /// The echo would lie further back than the delay line reaches.
    DelayTooLong,
    /// A feedback of one or more would never die away.
    FeedbackTooLarge,
    /// A sweep needs a limit of one at least.
    LimitTooSmall,
    /// A sample rate is positive.
    BadSampleRate,
}

/// Whether two texts are the same.
pub fn same_text(a: &str, b: &str) -> (same: bool)
    ensures
        same == (a@ == b@),
{
    let n = a.unicode_len();
    if b.unicode_len() != n {
        return false;
    }
    let mut i: usize = 0;
    while i < n
        invariant
            n == a@.len(),
            n == b@.len(),
            i <= n,
            forall|k: int| 0 <= k < i ==> a@[k] == b@[k],
        decreases n - i,
    {
        if a.get_char(i) != b.get_char(i) {
            return false;
        }
        i += 1;
    }
    proof {
        assert(a@ =~= b@);
    }
    true
}

/// Copies a block into both outputs.
pub fn pass_through(input: &[i64], output_l: &mut Vec<i64>, output_r: &mut Vec<i64>)
    requires
        input@.len() == old(output_l)@.len(),
        input@.len() == old(output_r)@.len(),
    ensures
        final(output_l)@ == input@,
        final(output_r)@ == input@,
{
    let n = input.len();
    let mut i: usize = 0;
    while i < n
        invariant
            n == input@.len(),
            output_l@.len() == n,
            output_r@.len() == n,
            i <= n,
            forall|k: int| 0 <= k < i ==> output_l@[k] == input@[k] && output_r@[k] == input@[k],
        decreases n - i,
    {
        output_l[i] = input[i];
        output_r[i] = input[i];
        i += 1;
    }
    proof {
        assert(output_l@ =~= input@);
        assert(output_r@ =~= input@);
    }
}

/// What every pedal can do.
pub trait Effect: Sized {
    /// Whether the pedal's state is one that its own operations lead to.
    spec fn wf(&self) -> bool;

    /// Whether the pedal hands its input on unchanged.
    spec fn bypassed(&self) -> bool;

    /// Whether a pedal of this kind can run at the session's sample rate and
    /// block size.
    spec fn accepts(sample_rate: usize, frame_size: u32) -> bool;

    /// A pedal with the settings it starts with.
    fn new(sample_rate: usize, frame_size: u32) -> (effect: Self)
        requires
            Self::accepts(sample_rate, frame_size),
        ensures
            effect.wf(),
    ;

    /// The name of the pedal's kind.
    fn name(&self) -> (name: &'static str);

    /// Turns one block of input into the two blocks of output. A bypassed
    /// pedal copies the input.
    fn process_samples(&mut self, input: &[i64], output_l: &mut Vec<i64>, output_r: &mut Vec<i64>)
        requires
            old(self).wf(),
            input@.len() == old(output_l)@.len(),
            input@.len() == old(output_r)@.len(),
        ensures
            final(self).wf(),
            final(self).bypassed() == old(self).bypassed(),
            final(output_l)@.len() == input@.len(),
            final(output_r)@ == final(output_l)@,
            old(self).bypassed() ==> final(output_l)@ == input@,
    ;

    /// Switches the bypass over.
    fn bypass(&mut self)
        requires
            old(self).wf(),
        ensures
            final(self).wf(),
    ;

    /// Whether the pedal hands its input on unchanged.
    fn is_bypassing(&self) -> (b: bool)
        ensures
            b == self.bypassed(),
    ;

    /// Applies a control message. A setting that the pedal refuses leaves it
    /// as it was.
    fn ctrl(&mut self, msg: &CtrlMsg) -> (r: Result<(), ConfigError>)
        requires
            old(self).wf(),
        ensures
            final(self).wf(),
            r.is_err() ==> *final(self) == *old(self),
    ;
}

} // verus!
