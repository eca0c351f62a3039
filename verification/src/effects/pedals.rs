//! The chain: named pedals, a routing table from `in` to `out`, and the
//! control messages that change both while the signal runs.

use crate::effects::autowah::{fresh, wah_run, wah_sample, AutoWah, WahState};
use crate::effects::delay::{
    delay_ctrl, echo_out, echo_run, silent_line, Delay, DelayLine, DEFAULT_DELAY,
};
use crate::effects::overdrive::{soft_clip, Overdrive};
use crate::effects::tremelo::{at_rest, swept, tremolo_ctrl, tremolo_sample, Tremelo};
use crate::effects::tuner::{capture_run, silent_capture, Capture, Tuner};
use crate::effects::{pass_through, same_text, views, Command, ConfigError, CtrlMsg, Effect};
use crate::fixed::{saturate, ONE};
use crate::table::{
    distinct, lemma_table_absent, lemma_table_at, lemma_table_len, lemma_table_push,
    lemma_table_remove, lemma_table_update, position, put, table,
};
use vstd::prelude::*;

verus! {

/// A pedal of one of the five kinds.
pub enum Pedal {
    Overdrive(Overdrive),
    Delay(Delay),
    AutoWah(AutoWah),
    Tuner(Tuner),
    Tremelo(Tremelo),
}

/// The state of a pedal.
pub enum PedalState {
    Overdrive(Overdrive),
    Delay(DelayLine),
    AutoWah(WahState),
    Tuner(Capture),
    Tremelo(Tremelo),
}

impl View for Pedal {
    type V = PedalState;

    open spec fn view(&self) -> PedalState {
        match self {
            Pedal::Overdrive(p) => PedalState::Overdrive(*p),
            Pedal::Delay(p) => PedalState::Delay(p@),
            Pedal::AutoWah(p) => PedalState::AutoWah(p@),
            Pedal::Tuner(p) => PedalState::Tuner(p@),
            Pedal::Tremelo(p) => PedalState::Tremelo(*p),
        }
    }
}

/// Whether a pedal in this state hands its input on unchanged.
pub open spec fn state_bypassed(s: PedalState) -> bool {
    match s {
        PedalState::Overdrive(p) => p.bypassing,
        PedalState::Delay(p) => p.bypassing,
        PedalState::AutoWah(p) => p.bypassing,
        PedalState::Tuner(_) => true,
        PedalState::Tremelo(p) => p.bypassing,
    }
}

/// The block that a pedal in state `s` makes of the block `xs`.
pub open spec fn pedal_output(s: PedalState, xs: Seq<i64>) -> Seq<i64> {
    if state_bypassed(s) {
        xs
    } else {
        match s {
            PedalState::Overdrive(_) => Seq::new(xs.len(), |i: int| soft_clip(xs[i] as int) as i64),
            PedalState::Delay(p) => Seq::new(xs.len(), |i: int| echo_out(p, xs, i) as i64),
            PedalState::AutoWah(p) => Seq::new(
                xs.len(),
                |i: int| wah_sample(wah_run(p, xs.take(i)), xs[i] as int) as i64,
            ),
            PedalState::Tuner(_) => xs,
            PedalState::Tremelo(p) => Seq::new(
                xs.len(),
                |i: int| tremolo_sample(p, xs[i] as int) as i64,
            ),
        }
    }
}

/// The state of a pedal after the block `xs`. A bypassed pedal stays as it
/// is, but for the tuner, which keeps every block.
pub open spec fn pedal_after(s: PedalState, xs: Seq<i64>) -> PedalState {
    match s {
        PedalState::Tuner(p) => PedalState::Tuner(capture_run(p, xs)),
        _ => if state_bypassed(s) {
            s
        } else {
            match s {
                PedalState::Delay(p) => PedalState::Delay(echo_run(p, xs)),
                PedalState::AutoWah(p) => PedalState::AutoWah(wah_run(p, xs)),
                PedalState::Tremelo(p) => PedalState::Tremelo(swept(p)),
                _ => s,
            }
        },
    }
}

/// The state of a pedal after its bypass switch is pressed. The tuner has
/// none.
pub open spec fn pedal_toggled(s: PedalState) -> PedalState {
    match s {
        PedalState::Overdrive(p) => PedalState::Overdrive(Overdrive { bypassing: !p.bypassing }),
        PedalState::Delay(p) => PedalState::Delay(DelayLine { bypassing: !p.bypassing, ..p }),
        PedalState::AutoWah(p) => PedalState::AutoWah(WahState { bypassing: !p.bypassing, ..p }),
        PedalState::Tuner(p) => s,
        PedalState::Tremelo(p) => PedalState::Tremelo(Tremelo { bypassing: !p.bypassing, ..p }),
    }
}

/// What a control message does to a pedal, and whether the pedal accepts
/// it. The overdrive knows the bypass message, the delay and the tremolo
/// their settings too; the auto-wah and the tuner ignore every message.
pub open spec fn pedal_ctrl(s: PedalState, c: Command) -> (PedalState, Result<(), ConfigError>) {
    match s {
        PedalState::Overdrive(p) => (
            if c == Command::Bypass {
                PedalState::Overdrive(Overdrive { bypassing: !p.bypassing })
            } else {
                s
            },
            Ok(()),
        ),
        PedalState::Delay(p) => (PedalState::Delay(delay_ctrl(p, c).0), delay_ctrl(p, c).1),
        PedalState::Tremelo(p) => (PedalState::Tremelo(tremolo_ctrl(p, c).0), tremolo_ctrl(p, c).1),
        _ => (s, Ok(())),
    }
}

/// The name of a pedal's kind.
pub open spec fn kind_name(s: PedalState) -> Seq<char> {
    match s {
        PedalState::Overdrive(_) => "overdrive"@,
        PedalState::Delay(_) => "delay"@,
        PedalState::AutoWah(_) => "autowah"@,
        PedalState::Tuner(_) => "tuner"@,
        PedalState::Tremelo(_) => "tremelo"@,
    }
}

/// Whether a word names a kind of pedal.
pub open spec fn known_kind(kind: Seq<char>) -> bool {
    kind == "overdrive"@ || kind == "delay"@ || kind == "autowah"@ || kind == "tuner"@ || kind
        == "tremelo"@
}

/// The state that a pedal of a known kind starts with.
pub open spec fn fresh_pedal(kind: Seq<char>, sample_rate: int) -> PedalState {
    if kind == "overdrive"@ {
        PedalState::Overdrive(Overdrive { bypassing: false })
    } else if kind == "delay"@ {
        PedalState::Delay(silent_line(sample_rate))
    } else if kind == "autowah"@ {
        PedalState::AutoWah(fresh(saturate(sample_rate * ONE)))
    } else if kind == "tuner"@ {
        PedalState::Tuner(silent_capture(sample_rate))
    } else {
        PedalState::Tremelo(at_rest())
    }
}

impl Pedal {
    /// Whether the pedal's state is one that its own operations lead to.
    pub open spec fn wf(&self) -> bool {
        match self {
            Pedal::Overdrive(p) => p.wf(),
            Pedal::Delay(p) => p.wf(),
            Pedal::AutoWah(p) => p.wf(),
            Pedal::Tuner(p) => p.wf(),
            Pedal::Tremelo(p) => p.wf(),
        }
    }

    /// A pedal of the named kind with the settings it starts with, or
    /// nothing where the word names no kind.
    pub fn create(kind: &str, sample_rate: usize, frame_size: u32) -> (r: Option<Pedal>)
        requires
            sample_rate > DEFAULT_DELAY,
        ensures
            r.is_some() == known_kind(kind@),
            r.is_some() ==> r.unwrap().wf() && r.unwrap()@ == fresh_pedal(
                kind@,
                sample_rate as int,
            ),
    {
        if same_text(kind, "overdrive") {
            Some(Pedal::Overdrive(Overdrive::new(sample_rate, frame_size)))
        } else if same_text(kind, "delay") {
            Some(Pedal::Delay(Delay::new(sample_rate, frame_size)))
        } else if same_text(kind, "autowah") {
            Some(Pedal::AutoWah(AutoWah::new(sample_rate, frame_size)))
        } else if same_text(kind, "tuner") {
            Some(Pedal::Tuner(Tuner::new(sample_rate, frame_size)))
        } else if same_text(kind, "tremelo") {
            Some(Pedal::Tremelo(Tremelo::new(sample_rate, frame_size)))
        } else {
            None
        }
    }

    /// The name of the pedal's kind.
    pub fn name(&self) -> (name: &'static str)
        ensures
            name@ == kind_name(self@),
    {
        match self {
            Pedal::Overdrive(p) => p.name(),
            Pedal::Delay(p) => p.name(),
            Pedal::AutoWah(p) => p.name(),
            Pedal::Tuner(p) => p.name(),
            Pedal::Tremelo(p) => p.name(),
        }
    }

    /// Turns one block of input into the two blocks of output.
    pub fn process_samples(
        &mut self,
        input: &[i64],
        output_l: &mut Vec<i64>,
        output_r: &mut Vec<i64>,
    )
        requires
            old(self).wf(),
            input@.len() == old(output_l)@.len(),
            input@.len() == old(output_r)@.len(),
        ensures
            final(self).wf(),
            final(self)@ == pedal_after(old(self)@, input@),
            final(output_l)@ == pedal_output(old(self)@, input@),
            final(output_r)@ == final(output_l)@,
    {
        match self {
            Pedal::Overdrive(p) => {
                p.process_samples(input, output_l, output_r);
            },
            Pedal::Delay(p) => {
                p.process_samples(input, output_l, output_r);
            },
            Pedal::AutoWah(p) => {
                p.process_samples(input, output_l, output_r);
            },
            Pedal::Tuner(p) => {
                p.process_samples(input, output_l, output_r);
            },
            Pedal::Tremelo(p) => {
                p.process_samples(input, output_l, output_r);
            },
        }
        proof {
            assert(output_l@ =~= pedal_output(old(self)@, input@));
        }
    }

    /// Presses the bypass switch.
    pub fn bypass(&mut self)
        requires
            old(self).wf(),
        ensures
            final(self).wf(),
            final(self)@ == pedal_toggled(old(self)@),
    {
        match self {
            Pedal::Overdrive(p) => p.bypass(),
            Pedal::Delay(p) => p.bypass(),
            Pedal::AutoWah(p) => p.bypass(),
            Pedal::Tuner(p) => p.bypass(),
            Pedal::Tremelo(p) => p.bypass(),
        }
    }

    /// Whether the pedal hands its input on unchanged.
    pub fn is_bypassing(&self) -> (b: bool)
        ensures
            b == state_bypassed(self@),
    {
        match self {
            Pedal::Overdrive(p) => p.is_bypassing(),
            Pedal::Delay(p) => p.is_bypassing(),
            Pedal::AutoWah(p) => p.is_bypassing(),
            Pedal::Tuner(p) => p.is_bypassing(),
            Pedal::Tremelo(p) => p.is_bypassing(),
        }
    }

    /// Hands a control message to the pedal. A setting that the pedal
    /// refuses leaves it as it was.
    pub fn ctrl(&mut self, msg: &CtrlMsg) -> (r: Result<(), ConfigError>)
        requires
            old(self).wf(),
        ensures
            final(self).wf(),
            final(self)@ == pedal_ctrl(old(self)@, msg@).0,
            r == pedal_ctrl(old(self)@, msg@).1,
    {
        match self {
            Pedal::Overdrive(p) => p.ctrl(msg),
            Pedal::Delay(p) => p.ctrl(msg),
            Pedal::AutoWah(p) => p.ctrl(msg),
            Pedal::Tuner(p) => p.ctrl(msg),
            Pedal::Tremelo(p) => p.ctrl(msg),
        }
    }
}

/// Why the chain refuses a control message.
#[derive(Debug, Clone, Copy, PartialEq, Eq)]
pub enum CtrlError {
    /// No pedal is registered under the name.
    UnknownPedal,
    /// The word names no kind of pedal.
    UnknownKind,
    /// No tuner is registered under the name `tuner`.
    NoTuner,
    /// The pedal refuses the setting.
    Config(ConfigError),
}

/// What the chain answers to a control message that it has applied.
#[derive(Debug)]
pub enum Reply {
    /// The message is applied.
    Done,
    /// The routing table, each node of `from` beside the node of `to`
    /// that it leads to, and the names of the registered pedals.
    Topology { from: Vec<String>, to: Vec<String>, pedals: Vec<String> },
    /// The tuner is there: the caller is to take the power spectrum of
    /// what it has kept and ask it for the pitch.
    Listen,
}

/// The chain.
pub struct Pedals {
    sample_rate: usize,
    frame_size: u32,
    bypassing: bool,
    names: Vec<String>,
    pedals: Vec<Pedal>,
    chain_from: Vec<String>,
    chain_to: Vec<String>,
    scratch: Vec<i64>,
}

/// The state of a chain: the bypass of the whole chain, the registered
/// pedals by name, the node that each node leads to, and the sample rate.
pub struct ChainState {
    pub bypassing: bool,
    pub pedals: Map<Seq<char>, PedalState>,
    pub routes: Map<Seq<char>, Seq<char>>,
    pub sample_rate: int,
}

/// The states of a row of pedals.
pub open spec fn pedal_views(pedals: Seq<Pedal>) -> Seq<PedalState> {
    Seq::new(pedals.len(), |i: int| pedals[i]@)
}

/// The node that the signal comes in at.
pub open spec fn node_in() -> Seq<char> {
    seq!['i', 'n']
}

/// The node that the signal leaves at.
pub open spec fn node_out() -> Seq<char> {
    seq!['o', 'u', 't']
}

/// The name under which the tuner is asked.
pub open spec fn tuner_name() -> Seq<char> {
    seq!['t', 'u', 'n', 'e', 'r']
}

/// The walk along the routing table from `node`, with `buffer` as the
/// signal so far: the pedals after the block, and the signal at the end.
/// The walk ends at `out`, at a name that no pedal has, behind a pedal that
/// no edge leaves, and after `fuel` pedals.
pub open spec fn walk(
    pedals: Map<Seq<char>, PedalState>,
    routes: Map<Seq<char>, Seq<char>>,
    node: Seq<char>,
    buffer: Seq<i64>,
    fuel: nat,
) -> (Map<Seq<char>, PedalState>, Seq<i64>)
    decreases fuel,
{
    if fuel == 0 || node == node_out() || !pedals.contains_key(node) {
        (pedals, buffer)
    } else {
        let out = pedal_output(pedals[node], buffer);
        let after = pedals.insert(node, pedal_after(pedals[node], buffer));
        if routes.contains_key(node) {
            walk(after, routes, routes[node], out, (fuel - 1) as nat)
        } else {
            (after, out)
        }
    }
}

/// How the walk of a block ended.
#[derive(Debug, Clone, Copy, PartialEq, Eq)]
pub enum WalkEnd {
    /// The chain is bypassed: no pedal was run.
    Bypassed,
    /// No edge leaves `in`: no pedal was run.
    Unrouted,
    /// The walk reached `out`.
    Out,
    /// The walk came to a name that no pedal has, and stopped in front of
    /// it.
    MissingPedal,
    /// The walk came to a pedal that no edge leaves, and stopped behind
    /// it.
    MissingEdge,
    /// The walk ran through as many pedals as the table has edges, and was
    /// cut off: the routing table leads round in a circle.
    CutOff,
}

/// How the walk from `node` ends, among pedals with the names `names`.
pub open spec fn walk_end(
    names: Set<Seq<char>>,
    routes: Map<Seq<char>, Seq<char>>,
    node: Seq<char>,
    fuel: nat,
) -> WalkEnd
    decreases fuel,
{
    if node == node_out() {
        WalkEnd::Out
    } else if !names.contains(node) {
        WalkEnd::MissingPedal
    } else if fuel == 0 {
        WalkEnd::CutOff
    } else if !routes.contains_key(node) {
        WalkEnd::MissingEdge
    } else {
        walk_end(names, routes, routes[node], (fuel - 1) as nat)
    }
}

/// How the walk of a block through a chain ends.
pub open spec fn chain_end(s: ChainState) -> WalkEnd {
    if s.bypassing {
        WalkEnd::Bypassed
    } else if !s.routes.contains_key(node_in()) {
        WalkEnd::Unrouted
    } else {
        walk_end(s.pedals.dom(), s.routes, s.routes[node_in()], s.routes.dom().len())
    }
}

/// What a block does to a chain: the pedals after it, and the output. A
/// bypassed chain, and one with no edge from `in`, hands the block on and
/// runs no pedal. Else the block walks from the node behind `in`, through
/// as many pedals as the table has edges at most.
pub open spec fn chain_run(s: ChainState, xs: Seq<i64>) -> (Map<Seq<char>, PedalState>, Seq<i64>) {
    if s.bypassing || !s.routes.contains_key(node_in()) {
        (s.pedals, xs)
    } else {
        walk(s.pedals, s.routes, s.routes[node_in()], xs, s.routes.dom().len())
    }
}

/// The output of a chain for a block.
pub open spec fn chain_output(s: ChainState, xs: Seq<i64>) -> Seq<i64> {
    chain_run(s, xs).1
}

/// The state of a chain after a block.
pub open spec fn chain_after(s: ChainState, xs: Seq<i64>) -> ChainState {
    ChainState { pedals: chain_run(s, xs).0, ..s }
}

/// Whether a tuner is registered under the name `tuner`.
pub open spec fn has_tuner(s: ChainState) -> bool {
    s.pedals.contains_key(tuner_name()) && s.pedals[tuner_name()] is Tuner
}

/// What a control message that is no batch does to a chain, and whether
/// the chain accepts it. A refused message changes nothing.
pub open spec fn apply_one(s: ChainState, c: Command) -> (ChainState, Result<(), CtrlError>) {
    match c {
        Command::Bypass => (ChainState { bypassing: !s.bypassing, ..s }, Ok(())),
        Command::BypassPedal(name) => if s.pedals.contains_key(name) {
            (ChainState { pedals: s.pedals.insert(name, pedal_toggled(s.pedals[name])), ..s }, Ok(()))
        } else {
            (s, Err(CtrlError::UnknownPedal))
        },
        Command::Tuner => if has_tuner(s) {
            (s, Ok(()))
        } else {
            (s, Err(CtrlError::NoTuner))
        },
        Command::Connect(from, to) => (ChainState { routes: s.routes.insert(from, to), ..s }, Ok(())),
        Command::Disconnect(from) => (ChainState { routes: s.routes.remove(from), ..s }, Ok(())),
        Command::Connections => (s, Ok(())),
        Command::Add(name, kind) => if known_kind(kind) {
            (
                ChainState {
                    pedals: s.pedals.insert(name, fresh_pedal(kind, s.sample_rate)),
                    ..s
                },
                Ok(()),
            )
        } else {
            (s, Err(CtrlError::UnknownKind))
        },
        Command::SetParam(name, _, _) => if s.pedals.contains_key(name) {
            let done = pedal_ctrl(s.pedals[name], c);
            (
                ChainState { pedals: s.pedals.insert(name, done.0), ..s },
                match done.1 {
                    Ok(_) => Ok(()),
                    Err(e) => Err(CtrlError::Config(e)),
                },
            )
        } else {
            (s, Err(CtrlError::UnknownPedal))
        },
        Command::Chain(_) => (s, Ok(())),
    }
}

/// What the first `n` messages of a batch `c` do to a chain: they are
/// applied in order up to the first that is refused, whose error is the
/// batch's; what was applied before it stays.
pub open spec fn apply_upto(s: ChainState, c: Command, n: nat) -> (ChainState, Result<(), CtrlError>)
    decreases c, n,
{
    match c {
        Command::Chain(list) => if n == 0 || n > list.len() {
            (s, Ok(()))
        } else {
            let before = apply_upto(s, c, (n - 1) as nat);
            if before.1.is_err() {
                before
            } else {
                let item = list[n - 1];
                match item {
                    Command::Chain(inner) => apply_upto(before.0, item, inner.len()),
                    _ => apply_one(before.0, item),
                }
            }
        },
        _ => apply_one(s, c),
    }
}

/// What a control message does to a chain, and whether the chain accepts
/// it.
pub open spec fn apply(s: ChainState, c: Command) -> (ChainState, Result<(), CtrlError>) {
    match c {
        Command::Chain(list) => apply_upto(s, c, list.len()),
        _ => apply_one(s, c),
    }
}

/// A batch that has met a refusal stays where it is.
pub proof fn lemma_apply_stops(s: ChainState, c: Command, n: nat, m: nat)
    requires
        c is Chain,
        n <= m <= c->Chain_0.len(),
        apply_upto(s, c, n).1.is_err(),
    ensures
        apply_upto(s, c, m) == apply_upto(s, c, n),
    decreases m,
{
    if m > n {
        lemma_apply_stops(s, c, n, (m - 1) as nat);
    }
}

/// A bypassed pedal hands every block on unchanged, whatever its kind.
pub proof fn lemma_bypassed_pedal_is_identity(s: PedalState, xs: Seq<i64>)
    requires
        state_bypassed(s),
    ensures
        pedal_output(s, xs) == xs,
{
}

/// A bypassed chain hands every block on unchanged and stays as it is.
pub proof fn lemma_bypassed_chain_is_identity(s: ChainState, xs: Seq<i64>)
    requires
        s.bypassing,
    ensures
        chain_output(s, xs) == xs,
        chain_after(s, xs) == s,
{
}

/// A chain that leads from `in` through one bypassed pedal to `out` hands
/// every block on unchanged, whatever the kind of the pedal.
pub proof fn lemma_chain_of_bypassed_pedal_is_identity(s: ChainState, name: Seq<char>, xs: Seq<i64>)
    requires
        s.routes.dom().finite(),
        s.routes.contains_key(node_in()),
        s.routes[node_in()] == name,
        s.routes.contains_key(name),
        s.routes[name] == node_out(),
        s.pedals.contains_key(name),
        state_bypassed(s.pedals[name]),
    ensures
        chain_output(s, xs) == xs,
        !s.bypassing ==> chain_end(s) == WalkEnd::Out,
{
    if !s.bypassing {
        let fuel = s.routes.dom().len();
        assert(s.routes.dom().contains(node_in()));
        assert(fuel > 0);
        if name != node_out() {
            assert(walk_end(s.pedals.dom(), s.routes, name, fuel) == walk_end(
                s.pedals.dom(),
                s.routes,
                node_out(),
                (fuel - 1) as nat,
            ));
            let after = s.pedals.insert(name, pedal_after(s.pedals[name], xs));
            assert(walk(s.pedals, s.routes, name, xs, fuel) == walk(
                after,
                s.routes,
                node_out(),
                xs,
                (fuel - 1) as nat,
            ));
        }
    }
}

/// A chain with no edge from `in` hands every block on unchanged.
pub proof fn lemma_unrouted_chain_is_identity(s: ChainState, xs: Seq<i64>)
    requires
        !s.routes.contains_key(node_in()),
    ensures
        chain_output(s, xs) == xs,
        chain_after(s, xs) == s,
{
}

/// The nodes at which the walk from `node` runs a pedal, in order.
pub open spec fn trail(
    names: Set<Seq<char>>,
    routes: Map<Seq<char>, Seq<char>>,
    node: Seq<char>,
    fuel: nat,
) -> Seq<Seq<char>>
    decreases fuel,
{
    if node == node_out() || !names.contains(node) || fuel == 0 {
        Seq::empty()
    } else if !routes.contains_key(node) {
        seq![node]
    } else {
        seq![node] + trail(names, routes, routes[node], (fuel - 1) as nat)
    }
}

/// A walk that is cut off has run a pedal for every unit of fuel, each at
/// a node that an edge leaves.
pub proof fn lemma_cut_off_trail(
    names: Set<Seq<char>>,
    routes: Map<Seq<char>, Seq<char>>,
    node: Seq<char>,
    fuel: nat,
)
    requires
        walk_end(names, routes, node, fuel) == WalkEnd::CutOff,
    ensures
        trail(names, routes, node, fuel).len() == fuel,
        forall|i: int|
            0 <= i < fuel ==> routes.contains_key(#[trigger] trail(names, routes, node, fuel)[i]),
    decreases fuel,
{
    if fuel > 0 {
        lemma_cut_off_trail(names, routes, routes[node], (fuel - 1) as nat);
        let rest = trail(names, routes, routes[node], (fuel - 1) as nat);
        let all = trail(names, routes, node, fuel);
        assert(all =~= seq![node] + rest);
        assert forall|i: int| 0 <= i < fuel implies routes.contains_key(#[trigger] all[i]) by {
            if i > 0 {
                assert(all[i] == rest[i - 1]);
            }
        }
    }
}

/// A walk that comes to no node twice, and not to `in`, is not cut off:
/// the table has edges enough for every pedal on the way.
pub proof fn lemma_straight_walk_is_whole(s: ChainState)
    requires
        s.routes.dom().finite(),
        !s.bypassing,
        s.routes.contains_key(node_in()),
        trail(s.pedals.dom(), s.routes, s.routes[node_in()], s.routes.dom().len()).no_duplicates(),
        !trail(s.pedals.dom(), s.routes, s.routes[node_in()], s.routes.dom().len()).contains(
            node_in(),
        ),
    ensures
        chain_end(s) != WalkEnd::CutOff,
{
    let fuel = s.routes.dom().len();
    let way = trail(s.pedals.dom(), s.routes, s.routes[node_in()], fuel);
    if chain_end(s) == WalkEnd::CutOff {
        lemma_cut_off_trail(s.pedals.dom(), s.routes, s.routes[node_in()], fuel);
        way.unique_seq_to_set();
        let rest = s.routes.dom().remove(node_in());
        assert(way.to_set().subset_of(rest)) by {
            assert forall|name: Seq<char>| way.to_set().contains(name) implies rest.contains(
                name,
            ) by {
                let i = choose|i: int| 0 <= i < way.len() && way[i] == name;
                assert(s.routes.contains_key(way[i]));
            }
        }
        vstd::set_lib::lemma_len_subset(way.to_set(), rest);
        assert(false);
    }
}

/// Whether a reply fits a message that was applied and the chain behind
/// it: the report of the routing table holds the table and the names of
/// the pedals; the tuner query is answered with the call to listen; every
/// other message with no more than that it is done.
pub open spec fn reply_fits(reply: Reply, c: Command, s: ChainState) -> bool {
    match c {
        Command::Connections => {
            &&& reply is Topology
            &&& reply->from.len() == reply->to.len()
            &&& distinct(views(reply->from@))
            &&& table(views(reply->from@), views(reply->to@)) == s.routes
            &&& distinct(views(reply->pedals@))
            &&& forall|name: Seq<char>|
                views(reply->pedals@).contains(name) <==> s.pedals.contains_key(name)
        },
        Command::Tuner => reply is Listen,
        _ => reply is Done,
    }
}

/// A copy of a row of names.
fn copy_names(names: &Vec<String>) -> (copy: Vec<String>)
    ensures
        views(copy@) == views(names@),
{
    let mut copy: Vec<String> = Vec::new();
    let mut i: usize = 0;
    while i < names.len()
        invariant
            i <= names.len(),
            copy.len() == i,
            forall|k: int| 0 <= k < i ==> copy@[k]@ == names@[k]@,
        decreases names.len() - i,
    {
        copy.push(names[i].clone());
        i += 1;
    }
    proof {
        assert(views(copy@) =~= views(names@));
    }
    copy
}

/// Makes `dst` a copy of `src`, in place where the lengths agree.
fn copy_block(dst: &mut Vec<i64>, src: &Vec<i64>)
    ensures
        final(dst)@ == src@,
{
    let n = src.len();
    if dst.len() != n {
        dst.clear();
        let mut i: usize = 0;
        while i < n
            invariant
                n == src@.len(),
                i <= n,
                dst@.len() == i,
                forall|k: int| 0 <= k < i ==> dst@[k] == src@[k],
            decreases n - i,
        {
            dst.push(src[i]);
            i += 1;
        }
    } else {
        let mut i: usize = 0;
        while i < n
            invariant
                n == src@.len(),
                dst@.len() == n,
                i <= n,
                forall|k: int| 0 <= k < i ==> dst@[k] == src@[k],
            decreases n - i,
        {
            dst[i] = src[i];
            i += 1;
        }
    }
    proof {
        assert(dst@ =~= src@);
    }
}

impl View for Pedals {
    type V = ChainState;

    closed spec fn view(&self) -> ChainState {
        ChainState {
            bypassing: self.bypassing,
            pedals: table(views(self.names@), pedal_views(self.pedals@)),
            routes: table(views(self.chain_from@), views(self.chain_to@)),
            sample_rate: self.sample_rate as int,
        }
    }
}

impl Pedals {
    /// Whether the chain's state is one that its own operations lead to.
    pub closed spec fn wf(&self) -> bool {
        &&& self.sample_rate > DEFAULT_DELAY
        &&& self.names.len() == self.pedals.len()
        &&& distinct(views(self.names@))
        &&& self.chain_from.len() == self.chain_to.len()
        &&& distinct(views(self.chain_from@))
        &&& forall|i: int| 0 <= i < self.pedals.len() ==> (#[trigger] self.pedals@[i]).wf()
    }

    /// A valid chain has finitely many pedals and edges.
    pub proof fn lemma_finite(&self)
        requires
            self.wf(),
        ensures
            self@.pedals.dom().finite(),
            self@.routes.dom().finite(),
    {
        lemma_table_len(views(self.names@), pedal_views(self.pedals@));
        lemma_table_len(views(self.chain_from@), views(self.chain_to@));
    }

    /// A chain without pedals and without edges, for a session at a sample
    /// rate and a block size. The sample rate must be one that every kind
    /// of pedal can run at.
    pub fn new(sample_rate: usize, frame_size: u32) -> (chain: Self)
        requires
            sample_rate > DEFAULT_DELAY,
        ensures
            chain.wf(),
            chain@ == (ChainState {
                bypassing: false,
                pedals: Map::empty(),
                routes: Map::empty(),
                sample_rate: sample_rate as int,
            }),
    {
        Pedals {
            sample_rate,
            frame_size,
            bypassing: false,
            names: Vec::new(),
            pedals: Vec::new(),
            chain_from: Vec::new(),
            chain_to: Vec::new(),
            scratch: Vec::new(),
        }
    }

    /// Registers a pedal under a name, in place of the pedal that had the
    /// name before.
    pub fn add(&mut self, name: &str, pedal: Pedal)
        requires
            old(self).wf(),
            pedal.wf(),
        ensures
            final(self).wf(),
            final(self)@ == (ChainState {
                pedals: old(self)@.pedals.insert(name@, pedal@),
                ..old(self)@
            }),
    {
        let ghost keys = views(self.names@);
        let ghost states = pedal_views(self.pedals@);
        let at = put(&mut self.names, &mut self.pedals, name, pedal);
        proof {
            if at < states.len() {
                assert(pedal_views(self.pedals@) =~= states.update(at as int, pedal@));
                lemma_table_update(keys, states, at as int, pedal@);
            } else {
                assert(pedal_views(self.pedals@) =~= states.push(pedal@));
                lemma_table_push(keys, states, name@, pedal@);
            }
        }
    }

    /// Routes the output of `from` into `to`, in place of the edge that
    /// left `from` before.
    pub fn connect(&mut self, from: &str, to: &str)
        requires
            old(self).wf(),
        ensures
            final(self).wf(),
            final(self)@ == (ChainState {
                routes: old(self)@.routes.insert(from@, to@),
                ..old(self)@
            }),
    {
        let ghost keys = views(self.chain_from@);
        let ghost targets = views(self.chain_to@);
        let at = put(&mut self.chain_from, &mut self.chain_to, from, to.to_owned());
        proof {
            if at < targets.len() {
                assert(views(self.chain_to@) =~= targets.update(at as int, to@));
                lemma_table_update(keys, targets, at as int, to@);
            } else {
                assert(views(self.chain_to@) =~= targets.push(to@));
                lemma_table_push(keys, targets, from@, to@);
            }
        }
    }

    /// Removes the edge that leaves `from`, if there is one.
    pub fn disconnect(&mut self, from: &str)
        requires
            old(self).wf(),
        ensures
            final(self).wf(),
            final(self)@ == (ChainState { routes: old(self)@.routes.remove(from@), ..old(self)@ }),
    {
        let ghost keys = views(self.chain_from@);
        let ghost targets = views(self.chain_to@);
        match position(&self.chain_from, from) {
            Some(i) => {
                self.chain_from.remove(i);
                self.chain_to.remove(i);
                proof {
                    assert(views(self.chain_from@) =~= keys.remove(i as int));
                    assert(views(self.chain_to@) =~= targets.remove(i as int));
                    lemma_table_remove(keys, targets, i as int);
                }
            },
            None => {
                proof {
                    lemma_table_absent(keys, targets, from@);
                    assert(self@.routes =~= self@.routes.remove(from@));
                }
            },
        }
    }

    /// Switches the bypass of the whole chain over.
    pub fn bypass(&mut self)
        requires
            old(self).wf(),
        ensures
            final(self).wf(),
            final(self)@ == (ChainState { bypassing: !old(self)@.bypassing, ..old(self)@ }),
    {
        self.bypassing = !self.bypassing;
    }

    /// Whether the whole chain is bypassed.
    pub fn is_bypassing(&self) -> (b: bool)
        ensures
            b == self@.bypassing,
    {
        self.bypassing
    }

    /// The tuner that is registered under the name `tuner`, if there is
    /// one.
    pub fn tuner(&self) -> (r: Option<&Tuner>)
        requires
            self.wf(),
        ensures
            r.is_some() == has_tuner(self@),
            r.is_some() ==> self@.pedals[tuner_name()] == PedalState::Tuner(r.unwrap()@),
    {
        proof {
            reveal_strlit("tuner");
            assert("tuner"@ =~= tuner_name());
        }
        let ghost keys = views(self.names@);
        let ghost states = pedal_views(self.pedals@);
        match position(&self.names, "tuner") {
            Some(i) => {
                proof {
                    lemma_table_at(keys, states, i as int);
                }
                match &self.pedals[i] {
                    Pedal::Tuner(t) => Some(t),
                    _ => None,
                }
            },
            None => {
                proof {
                    lemma_table_absent(keys, states, tuner_name());
                }
                None
            },
        }
    }
}

impl Pedals {
    /// Presses the bypass switch of the named pedal.
    pub fn bypass_pedal(&mut self, name: &str) -> (r: Result<(), CtrlError>)
        requires
            old(self).wf(),
        ensures
            final(self).wf(),
            final(self)@ == apply_one(old(self)@, Command::BypassPedal(name@)).0,
            r == apply_one(old(self)@, Command::BypassPedal(name@)).1,
    {
        let ghost keys = views(self.names@);
        let ghost states = pedal_views(self.pedals@);
        match position(&self.names, name) {
            Some(i) => {
                self.pedals[i].bypass();
                proof {
                    lemma_table_at(keys, states, i as int);
                    assert(pedal_views(self.pedals@) =~= states.update(
                        i as int,
                        pedal_toggled(states[i as int]),
                    ));
                    lemma_table_update(keys, states, i as int, pedal_toggled(states[i as int]));
                }
                Ok(())
            },
            None => {
                proof {
                    lemma_table_absent(keys, states, name@);
                }
                Err(CtrlError::UnknownPedal)
            },
        }
    }

    /// Registers a new pedal of the named kind under a name.
    pub fn add_kind(&mut self, name: &str, kind: &str) -> (r: Result<(), CtrlError>)
        requires
            old(self).wf(),
        ensures
            final(self).wf(),
            final(self)@ == apply_one(old(self)@, Command::Add(name@, kind@)).0,
            r == apply_one(old(self)@, Command::Add(name@, kind@)).1,
    {
        match Pedal::create(kind, self.sample_rate, self.frame_size) {
            Some(pedal) => {
                self.add(name, pedal);
                Ok(())
            },
            None => Err(CtrlError::UnknownKind),
        }
    }

    /// Hands a setting to the pedal that it names.
    fn set_param(&mut self, msg: &CtrlMsg) -> (r: Result<(), CtrlError>)
        requires
            old(self).wf(),
            msg@ is SetParam,
        ensures
            final(self).wf(),
            final(self)@ == apply_one(old(self)@, msg@).0,
            r == apply_one(old(self)@, msg@).1,
    {
        let ghost keys = views(self.names@);
        let ghost states = pedal_views(self.pedals@);
        match msg {
            CtrlMsg::SetParam(name, _, _) => {
                match position(&self.names, name.as_str()) {
                    Some(i) => {
                        let done = self.pedals[i].ctrl(msg);
                        proof {
                            lemma_table_at(keys, states, i as int);
                            let after = pedal_ctrl(states[i as int], msg@).0;
                            assert(pedal_views(self.pedals@) =~= states.update(i as int, after));
                            lemma_table_update(keys, states, i as int, after);
                        }
                        match done {
                            Ok(_) => Ok(()),
                            Err(e) => Err(CtrlError::Config(e)),
                        }
                    },
                    None => {
                        proof {
                            lemma_table_absent(keys, states, name@);
                        }
                        Err(CtrlError::UnknownPedal)
                    },
                }
            },
            _ => Ok(()),
        }
    }

    /// The report of the routing table and of the registered pedals.
    pub fn connections(&self) -> (reply: Reply)
        requires
            self.wf(),
        ensures
            reply_fits(reply, Command::Connections, self@),
    {
        let from = copy_names(&self.chain_from);
        let to = copy_names(&self.chain_to);
        let pedals = copy_names(&self.names);
        proof {
            let keys = views(self.names@);
            let states = pedal_views(self.pedals@);
            assert forall|name: Seq<char>|
                views(pedals@).contains(name) <==> self@.pedals.contains_key(name) by {
                if views(pedals@).contains(name) {
                    let i = choose|i: int| 0 <= i < keys.len() && keys[i] == name;
                    lemma_table_at(keys, states, i);
                }
                if self@.pedals.contains_key(name) {
                    crate::table::lemma_table_has(keys, states, name);
                }
            }
        }
        Reply::Topology { from, to, pedals }
    }

    /// Applies a control message that is no batch.
    fn ctrl_one(&mut self, msg: &CtrlMsg) -> (r: Result<Reply, CtrlError>)
        requires
            old(self).wf(),
            !(msg@ is Chain),
        ensures
            final(self).wf(),
            final(self)@ == apply_one(old(self)@, msg@).0,
            match r {
                Ok(reply) => apply_one(old(self)@, msg@).1 == Ok::<(), CtrlError>(()) && reply_fits(
                    reply,
                    msg@,
                    final(self)@,
                ),
                Err(e) => apply_one(old(self)@, msg@).1 == Err::<(), CtrlError>(e),
            },
    {
        match msg {
            CtrlMsg::Bypass => {
                self.bypass();
                Ok(Reply::Done)
            },
            CtrlMsg::BypassPedal(name) => {
                match self.bypass_pedal(name.as_str()) {
                    Ok(_) => Ok(Reply::Done),
                    Err(e) => Err(e),
                }
            },
            CtrlMsg::Tuner => {
                match self.tuner() {
                    Some(_) => Ok(Reply::Listen),
                    None => Err(CtrlError::NoTuner),
                }
            },
            CtrlMsg::Connect(from, to) => {
                self.connect(from.as_str(), to.as_str());
                Ok(Reply::Done)
            },
            CtrlMsg::Disconnect(from) => {
                self.disconnect(from.as_str());
                Ok(Reply::Done)
            },
            CtrlMsg::Connections => Ok(self.connections()),
            CtrlMsg::Add(name, kind) => {
                match self.add_kind(name.as_str(), kind.as_str()) {
                    Ok(_) => Ok(Reply::Done),
                    Err(e) => Err(e),
                }
            },
            CtrlMsg::SetParam(_, _, _) => {
                match self.set_param(msg) {
                    Ok(_) => Ok(Reply::Done),
                    Err(e) => Err(e),
                }
            },
            CtrlMsg::Chain(_) => Ok(Reply::Done),
        }
    }

    /// Applies a control message. The messages of a batch are applied in
    /// order up to the first that is refused; what was applied before it
    /// stays, and the replies of its messages are dropped.
    pub fn ctrl(&mut self, msg: &CtrlMsg) -> (r: Result<Reply, CtrlError>)
        requires
            old(self).wf(),
        ensures
            final(self).wf(),
            final(self)@ == apply(old(self)@, msg@).0,
            match r {
                Ok(reply) => apply(old(self)@, msg@).1 == Ok::<(), CtrlError>(()) && reply_fits(
                    reply,
                    msg@,
                    final(self)@,
                ),
                Err(e) => apply(old(self)@, msg@).1 == Err::<(), CtrlError>(e),
            },
        decreases msg,
    {
        match msg {
            CtrlMsg::Chain(list) => {
                let ghost start = self@;
                let ghost batch = msg@;
                let n = list.len();
                let mut i: usize = 0;
                while i < n
                    invariant
                        self.wf(),
                        n == list.len(),
                        i <= n,
                        start == old(self)@,
                        *msg == CtrlMsg::Chain(*list),
                        batch == msg@,
                        batch is Chain,
                        batch->Chain_0.len() == n,
                        forall|k: int| 0 <= k < n ==> batch->Chain_0[k] == (#[trigger] list@[k])@,
                        apply_upto(start, batch, i as nat) == (self@, Ok::<(), CtrlError>(())),
                    decreases n - i,
                {
                    let ghost before = self@;
                    let done = self.ctrl(&list[i]);
                    proof {
                        let item = list@[i as int]@;
                        assert(batch->Chain_0[i as int] == item);
                        assert(apply_upto(start, batch, (i + 1) as nat) == apply(before, item));
                    }
                    match done {
                        Ok(_) => {},
                        Err(e) => {
                            proof {
                                lemma_apply_stops(start, batch, (i + 1) as nat, n as nat);
                            }
                            return Err(e);
                        },
                    }
                    i += 1;
                }
                Ok(Reply::Done)
            },
            _ => self.ctrl_one(msg),
        }
    }

    /// Runs one block through the chain, and says how its walk ended.
    ///
    /// A bypassed chain, and one with no edge from `in`, copies the block
    /// into both outputs. Else the block walks along the routing table
    /// from the node behind `in`: each pedal on the way turns what the one
    /// before it made into its own output. The walk ends at `out`, or
    /// where a name has no pedal or a pedal no edge, or after as many
    /// pedals as the table has edges; what has been made up to there goes
    /// into both outputs.
    pub fn process_samples(
        &mut self,
        input: &[i64],
        output_l: &mut Vec<i64>,
        output_r: &mut Vec<i64>,
    ) -> (end: WalkEnd)
        requires
            old(self).wf(),
            input@.len() == old(output_l)@.len(),
            input@.len() == old(output_r)@.len(),
        ensures
            final(self).wf(),
            final(self)@ == chain_after(old(self)@, input@),
            final(output_l)@ == chain_output(old(self)@, input@),
            final(output_r)@ == final(output_l)@,
            end == chain_end(old(self)@),
    {
        proof {
            reveal_strlit("in");
            assert("in"@ =~= node_in());
            lemma_table_len(views(self.chain_from@), views(self.chain_to@));
        }
        pass_through(input, output_l, output_r);
        if self.bypassing {
            return WalkEnd::Bypassed;
        }
        let ghost from = views(self.chain_from@);
        let ghost to = views(self.chain_to@);
        let mut cur: usize = match position(&self.chain_from, "in") {
            Some(r) => r,
            None => {
                proof {
                    lemma_table_absent(from, to, node_in());
                }
                return WalkEnd::Unrouted;
            },
        };
        proof {
            lemma_table_at(from, to, cur as int);
        }
        let mut fuel: usize = self.chain_from.len();
        let ghost goal = chain_run(old(self)@, input@);
        let ghost goal_end = chain_end(old(self)@);
        let mut end: Option<WalkEnd> = None;
        while end.is_none()
            invariant
                self.wf(),
                self@.bypassing == old(self)@.bypassing,
                self@.sample_rate == old(self)@.sample_rate,
                self@.routes == old(self)@.routes,
                self@.pedals.dom() == old(self)@.pedals.dom(),
                self.chain_to@ == old(self).chain_to@,
                cur < self.chain_to.len(),
                output_l@.len() == input@.len(),
                output_r@ == output_l@,
                end.is_none() ==> walk(
                    self@.pedals,
                    self@.routes,
                    self.chain_to@[cur as int]@,
                    output_l@,
                    fuel as nat,
                ) == goal,
                end.is_none() ==> walk_end(
                    self@.pedals.dom(),
                    self@.routes,
                    self.chain_to@[cur as int]@,
                    fuel as nat,
                ) == goal_end,
                end.is_some() ==> (self@.pedals, output_l@) == goal,
                end.is_some() ==> end.unwrap() == goal_end,
            decreases fuel + (if end.is_none() { 1int } else { 0int }),
        {
            match self.run_pedal(cur, fuel, output_l, output_r) {
                Ok(next) => {
                    cur = next;
                    fuel = fuel - 1;
                },
                Err(e) => {
                    end = Some(e);
                },
            }
        }
        end.unwrap()
    }

    /// Runs the pedal at the node that the edge at place `cur` of the
    /// routing table leads to, and finds the edge that leaves it: one step
    /// of the walk. Where the walk ends at this node, says how.
    fn run_pedal(
        &mut self,
        cur: usize,
        fuel: usize,
        output_l: &mut Vec<i64>,
        output_r: &mut Vec<i64>,
    ) -> (next: Result<usize, WalkEnd>)
        requires
            old(self).wf(),
            cur < old(self).chain_to.len(),
            old(output_r)@ == old(output_l)@,
        ensures
            final(self).wf(),
            final(self)@.bypassing == old(self)@.bypassing,
            final(self)@.sample_rate == old(self)@.sample_rate,
            final(self)@.routes == old(self)@.routes,
            final(self)@.pedals.dom() == old(self)@.pedals.dom(),
            final(self).chain_to@ == old(self).chain_to@,
            final(output_l)@.len() == old(output_l)@.len(),
            final(output_r)@ == final(output_l)@,
            match next {
                Ok(r) => {
                    &&& fuel > 0
                    &&& r < old(self).chain_to.len()
                    &&& walk(
                        old(self)@.pedals,
                        old(self)@.routes,
                        old(self).chain_to@[cur as int]@,
                        old(output_l)@,
                        fuel as nat,
                    ) == walk(
                        final(self)@.pedals,
                        old(self)@.routes,
                        old(self).chain_to@[r as int]@,
                        final(output_l)@,
                        (fuel - 1) as nat,
                    )
                    &&& walk_end(
                        old(self)@.pedals.dom(),
                        old(self)@.routes,
                        old(self).chain_to@[cur as int]@,
                        fuel as nat,
                    ) == walk_end(
                        old(self)@.pedals.dom(),
                        old(self)@.routes,
                        old(self).chain_to@[r as int]@,
                        (fuel - 1) as nat,
                    )
                },
                Err(end) => {
                    &&& walk(
                        old(self)@.pedals,
                        old(self)@.routes,
                        old(self).chain_to@[cur as int]@,
                        old(output_l)@,
                        fuel as nat,
                    ) == (final(self)@.pedals, final(output_l)@)
                    &&& walk_end(
                        old(self)@.pedals.dom(),
                        old(self)@.routes,
                        old(self).chain_to@[cur as int]@,
                        fuel as nat,
                    ) == end
                },
            },
    {
        proof {
            reveal_strlit("out");
            assert("out"@ =~= node_out());
        }
        let ghost keys = views(self.names@);
        let ghost states = pedal_views(self.pedals@);
        let ghost from = views(self.chain_from@);
        let ghost to = views(self.chain_to@);
        let ghost node = to[cur as int];
        let ghost buffer = output_l@;
        if same_text(self.chain_to[cur].as_str(), "out") {
            return Err(WalkEnd::Out);
        }
        let p = match position(&self.names, self.chain_to[cur].as_str()) {
            Some(p) => p,
            None => {
                proof {
                    lemma_table_absent(keys, states, node);
                }
                return Err(WalkEnd::MissingPedal);
            },
        };
        proof {
            lemma_table_at(keys, states, p as int);
        }
        if fuel == 0 {
            return Err(WalkEnd::CutOff);
        }
        copy_block(&mut self.scratch, output_l);
        self.pedals[p].process_samples(self.scratch.as_slice(), output_l, output_r);
        proof {
            let after = pedal_after(states[p as int], buffer);
            assert(pedal_views(self.pedals@) =~= states.update(p as int, after));
            lemma_table_update(keys, states, p as int, after);
            assert(self@.pedals == table(keys, states).insert(node, after));
            assert(self@.pedals.dom() =~= table(keys, states).dom());
        }
        match position(&self.chain_from, self.chain_to[cur].as_str()) {
            Some(next) => {
                proof {
                    lemma_table_at(from, to, next as int);
                }
                Ok(next)
            },
            None => {
                proof {
                    lemma_table_absent(from, to, node);
                }
                Err(WalkEnd::MissingEdge)
            },
        }
    }
}

} // verus!
