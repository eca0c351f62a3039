use rasta::effects::delay::Delay;
use rasta::effects::overdrive::{clip_sample, Overdrive};
use rasta::effects::pedals::{CtrlError, Pedal, Reply, WalkEnd};
use rasta::effects::tremelo::Tremelo;
use rasta::effects::tuner::Tuner;
use rasta::effects::autowah::AutoWah;
use rasta::effects::{ConfigError, CtrlMsg, Effect, Pedals};
use rasta::fixed::{MIN, ONE};
use rasta::parser::parse_input;

fn s(text: &str) -> String {
    text.to_string()
}

fn run(chain: &mut Pedals, input: &[i64]) -> Vec<i64> {
    run_to_end(chain, input).0
}

fn run_to_end(chain: &mut Pedals, input: &[i64]) -> (Vec<i64>, WalkEnd) {
    let mut left = vec![0; input.len()];
    let mut right = vec![0; input.len()];
    let end = chain.process_samples(input, &mut left, &mut right);
    assert_eq!(left, right);
    (left, end)
}

fn say(chain: &mut Pedals, line: &str) -> Result<Reply, CtrlError> {
    chain.ctrl(&parse_input(line).unwrap())
}

fn signal() -> Vec<i64> {
    vec![0, ONE / 4, -ONE / 2, ONE, -3 * ONE, 12345, MIN, ONE / 3]
}

fn all_kinds(rate: usize, frame: u32) -> Vec<Pedal> {
    vec![
        Pedal::Overdrive(Overdrive::new(rate, frame)),
        Pedal::Delay(Delay::new(rate, frame)),
        Pedal::AutoWah(AutoWah::new(rate, frame)),
        Pedal::Tuner(Tuner::new(rate, frame)),
        Pedal::Tremelo(Tremelo::new(rate, frame)),
    ]
}

#[test]
fn empty_chain_hands_the_block_on() {
    let mut chain = Pedals::new(48000, 8);
    assert!(!chain.is_bypassing());
    assert_eq!(run(&mut chain, &signal()), signal());
    say(&mut chain, "c in out").unwrap();
    assert_eq!(run(&mut chain, &signal()), signal());
}

#[test]
fn bypassed_chain_hands_the_block_on() {
    let mut chain = Pedals::new(48000, 8);
    say(&mut chain, "a od overdrive").unwrap();
    say(&mut chain, "c in od out").unwrap();
    assert_ne!(run(&mut chain, &signal()), signal());
    say(&mut chain, "b").unwrap();
    assert!(chain.is_bypassing());
    assert_eq!(run(&mut chain, &signal()), signal());
    say(&mut chain, "nonsense").unwrap();
    assert!(!chain.is_bypassing());
    assert_ne!(run(&mut chain, &signal()), signal());
}

#[test]
fn one_bypassed_pedal_of_any_kind_hands_the_block_on() {
    for mut pedal in all_kinds(48000, 8) {
        if !pedal.is_bypassing() {
            pedal.bypass();
        }
        assert!(pedal.is_bypassing());
        let mut chain = Pedals::new(48000, 8);
        chain.add("x", pedal);
        chain.connect("in", "x");
        chain.connect("x", "out");
        for _ in 0..3 {
            assert_eq!(run(&mut chain, &signal()), signal());
        }
    }
}

#[test]
fn every_bypassed_pedal_hands_the_block_on() {
    for mut pedal in all_kinds(48000, 8) {
        if !pedal.is_bypassing() {
            pedal.bypass();
        }
        let mut left = vec![0; 8];
        let mut right = vec![0; 8];
        pedal.process_samples(&signal(), &mut left, &mut right);
        assert_eq!(left, signal());
        assert_eq!(right, signal());
    }
}

#[test]
fn pedal_kinds_by_name() {
    for kind in ["overdrive", "delay", "autowah", "tuner", "tremelo"] {
        let pedal = Pedal::create(kind, 48000, 8).unwrap();
        assert_eq!(pedal.name(), kind);
        assert_eq!(pedal.is_bypassing(), kind == "tuner");
    }
    assert!(Pedal::create("fuzz", 48000, 8).is_none());
    assert!(Pedal::create("", 48000, 8).is_none());
    assert!(Pedal::create("Delay", 48000, 8).is_none());
}

#[test]
fn chain_runs_its_pedals_in_order() {
    let mut chain = Pedals::new(48000, 8);
    say(&mut chain, "a od overdrive").unwrap();
    say(&mut chain, "a trem tremelo").unwrap();
    say(&mut chain, "s trem mix 1").unwrap();
    say(&mut chain, "c in od trem out").unwrap();
    // The tremolo is at rest during the first block: silence.
    assert_eq!(run(&mut chain, &signal()), vec![0; 8]);
    // In the second it lets a fiftieth of the clipped signal through.
    let expected: Vec<i64> = signal()
        .iter()
        .map(|&x| ((85899345i128 * clip_sample(x) as i128) >> 32) as i64)
        .collect();
    assert_eq!(run(&mut chain, &signal()), expected);

    // The other way round the tremolo comes first.
    let mut chain = Pedals::new(48000, 8);
    say(&mut chain, "a od overdrive").unwrap();
    say(&mut chain, "a trem tremelo").unwrap();
    say(&mut chain, "s trem mix 1").unwrap();
    say(&mut chain, "c in trem od out").unwrap();
    run(&mut chain, &signal());
    let expected: Vec<i64> = signal()
        .iter()
        .map(|&x| clip_sample(((85899345i128 * x as i128) >> 32) as i64))
        .collect();
    assert_eq!(run(&mut chain, &signal()), expected);
}

#[test]
fn walk_stops_at_a_missing_pedal() {
    let mut chain = Pedals::new(48000, 8);
    say(&mut chain, "a od overdrive").unwrap();
    say(&mut chain, "c in od ghost out").unwrap();
    let clipped: Vec<i64> = signal().iter().map(|&x| clip_sample(x)).collect();
    assert_eq!(run(&mut chain, &signal()), clipped);
    say(&mut chain, "c in ghost od out").unwrap();
    assert_eq!(run(&mut chain, &signal()), signal());
}

#[test]
fn walk_stops_at_a_missing_edge() {
    let mut chain = Pedals::new(48000, 8);
    say(&mut chain, "a od overdrive").unwrap();
    say(&mut chain, "a trem tremelo").unwrap();
    say(&mut chain, "c in od trem out").unwrap();
    say(&mut chain, "d od").unwrap();
    let clipped: Vec<i64> = signal().iter().map(|&x| clip_sample(x)).collect();
    assert_eq!(run(&mut chain, &signal()), clipped);
    say(&mut chain, "d in").unwrap();
    assert_eq!(run(&mut chain, &signal()), signal());
}

#[test]
fn walk_round_a_loop_ends() {
    let mut chain = Pedals::new(48000, 8);
    say(&mut chain, "a od overdrive").unwrap();
    say(&mut chain, "c in od od").unwrap();
    // Two edges: the overdrive is run twice, then the walk is cut off.
    let twice: Vec<i64> = signal().iter().map(|&x| clip_sample(clip_sample(x))).collect();
    assert_eq!(run(&mut chain, &signal()), twice);
}

#[test]
fn connect_replaces_the_edge() {
    let mut chain = Pedals::new(48000, 8);
    say(&mut chain, "a od overdrive").unwrap();
    say(&mut chain, "c in od out").unwrap();
    say(&mut chain, "c in out").unwrap();
    assert_eq!(run(&mut chain, &signal()), signal());
    match say(&mut chain, "p").unwrap() {
        Reply::Topology { from, to, pedals } => {
            assert_eq!(from, vec![s("in"), s("od")]);
            assert_eq!(to, vec![s("out"), s("out")]);
            assert_eq!(pedals, vec![s("od")]);
        }
        other => panic!("{:?}", other),
    }
}

#[test]
fn report_of_an_empty_chain() {
    let mut chain = Pedals::new(48000, 8);
    match chain.ctrl(&CtrlMsg::Connections).unwrap() {
        Reply::Topology { from, to, pedals } => {
            assert!(from.is_empty() && to.is_empty() && pedals.is_empty());
        }
        other => panic!("{:?}", other),
    }
}

#[test]
fn add_replaces_the_pedal() {
    let mut chain = Pedals::new(48000, 8);
    say(&mut chain, "a x overdrive").unwrap();
    say(&mut chain, "c in x out").unwrap();
    assert_ne!(run(&mut chain, &signal()), signal());
    say(&mut chain, "a x tuner").unwrap();
    assert_eq!(run(&mut chain, &signal()), signal());
    match say(&mut chain, "p").unwrap() {
        Reply::Topology { pedals, .. } => assert_eq!(pedals, vec![s("x")]),
        other => panic!("{:?}", other),
    }
}

#[test]
fn unknown_kind_is_refused() {
    let mut chain = Pedals::new(48000, 8);
    assert!(matches!(say(&mut chain, "a x fuzz"), Err(CtrlError::UnknownKind)));
    assert_eq!(chain.add_kind("x", "fuzz"), Err(CtrlError::UnknownKind));
    match say(&mut chain, "p").unwrap() {
        Reply::Topology { pedals, .. } => assert!(pedals.is_empty()),
        other => panic!("{:?}", other),
    }
    assert_eq!(chain.add_kind("x", "delay"), Ok(()));
}

#[test]
fn unknown_pedal_is_refused() {
    let mut chain = Pedals::new(48000, 8);
    assert!(matches!(say(&mut chain, "b nobody"), Err(CtrlError::UnknownPedal)));
    assert!(matches!(say(&mut chain, "s nobody mix 1"), Err(CtrlError::UnknownPedal)));
    assert_eq!(chain.bypass_pedal("nobody"), Err(CtrlError::UnknownPedal));
}

#[test]
fn pedal_bypass_by_message() {
    let mut chain = Pedals::new(48000, 8);
    say(&mut chain, "a od overdrive").unwrap();
    say(&mut chain, "c in od out").unwrap();
    assert!(matches!(say(&mut chain, "b od"), Ok(Reply::Done)));
    assert_eq!(run(&mut chain, &signal()), signal());
    assert_eq!(chain.bypass_pedal("od"), Ok(()));
    assert_ne!(run(&mut chain, &signal()), signal());
}

#[test]
fn settings_reach_the_pedal() {
    let mut chain = Pedals::new(48000, 8);
    say(&mut chain, "a echo delay").unwrap();
    assert!(matches!(say(&mut chain, "s echo feedback 0.5"), Ok(Reply::Done)));
    assert!(matches!(
        say(&mut chain, "s echo feedback 1"),
        Err(CtrlError::Config(ConfigError::FeedbackTooLarge))
    ));
    assert!(matches!(
        say(&mut chain, "s echo delay 1.5"),
        Err(CtrlError::Config(ConfigError::DelayTooLong))
    ));
    assert!(matches!(say(&mut chain, "s echo unheard 1"), Ok(Reply::Done)));
    say(&mut chain, "a trem tremelo").unwrap();
    assert!(matches!(
        say(&mut chain, "s trem limit 0"),
        Err(CtrlError::Config(ConfigError::LimitTooSmall))
    ));
    // A delay of one sample with a feedback of one half.
    say(&mut chain, "s echo delay 0.00003").unwrap();
    say(&mut chain, "c in echo out").unwrap();
    let out = run(&mut chain, &[ONE, 0, 0]);
    let cos = rasta::approx::cosine;
    assert_eq!(out, vec![cos(ONE + ONE / 2), cos(ONE / 2 + ONE / 2), cos(ONE / 4 + ONE / 2)]);
}

#[test]
fn batch_stops_at_the_first_refusal() {
    let mut chain = Pedals::new(48000, 8);
    say(&mut chain, "a a overdrive").unwrap();
    say(&mut chain, "a c overdrive").unwrap();
    say(&mut chain, "c in a c out").unwrap();
    // `a` is bypassed, `b` is unknown, `c` is not reached.
    assert!(matches!(say(&mut chain, "b a b c"), Err(CtrlError::UnknownPedal)));
    let clipped: Vec<i64> = signal().iter().map(|&x| clip_sample(x)).collect();
    assert_eq!(run(&mut chain, &signal()), clipped);
    assert!(matches!(say(&mut chain, "b a c"), Ok(Reply::Done)));
    let twice: Vec<i64> = signal().iter().map(|&x| clip_sample(clip_sample(x))).collect();
    assert_eq!(run(&mut chain, &signal()), signal().iter().map(|&x| clip_sample(x)).collect::<Vec<_>>());
    assert!(matches!(say(&mut chain, "b c"), Ok(Reply::Done)));
    assert_eq!(run(&mut chain, &signal()), twice);
}

#[test]
fn batch_in_a_batch() {
    let mut chain = Pedals::new(48000, 8);
    let msg = CtrlMsg::Chain(vec![
        CtrlMsg::Add(s("od"), s("overdrive")),
        CtrlMsg::Chain(vec![
            CtrlMsg::Connect(s("in"), s("od")),
            CtrlMsg::Chain(vec![]),
            CtrlMsg::Connect(s("od"), s("out")),
        ]),
        CtrlMsg::Connections,
        CtrlMsg::Bypass,
    ]);
    assert!(matches!(chain.ctrl(&msg), Ok(Reply::Done)));
    assert!(chain.is_bypassing());
    chain.bypass();
    let clipped: Vec<i64> = signal().iter().map(|&x| clip_sample(x)).collect();
    assert_eq!(run(&mut chain, &signal()), clipped);
}

#[test]
fn tuner_query() {
    let mut chain = Pedals::new(48000, 8);
    assert!(matches!(say(&mut chain, "t"), Err(CtrlError::NoTuner)));
    assert!(chain.tuner().is_none());
    say(&mut chain, "a tuner overdrive").unwrap();
    assert!(matches!(say(&mut chain, "t"), Err(CtrlError::NoTuner)));
    say(&mut chain, "a tuner tuner").unwrap();
    assert!(matches!(say(&mut chain, "t"), Ok(Reply::Listen)));
    say(&mut chain, "c in tuner out").unwrap();
    assert_eq!(run(&mut chain, &signal()), signal());
    let tuner = chain.tuner().unwrap();
    assert_eq!(&tuner.capture()[..8], &signal()[..]);
    assert_eq!(tuner.cursor(), 8);
    let mut power = vec![0; 64];
    power[3] = 2 * ONE;
    assert_eq!(tuner.tune(&power), Some(2250 * ONE));
}

#[test]
fn bypassed_chain_runs_no_pedal() {
    let mut chain = Pedals::new(48000, 8);
    say(&mut chain, "a tuner tuner").unwrap();
    say(&mut chain, "c in tuner out").unwrap();
    say(&mut chain, "b").unwrap();
    run(&mut chain, &signal());
    assert_eq!(chain.tuner().unwrap().cursor(), 0);
}

#[test]
fn block_sizes_may_change() {
    let mut chain = Pedals::new(48000, 8);
    say(&mut chain, "a od overdrive").unwrap();
    say(&mut chain, "c in od out").unwrap();
    for n in [8usize, 3, 0, 20, 8] {
        let input: Vec<i64> = (0..n).map(|i| i as i64 * (ONE / 16)).collect();
        let expected: Vec<i64> = input.iter().map(|&x| clip_sample(x)).collect();
        assert_eq!(run(&mut chain, &input), expected);
    }
}

#[test]
fn walk_says_how_it_ended() {
    let mut chain = Pedals::new(48000, 8);
    assert_eq!(run_to_end(&mut chain, &signal()).1, WalkEnd::Unrouted);
    say(&mut chain, "c in out").unwrap();
    assert_eq!(run_to_end(&mut chain, &signal()).1, WalkEnd::Out);
    say(&mut chain, "a od overdrive").unwrap();
    say(&mut chain, "a trem tremelo").unwrap();
    say(&mut chain, "c in od trem out").unwrap();
    assert_eq!(run_to_end(&mut chain, &signal()).1, WalkEnd::Out);
    say(&mut chain, "d trem").unwrap();
    assert_eq!(run_to_end(&mut chain, &signal()).1, WalkEnd::MissingEdge);
    say(&mut chain, "c trem ghost out").unwrap();
    assert_eq!(run_to_end(&mut chain, &signal()).1, WalkEnd::MissingPedal);
    say(&mut chain, "c trem od").unwrap();
    assert_eq!(run_to_end(&mut chain, &signal()).1, WalkEnd::CutOff);
    say(&mut chain, "b").unwrap();
    assert_eq!(run_to_end(&mut chain, &signal()).1, WalkEnd::Bypassed);
}

#[test]
fn longest_straight_walk_is_whole() {
    // Five pedals in a row need all six edges of the table.
    let mut chain = Pedals::new(48000, 8);
    for name in ["a", "b", "c", "d", "e"] {
        chain.add_kind(name, "overdrive").unwrap();
    }
    say(&mut chain, "c in a b c d e out").unwrap();
    let (out, end) = run_to_end(&mut chain, &signal());
    assert_eq!(end, WalkEnd::Out);
    let expected: Vec<i64> = signal()
        .iter()
        .map(|&x| clip_sample(clip_sample(clip_sample(clip_sample(clip_sample(x))))))
        .collect();
    assert_eq!(out, expected);
}
