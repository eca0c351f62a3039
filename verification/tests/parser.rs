use rasta::effects::CtrlMsg;
use rasta::fixed::{MAX, MIN, ONE};
use rasta::parser::{parse_input, parse_number, split_words, ParseError};

fn s(text: &str) -> String {
    text.to_string()
}

#[test]
fn line_splits_at_every_space() {
    assert_eq!(split_words("c in delay out"), vec![s("c"), s("in"), s("delay"), s("out")]);
    assert_eq!(split_words(""), vec![s("")]);
    assert_eq!(split_words("b"), vec![s("b")]);
    assert_eq!(split_words("b  x "), vec![s("b"), s(""), s("x"), s("")]);
    assert_eq!(split_words(" "), vec![s(""), s("")]);
}

#[test]
fn numbers_are_read_into_fixed_point() {
    assert_eq!(parse_number("0.3"), Some(1288490188));
    assert_eq!(parse_number("-1.5"), Some(-6442450944));
    assert_eq!(parse_number("50"), Some(50 * ONE));
    assert_eq!(parse_number("0.1837"), Some(788985492));
    assert_eq!(parse_number(".5"), Some(ONE / 2));
    assert_eq!(parse_number("5."), Some(5 * ONE));
    assert_eq!(parse_number("+2.25"), Some(9663676416));
    assert_eq!(parse_number("0.8"), Some(3435973836));
    assert_eq!(parse_number("-0"), Some(0));
}

#[test]
fn numbers_saturate() {
    assert_eq!(parse_number("3000000000"), Some(MAX));
    assert_eq!(parse_number("-3000000000"), Some(MIN));
    assert_eq!(parse_number("2147483647"), Some(2147483647 * ONE));
    assert_eq!(parse_number("2147483647.9999999999"), Some(2147483647 * ONE + 4294967295));
    assert_eq!(parse_number("2147483648"), Some(MAX));
    assert_eq!(parse_number("-2147483648"), Some(MIN));
    assert_eq!(parse_number("99999999999999999999999999999999999999999999"), Some(MAX));
}

#[test]
fn fine_digits_are_dropped() {
    assert_eq!(parse_number("0.0000000001"), Some(0));
    assert_eq!(parse_number("0.50000000000000000000000000000000000001"), Some(ONE / 2));
    assert_eq!(parse_number("0.4999999999999999999999"), Some(ONE / 2 - 1));
}

#[test]
fn words_that_are_no_numbers() {
    for word in ["", "-", "+", ".", "-.", "abc", "1.2.3", "1e5", "0x10", " 1", "1 ", "--1", "1-", "inf", "nan"] {
        assert_eq!(parse_number(word), None, "{:?}", word);
    }
}

#[test]
fn tuner_and_report() {
    assert_eq!(parse_input("t"), Ok(CtrlMsg::Tuner));
    assert_eq!(parse_input("p"), Ok(CtrlMsg::Connections));
}

#[test]
fn bypass_of_the_chain_and_of_pedals() {
    assert_eq!(parse_input("b"), Ok(CtrlMsg::Bypass));
    assert_eq!(
        parse_input("b delay trem"),
        Ok(CtrlMsg::Chain(vec![CtrlMsg::BypassPedal(s("delay")), CtrlMsg::BypassPedal(s("trem"))]))
    );
    assert_eq!(parse_input("b "), Ok(CtrlMsg::Chain(vec![CtrlMsg::BypassPedal(s(""))])));
}

#[test]
fn disconnect_names() {
    assert_eq!(
        parse_input("d in delay"),
        Ok(CtrlMsg::Chain(vec![CtrlMsg::Disconnect(s("in")), CtrlMsg::Disconnect(s("delay"))]))
    );
    assert_eq!(parse_input("d"), Err(ParseError::MissingArgument));
}

#[test]
fn set_a_parameter() {
    assert_eq!(
        parse_input("s delay feedback 0.3"),
        Ok(CtrlMsg::SetParam(s("delay"), s("feedback"), 1288490188))
    );
    assert_eq!(
        parse_input("s trem limit 50 and more"),
        Ok(CtrlMsg::SetParam(s("trem"), s("limit"), 50 * ONE))
    );
    assert_eq!(parse_input("s"), Err(ParseError::MissingArgument));
    assert_eq!(parse_input("s delay"), Err(ParseError::MissingArgument));
    assert_eq!(parse_input("s delay feedback"), Err(ParseError::MissingArgument));
    assert_eq!(parse_input("s delay feedback loud"), Err(ParseError::BadNumber));
    assert_eq!(parse_input("s delay feedback "), Err(ParseError::BadNumber));
}

#[test]
fn connect_daisy_chain() {
    assert_eq!(
        parse_input("c in delay overdrive out"),
        Ok(CtrlMsg::Chain(vec![
            CtrlMsg::Connect(s("in"), s("delay")),
            CtrlMsg::Connect(s("delay"), s("overdrive")),
            CtrlMsg::Connect(s("overdrive"), s("out")),
        ]))
    );
    assert_eq!(parse_input("c in"), Ok(CtrlMsg::Chain(vec![])));
    assert_eq!(parse_input("c"), Err(ParseError::MissingArgument));
}

#[test]
fn add_a_pedal() {
    assert_eq!(parse_input("a od overdrive"), Ok(CtrlMsg::Add(s("od"), s("overdrive"))));
    assert_eq!(parse_input("a od overdrive twice"), Ok(CtrlMsg::Add(s("od"), s("overdrive"))));
    assert_eq!(parse_input("a od"), Err(ParseError::MissingArgument));
    assert_eq!(parse_input("a"), Err(ParseError::MissingArgument));
}

#[test]
fn anything_else_toggles_the_bypass() {
    for line in ["", "x", "t now", "p all", "bypass", "delay off", " b", "T", "tt"] {
        assert_eq!(parse_input(line), Ok(CtrlMsg::Bypass), "{:?}", line);
    }
}

#[test]
fn names_may_hold_any_character() {
    assert_eq!(
        parse_input("b verzögerung"),
        Ok(CtrlMsg::Chain(vec![CtrlMsg::BypassPedal(s("verzögerung"))]))
    );
}
