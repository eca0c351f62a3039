//! The text grammar of the control channel: one line, one control message.

use crate::fixed::{saturate, saturate_wide, ONE};
use crate::effects::{views, Command, CtrlMsg};
use vstd::prelude::*;

verus! {

/// Why a line is not a control message.
#[derive(Debug, Clone, Copy, PartialEq, Eq)]
pub enum ParseError {
    /// The command needs more words than the line holds.
    MissingArgument,
    /// The word that should be a number is none.
    BadNumber,
}

/// The words of a line: what stands between its spaces. A line without a
/// space is one word; two spaces in a row hold an empty word.
pub open spec fn split_spec(s: Seq<char>) -> Seq<Seq<char>>
    decreases s.len(),
{
    if s.len() == 0 {
        seq![Seq::<char>::empty()]
    } else {
        let before = split_spec(s.drop_last());
        if s.last() == ' ' {
            before.push(Seq::<char>::empty())
        } else {
            before.drop_last().push(before.last().push(s.last()))
        }
    }
}

/// A line has at least one word.
pub proof fn lemma_split_nonempty(s: Seq<char>)
    ensures
        split_spec(s).len() >= 1,
    decreases s.len(),
{
    if s.len() > 0 {
        lemma_split_nonempty(s.drop_last());
    }
}

/// A row of words written out as a line, with one space between each word
/// and the next.
pub open spec fn join_spec(words: Seq<Seq<char>>) -> Seq<char>
    decreases words.len(),
{
    if words.len() == 0 {
        Seq::<char>::empty()
    } else if words.len() == 1 {
        words[0]
    } else {
        join_spec(words.drop_last()).push(' ') + words.last()
    }
}

/// The words of a line hold no space, and written out with a space between
/// each and the next they are the line again.
pub proof fn lemma_split_join(s: Seq<char>)
    ensures
        join_spec(split_spec(s)) == s,
        forall|i: int, j: int|
            0 <= i < split_spec(s).len() && 0 <= j < split_spec(s)[i].len() ==> split_spec(
                s,
            )[i][j] != ' ',
    decreases s.len(),
{
    let words = split_spec(s);
    if s.len() == 0 {
        assert(join_spec(words) =~= s);
    } else {
        let before = split_spec(s.drop_last());
        lemma_split_join(s.drop_last());
        lemma_split_nonempty(s.drop_last());
        if s.last() == ' ' {
            assert(words.drop_last() =~= before);
            assert(join_spec(words) =~= s.drop_last().push(' '));
            assert(s.drop_last().push(' ') =~= s);
        } else {
            let word = before.last().push(s.last());
            assert(words.drop_last() =~= before.drop_last());
            if before.len() == 1 {
                assert(join_spec(words) =~= join_spec(before).push(s.last()));
            } else {
                assert(join_spec(words) =~= join_spec(before.drop_last()).push(' ') + word);
                assert(join_spec(before.drop_last()).push(' ') + word =~= (join_spec(
                    before.drop_last(),
                ).push(' ') + before.last()).push(s.last()));
            }
            assert(s.drop_last().push(s.last()) =~= s);
            assert forall|i: int, j: int|
                0 <= i < words.len() && 0 <= j < words[i].len() implies words[i][j] != ' ' by {
                if i < words.len() - 1 {
                    assert(words[i] == before[i]);
                } else if j < word.len() - 1 {
                    assert(words[i][j] == before.last()[j]);
                }
            }
        }
    }
}

/// Splits a line at its spaces.
pub fn split_words(line: &str) -> (words: Vec<String>)
    ensures
        views(words@) == split_spec(line@),
        words.len() >= 1,
{
    let n = line.unicode_len();
    let mut words: Vec<String> = Vec::new();
    let mut start: usize = 0;
    let mut i: usize = 0;
    proof {
        assert(line@.take(0).len() == 0);
        assert(line@.subrange(0, 0) =~= Seq::<char>::empty());
        assert(views(words@).push(Seq::<char>::empty()) =~= seq![Seq::<char>::empty()]);
    }
    while i < n
        invariant
            n == line@.len(),
            start <= i <= n,
            split_spec(line@.take(i as int)) == views(words@).push(
                line@.subrange(start as int, i as int),
            ),
        decreases n - i,
    {
        let c = line.get_char(i);
        let ghost done = views(words@);
        let ghost word_so_far = line@.subrange(start as int, i as int);
        proof {
            let prefix = line@.take(i as int + 1);
            assert(prefix.drop_last() =~= line@.take(i as int));
            assert(prefix.last() == c);
            assert(done.push(word_so_far).drop_last() =~= done);
        }
        if c == ' ' {
            let word = line.substring_char(start, i).to_owned();
            words.push(word);
            start = i + 1;
            proof {
                assert(views(words@) =~= done.push(word_so_far));
                assert(line@.subrange(start as int, i as int + 1) =~= Seq::<char>::empty());
            }
        } else {
            proof {
                assert(line@.subrange(start as int, i as int + 1) =~= word_so_far.push(c));
            }
        }
        i += 1;
    }
    let ghost done = views(words@);
    let word = line.substring_char(start, n).to_owned();
    words.push(word);
    proof {
        assert(line@.take(n as int) =~= line@);
        assert(views(words@) =~= done.push(line@.subrange(start as int, n as int)));
    }
    words
}

/// Whether `c` is a decimal digit.
pub open spec fn is_digit(c: char) -> bool {
    '0' <= c && c <= '9'
}

/// The number that the digit `c` stands for.
pub open spec fn digit_value(c: char) -> int {
    c as int - '0' as int
}

/// The number that a row of digits stands for; the empty row stands for 0.
pub open spec fn digits_value(ds: Seq<char>) -> int
    decreases ds.len(),
{
    if ds.len() == 0 {
        0
    } else {
        digits_value(ds.drop_last()) * 10 + digit_value(ds.last())
    }
}

/// The end of the row of digits that starts at `i`: the first place from `i`
/// on that holds no digit.
pub open spec fn digits_end(s: Seq<char>, i: int) -> int
    decreases s.len() - i,
{
    if 0 <= i < s.len() && is_digit(s[i]) {
        digits_end(s, i + 1)
    } else {
        i
    }
}

/// Ten to the power of `n`.
pub open spec fn pow10(n: nat) -> int
    decreases n,
{
    if n == 0 {
        1
    } else {
        10 * pow10((n - 1) as nat)
    }
}

/// How many digits behind the point are read; the rest, finer than the
/// numbers can hold, is dropped.
pub const FRACTION_DIGITS: usize = 18;

/// The length of the sign in front of a number: 0 or 1.
pub open spec fn sign_len(s: Seq<char>) -> int {
    if s.len() > 0 && (s[0] == '-' || s[0] == '+') {
        1
    } else {
        0
    }
}

/// The place behind the digits in front of the point.
pub open spec fn whole_end(s: Seq<char>) -> int {
    digits_end(s, sign_len(s))
}

/// Whether a word is a decimal number: an optional sign, then digits, with
/// or without a point among, before or behind them, and at least one digit.
pub open spec fn is_decimal(s: Seq<char>) -> bool {
    let e = whole_end(s);
    if e == s.len() {
        e > sign_len(s)
    } else {
        &&& s[e] == '.'
        &&& digits_end(s, e + 1) == s.len()
        &&& s.len() - 1 - sign_len(s) >= 1
    }
}

/// The digits in front of the point.
pub open spec fn whole_digits(s: Seq<char>) -> Seq<char> {
    s.subrange(sign_len(s), whole_end(s))
}

/// The digits behind the point that are read.
pub open spec fn fraction_digits(s: Seq<char>) -> Seq<char> {
    let e = whole_end(s);
    if e + 1 + FRACTION_DIGITS <= s.len() {
        s.subrange(e + 1, e + 1 + FRACTION_DIGITS)
    } else if e + 1 <= s.len() {
        s.subrange(e + 1, s.len() as int)
    } else {
        Seq::<char>::empty()
    }
}

/// The magnitude of a decimal number in fixed point, rounded down.
pub open spec fn magnitude(s: Seq<char>) -> int {
    let f = fraction_digits(s);
    digits_value(whole_digits(s)) * ONE + (digits_value(f) * ONE) / pow10(f.len())
}

/// The fixed-point number that a decimal number stands for, saturating.
pub open spec fn decimal_value(s: Seq<char>) -> int {
    if s.len() > 0 && s[0] == '-' {
        saturate(-magnitude(s))
    } else {
        saturate(magnitude(s))
    }
}

/// A row of digits stands for a number that is not negative, and that does
/// not shrink when a digit is added.
proof fn lemma_digits_value_bounds(ds: Seq<char>)
    requires
        forall|i: int| 0 <= i < ds.len() ==> is_digit(#[trigger] ds[i]),
    ensures
        0 <= digits_value(ds) < pow10(ds.len()),
        ds.len() > 0 ==> digits_value(ds.drop_last()) <= digits_value(ds),
    decreases ds.len(),
{
    if ds.len() > 0 {
        lemma_digits_value_bounds(ds.drop_last());
    }
}

/// Reads a decimal number into fixed point.
pub fn parse_number(word: &str) -> (r: Option<i64>)
    ensures
        r.is_some() == is_decimal(word@),
        r.is_some() ==> r.unwrap() as int == decimal_value(word@),
{
    let n = word.unicode_len();
    let ghost s = word@;
    let mut negative = false;
    let mut i: usize = 0;
    if n > 0 {
        let c = word.get_char(0);
        if c == '-' {
            negative = true;
            i = 1;
        } else if c == '+' {
            i = 1;
        }
    }
    let first: usize = i;
    assert(first as int == sign_len(s));
    // The digits in front of the point, held up to 2^31: from there on the
    // number saturates whatever follows.
    let mut whole: u64 = 0;
    let mut scanning = true;
    while scanning
        invariant
            s == word@,
            n == s.len(),
            first <= i <= n,
            digits_end(s, first as int) == digits_end(s, i as int),
            forall|j: int| first <= j < i ==> is_digit(#[trigger] s[j]),
            whole as int == if digits_value(s.subrange(first as int, i as int)) >= 0x8000_0000 {
                0x8000_0000
            } else {
                digits_value(s.subrange(first as int, i as int))
            },
            !scanning ==> digits_end(s, i as int) == i,
        decreases (n - i) + (if scanning { 1int } else { 0int }),
    {
        if i < n {
            let c = word.get_char(i);
            if '0' <= c && c <= '9' {
                let d: u64 = (c as u32 - '0' as u32) as u64;
                proof {
                    let ds = s.subrange(first as int, i as int + 1);
                    assert(ds.drop_last() =~= s.subrange(first as int, i as int));
                    assert(ds.last() == c);
                    lemma_digits_value_bounds(ds);
                }
                if whole >= 0x8000_0000 {
                    whole = 0x8000_0000;
                } else {
                    let w: u64 = whole * 10 + d;
                    whole = if w > 0x8000_0000 {
                        0x8000_0000
                    } else {
                        w
                    };
                }
                i += 1;
            } else {
                scanning = false;
            }
        } else {
            scanning = false;
        }
    }
    let end: usize = i;
    assert(end as int == whole_end(s));
    let ghost whole_value = digits_value(whole_digits(s));
    proof {
        lemma_digits_value_bounds(whole_digits(s));
    }
    let mut part: u64 = 0;
    let mut scale: u64 = 1;
    let mut read: usize = 0;
    if end == n {
        if end == first {
            return None;
        }
        proof {
            assert(fraction_digits(s) =~= Seq::<char>::empty());
        }
    } else {
        let c = word.get_char(end);
        if c != '.' {
            return None;
        }
        let from: usize = end + 1;
        i = from;
        scanning = true;
        while scanning
            invariant
                s == word@,
                n == s.len(),
                from == end + 1,
                from <= i <= n,
                digits_end(s, from as int) == digits_end(s, i as int),
                forall|j: int| from <= j < i ==> is_digit(#[trigger] s[j]),
                read <= FRACTION_DIGITS,
                read as int == if i - from >= FRACTION_DIGITS {
                    FRACTION_DIGITS as int
                } else {
                    i - from
                },
                part as int == digits_value(s.subrange(from as int, from + read)),
                scale as int == pow10(read as nat),
                0 <= part < scale,
                scale <= 1_000_000_000_000_000_000,
                !scanning ==> digits_end(s, i as int) == i,
            decreases (n - i) + (if scanning { 1int } else { 0int }),
        {
            if i < n {
                let c = word.get_char(i);
                if '0' <= c && c <= '9' {
                    if read < FRACTION_DIGITS {
                        let d: u64 = (c as u32 - '0' as u32) as u64;
                        proof {
                            let ds = s.subrange(from as int, from + read + 1);
                            assert(ds.drop_last() =~= s.subrange(from as int, from + read));
                            assert(ds.last() == c);
                            lemma_pow10_step(read as nat);
                            lemma_pow10_bound(read as nat + 1);
                        }
                        part = part * 10 + d;
                        scale = scale * 10;
                        read = read + 1;
                    }
                    i += 1;
                } else {
                    scanning = false;
                }
            } else {
                scanning = false;
            }
        }
        if i != n {
            return None;
        }
        if n - 1 - first < 1 {
            return None;
        }
        proof {
            assert(fraction_digits(s) =~= s.subrange(from as int, from + read));
        }
    }
    assert(is_decimal(s));
    let ghost f = fraction_digits(s);
    assert(part as int == digits_value(f) && scale as int == pow10(f.len()));
    let fraction: u128 = (part as u128 * ONE as u128) / (scale as u128);
    proof {
        assert(part as int * ONE as int / scale as int <= ONE as int) by (nonlinear_arith)
            requires
                0 <= part < scale,
        ;
        assert(whole_value * ONE >= 0x8000_0000 * ONE <==> whole_value >= 0x8000_0000)
            by (nonlinear_arith);
        assert(whole as int * ONE <= 0x8000_0000 * ONE) by (nonlinear_arith)
            requires
                whole <= 0x8000_0000,
        ;
    }
    let total: i128 = (whole as i128) * (ONE as i128) + (fraction as i128);
    if negative {
        Some(saturate_wide(-total))
    } else {
        Some(saturate_wide(total))
    }
}

proof fn lemma_pow10_step(n: nat)
    ensures
        pow10(n + 1) == 10 * pow10(n),
{
}

/// Powers of ten up to the eighteenth.
proof fn lemma_pow10_bound(n: nat)
    requires
        n <= 18,
    ensures
        0 < pow10(n) <= 1_000_000_000_000_000_000,
    decreases n,
{
    reveal_with_fuel(pow10, 20);
}

/// The control message that a row of words stands for. The first word names
/// the command; a line that names none toggles the bypass of the chain.
pub open spec fn parse_words(w: Seq<Seq<char>>) -> Result<Command, ParseError> {
    let head = w[0];
    if head == seq!['t'] && w.len() == 1 {
        Ok(Command::Tuner)
    } else if head == seq!['p'] && w.len() == 1 {
        Ok(Command::Connections)
    } else if head == seq!['b'] {
        if w.len() == 1 {
            Ok(Command::Bypass)
        } else {
            Ok(Command::Chain(Seq::new((w.len() - 1) as nat, |i: int| Command::BypassPedal(w[i + 1]))))
        }
    } else if head == seq!['d'] {
        if w.len() < 2 {
            Err(ParseError::MissingArgument)
        } else {
            Ok(Command::Chain(Seq::new((w.len() - 1) as nat, |i: int| Command::Disconnect(w[i + 1]))))
        }
    } else if head == seq!['s'] {
        if w.len() < 4 {
            Err(ParseError::MissingArgument)
        } else if !is_decimal(w[3]) {
            Err(ParseError::BadNumber)
        } else {
            Ok(Command::SetParam(w[1], w[2], decimal_value(w[3])))
        }
    } else if head == seq!['c'] {
        if w.len() < 2 {
            Err(ParseError::MissingArgument)
        } else {
            Ok(Command::Chain(Seq::new((w.len() - 2) as nat, |i: int| Command::Connect(w[i + 1], w[i + 2]))))
        }
    } else if head == seq!['a'] {
        if w.len() < 3 {
            Err(ParseError::MissingArgument)
        } else {
            Ok(Command::Add(w[1], w[2]))
        }
    } else {
        Ok(Command::Bypass)
    }
}

/// The control message that a line stands for.
pub open spec fn parse_spec(line: Seq<char>) -> Result<Command, ParseError> {
    parse_words(split_spec(line))
}

/// Whether a word is the one letter `c`.
fn is_letter(word: &String, c: char) -> (b: bool)
    ensures
        b == (word@ == seq![c]),
{
    let s = word.as_str();
    if s.unicode_len() != 1 {
        return false;
    }
    let b = s.get_char(0) == c;
    proof {
        if b {
            assert(word@ =~= seq![c]);
        }
    }
    b
}

/// Reads one line of the control channel.
///
/// | line | message |
/// |---|---|
/// | `t` | the tuner query |
/// | `p` | the report of the routing table |
/// | `b` | the bypass of the whole chain |
/// | `b` and names | a batch that toggles the bypass of each named pedal |
/// | `d` and names | a batch that removes the edge leaving each named node |
/// | `s`, a pedal, a parameter, a number | the setting of that parameter |
/// | `c` and names | a batch that connects each name to the next |
/// | `a`, a name, a kind | the registration of a pedal of that kind |
/// | anything else | the bypass of the whole chain |
///
/// Words behind those that a command reads are ignored.
pub fn parse_input(cmd: &str) -> (r: Result<CtrlMsg, ParseError>)
    ensures
        match r {
            Ok(msg) => parse_spec(cmd@) == Ok::<Command, ParseError>(msg@),
            Err(e) => parse_spec(cmd@) == Err::<Command, ParseError>(e),
        },
{
    let words = split_words(cmd);
    let ghost w = views(words@);
    let n = words.len();
    assert(forall|k: int| 0 <= k < n ==> w[k] == #[trigger] words@[k]@);
    if is_letter(&words[0], 't') && n == 1 {
        Ok(CtrlMsg::Tuner)
    } else if is_letter(&words[0], 'p') && n == 1 {
        Ok(CtrlMsg::Connections)
    } else if is_letter(&words[0], 'b') {
        if n == 1 {
            Ok(CtrlMsg::Bypass)
        } else {
            let mut chain: Vec<CtrlMsg> = Vec::new();
            let mut i: usize = 1;
            while i < n
                invariant
                    n == words.len(),
                    1 <= i <= n,
                    chain.len() == i - 1,
                    forall|k: int|
                        0 <= k < chain.len() ==> (#[trigger] chain@[k])@ == Command::BypassPedal(
                            words@[k + 1]@,
                        ),
                decreases n - i,
            {
                chain.push(CtrlMsg::BypassPedal(words[i].clone()));
                i += 1;
            }
            let msg = CtrlMsg::Chain(chain);
            proof {
                assert(msg@ == Command::Chain(
                    Seq::new((w.len() - 1) as nat, |i: int| Command::BypassPedal(w[i + 1])),
                )) by {
                    assert(msg@->Chain_0 =~= Seq::new(
                        (w.len() - 1) as nat,
                        |i: int| Command::BypassPedal(w[i + 1]),
                    ));
                }
            }
            Ok(msg)
        }
    } else if is_letter(&words[0], 'd') {
        if n < 2 {
            Err(ParseError::MissingArgument)
        } else {
            let mut chain: Vec<CtrlMsg> = Vec::new();
            let mut i: usize = 1;
            while i < n
                invariant
                    n == words.len(),
                    1 <= i <= n,
                    chain.len() == i - 1,
                    forall|k: int|
                        0 <= k < chain.len() ==> (#[trigger] chain@[k])@ == Command::Disconnect(
                            words@[k + 1]@,
                        ),
                decreases n - i,
            {
                chain.push(CtrlMsg::Disconnect(words[i].clone()));
                i += 1;
            }
            let msg = CtrlMsg::Chain(chain);
            proof {
                assert(msg@ == Command::Chain(
                    Seq::new((w.len() - 1) as nat, |i: int| Command::Disconnect(w[i + 1])),
                )) by {
                    assert(msg@->Chain_0 =~= Seq::new(
                        (w.len() - 1) as nat,
                        |i: int| Command::Disconnect(w[i + 1]),
                    ));
                }
            }
            Ok(msg)
        }
    } else if is_letter(&words[0], 's') {
        if n < 4 {
            Err(ParseError::MissingArgument)
        } else {
            match parse_number(words[3].as_str()) {
                None => Err(ParseError::BadNumber),
                Some(value) => Ok(CtrlMsg::SetParam(words[1].clone(), words[2].clone(), value)),
            }
        }
    } else if is_letter(&words[0], 'c') {
        if n < 2 {
            Err(ParseError::MissingArgument)
        } else {
            let mut chain: Vec<CtrlMsg> = Vec::new();
            let mut i: usize = 1;
            while i + 1 < n
                invariant
                    n == words.len(),
                    1 <= i < n,
                    chain.len() == i - 1,
                    forall|k: int|
                        0 <= k < chain.len() ==> (#[trigger] chain@[k])@ == Command::Connect(
                            words@[k + 1]@,
                            words@[k + 2]@,
                        ),
                decreases n - i,
            {
                chain.push(CtrlMsg::Connect(words[i].clone(), words[i + 1].clone()));
                i += 1;
            }
            let msg = CtrlMsg::Chain(chain);
            proof {
                assert(msg@ == Command::Chain(
                    Seq::new(
                        (w.len() - 2) as nat,
                        |i: int| Command::Connect(w[i + 1], w[i + 2]),
                    ),
                )) by {
                    assert(msg@->Chain_0 =~= Seq::new(
                        (w.len() - 2) as nat,
                        |i: int| Command::Connect(w[i + 1], w[i + 2]),
                    ));
                }
            }
            Ok(msg)
        }
    } else if is_letter(&words[0], 'a') {
        if n < 3 {
            Err(ParseError::MissingArgument)
        } else {
            Ok(CtrlMsg::Add(words[1].clone(), words[2].clone()))
        }
    } else {
        Ok(CtrlMsg::Bypass)
    }
}


} // verus!
