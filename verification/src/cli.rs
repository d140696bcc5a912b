use crate::error::SignalError;
use crate::text::{chars_of, has_prefix};
use vstd::prelude::*;
use vstd::slice::slice_subrange;
use vstd::string::StrSliceExecFns;

verus! {

/// What the tool is asked to do.
#[derive(Debug, PartialEq, Eq)]
pub enum Command {
    /// Print how the tool is called.
    Help,
    /// Decode the given mask and print the names of its signals.
    Decode(String),
    /// Print the signals of the process with the given identifier.
    Inspect(i64),
}

/// What the tool is asked to do, with texts as sequences of characters.
pub enum Request {
    /// Print how the tool is called.
    Help,
    /// Decode the given mask and print the names of its signals.
    Decode(Seq<char>),
    /// Print the signals of the process with the given identifier.
    Inspect(int),
}

impl View for Command {
    type V = Request;

    open spec fn view(&self) -> Request {
        match self {
            Command::Help => Request::Help,
            Command::Decode(mask) => Request::Decode(mask@),
            Command::Inspect(pid) => Request::Inspect(*pid as int),
        }
    }
}

/// `c` is one of `0`-`9`.
pub open spec fn is_digit(c: char) -> bool {
    '0' <= c <= '9'
}

/// The number from 0 to 9 that the decimal digit `c` stands for.
pub open spec fn digit_value(c: char) -> nat {
    if is_digit(c) {
        (c as int - '0' as int) as nat
    } else {
        0
    }
}

/// Every character of `s` is a decimal digit.
pub open spec fn all_digits(s: Seq<char>) -> bool {
    forall|i: int| 0 <= i < s.len() ==> is_digit(#[trigger] s[i])
}

/// The number that decimal digits stand for.
pub open spec fn decimal_value(digits: Seq<char>) -> nat
    decreases digits.len(),
{
    if digits.len() == 0 {
        0
    } else {
        10 * decimal_value(digits.drop_last()) + digit_value(digits.last())
    }
}

/// An argument without the `+` that may stand at its start.
pub open spec fn unsigned_part(s: Seq<char>) -> Seq<char> {
    if s.len() > 0 && s.first() == '+' {
        s.drop_first()
    } else {
        s
    }
}

/// The process identifier that an argument stands for: the value of its
/// decimal digits, before which a `+` may stand, where there is at least
/// one digit and the value is positive and fits in an `i64`.
pub open spec fn pid_of(s: Seq<char>) -> Option<int> {
    let digits = unsigned_part(s);
    if digits.len() > 0 && all_digits(digits) && 1 <= decimal_value(digits) <= i64::MAX {
        Some(decimal_value(digits) as int)
    } else {
        None
    }
}

/// What the arguments after the program's name ask for. Without an
/// argument, or with a first one that begins with `-h` or `--help`, it is
/// help. With `-d` or `--decode` it is to decode the mask that the second
/// argument holds, and with `--decode=` and a mask behind it, that mask.
/// Anything else has to be a process identifier.
pub open spec fn requested(args: Seq<Seq<char>>) -> Result<Request, SignalError> {
    if args.len() == 0 {
        Ok(Request::Help)
    } else if "-h"@.is_prefix_of(args[0]) || "--help"@.is_prefix_of(args[0]) {
        Ok(Request::Help)
    } else if args[0] == "-d"@ || args[0] == "--decode"@ {
        if args.len() >= 2 {
            Ok(Request::Decode(args[1]))
        } else {
            Err(SignalError::UsageError)
        }
    } else if "--decode="@.is_prefix_of(args[0]) {
        Ok(Request::Decode(args[0].skip("--decode="@.len() as int)))
    } else {
        match pid_of(args[0]) {
            Some(pid) => Ok(Request::Inspect(pid)),
            None => Err(SignalError::UsageError),
        }
    }
}

/// The arguments as sequences of characters.
pub open spec fn texts(args: Seq<String>) -> Seq<Seq<char>> {
    args.map_values(|s: String| s@)
}

/// Whether two texts are the same.
pub fn same_text(a: &[char], b: &[char]) -> (r: bool)
    ensures
        r == (a@ == b@),
{
    if a.len() != b.len() {
        return false;
    }
    let r = has_prefix(a, b);
    assert(a@.subrange(0, a@.len() as int) == a@);
    r
}

/// The process identifier that an argument stands for, if it stands for
/// one.
pub fn parse_pid(s: &[char]) -> (r: Option<i64>)
    ensures
        match r {
            Some(pid) => pid_of(s@) == Some(pid as int),
            None => pid_of(s@) is None,
        },
{
    let start: usize = if s.len() > 0 && s[0] == '+' {
        1
    } else {
        0
    };
    let digits = slice_subrange(s, start, s.len());
    let n: usize = digits.len();
    let mut value: i64 = 0;
    let mut i: usize = 0;
    assert(digits@.take(0) == Seq::<char>::empty());
    while i < n
        invariant
            i <= n == digits@.len(),
            digits@ == unsigned_part(s@),
            0 <= value == decimal_value(digits@.take(i as int)),
            all_digits(digits@.take(i as int)),
        decreases n - i,
    {
        let c = digits[i];
        assert(digits@.take(i + 1).drop_last() == digits@.take(i as int));
        if !('0' <= c && c <= '9') {
            assert(!is_digit(digits@[i as int]));
            return None;
        }
        let d: i64 = (c as u32 - '0' as u32) as i64;
        if value > (i64::MAX - d) / 10 {
            proof {
                lemma_decimal_value_grows(digits@, i + 1);
            }
            return None;
        }
        value = value * 10 + d;
        i = i + 1;
    }
    assert(digits@.take(n as int) == digits@);
    if n == 0 || value == 0 {
        None
    } else {
        Some(value)
    }
}

/// What the arguments after the program's name ask for.
pub fn parse_args(args: &[String]) -> (r: Result<Command, SignalError>)
    ensures
        match r {
            Ok(command) => requested(texts(args@)) == Ok::<Request, SignalError>(command@),
            Err(e) => requested(texts(args@)) == Err::<Request, SignalError>(e),
        },
{
    if args.len() == 0 {
        return Ok(Command::Help);
    }
    let first = args[0].as_str();
    let chars = chars_of(first);
    let text = chars.as_slice();
    assert(texts(args@)[0] == text@);
    if has_prefix(text, chars_of("-h").as_slice()) || has_prefix(
        text,
        chars_of("--help").as_slice(),
    ) {
        return Ok(Command::Help);
    }
    if same_text(text, chars_of("-d").as_slice()) || same_text(
        text,
        chars_of("--decode").as_slice(),
    ) {
        if args.len() >= 2 {
            assert(texts(args@)[1] == args@[1]@);
            return Ok(Command::Decode(args[1].clone()));
        }
        return Err(SignalError::UsageError);
    }
    let fused = chars_of("--decode=");
    if has_prefix(text, fused.as_slice()) {
        let mask = first.substring_char(fused.len(), chars.len());
        return Ok(Command::Decode(mask.to_owned()));
    }
    match parse_pid(text) {
        Some(pid) => Ok(Command::Inspect(pid)),
        None => Err(SignalError::UsageError),
    }
}

/// The value of decimal digits is at least that of the first of them.
proof fn lemma_decimal_value_grows(digits: Seq<char>, n: int)
    requires
        0 <= n <= digits.len(),
    ensures
        decimal_value(digits.take(n)) <= decimal_value(digits),
    decreases digits.len(),
{
    if n < digits.len() {
        assert(digits.drop_last().take(n) == digits.take(n));
        lemma_decimal_value_grows(digits.drop_last(), n);
    } else {
        assert(digits.take(n) == digits);
    }
}

} // verus!
