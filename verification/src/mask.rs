use crate::bits::{bit, popcount};
use crate::error::SignalError;
use crate::text::{chars_of, trim, trim_bounds};
use crate::theorems::{
    lemma_count_is_popcount, lemma_signal_iff_bit, lemma_signals_ascending, lemma_zero_mask,
};
use vstd::prelude::*;
use vstd::slice::slice_subrange;

verus! {

/// The index, counted from the right, of the last hexadecimal digit all of
/// whose four signal numbers fit in a `u32`.
pub const LAST_FULL_DIGIT: usize = 0x3fff_fffe;

/// `c` is one of `0`-`9`, `a`-`f`, `A`-`F`.
pub open spec fn is_hex_digit(c: char) -> bool {
    ('0' <= c <= '9') || ('a' <= c <= 'f') || ('A' <= c <= 'F')
}

/// The number from 0 to 15 that the hexadecimal digit `c` stands for.
pub open spec fn hex_value(c: char) -> nat {
    if '0' <= c <= '9' {
        (c as int - '0' as int) as nat
    } else if 'a' <= c <= 'f' {
        (c as int - 'a' as int + 10) as nat
    } else if 'A' <= c <= 'F' {
        (c as int - 'A' as int + 10) as nat
    } else {
        0
    }
}

/// Every character of `s` is a hexadecimal digit.
pub open spec fn is_hex(s: Seq<char>) -> bool {
    forall|i: int| 0 <= i < s.len() ==> is_hex_digit(#[trigger] s[i])
}

/// The signal numbers that one hexadecimal digit of value `d` contributes
/// when it stands `k` digits from the right end of a mask: `4k + 1` for the
/// bit of value 1, then `4k + 2`, `4k + 3` and `4k + 4` for the bits of
/// value 2, 4 and 8.
pub open spec fn digit_signals(d: nat, k: nat) -> Seq<nat> {
    (if d % 2 == 1 {
        seq![4 * k + 1]
    } else {
        Seq::empty()
    }) + (if (d / 2) % 2 == 1 {
        seq![4 * k + 2]
    } else {
        Seq::empty()
    }) + (if (d / 4) % 2 == 1 {
        seq![4 * k + 3]
    } else {
        Seq::empty()
    }) + (if (d / 8) % 2 == 1 {
        seq![4 * k + 4]
    } else {
        Seq::empty()
    })
}

/// The signal numbers that the `k` rightmost digits of `digits` contribute,
/// those of the rightmost digit first.
pub open spec fn low_signals(digits: Seq<char>, k: nat) -> Seq<nat>
    decreases k,
{
    if k == 0 {
        Seq::empty()
    } else {
        low_signals(digits, (k - 1) as nat) + digit_signals(
            hex_value(digits[digits.len() - k]),
            (k - 1) as nat,
        )
    }
}

/// The signal numbers whose bits are set in the mask written as `digits`,
/// most significant digit first.
pub open spec fn mask_signals(digits: Seq<char>) -> Seq<nat> {
    low_signals(digits, digits.len())
}

/// Every number of `signals` fits in a `u32`.
pub open spec fn fits_u32(signals: Seq<nat>) -> bool {
    forall|i: int| 0 <= i < signals.len() ==> #[trigger] signals[i] <= u32::MAX
}

/// What a mask text decodes to: the signal numbers of its digits once the
/// surrounding whitespace is gone, or nothing where a character is left
/// that is no hexadecimal digit or a signal number does not fit in a `u32`.
pub open spec fn decoded(s: Seq<char>) -> Option<Seq<nat>> {
    let digits = trim(s);
    if is_hex(digits) && fits_u32(mask_signals(digits)) {
        Some(mask_signals(digits))
    } else {
        None
    }
}

/// The integer that hexadecimal digits stand for, most significant digit
/// first.
pub open spec fn mask_value(digits: Seq<char>) -> nat
    decreases digits.len(),
{
    if digits.len() == 0 {
        0
    } else {
        16 * mask_value(digits.drop_last()) + hex_value(digits.last())
    }
}

/// Each number of `l` is smaller than those after it.
pub open spec fn strictly_ascending(l: Seq<nat>) -> bool {
    forall|i: int, j: int| 0 <= i < j < l.len() ==> l[i] < l[j]
}

/// The numbers of `v` as natural numbers.
pub open spec fn numbers(v: Seq<u32>) -> Seq<nat> {
    v.map_values(|x: u32| x as nat)
}

/// The value of the hexadecimal digit `c`, if it is one.
pub fn hex_digit(c: char) -> (r: Option<u8>)
    ensures
        r is Some <==> is_hex_digit(c),
        r matches Some(d) ==> d == hex_value(c) && d < 16,
{
    if '0' <= c && c <= '9' {
        Some((c as u32 - '0' as u32) as u8)
    } else if 'a' <= c && c <= 'f' {
        Some((c as u32 - 'a' as u32 + 10) as u8)
    } else if 'A' <= c && c <= 'F' {
        Some((c as u32 - 'A' as u32 + 10) as u8)
    } else {
        None
    }
}

/// Decodes a mask that is written as hexadecimal digits alone.
pub fn decode_digits(digits: &[char]) -> (r: Result<Vec<u32>, SignalError>)
    ensures
        match r {
            Ok(v) => is_hex(digits@) && fits_u32(mask_signals(digits@)) && numbers(v@)
                == mask_signals(digits@),
            Err(e) => e == SignalError::InvalidMask && !(is_hex(digits@) && fits_u32(
                mask_signals(digits@),
            )),
        },
{
    let n: usize = digits.len();
    let mut v: Vec<u32> = Vec::new();
    let mut k: usize = 0;
    assert(numbers(v@) == low_signals(digits@, 0));
    while k < n
        invariant
            k <= n == digits@.len(),
            numbers(v@) == low_signals(digits@, k as nat),
            fits_u32(low_signals(digits@, k as nat)),
            forall|i: int| n - k <= i < n ==> is_hex_digit(#[trigger] digits@[i]),
        decreases n - k,
    {
        let d: u8 = match hex_digit(digits[n - 1 - k]) {
            Some(d) => d,
            None => {
                return Err(SignalError::InvalidMask);
            },
        };
        let ghost before = v@;
        let ghost added = digit_signals(d as nat, k as nat);
        assert(low_signals(digits@, (k + 1) as nat) == low_signals(digits@, k as nat) + added);
        if d != 0 {
            if k > LAST_FULL_DIGIT + 1 {
                proof {
                    assert(added.len() > 0 && added[0] > u32::MAX);
                    lemma_low_signals_stay(digits@, (k + 1) as nat, n as nat);
                    let at = low_signals(digits@, k as nat).len() as int;
                    assert(low_signals(digits@, (k + 1) as nat)[at] == added[0]);
                    assert(mask_signals(digits@)[at] == added[0]);
                }
                return Err(SignalError::InvalidMask);
            }
            let base: u32 = 4 * (k as u32);
            if d % 2 == 1 {
                v.push(base + 1);
            }
            if (d / 2) % 2 == 1 {
                v.push(base + 2);
            }
            if (d / 4) % 2 == 1 {
                v.push(base + 3);
            }
            if (d / 8) % 2 == 1 {
                if k > LAST_FULL_DIGIT {
                    proof {
                        let last = added.len() - 1;
                        assert(added[last] > u32::MAX);
                        lemma_low_signals_stay(digits@, (k + 1) as nat, n as nat);
                        let at = low_signals(digits@, k as nat).len() + last;
                        assert(low_signals(digits@, (k + 1) as nat)[at] == added[last]);
                        assert(mask_signals(digits@)[at] == added[last]);
                    }
                    return Err(SignalError::InvalidMask);
                }
                v.push(base + 4);
            }
        }
        assert(numbers(v@) == numbers(before) + added);
        k = k + 1;
    }
    Ok(v)
}

/// Decodes a signal mask: the ascending list of the signal numbers whose
/// bits are set in the hexadecimal bitmap `s`, in which bit 0 stands for
/// signal 1. Whitespace around the digits is ignored, and digits of either
/// case are taken. Fails where another character is left between the
/// digits, or a bit is set whose signal number does not fit in a `u32`.
///
/// A number is in the list exactly when the bit below it is 1 in the integer
/// that the digits stand for, so the list is as long as that integer has
/// bits that are 1, and a mask of zeros gives the empty list.
pub fn get_signals(s: &str) -> (r: Result<Vec<u32>, SignalError>)
    ensures
        match r {
            Ok(v) => decoded(s@) == Some(numbers(v@)),
            Err(e) => e == SignalError::InvalidMask && decoded(s@) is None,
        },
        r matches Ok(v) ==> forall|n: nat|
            numbers(v@).contains(n) <==> (n >= 1 && bit(mask_value(trim(s@)), (n - 1) as nat)),
        r matches Ok(v) ==> strictly_ascending(numbers(v@)),
        r matches Ok(v) ==> v@.len() == popcount(mask_value(trim(s@))),
        (forall|i: int| 0 <= i < s@.len() ==> s@[i] == '0') ==> (r matches Ok(v) && v@.len() == 0),
{
    let chars = chars_of(s);
    let r = decode_text(chars.as_slice());
    proof {
        if let Some(signals) = decoded(s@) {
            assert forall|n: nat| #[trigger]
                signals.contains(n) <==> (n >= 1 && bit(mask_value(trim(s@)), (n - 1) as nat)) by {
                lemma_signal_iff_bit(s@, n);
            }
        }
        lemma_signals_ascending(s@);
        lemma_count_is_popcount(s@);
        if forall|i: int| 0 <= i < s@.len() ==> s@[i] == '0' {
            lemma_zero_mask(s@);
        }
    }
    r
}

/// Decodes a signal mask that is given as its characters.
pub fn decode_text(s: &[char]) -> (r: Result<Vec<u32>, SignalError>)
    ensures
        match r {
            Ok(v) => decoded(s@) == Some(numbers(v@)),
            Err(e) => e == SignalError::InvalidMask && decoded(s@) is None,
        },
{
    let (lo, hi) = trim_bounds(s);
    decode_digits(slice_subrange(s, lo, hi))
}

/// The signal numbers of fewer digits are the first of those of more.
pub proof fn lemma_low_signals_stay(digits: Seq<char>, j: nat, k: nat)
    requires
        j <= k,
    ensures
        low_signals(digits, j).len() <= low_signals(digits, k).len(),
        forall|i: int|
            0 <= i < low_signals(digits, j).len() ==> low_signals(digits, k)[i] == low_signals(
                digits,
                j,
            )[i],
    decreases k,
{
    if j < k {
        lemma_low_signals_stay(digits, j, (k - 1) as nat);
    }
}

} // verus!
