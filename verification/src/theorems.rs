use crate::bits::{
    bit, digit_bit, lemma_bit_of_digits, lemma_popcount_digit, lemma_popcount_of_digits, popcount,
};
use crate::mask::{
    decoded, digit_signals, hex_value, is_hex, is_hex_digit, low_signals, mask_signals, mask_value,
    strictly_ascending,
};
use crate::status::{after_line, after_lines, line_kind, no_masks, MaskKind};
use crate::text::{all_space, lemma_trim_surrounded, trim};
use vstd::arithmetic::power2::lemma_pow2_pos;
use vstd::prelude::*;

verus! {

/// The hexadecimal digit, in lower case, of a value below 16.
pub open spec fn digit_char(d: nat) -> char {
    if d == 0 {
        '0'
    } else if d == 1 {
        '1'
    } else if d == 2 {
        '2'
    } else if d == 3 {
        '3'
    } else if d == 4 {
        '4'
    } else if d == 5 {
        '5'
    } else if d == 6 {
        '6'
    } else if d == 7 {
        '7'
    } else if d == 8 {
        '8'
    } else if d == 9 {
        '9'
    } else if d == 10 {
        'a'
    } else if d == 11 {
        'b'
    } else if d == 12 {
        'c'
    } else if d == 13 {
        'd'
    } else if d == 14 {
        'e'
    } else {
        'f'
    }
}

/// The value of the digit that stands `k` digits from the right in the
/// mask of the set `signals`: bit `b` of it is 1 exactly when signal
/// `4k + b + 1` is in the set.
pub open spec fn encoded_digit(signals: Set<nat>, k: nat) -> nat {
    (if signals.contains(4 * k + 1) {
        1nat
    } else {
        0nat
    }) + (if signals.contains(4 * k + 2) {
        2nat
    } else {
        0nat
    }) + (if signals.contains(4 * k + 3) {
        4nat
    } else {
        0nat
    }) + (if signals.contains(4 * k + 4) {
        8nat
    } else {
        0nat
    })
}

/// The mask of the set `signals`, written with `width` hexadecimal digits.
pub open spec fn encoded(signals: Set<nat>, width: nat) -> Seq<char> {
    Seq::new(width, |i: int| digit_char(encoded_digit(signals, (width - 1 - i) as nat)))
}

/// A number is among the signals that a mask decodes to exactly when it is
/// at least 1 and the bit below it is 1 in the integer that the digits of
/// the mask stand for.
pub proof fn lemma_signal_iff_bit(s: Seq<char>, n: nat)
    ensures
        decoded(s) matches Some(signals) ==> (signals.contains(n) <==> (n >= 1 && bit(
            mask_value(trim(s)),
            (n - 1) as nat,
        ))),
{
    let digits = trim(s);
    lemma_low_signals_contain(digits, digits.len(), n);
    if n >= 1 {
        lemma_bit_of_mask(digits, (n - 1) as nat);
    }
}

/// The signals that a mask decodes to come in strictly ascending order.
pub proof fn lemma_signals_ascending(s: Seq<char>)
    ensures
        decoded(s) matches Some(signals) ==> strictly_ascending(signals),
{
    lemma_low_signals_ascending(trim(s), trim(s).len());
}

/// A mask decodes to as many signals as the integer that its digits stand
/// for has bits that are 1.
pub proof fn lemma_count_is_popcount(s: Seq<char>)
    ensures
        decoded(s) matches Some(signals) ==> signals.len() == popcount(mask_value(trim(s))),
{
    lemma_digits_count(trim(s));
}

/// A mask of zeros, of any length, decodes to no signal; so does the empty
/// mask, which is the one of length 0.
pub proof fn lemma_zero_mask(zeros: Seq<char>)
    requires
        forall|i: int| 0 <= i < zeros.len() ==> zeros[i] == '0',
    ensures
        decoded(zeros) == Some(Seq::<nat>::empty()),
{
    lemma_trim_keeps_digits(zeros);
    lemma_low_signals_of_zeros(zeros, zeros.len());
}

/// Whitespace before and after a mask does not change what it decodes to.
pub proof fn lemma_decoded_ignores_space(before: Seq<char>, s: Seq<char>, after: Seq<char>)
    requires
        all_space(before),
        all_space(after),
    ensures
        decoded(before + s + after) == decoded(s),
{
    lemma_trim_surrounded(before, s, after);
}

/// Writing a set of signal numbers from 1 to `4 * width` as a mask of
/// `width` digits and decoding that mask gives the numbers of the set, in
/// ascending order. The numbers have to fit in a `u32`: a mask with a
/// larger one does not decode.
pub proof fn lemma_round_trip(signals: Set<nat>, width: nat)
    requires
        forall|n: nat| signals.contains(n) ==> 1 <= n <= 4 * width && n <= u32::MAX,
    ensures
        encoded(signals, width).len() == width,
        is_hex(encoded(signals, width)),
        decoded(encoded(signals, width)) matches Some(list) && strictly_ascending(list)
            && forall|n: nat| list.contains(n) <==> signals.contains(n),
{
    let digits = encoded(signals, width);
    let list = mask_signals(digits);
    lemma_low_signals_ascending(digits, width);
    lemma_trim_keeps_digits(digits);
    assert forall|n: nat| list.contains(n) <==> signals.contains(n) by {
        lemma_low_signals_contain(digits, width, n);
        if 1 <= n <= 4 * width {
            let k = ((n - 1) / 4) as nat;
            assert(digits[width - 1 - k] == digit_char(encoded_digit(signals, k)));
        }
    }
    assert forall|i: int| 0 <= i < list.len() implies #[trigger] list[i] <= u32::MAX by {
        assert(list.contains(list[i]));
    }
}

/// A line of a status record that holds a mask which does not decode.
pub open spec fn bad_line(line: Seq<char>) -> bool {
    line_kind(line) matches Some(kind) && decoded(line.skip(kind.key().len() as int)) is None
}

/// Reading a status record fails exactly when one of its lines holds a mask
/// that does not decode.
pub proof fn lemma_record_fails_iff_bad_line(masks: Map<MaskKind, Seq<nat>>, lines: Seq<Seq<char>>)
    ensures
        after_lines(masks, lines) is None <==> exists|i: int|
            0 <= i < lines.len() && bad_line(#[trigger] lines[i]),
    decreases lines.len(),
{
    if lines.len() > 0 {
        let rest = lines.drop_first();
        if bad_line(lines[0]) {
        } else {
            let next = after_line(masks, lines.first())->0;
            lemma_record_fails_iff_bad_line(next, rest);
            if after_lines(masks, lines) is None {
                let i = choose|i: int| 0 <= i < rest.len() && bad_line(#[trigger] rest[i]);
                assert(bad_line(lines[i + 1]));
            }
            if exists|i: int| 0 <= i < lines.len() && bad_line(#[trigger] lines[i]) {
                let i = choose|i: int| 0 <= i < lines.len() && bad_line(#[trigger] lines[i]);
                assert(bad_line(rest[i - 1]));
            }
        }
    }
}

/// Lines that do not hold a mask leave that mask as it was. So a mask that
/// no line of a record holds is empty in the record's snapshot.
pub proof fn lemma_absent_mask_stays(
    masks: Map<MaskKind, Seq<nat>>,
    lines: Seq<Seq<char>>,
    kind: MaskKind,
)
    requires
        forall|i: int| 0 <= i < lines.len() ==> line_kind(#[trigger] lines[i]) != Some(kind),
    ensures
        after_lines(masks, lines) matches Some(read) ==> read[kind] == masks[kind],
        after_lines(no_masks(), lines) matches Some(read) ==> read[kind] == Seq::<nat>::empty(),
    decreases lines.len(),
{
    if lines.len() > 0 {
        let rest = lines.drop_first();
        assert(line_kind(lines[0]) != Some(kind));
        assert forall|i: int| 0 <= i < rest.len() implies line_kind(#[trigger] rest[i]) != Some(
            kind,
        ) by {
            assert(rest[i] == lines[i + 1]);
        }
        if let Some(next) = after_line(masks, lines.first()) {
            lemma_absent_mask_stays(next, rest, kind);
        }
        if let Some(next) = after_line(no_masks(), lines.first()) {
            lemma_absent_mask_stays(next, rest, kind);
        }
    }
}

/// Of the lines of a record that hold one mask, the last one counts: the
/// snapshot has for that mask what follows the key in that line, decoded.
pub proof fn lemma_last_line_counts(
    masks: Map<MaskKind, Seq<nat>>,
    lines: Seq<Seq<char>>,
    kind: MaskKind,
    last: int,
)
    requires
        0 <= last < lines.len(),
        line_kind(lines[last]) == Some(kind),
        forall|i: int| last < i < lines.len() ==> line_kind(#[trigger] lines[i]) != Some(kind),
    ensures
        after_lines(masks, lines) matches Some(read) ==> decoded(
            lines[last].skip(kind.key().len() as int),
        ) == Some(read[kind]),
    decreases lines.len(),
{
    let rest = lines.drop_first();
    if let Some(next) = after_line(masks, lines.first()) {
        if last == 0 {
            assert forall|i: int| 0 <= i < rest.len() implies line_kind(#[trigger] rest[i])
                != Some(kind) by {
                assert(rest[i] == lines[i + 1]);
            }
            lemma_absent_mask_stays(next, rest, kind);
        } else {
            assert(rest[last - 1] == lines[last]);
            assert forall|i: int| last - 1 < i < rest.len() implies line_kind(
                #[trigger] rest[i],
            ) != Some(kind) by {
                assert(rest[i] == lines[i + 1]);
            }
            lemma_last_line_counts(next, rest, kind, last - 1);
        }
    }
}

/// Which numbers the digit `k` places from the right contributes.
proof fn lemma_digit_signals_contain(d: nat, k: nat, n: nat)
    ensures
        digit_signals(d, k).contains(n) <==> (4 * k + 1 <= n <= 4 * k + 4 && digit_bit(
            d,
            (n - 4 * k - 1) as nat,
        )),
{
    let s0 = if d % 2 == 1 {
        seq![4 * k + 1]
    } else {
        Seq::empty()
    };
    let s1 = if (d / 2) % 2 == 1 {
        seq![4 * k + 2]
    } else {
        Seq::empty()
    };
    let s2 = if (d / 4) % 2 == 1 {
        seq![4 * k + 3]
    } else {
        Seq::empty()
    };
    let s3 = if (d / 8) % 2 == 1 {
        seq![4 * k + 4]
    } else {
        Seq::empty()
    };
    lemma_contains_concat(s0, s1, n);
    lemma_contains_concat(s0 + s1, s2, n);
    lemma_contains_concat(s0 + s1 + s2, s3, n);
    lemma_contains_one(d % 2 == 1, 4 * k + 1, n);
    lemma_contains_one((d / 2) % 2 == 1, 4 * k + 2, n);
    lemma_contains_one((d / 4) % 2 == 1, 4 * k + 3, n);
    lemma_contains_one((d / 8) % 2 == 1, 4 * k + 4, n);
}

/// What a sequence of at most one number contains.
proof fn lemma_contains_one(present: bool, x: nat, n: nat)
    ensures
        (if present {
            seq![x]
        } else {
            Seq::empty()
        }).contains(n) <==> (present && x == n),
{
    if present && x == n {
        assert(seq![x][0] == n);
    }
}

/// What a concatenation contains.
proof fn lemma_contains_concat(a: Seq<nat>, b: Seq<nat>, n: nat)
    ensures
        (a + b).contains(n) <==> (a.contains(n) || b.contains(n)),
{
    if a.contains(n) {
        let j = choose|j: int| 0 <= j < a.len() && a[j] == n;
        assert((a + b)[j] == n);
    }
    if b.contains(n) {
        let j = choose|j: int| 0 <= j < b.len() && b[j] == n;
        assert((a + b)[a.len() + j] == n);
    }
    if (a + b).contains(n) {
        let j = choose|j: int| 0 <= j < (a + b).len() && (a + b)[j] == n;
        if j < a.len() {
            assert(a[j] == n);
        } else {
            assert(b[j - a.len()] == n);
        }
    }
}

/// Which numbers the `k` rightmost digits contribute: those from 1 to
/// `4 * k` whose bit is 1 in the digit that holds it.
proof fn lemma_low_signals_contain(digits: Seq<char>, k: nat, n: nat)
    requires
        k <= digits.len(),
    ensures
        low_signals(digits, k).contains(n) <==> (1 <= n <= 4 * k && digit_bit(
            hex_value(digits[digits.len() - 1 - (n - 1) / 4]),
            ((n - 1) % 4) as nat,
        )),
    decreases k,
{
    if k > 0 {
        let d = hex_value(digits[digits.len() - k]);
        lemma_low_signals_contain(digits, (k - 1) as nat, n);
        lemma_digit_signals_contain(d, (k - 1) as nat, n);
        lemma_contains_concat(
            low_signals(digits, (k - 1) as nat),
            digit_signals(d, (k - 1) as nat),
            n,
        );
    }
}

/// Bit `i` of the integer of a mask is bit `i % 4` of the digit that
/// stands `i / 4` places from the right.
proof fn lemma_bit_of_mask(digits: Seq<char>, i: nat)
    ensures
        bit(mask_value(digits), i) == (i < 4 * digits.len() && digit_bit(
            hex_value(digits[digits.len() - 1 - i / 4]),
            i % 4,
        )),
    decreases digits.len(),
{
    if digits.len() == 0 {
        lemma_pow2_pos(i);
    } else {
        let rest = digits.drop_last();
        lemma_bit_of_digits(mask_value(rest), hex_value(digits.last()), i);
        if i >= 4 {
            lemma_bit_of_mask(rest, (i - 4) as nat);
        }
    }
}

/// The numbers that one digit contributes ascend, and lie in the digit's
/// range.
proof fn lemma_digit_signals_ascending(d: nat, k: nat)
    ensures
        strictly_ascending(digit_signals(d, k)),
        forall|i: int|
            0 <= i < digit_signals(d, k).len() ==> 4 * k + 1 <= #[trigger] digit_signals(d, k)[i]
                <= 4 * k + 4,
{
}

/// The numbers that the `k` rightmost digits contribute ascend, from 1 to
/// `4 * k` at most.
proof fn lemma_low_signals_ascending(digits: Seq<char>, k: nat)
    ensures
        strictly_ascending(low_signals(digits, k)),
        forall|i: int|
            0 <= i < low_signals(digits, k).len() ==> 1 <= #[trigger] low_signals(digits, k)[i]
                <= 4 * k,
    decreases k,
{
    if k > 0 {
        let d = hex_value(digits[digits.len() - k]);
        lemma_low_signals_ascending(digits, (k - 1) as nat);
        lemma_digit_signals_ascending(d, (k - 1) as nat);
    }
}

/// How many numbers one digit contributes.
proof fn lemma_digit_signals_len(d: nat, k: nat)
    ensures
        digit_signals(d, k).len() == d % 2 + (d / 2) % 2 + (d / 4) % 2 + (d / 8) % 2,
{
}

/// A mask has as many signals as its last digit and the digits before it
/// have together.
proof fn lemma_low_signals_of_longer(digits: Seq<char>, k: nat)
    requires
        1 <= k <= digits.len(),
    ensures
        low_signals(digits, k).len() == low_signals(digits.drop_last(), (k - 1) as nat).len()
            + digit_signals(hex_value(digits.last()), 0).len(),
    decreases k,
{
    if k > 1 {
        let d = hex_value(digits[digits.len() - k]);
        lemma_low_signals_of_longer(digits, (k - 1) as nat);
        lemma_digit_signals_len(d, (k - 1) as nat);
        lemma_digit_signals_len(d, (k - 2) as nat);
        assert(digits.drop_last()[digits.len() - k] == digits[digits.len() - k]);
    } else {
        assert(low_signals(digits, 0).len() == 0);
        assert(low_signals(digits.drop_last(), 0).len() == 0);
    }
}

/// Digits have as many signals as the integer that they stand for has
/// bits that are 1.
proof fn lemma_digits_count(digits: Seq<char>)
    ensures
        mask_signals(digits).len() == popcount(mask_value(digits)),
    decreases digits.len(),
{
    if digits.len() > 0 {
        let d = hex_value(digits.last());
        lemma_low_signals_of_longer(digits, digits.len());
        lemma_digits_count(digits.drop_last());
        lemma_digit_signals_len(d, 0);
        lemma_popcount_digit(d);
        lemma_popcount_of_digits(mask_value(digits.drop_last()), d);
    }
}

/// Digits that are all `0` contribute no signal.
proof fn lemma_low_signals_of_zeros(digits: Seq<char>, k: nat)
    requires
        k <= digits.len(),
        forall|i: int| 0 <= i < digits.len() ==> digits[i] == '0',
    ensures
        low_signals(digits, k) == Seq::<nat>::empty(),
    decreases k,
{
    if k > 0 {
        lemma_low_signals_of_zeros(digits, (k - 1) as nat);
    }
}

/// Trimming leaves hexadecimal digits as they are.
proof fn lemma_trim_keeps_digits(digits: Seq<char>)
    requires
        is_hex(digits),
    ensures
        trim(digits) == digits,
{
    if digits.len() > 0 {
        assert(is_hex_digit(digits.first()));
        assert(is_hex_digit(digits.last()));
    }
}

} // verus!
