use sigmask::error::SignalError;
use sigmask::mask::{decode_digits, decode_text, get_signals, hex_digit};

fn bits_of(value: u128) -> Vec<u32> {
    let mut out = Vec::new();
    for i in 0..128u32 {
        if (value >> i) & 1 == 1 {
            out.push(i + 1);
        }
    }
    out
}

#[test]
fn decodes_the_lowest_bit_as_signal_one() {
    assert_eq!(get_signals("0000000000000001"), Ok(vec![1]));
}

#[test]
fn decodes_the_second_bit_as_signal_two() {
    assert_eq!(get_signals("0000000000000002"), Ok(vec![2]));
}

#[test]
fn decodes_bits_on_both_sides_of_the_word_boundary() {
    assert_eq!(get_signals("0000000180000000"), Ok(vec![32, 33]));
}

#[test]
fn decodes_a_full_mask_as_all_sixty_four_signals() {
    let expected: Vec<u32> = (1..=64).collect();
    assert_eq!(get_signals("ffffffffffffffff"), Ok(expected));
}

#[test]
fn decodes_bit_sixteen_as_signal_seventeen() {
    assert_eq!(get_signals("0000000000010000"), Ok(vec![17]));
}

#[test]
fn decodes_a_caught_mask_with_two_signals() {
    assert_eq!(get_signals("0000000000004002"), Ok(vec![2, 15]));
}

#[test]
fn rejects_characters_that_are_no_hex_digits() {
    assert_eq!(get_signals("00xx"), Err(SignalError::InvalidMask));
    assert_eq!(get_signals("0x1f"), Err(SignalError::InvalidMask));
    assert_eq!(get_signals("+1"), Err(SignalError::InvalidMask));
    assert_eq!(get_signals("-1"), Err(SignalError::InvalidMask));
    assert_eq!(get_signals("g"), Err(SignalError::InvalidMask));
    assert_eq!(get_signals("G"), Err(SignalError::InvalidMask));
    assert_eq!(get_signals("/"), Err(SignalError::InvalidMask));
    assert_eq!(get_signals(":"), Err(SignalError::InvalidMask));
    assert_eq!(get_signals("@"), Err(SignalError::InvalidMask));
    assert_eq!(get_signals("`"), Err(SignalError::InvalidMask));
    assert_eq!(get_signals("\u{e9}"), Err(SignalError::InvalidMask));
}

#[test]
fn rejects_whitespace_between_digits() {
    assert_eq!(get_signals("00 01"), Err(SignalError::InvalidMask));
    assert_eq!(get_signals("1\t1"), Err(SignalError::InvalidMask));
}

#[test]
fn decodes_the_empty_mask_as_no_signal() {
    assert_eq!(get_signals(""), Ok(vec![]));
}

#[test]
fn decodes_whitespace_alone_as_no_signal() {
    assert_eq!(get_signals(" \t\n"), Ok(vec![]));
}

#[test]
fn decodes_zeros_of_any_length_as_no_signal() {
    for k in 0..200 {
        assert_eq!(get_signals(&"0".repeat(k)), Ok(vec![]));
    }
}

#[test]
fn ignores_whitespace_around_the_mask() {
    let bare = get_signals("0000000000004002");
    assert_eq!(get_signals("\t0000000000004002"), bare);
    assert_eq!(get_signals("0000000000004002\n"), bare);
    assert_eq!(get_signals(" \t 0000000000004002 \r\n"), bare);
    assert_eq!(get_signals("\u{a0}0000000000004002\u{3000}"), bare);
    assert_eq!(get_signals(" 00xx "), get_signals("00xx"));
}

#[test]
fn takes_digits_of_either_case() {
    assert_eq!(get_signals("ABCDEF"), get_signals("abcdef"));
    assert_eq!(get_signals("aBcDeF"), get_signals("abcdef"));
    assert_eq!(get_signals("F"), Ok(vec![1, 2, 3, 4]));
}

#[test]
fn decodes_each_digit_by_its_bits() {
    let digits = "0123456789abcdef";
    for (value, digit) in digits.chars().enumerate() {
        let mut expected = Vec::new();
        if value & 1 != 0 {
            expected.push(1);
        }
        if value & 2 != 0 {
            expected.push(2);
        }
        if value & 4 != 0 {
            expected.push(3);
        }
        if value & 8 != 0 {
            expected.push(4);
        }
        assert_eq!(get_signals(&digit.to_string()), Ok(expected));
    }
}

#[test]
fn numbers_the_signals_of_a_digit_by_its_place() {
    assert_eq!(get_signals("a"), Ok(vec![2, 4]));
    assert_eq!(get_signals("a0"), Ok(vec![6, 8]));
    assert_eq!(get_signals("a00"), Ok(vec![10, 12]));
    assert_eq!(get_signals("5a"), Ok(vec![2, 4, 5, 7]));
}

#[test]
fn decodes_masks_longer_than_sixty_four_bits() {
    assert_eq!(get_signals("10000000000000000"), Ok(vec![65]));
    let mut long = String::from("8");
    long.push_str(&"0".repeat(99));
    assert_eq!(get_signals(&long), Ok(vec![400]));
}

#[test]
fn holds_a_signal_exactly_when_its_bit_is_set() {
    let samples: [u128; 8] = [
        0,
        1,
        0x4002,
        0x180000000,
        0xffff_ffff_ffff_ffff,
        0x8000_0000_0000_0000,
        0x0123_4567_89ab_cdef,
        0xdead_beef_0000_f00d_1234_5678_9abc_def0,
    ];
    for value in samples {
        let mask = format!("{:x}", value);
        let signals = get_signals(&mask).unwrap();
        for n in 1..=130u32 {
            let set = n <= 128 && (value >> (n - 1)) & 1 == 1;
            assert_eq!(signals.contains(&n), set);
        }
        assert!(!signals.contains(&0));
    }
}

#[test]
fn lists_signals_in_strictly_ascending_order() {
    for mask in ["ffffffffffffffff", "0123456789abcdef", "8000000000000001", "f0f0"] {
        let signals = get_signals(mask).unwrap();
        for pair in signals.windows(2) {
            assert!(pair[0] < pair[1]);
        }
    }
}

#[test]
fn lists_as_many_signals_as_bits_are_set() {
    for mask in ["0", "ffffffffffffffff", "0123456789abcdef", "8000000000000001", "f0f0", ""] {
        let value = u64::from_str_radix(if mask.is_empty() { "0" } else { mask }, 16).unwrap();
        assert_eq!(get_signals(mask).unwrap().len(), value.count_ones() as usize);
    }
}

#[test]
fn decodes_an_encoded_set_back_to_the_set() {
    let sets: [&[u32]; 5] = [&[], &[1], &[64], &[2, 15], &[1, 9, 10, 11, 31, 32, 33, 64]];
    for set in sets {
        let mut value: u64 = 0;
        for n in set {
            value |= 1u64 << (n - 1);
        }
        assert_eq!(get_signals(&format!("{:016x}", value)), Ok(set.to_vec()));
        assert_eq!(get_signals(&format!("{:016X}", value)), Ok(set.to_vec()));
    }
    for value in [0u128, 5, 0xffff, 0x8000_0000_0000_0000_0000_0000_0000_0001] {
        assert_eq!(get_signals(&format!("{:032x}", value)), Ok(bits_of(value)));
    }
}

#[test]
fn gives_each_hex_digit_its_value() {
    for (value, digit) in "0123456789abcdef".chars().enumerate() {
        assert_eq!(hex_digit(digit), Some(value as u8));
    }
    for (value, digit) in "ABCDEF".chars().enumerate() {
        assert_eq!(hex_digit(digit), Some(value as u8 + 10));
    }
    for other in ['g', 'G', ' ', '/', ':', '@', '`', '\u{ff10}'] {
        assert_eq!(hex_digit(other), None);
    }
}

#[test]
fn decodes_digits_without_trimming() {
    let digits: Vec<char> = "4002".chars().collect();
    assert_eq!(decode_digits(&digits), Ok(vec![2, 15]));
    let padded: Vec<char> = " 4002".chars().collect();
    assert_eq!(decode_digits(&padded), Err(SignalError::InvalidMask));
    assert_eq!(decode_text(&padded), Ok(vec![2, 15]));
    assert_eq!(decode_digits(&[]), Ok(vec![]));
}
