use sigmask::text::{chars_of, has_prefix, is_space_char, trim_bounds};

fn chars(s: &str) -> Vec<char> {
    s.chars().collect()
}

fn trimmed(s: &str) -> String {
    let v = chars(s);
    let (lo, hi) = trim_bounds(&v);
    v[lo..hi].iter().collect()
}

#[test]
fn lists_the_characters_of_a_text() {
    assert_eq!(chars_of(""), Vec::<char>::new());
    assert_eq!(chars_of("a\u{e9}\u{1f600}z"), vec!['a', '\u{e9}', '\u{1f600}', 'z']);
}

#[test]
fn knows_whitespace_as_the_standard_library_does() {
    for code in 0..=0x10ffffu32 {
        if let Some(c) = char::from_u32(code) {
            assert_eq!(is_space_char(c), c.is_whitespace());
        }
    }
}

#[test]
fn trims_as_the_standard_library_does() {
    for s in [
        "",
        " ",
        "\t\n",
        "a",
        " a",
        "a ",
        "  a b  ",
        "\u{a0}SIGHUP\u{2003}\n",
        "\tword\r\n",
        " \u{e9} ",
        "a\u{3000}",
    ] {
        assert_eq!(trimmed(s), s.trim());
    }
}

#[test]
fn gives_the_bounds_of_the_trimmed_text() {
    assert_eq!(trim_bounds(&chars("  ab ")), (2, 4));
    assert_eq!(trim_bounds(&chars("ab")), (0, 2));
    let (lo, hi) = trim_bounds(&chars("   "));
    assert_eq!(lo, hi);
    assert_eq!(trim_bounds(&[]), (0, 0));
}

#[test]
fn tells_whether_a_text_begins_with_another() {
    assert!(has_prefix(&chars("SigCgt:\t1"), &chars("SigCgt:")));
    assert!(has_prefix(&chars("abc"), &chars("abc")));
    assert!(has_prefix(&chars("abc"), &[]));
    assert!(!has_prefix(&chars("ab"), &chars("abc")));
    assert!(!has_prefix(&chars("xbc"), &chars("abc")));
    assert!(!has_prefix(&chars("abx"), &chars("abc")));
    assert!(!has_prefix(&[], &chars("a")));
}
