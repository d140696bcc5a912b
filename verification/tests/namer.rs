use sigmask::error::SignalError;
use sigmask::mask::get_signals;
use sigmask::namer::{printable_name, signal_name};

#[test]
fn names_signal_one_as_the_utility_reports_it() {
    assert_eq!(get_signals("0000000000000001"), Ok(vec![1]));
    let name = signal_name(true, b"HUP\n".to_vec()).unwrap();
    assert_eq!(name, "SIGHUP\n");
    assert_eq!(printable_name(&name), Some(String::from("SIGHUP")));
}

#[test]
fn names_signal_two_as_the_utility_reports_it() {
    assert_eq!(get_signals("0000000000000002"), Ok(vec![2]));
    let name = signal_name(true, b"INT\n".to_vec()).unwrap();
    assert_eq!(printable_name(&name), Some(String::from("SIGINT")));
}

#[test]
fn puts_the_prefix_before_the_abbreviation() {
    assert_eq!(signal_name(true, b"TERM".to_vec()), Ok(String::from("SIGTERM")));
    assert_eq!(signal_name(true, b"".to_vec()), Ok(String::from("SIG")));
    assert_eq!(signal_name(true, b"RTMIN+1\n".to_vec()), Ok(String::from("SIGRTMIN+1\n")));
}

#[test]
fn decodes_the_printed_bytes_as_utf8() {
    assert_eq!(signal_name(true, vec![0xc3, 0xa9]), Ok(String::from("SIG\u{e9}")));
    assert_eq!(
        signal_name(true, vec![0xf0, 0x9f, 0x98, 0x80, b'\n']),
        Ok(String::from("SIG\u{1f600}\n"))
    );
}

#[test]
fn fails_when_the_utility_failed() {
    assert_eq!(signal_name(false, b"HUP\n".to_vec()), Err(SignalError::NameLookupFailed));
    assert_eq!(signal_name(false, Vec::new()), Err(SignalError::NameLookupFailed));
    assert_eq!(signal_name(false, vec![0xff]), Err(SignalError::NameLookupFailed));
}

#[test]
fn fails_when_the_utility_printed_no_text() {
    assert_eq!(signal_name(true, vec![0xff]), Err(SignalError::NameLookupFailed));
    assert_eq!(signal_name(true, vec![b'H', 0xc3]), Err(SignalError::NameLookupFailed));
    assert_eq!(signal_name(true, vec![0xed, 0xa0, 0x80]), Err(SignalError::NameLookupFailed));
    assert_eq!(signal_name(true, vec![0xc0, 0x80]), Err(SignalError::NameLookupFailed));
}

#[test]
fn drops_names_no_longer_than_the_prefix() {
    assert_eq!(printable_name("SIG"), None);
    assert_eq!(printable_name("SIG\n"), None);
    assert_eq!(printable_name("  SIG \t"), None);
    assert_eq!(printable_name(""), None);
    assert_eq!(printable_name("   "), None);
    assert_eq!(printable_name("abc"), None);
    assert_eq!(printable_name("\u{e9}"), None);
}

#[test]
fn shows_longer_names_without_the_whitespace_around_them() {
    assert_eq!(printable_name("SIGX"), Some(String::from("SIGX")));
    assert_eq!(printable_name("SIGTERM\n"), Some(String::from("SIGTERM")));
    assert_eq!(printable_name(" \tSIGUSR1 \r\n"), Some(String::from("SIGUSR1")));
    assert_eq!(printable_name("SIG A\n"), Some(String::from("SIG A")));
    assert_eq!(printable_name("\u{e9}\u{e9}"), Some(String::from("\u{e9}\u{e9}")));
}

#[test]
fn drops_the_unused_names_of_a_full_mask() {
    let signals = get_signals("ffffffffffffffff").unwrap();
    assert_eq!(signals.len(), 64);
    let mut shown = Vec::new();
    for n in signals {
        let printed = if n == 32 || n == 33 { String::from("\n") } else { format!("S{}\n", n) };
        let name = signal_name(true, printed.into_bytes()).unwrap();
        if let Some(line) = printable_name(&name) {
            shown.push(line);
        }
    }
    assert_eq!(shown.len(), 62);
    assert_eq!(shown[0], "SIGS1");
    assert_eq!(shown[30], "SIGS31");
    assert_eq!(shown[31], "SIGS34");
    assert_eq!(shown[61], "SIGS64");
}
