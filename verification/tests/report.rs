use sigmask::error::SignalError;
use sigmask::report::{
    decode_plan, help_plan, inspect_plan, name_line, section_header, usage, Step,
};
use sigmask::status::{read_status, MaskKind, StatusSnapshot};

fn print(line: &str) -> Step {
    Step::Print(String::from(line))
}

#[test]
fn writes_the_usage_line() {
    assert_eq!(usage("sigmask"), "Usage: sigmask <PID>");
    assert_eq!(usage("./a b"), "Usage: ./a b <PID>");
    assert_eq!(usage(""), "Usage:  <PID>");
}

#[test]
fn plans_the_usage_line_as_help() {
    assert_eq!(help_plan("prog"), vec![print("Usage: prog <PID>")]);
}

#[test]
fn writes_the_five_headers() {
    assert_eq!(section_header(MaskKind::Caught, "42"), "Signals caught by 42:");
    assert_eq!(section_header(MaskKind::Ignored, "42"), "Signals ignored by 42:");
    assert_eq!(section_header(MaskKind::Blocked, "42"), "Signals blocked by 42:");
    assert_eq!(section_header(MaskKind::Pending, "42"), "Signals pending for 42:");
    assert_eq!(
        section_header(MaskKind::SharedPending, "42"),
        "Signals pending for the whole process of 42:"
    );
}

#[test]
fn plans_a_lookup_for_each_signal_of_a_mask() {
    assert_eq!(decode_plan("0000000000004002"), Ok(vec![Step::Lookup(2), Step::Lookup(15)]));
    assert_eq!(decode_plan(" f\n"), Ok((1..=4).map(Step::Lookup).collect()));
    assert_eq!(decode_plan(""), Ok(vec![]));
    assert_eq!(decode_plan("0000"), Ok(vec![]));
}

#[test]
fn plans_nothing_for_a_mask_that_does_not_decode() {
    assert_eq!(decode_plan("00xx"), Err(SignalError::InvalidMask));
}

#[test]
fn plans_five_headers_for_a_process_without_signals() {
    assert_eq!(
        inspect_plan("1", &StatusSnapshot::new()),
        vec![
            print("Signals caught by 1:"),
            print("Signals ignored by 1:"),
            print("Signals blocked by 1:"),
            print("Signals pending for 1:"),
            print("Signals pending for the whole process of 1:"),
        ]
    );
}

#[test]
fn plans_each_section_as_its_header_and_its_signals() {
    let record = "SigPnd:\t0000000000000100\nShdPnd:\t0000000000000200\n\
SigBlk:\t0000000000010000\nSigIgn:\t0000000000001006\nSigCgt:\t0000000000004002\n";
    let snapshot = read_status(record).unwrap();
    assert_eq!(
        inspect_plan("4242", &snapshot),
        vec![
            print("Signals caught by 4242:"),
            Step::Lookup(2),
            Step::Lookup(15),
            print("Signals ignored by 4242:"),
            Step::Lookup(2),
            Step::Lookup(3),
            Step::Lookup(13),
            print("Signals blocked by 4242:"),
            Step::Lookup(17),
            print("Signals pending for 4242:"),
            Step::Lookup(9),
            print("Signals pending for the whole process of 4242:"),
            Step::Lookup(10),
        ]
    );
}

#[test]
fn plans_the_caught_section_of_a_record() {
    let snapshot = read_status("SigCgt: 0000000000004002\n").unwrap();
    let steps = inspect_plan("77", &snapshot);
    assert_eq!(steps[..4], [
        print("Signals caught by 77:"),
        Step::Lookup(2),
        Step::Lookup(15),
        print("Signals ignored by 77:"),
    ]);
    assert_eq!(steps.len(), 7);
}

#[test]
fn gives_the_line_to_print_for_a_lookup() {
    assert_eq!(name_line(true, b"USR1\n".to_vec()), Ok(Some(String::from("SIGUSR1"))));
    assert_eq!(name_line(true, b"\n".to_vec()), Ok(None));
    assert_eq!(name_line(true, Vec::new()), Ok(None));
    assert_eq!(name_line(false, b"USR1\n".to_vec()), Err(SignalError::NameLookupFailed));
    assert_eq!(name_line(true, vec![0x80]), Err(SignalError::NameLookupFailed));
}

#[test]
fn describes_each_error() {
    let all = [
        SignalError::UsageError,
        SignalError::StatusUnavailable,
        SignalError::InvalidMask,
        SignalError::NameLookupFailed,
    ];
    for (i, a) in all.iter().enumerate() {
        assert!(!a.describe().is_empty());
        for b in &all[i + 1..] {
            assert_ne!(a.describe(), b.describe());
        }
    }
    assert_eq!(SignalError::InvalidMask.describe(), "the signal mask is not valid");
}
