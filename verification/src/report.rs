use crate::error::SignalError;
use crate::mask::{decoded, get_signals, numbers};
use crate::namer::{named, printable_name, shown, signal_name};
use crate::status::{MaskKind, StatusSnapshot};
use vstd::prelude::*;
use vstd::string::StringExecFns;
use vstd::utf8::valid_utf8;

verus! {

/// One step of writing the tool's output.
#[derive(Debug, PartialEq, Eq)]
pub enum Step {
    /// Print the line.
    Print(String),
    /// Look up the name of the signal with this number, and print it unless
    /// the host has no signal for the number.
    Lookup(u32),
}

/// One step of writing the tool's output, with the line as a sequence of
/// characters.
pub enum StepView {
    /// Print the line.
    Print(Seq<char>),
    /// Look up the name of the signal with this number, and print it unless
    /// the host has no signal for the number.
    Lookup(nat),
}

impl View for Step {
    type V = StepView;

    open spec fn view(&self) -> StepView {
        match self {
            Step::Print(line) => StepView::Print(line@),
            Step::Lookup(signal) => StepView::Lookup(*signal as nat),
        }
    }
}

/// The steps as their views.
pub open spec fn plan(steps: Seq<Step>) -> Seq<StepView> {
    steps.map_values(|step: Step| step@)
}

/// The line that tells how the tool is called.
pub open spec fn usage_line(program: Seq<char>) -> Seq<char> {
    "Usage: "@ + program + " <PID>"@
}

/// The line that stands above the signals of one mask of a process.
pub open spec fn header_line(kind: MaskKind, pid: Seq<char>) -> Seq<char> {
    (match kind {
        MaskKind::Caught => "Signals caught by "@,
        MaskKind::Ignored => "Signals ignored by "@,
        MaskKind::Blocked => "Signals blocked by "@,
        MaskKind::Pending => "Signals pending for "@,
        MaskKind::SharedPending => "Signals pending for the whole process of "@,
    }) + pid + ":"@
}

/// A lookup for each of the signals, in their order.
pub open spec fn lookups(signals: Seq<nat>) -> Seq<StepView> {
    signals.map_values(|signal: nat| StepView::Lookup(signal))
}

/// The steps that write one mask of a process: its header, then a lookup
/// for each of its signals.
pub open spec fn section(kind: MaskKind, pid: Seq<char>, masks: Map<MaskKind, Seq<nat>>) -> Seq<
    StepView,
> {
    seq![StepView::Print(header_line(kind, pid))] + lookups(masks[kind])
}

/// The steps that write the masks of a process: the signals caught,
/// ignored, blocked, pending for the thread and pending for the whole
/// process, in this order.
pub open spec fn sections(pid: Seq<char>, masks: Map<MaskKind, Seq<nat>>) -> Seq<StepView> {
    section(MaskKind::Caught, pid, masks) + section(MaskKind::Ignored, pid, masks) + section(
        MaskKind::Blocked,
        pid,
        masks,
    ) + section(MaskKind::Pending, pid, masks) + section(MaskKind::SharedPending, pid, masks)
}

/// The line that tells how the tool is called.
pub fn usage(program: &str) -> (r: String)
    ensures
        r@ == usage_line(program@),
{
    let mut line = String::from_str("Usage: ");
    line.append(program);
    line.append(" <PID>");
    line
}

/// The line that stands above the signals of one mask of the process that
/// `pid` names.
pub fn section_header(kind: MaskKind, pid: &str) -> (r: String)
    ensures
        r@ == header_line(kind, pid@),
{
    let mut line = String::from_str(
        match kind {
            MaskKind::Caught => "Signals caught by ",
            MaskKind::Ignored => "Signals ignored by ",
            MaskKind::Blocked => "Signals blocked by ",
            MaskKind::Pending => "Signals pending for ",
            MaskKind::SharedPending => "Signals pending for the whole process of ",
        },
    );
    line.append(pid);
    line.append(":");
    line
}

/// Adds a lookup for each of the signals to the steps.
fn push_lookups(steps: &mut Vec<Step>, signals: &Vec<u32>)
    ensures
        plan(final(steps)@) == plan(old(steps)@) + lookups(numbers(signals@)),
{
    let n: usize = signals.len();
    let mut i: usize = 0;
    assert(plan(steps@) == plan(old(steps)@) + lookups(numbers(signals@).take(0)));
    while i < n
        invariant
            i <= n == signals@.len(),
            plan(steps@) == plan(old(steps)@) + lookups(numbers(signals@).take(i as int)),
        decreases n - i,
    {
        let ghost before = steps@;
        steps.push(Step::Lookup(signals[i]));
        assert(plan(steps@) == plan(before).push(StepView::Lookup(signals@[i as int] as nat)));
        assert(lookups(numbers(signals@).take(i + 1)) == lookups(
            numbers(signals@).take(i as int),
        ).push(StepView::Lookup(signals@[i as int] as nat)));
        i = i + 1;
    }
    assert(numbers(signals@).take(n as int) == numbers(signals@));
}

/// Adds the steps that write one mask of a process.
fn push_section(steps: &mut Vec<Step>, kind: MaskKind, pid: &str, snapshot: &StatusSnapshot)
    ensures
        plan(final(steps)@) == plan(old(steps)@) + section(kind, pid@, snapshot@),
{
    let ghost before = steps@;
    steps.push(Step::Print(section_header(kind, pid)));
    assert(plan(steps@) == plan(before) + seq![StepView::Print(header_line(kind, pid@))]);
    push_lookups(steps, snapshot.signals(kind));
}

/// The steps of giving help: the line that tells how the tool is called.
pub fn help_plan(program: &str) -> (r: Vec<Step>)
    ensures
        plan(r@) == seq![StepView::Print(usage_line(program@))],
{
    let mut steps: Vec<Step> = Vec::new();
    steps.push(Step::Print(usage(program)));
    assert(plan(steps@) == seq![StepView::Print(usage_line(program@))]);
    steps
}

/// The steps of decoding a mask: a lookup for each of its signals, in
/// ascending order. Fails where the mask does not decode.
pub fn decode_plan(mask: &str) -> (r: Result<Vec<Step>, SignalError>)
    ensures
        match r {
            Ok(steps) => decoded(mask@) matches Some(signals) && plan(steps@) == lookups(signals),
            Err(e) => e == SignalError::InvalidMask && decoded(mask@) is None,
        },
{
    match get_signals(mask) {
        Ok(signals) => {
            let mut steps: Vec<Step> = Vec::new();
            push_lookups(&mut steps, &signals);
            Ok(steps)
        },
        Err(e) => Err(e),
    }
}

/// The steps of writing the masks of the process that `pid` names: five
/// sections, each a header and then a lookup for each signal of its mask.
pub fn inspect_plan(pid: &str, snapshot: &StatusSnapshot) -> (r: Vec<Step>)
    ensures
        plan(r@) == sections(pid@, snapshot@),
{
    let mut steps: Vec<Step> = Vec::new();
    push_section(&mut steps, MaskKind::Caught, pid, snapshot);
    push_section(&mut steps, MaskKind::Ignored, pid, snapshot);
    push_section(&mut steps, MaskKind::Blocked, pid, snapshot);
    push_section(&mut steps, MaskKind::Pending, pid, snapshot);
    push_section(&mut steps, MaskKind::SharedPending, pid, snapshot);
    steps
}

/// The line to print for one lookup, given what the signal enumeration
/// utility reported for the number: the signal's name, or nothing for a
/// number that the host has no signal for. Fails where the lookup failed.
pub fn name_line(success: bool, printed: Vec<u8>) -> (r: Result<Option<String>, SignalError>)
    ensures
        match r {
            Ok(Some(line)) => success && valid_utf8(printed@) && shown(named(printed@)) == Some(
                line@,
            ),
            Ok(None) => success && valid_utf8(printed@) && shown(named(printed@)) is None,
            Err(e) => e == SignalError::NameLookupFailed && !(success && valid_utf8(printed@)),
        },
{
    match signal_name(success, printed) {
        Ok(name) => Ok(printable_name(name.as_str())),
        Err(e) => Err(e),
    }
}

} // verus!
