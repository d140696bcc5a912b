use crate::error::SignalError;
use crate::mask::{decode_text, decoded, numbers};
use crate::text::{chars_of, has_prefix};
use vstd::prelude::*;
use vstd::slice::slice_subrange;

verus! {

/// The five signal masks of a process status record.
#[derive(Clone, Copy, Debug, PartialEq, Eq, Structural)]
pub enum MaskKind {
    /// The signals for which a handler is installed.
    Caught,
    /// The signals that are ignored.
    Ignored,
    /// The signals that the thread blocks.
    Blocked,
    /// The signals that are pending for the thread.
    Pending,
    /// The signals that are pending for the whole process.
    SharedPending,
}

impl MaskKind {
    /// The text that a line of the record begins with when it holds this
    /// mask: the key and the colon after it.
    pub open spec fn key(self) -> Seq<char> {
        match self {
            MaskKind::Caught => "SigCgt:"@,
            MaskKind::Ignored => "SigIgn:"@,
            MaskKind::Blocked => "SigBlk:"@,
            MaskKind::Pending => "SigPnd:"@,
            MaskKind::SharedPending => "ShdPnd:"@,
        }
    }

    /// The text that a line of the record begins with when it holds this
    /// mask.
    pub fn key_text(self) -> (r: &'static str)
        ensures
            r@ == self.key(),
    {
        match self {
            MaskKind::Caught => "SigCgt:",
            MaskKind::Ignored => "SigIgn:",
            MaskKind::Blocked => "SigBlk:",
            MaskKind::Pending => "SigPnd:",
            MaskKind::SharedPending => "ShdPnd:",
        }
    }
}

/// The mask that a line of a status record holds: the first of the five
/// whose key the line begins with, if there is one.
pub open spec fn line_kind(line: Seq<char>) -> Option<MaskKind> {
    if MaskKind::Caught.key().is_prefix_of(line) {
        Some(MaskKind::Caught)
    } else if MaskKind::Ignored.key().is_prefix_of(line) {
        Some(MaskKind::Ignored)
    } else if MaskKind::Blocked.key().is_prefix_of(line) {
        Some(MaskKind::Blocked)
    } else if MaskKind::Pending.key().is_prefix_of(line) {
        Some(MaskKind::Pending)
    } else if MaskKind::SharedPending.key().is_prefix_of(line) {
        Some(MaskKind::SharedPending)
    } else {
        None
    }
}

/// The masks of a record of which no line has been read: all empty.
pub open spec fn no_masks() -> Map<MaskKind, Seq<nat>> {
    Map::new(|kind: MaskKind| true, |kind: MaskKind| Seq::empty())
}

/// The masks after one more line. A line that holds a mask replaces that
/// mask by what follows the key, decoded; any other line changes nothing.
/// There is no result where the line holds a mask that does not decode.
pub open spec fn after_line(masks: Map<MaskKind, Seq<nat>>, line: Seq<char>) -> Option<
    Map<MaskKind, Seq<nat>>,
> {
    match line_kind(line) {
        Some(kind) => match decoded(line.skip(kind.key().len() as int)) {
            Some(signals) => Some(masks.insert(kind, signals)),
            None => None,
        },
        None => Some(masks),
    }
}

/// The masks after the given lines, taken in order.
pub open spec fn after_lines(masks: Map<MaskKind, Seq<nat>>, lines: Seq<Seq<char>>) -> Option<
    Map<MaskKind, Seq<nat>>,
>
    decreases lines.len(),
{
    if lines.len() == 0 {
        Some(masks)
    } else {
        match after_line(masks, lines.first()) {
            Some(next) => after_lines(next, lines.drop_first()),
            None => None,
        }
    }
}

/// The length of the first line of `text`: the number of characters before
/// its first line feed, or all of them if it has none.
pub open spec fn line_len(text: Seq<char>) -> int
    decreases text.len(),
{
    if text.len() == 0 || text.first() == '\n' {
        0
    } else {
        1 + line_len(text.drop_first())
    }
}

/// The lines of `text`, each without the line feed that ends it.
pub open spec fn lines_of(text: Seq<char>) -> Seq<Seq<char>>
    decreases text.len(),
{
    if text.len() == 0 {
        Seq::empty()
    } else if 0 <= line_len(text) < text.len() {
        seq![text.take(line_len(text))] + lines_of(text.skip(line_len(text) + 1))
    } else {
        seq![text]
    }
}

/// The signal masks read from the status record of a process. A mask that
/// the record does not hold is empty.
#[derive(Debug, PartialEq, Eq)]
pub struct StatusSnapshot {
    /// The signals for which a handler is installed.
    pub caught: Vec<u32>,
    /// The signals that are ignored.
    pub ignored: Vec<u32>,
    /// The signals that the thread blocks.
    pub blocked: Vec<u32>,
    /// The signals that are pending for the thread.
    pub thread_pending: Vec<u32>,
    /// The signals that are pending for the whole process.
    pub process_pending: Vec<u32>,
}

impl View for StatusSnapshot {
    type V = Map<MaskKind, Seq<nat>>;

    /// Each of the five masks, as its signal numbers.
    open spec fn view(&self) -> Map<MaskKind, Seq<nat>> {
        Map::new(
            |kind: MaskKind| true,
            |kind: MaskKind|
                match kind {
                    MaskKind::Caught => numbers(self.caught@),
                    MaskKind::Ignored => numbers(self.ignored@),
                    MaskKind::Blocked => numbers(self.blocked@),
                    MaskKind::Pending => numbers(self.thread_pending@),
                    MaskKind::SharedPending => numbers(self.process_pending@),
                },
        )
    }
}

impl StatusSnapshot {
    /// The snapshot of a record of which no line has been read.
    pub fn new() -> (r: StatusSnapshot)
        ensures
            r@ == no_masks(),
    {
        let r = StatusSnapshot {
            caught: Vec::new(),
            ignored: Vec::new(),
            blocked: Vec::new(),
            thread_pending: Vec::new(),
            process_pending: Vec::new(),
        };
        assert(numbers(Seq::<u32>::empty()) =~= Seq::<nat>::empty());
        assert(r@ =~= no_masks());
        r
    }

    /// The signal numbers of one of the masks.
    pub fn signals(&self, kind: MaskKind) -> (r: &Vec<u32>)
        ensures
            numbers(r@) == self@[kind],
    {
        match kind {
            MaskKind::Caught => &self.caught,
            MaskKind::Ignored => &self.ignored,
            MaskKind::Blocked => &self.blocked,
            MaskKind::Pending => &self.thread_pending,
            MaskKind::SharedPending => &self.process_pending,
        }
    }

    /// Takes one line of the record into the snapshot. Fails, and leaves the
    /// snapshot as it was, where the line holds a mask that does not decode.
    pub fn scan_line(&mut self, line: &str) -> (r: Result<(), SignalError>)
        ensures
            match r {
                Ok(_) => after_line(old(self)@, line@) == Some(final(self)@),
                Err(e) => e == SignalError::InvalidMask && after_line(old(self)@, line@) is None
                    && *final(self) == *old(self),
            },
    {
        let chars = chars_of(line);
        self.scan_chars(chars.as_slice())
    }

    /// Takes one line of the record, given as its characters, into the
    /// snapshot.
    pub fn scan_chars(&mut self, line: &[char]) -> (r: Result<(), SignalError>)
        ensures
            match r {
                Ok(_) => after_line(old(self)@, line@) == Some(final(self)@),
                Err(e) => e == SignalError::InvalidMask && after_line(old(self)@, line@) is None
                    && *final(self) == *old(self),
            },
    {
        let kind = match kind_of_line(line) {
            Some(kind) => kind,
            None => {
                return Ok(());
            },
        };
        let key_len = chars_of(kind.key_text()).len();
        let signals = match decode_text(slice_subrange(line, key_len, line.len())) {
            Ok(signals) => signals,
            Err(e) => {
                return Err(e);
            },
        };
        match kind {
            MaskKind::Caught => {
                self.caught = signals;
            },
            MaskKind::Ignored => {
                self.ignored = signals;
            },
            MaskKind::Blocked => {
                self.blocked = signals;
            },
            MaskKind::Pending => {
                self.thread_pending = signals;
            },
            MaskKind::SharedPending => {
                self.process_pending = signals;
            },
        }
        assert(self@ =~= old(self)@.insert(kind, numbers(signals@)));
        Ok(())
    }
}

/// The mask that a line holds, if it holds one.
pub fn kind_of_line(line: &[char]) -> (r: Option<MaskKind>)
    ensures
        r == line_kind(line@),
{
    if has_prefix(line, chars_of(MaskKind::Caught.key_text()).as_slice()) {
        Some(MaskKind::Caught)
    } else if has_prefix(line, chars_of(MaskKind::Ignored.key_text()).as_slice()) {
        Some(MaskKind::Ignored)
    } else if has_prefix(line, chars_of(MaskKind::Blocked.key_text()).as_slice()) {
        Some(MaskKind::Blocked)
    } else if has_prefix(line, chars_of(MaskKind::Pending.key_text()).as_slice()) {
        Some(MaskKind::Pending)
    } else if has_prefix(line, chars_of(MaskKind::SharedPending.key_text()).as_slice()) {
        Some(MaskKind::SharedPending)
    } else {
        None
    }
}

/// Reads the signal masks out of the text of a status record: its lines are
/// taken in order, so that of two lines with one key the later one counts.
/// Fails where a line holds a mask that does not decode.
pub fn read_status(text: &str) -> (r: Result<StatusSnapshot, SignalError>)
    ensures
        match r {
            Ok(snapshot) => after_lines(no_masks(), lines_of(text@)) == Some(snapshot@),
            Err(e) => e == SignalError::InvalidMask && after_lines(no_masks(), lines_of(text@))
                is None,
        },
{
    let chars = chars_of(text);
    let n: usize = chars.len();
    let mut snapshot = StatusSnapshot::new();
    let mut start: usize = 0;
    assert(chars@.skip(0) == chars@);
    while start < n
        invariant
            start <= n == chars@.len(),
            chars@ == text@,
            after_lines(no_masks(), lines_of(text@)) == after_lines(
                snapshot@,
                lines_of(chars@.skip(start as int)),
            ),
        decreases n - start,
    {
        let ghost rest = chars@.skip(start as int);
        let mut end: usize = start;
        while end < n && chars[end] != '\n'
            invariant
                start <= end <= n == chars@.len(),
                forall|j: int| start <= j < end ==> chars@[j] != '\n',
            decreases n - end,
        {
            end = end + 1;
        }
        proof {
            lemma_line_len(rest, end - start);
            assert(rest.take(end - start) == chars@.subrange(start as int, end as int));
            if end < n {
                assert(rest.skip(end - start + 1) == chars@.skip(end + 1));
            } else {
                assert(rest.take(end - start) == rest);
                assert(lines_of(rest) == seq![rest]);
                assert(lines_of(rest).drop_first() == Seq::<Seq<char>>::empty());
                assert(chars@.skip(n as int) == Seq::<char>::empty());
            }
            assert(lines_of(rest).first() == chars@.subrange(start as int, end as int));
            assert(lines_of(rest).drop_first() == lines_of(
                chars@.skip(if end < n {
                    end + 1
                } else {
                    n as int
                }),
            ));
        }
        match snapshot.scan_chars(slice_subrange(chars.as_slice(), start, end)) {
            Ok(_) => {},
            Err(e) => {
                return Err(e);
            },
        }
        start = if end < n {
            end + 1
        } else {
            n
        };
    }
    Ok(snapshot)
}

/// The first line of a text ends at its first line feed, or with the text.
proof fn lemma_line_len(text: Seq<char>, n: int)
    requires
        0 <= n <= text.len(),
        forall|j: int| 0 <= j < n ==> text[j] != '\n',
        n == text.len() || text[n] == '\n',
    ensures
        line_len(text) == n,
    decreases n,
{
    if n > 0 {
        lemma_line_len(text.drop_first(), n - 1);
    }
}

} // verus!
