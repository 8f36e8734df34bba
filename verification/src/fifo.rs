//! The relay between a command's output and the fifo buffer: each line is
//! split at its styling codes, the text goes on without them, and the styles
//! become ranges at the columns where the text lands.

use crate::ansi::{
    has_short_parameters, segment_views, sgr_segments, short_parameters, split_sgr, Segment,
};
use crate::error::Error;
use crate::face::StyleEffect;
use crate::range::{Pos, Range, Selection};
use crate::range_specs::SharedRanges;
use vstd::prelude::*;
use vstd::string::StringSliceAdditionalSpecFns;
use vstd::utf8::encode_utf8;

verus! {

/// The number of bytes that a text takes in UTF-8. Columns are counted in
/// bytes, not in characters: a character of several bytes takes several
/// columns.
pub open spec fn byte_len(text: Seq<char>) -> nat {
    encode_utf8(text).len()
}

/// The bytes of text in the first `n` segments.
pub open spec fn bytes_before(segments: Seq<(StyleEffect, Seq<char>)>, n: int) -> nat
    decreases n,
{
    if n <= 0 {
        0
    } else {
        bytes_before(segments, n - 1) + byte_len(segments[n - 1].1)
    }
}

/// The bytes of text in all the segments.
pub open spec fn total_bytes(segments: Seq<(StyleEffect, Seq<char>)>) -> nat {
    bytes_before(segments, segments.len() as int)
}

/// The text of the first `n` segments, one after the other.
pub open spec fn text_before(segments: Seq<(StyleEffect, Seq<char>)>, n: int) -> Seq<char>
    decreases n,
{
    if n <= 0 {
        Seq::empty()
    } else {
        text_before(segments, n - 1) + segments[n - 1].1
    }
}

/// The last column of a text of `len` bytes that starts at column `start`.
/// A text of one byte ends one column after its start, so that its span is a
/// valid selection; an empty text ends where it starts.
pub open spec fn end_column(start: nat, len: nat) -> nat {
    if len > 1 {
        (start + len - 1) as nat
    } else {
        start + len
    }
}

/// The span on line `line` of a text of `len` bytes from column `start`.
pub open spec fn span(line: u32, start: nat, len: nat) -> Selection {
    Selection(Pos(line, start as u32), Pos(line, end_column(start, len) as u32))
}

/// The range that segment `i` of a line gives, if its effect is not trivial.
/// Its first column is one more than the bytes of text before it.
pub open spec fn segment_range(segments: Seq<(StyleEffect, Seq<char>)>, line: u32, i: int) -> Option<
    Range,
>
    recommends
        0 <= i < segments.len(),
{
    Range::make(
        span(line, 1 + bytes_before(segments, i), byte_len(segments[i].1)),
        segments[i].0,
    )
}

/// The ranges of the first `n` segments of a line, in their order.
pub open spec fn ranges_before(segments: Seq<(StyleEffect, Seq<char>)>, line: u32, n: int) -> Seq<
    Range,
>
    decreases n,
{
    if n <= 0 {
        Seq::empty()
    } else {
        match segment_range(segments, line, n - 1) {
            Some(range) => ranges_before(segments, line, n - 1).push(range),
            None => ranges_before(segments, line, n - 1),
        }
    }
}

/// The text of a whole line without its styling codes.
pub open spec fn clean_text(segments: Seq<(StyleEffect, Seq<char>)>) -> Seq<char> {
    text_before(segments, segments.len() as int)
}

/// The ranges of a whole line.
pub open spec fn line_ranges(segments: Seq<(StyleEffect, Seq<char>)>, line: u32) -> Seq<Range> {
    ranges_before(segments, line, segments.len() as int)
}

/// The bytes before a segment are among the bytes before a later one.
pub proof fn lemma_bytes_before_monotonic(segments: Seq<(StyleEffect, Seq<char>)>, i: int, j: int)
    requires
        i <= j,
    ensures
        bytes_before(segments, i) <= bytes_before(segments, j),
    decreases j - i,
{
    if i < j {
        lemma_bytes_before_monotonic(segments, i, j - 1);
    }
}

/// The ranges stand in the order of the text: neither the starts nor the
/// ends ever go back.
pub open spec fn ordered(ranges: Seq<Range>) -> bool {
    forall|i: int, j: int|
        0 <= i <= j < ranges.len() ==> (#[trigger] ranges[i]).selection.0.at_or_before(
            (#[trigger] ranges[j]).selection.0,
        ) && ranges[i].selection.1.at_or_before(ranges[j].selection.1)
}

/// All the ranges lie on lines before line `line`.
pub open spec fn above(ranges: Seq<Range>, line: int) -> bool {
    forall|i: int|
        0 <= i < ranges.len() ==> (#[trigger] ranges[i]).selection.0.0 < line
            && ranges[i].selection.1.0 < line
}

/// What holds of each range of the first `n` segments of a line: it lies
/// on that line, carries a style, starts within the text laid out so far,
/// and ends at most one column behind it.
proof fn lemma_ranges_before(segments: Seq<(StyleEffect, Seq<char>)>, line: u32, n: int)
    requires
        0 <= n <= segments.len(),
        total_bytes(segments) < u32::MAX,
    ensures
        ordered(ranges_before(segments, line, n)),
        forall|i: int|
            0 <= i < ranges_before(segments, line, n).len() ==> {
                let range = #[trigger] ranges_before(segments, line, n)[i];
                &&& range.wf()
                &&& range.selection.0.0 == line
                &&& range.selection.1.0 == line
                &&& 1 <= range.selection.0.1 <= range.selection.1.1
                &&& range.selection.1.1 <= 1 + bytes_before(segments, n)
            },
    decreases n,
{
    if n > 0 {
        lemma_ranges_before(segments, line, n - 1);
        lemma_bytes_before_monotonic(segments, n, segments.len() as int);
        let before = ranges_before(segments, line, n - 1);
        let now = ranges_before(segments, line, n);
        match segment_range(segments, line, n - 1) {
            Some(range) => {
                assert(now == before.push(range));
                assert forall|i: int, j: int| 0 <= i <= j < now.len() implies (
                #[trigger] now[i]).selection.0.at_or_before((#[trigger] now[j]).selection.0)
                    && now[i].selection.1.at_or_before(now[j].selection.1) by {
                    if j < before.len() {
                        assert(now[i] == before[i] && now[j] == before[j]);
                    } else if i < before.len() {
                        assert(now[i] == before[i]);
                    }
                }
            },
            None => {},
        }
    }
}

/// The ranges of a line stand in the order of its text, lie on that line,
/// and each carries a style.
pub proof fn lemma_line_ranges_ordered(segments: Seq<(StyleEffect, Seq<char>)>, line: u32)
    requires
        total_bytes(segments) < u32::MAX,
    ensures
        ordered(line_ranges(segments, line)),
        forall|i: int|
            0 <= i < line_ranges(segments, line).len() ==> {
                let range = #[trigger] line_ranges(segments, line)[i];
                range.wf() && range.selection.0.0 == line && range.selection.1.0 == line
            },
{
    lemma_ranges_before(segments, line, segments.len() as int);
}

/// A queue in order stays in order when the ranges of the next line join
/// it, and what lay above that line now lies above the line after it.
pub proof fn lemma_queue_stays_ordered(
    queue: Seq<Range>,
    segments: Seq<(StyleEffect, Seq<char>)>,
    line: u32,
)
    requires
        ordered(queue),
        above(queue, line as int),
        total_bytes(segments) < u32::MAX,
    ensures
        ordered(queue + line_ranges(segments, line)),
        above(queue + line_ranges(segments, line), line + 1),
{
    lemma_line_ranges_ordered(segments, line);
    let fresh = line_ranges(segments, line);
    let all = queue + fresh;
    assert forall|i: int, j: int| 0 <= i <= j < all.len() implies (
    #[trigger] all[i]).selection.0.at_or_before((#[trigger] all[j]).selection.0)
        && all[i].selection.1.at_or_before(all[j].selection.1) by {
        if j < queue.len() {
            assert(all[i] == queue[i] && all[j] == queue[j]);
        } else if i < queue.len() {
            assert(all[i] == queue[i] && all[j] == fresh[j - queue.len()]);
        } else {
            assert(all[i] == fresh[i - queue.len()] && all[j] == fresh[j - queue.len()]);
        }
    }
    assert forall|i: int| 0 <= i < all.len() implies (#[trigger] all[i]).selection.0.0 < line + 1
        && all[i].selection.1.0 < line + 1 by {
        if i < queue.len() {
            assert(all[i] == queue[i]);
        } else {
            assert(all[i] == fresh[i - queue.len()]);
        }
    }
}

/// What a line of output becomes: its text without styling codes, and the
/// ranges that carry the styles.
#[derive(Debug)]
pub struct LineOutput {
    pub text: String,
    pub ranges: Vec<Range>,
}

/// Lays the segments of one line out from column 1 of line `line`.
///
/// The columns must fit in 32 bits: the line holds fewer than `u32::MAX`
/// bytes of text.
pub fn relay_segments(segments: &Vec<Segment>, line: u32) -> (out: LineOutput)
    requires
        total_bytes(segment_views(segments@)) < u32::MAX,
    ensures
        out.text@ == clean_text(segment_views(segments@)),
        out.ranges@ == line_ranges(segment_views(segments@), line),
{
    let ghost views = segment_views(segments@);
    let mut text = String::new();
    let mut ranges: Vec<Range> = Vec::new();
    let mut start: u32 = 1;
    let mut i: usize = 0;
    while i < segments.len()
        invariant
            i <= segments.len(),
            views == segment_views(segments@),
            total_bytes(views) < u32::MAX,
            start == 1 + bytes_before(views, i as int),
            text@ == text_before(views, i as int),
            ranges@ == ranges_before(views, line, i as int),
        decreases segments.len() - i,
    {
        let segment = &segments[i];
        proof {
            lemma_bytes_before_monotonic(views, i as int + 1, views.len() as int);
            assert(views[i as int] == segment@);
        }
        let len: u32 = segment.text.as_str().len() as u32;
        let end: u32 = if len > 1 {
            start + len - 1
        } else {
            start + len
        };
        match Range::new(Selection(Pos(line, start), Pos(line, end)), segment.effect) {
            Some(range) => {
                ranges.push(range);
            },
            None => {},
        }
        text.push_str(segment.text.as_str());
        start = start + len;
        i = i + 1;
    }
    LineOutput { text, ranges }
}

/// Adds up the bytes of text in the segments, as long as the sum stays
/// below `u32::MAX`.
fn measure(segments: &Vec<Segment>) -> (fits: bool)
    ensures
        fits == (total_bytes(segment_views(segments@)) < u32::MAX),
{
    let ghost views = segment_views(segments@);
    let mut total: u32 = 0;
    let mut i: usize = 0;
    while i < segments.len()
        invariant
            i <= segments.len(),
            views == segment_views(segments@),
            total == bytes_before(views, i as int),
            total < u32::MAX,
        decreases segments.len() - i,
    {
        let segment = &segments[i];
        proof {
            lemma_bytes_before_monotonic(views, i as int + 1, views.len() as int);
            assert(views[i as int] == segment@);
        }
        let len: usize = segment.text.as_str().as_bytes().len();
        if len >= (u32::MAX - total) as usize {
            return false;
        }
        total = total + len as u32;
        i = i + 1;
    }
    true
}

/// Splits a line of output at its styling codes and lays it out on line
/// `line`. Returns nothing where a control sequence of the line has a
/// parameter of more than four digits, which the parser of the styling
/// codes cannot take, and where the line holds too much text for its
/// columns to fit in 32 bits.
pub fn relay_line(text: &str, line: u32) -> (out: Option<LineOutput>)
    ensures
        out is Some <==> short_parameters(text.spec_bytes()) && total_bytes(sgr_segments(text@))
            < u32::MAX,
        out matches Some(o) ==> o.text@ == clean_text(sgr_segments(text@)) && o.ranges@
            == line_ranges(sgr_segments(text@), line),
{
    if !has_short_parameters(text) {
        return None;
    }
    let segments = split_sgr(text);
    if measure(&segments) {
        Some(relay_segments(&segments, line))
    } else {
        None
    }
}

/// Which of the command's two streams a line came from.
#[derive(Clone, Copy, Debug, PartialEq, Eq, Structural)]
pub enum Source {
    Stdout,
    Stderr,
}

/// What is to be done with a line of the command's output.
#[derive(Debug)]
pub enum Step {
    /// Write the text, which ends in a line break, to the fifo, and put the
    /// ranges in the queue.
    Write(LineOutput),
    /// Send the command to the editor, which logs the line in its debug
    /// buffer.
    Log(String),
}

/// The command that makes the editor log a line in its debug buffer. The
/// line goes there as it is: that buffer shows no styles.
pub open spec fn debug_command(line: Seq<char>) -> Seq<char> {
    "echo -debug "@ + line
}

/// A list of texts as `{:?}` writes it: std's `Debug` for a vector of
/// strings.
pub uninterp spec fn debug_text(args: Seq<Seq<char>>) -> Seq<char>;

/// Writes the arguments with std's `Debug` for `Vec<String>`, through
/// `format!` with `{:?}`.
#[verifier::external_body]
fn debug_format(args: &Vec<String>) -> (text: String)
    ensures
        text@ == debug_text(args.deep_view()),
{
    format!("{:?}", args)
}

/// The command that makes the editor log that a run begins or ends.
pub open spec fn banner(begins: bool, cmd: Seq<char>, args: Seq<Seq<char>>) -> Seq<char> {
    "echo -debug +++ "@ + (if begins {
        "start"@
    } else {
        "end"@
    }) + " "@ + cmd + " "@ + debug_text(args)
}

/// Writes the command that makes the editor log, in its debug buffer, that
/// the run of `cmd` with `args` begins or ends.
pub fn debug_banner(begins: bool, cmd: &str, args: &Vec<String>) -> (command: String)
    ensures
        command@ == banner(begins, cmd@, args.deep_view()),
{
    let mut command = String::new();
    command.push_str("echo -debug +++ ");
    if begins {
        command.push_str("start");
    } else {
        command.push_str("end");
    }
    command.push_str(" ");
    command.push_str(cmd);
    command.push_str(" ");
    let list = debug_format(args);
    command.push_str(list.as_str());
    command
}

/// What is written to the fifo when the command cannot be started.
pub open spec fn spawn_failure(cmd: Seq<char>, reason: Seq<char>) -> Seq<char> {
    "error running "@ + cmd + ": "@ + reason
}

/// The text that tells, in the fifo buffer itself, that the command could
/// not be started: the buffer is the one place where the user looks.
pub fn spawn_failure_message(cmd: &str, reason: &str) -> (text: String)
    ensures
        text@ == spawn_failure(cmd@, reason@),
{
    let mut text = String::new();
    text.push_str("error running ");
    text.push_str(cmd);
    text.push_str(": ");
    text.push_str(reason);
    text
}

/// The relay's own state: how it treats error output, and how many lines
/// it has passed on to the fifo.
pub struct Relay {
    debug: bool,
    lines: u32,
}

impl Relay {
    /// Error output goes to the editor's debug buffer, not to the fifo.
    pub closed spec fn debug(&self) -> bool {
        self.debug
    }

    /// The number of lines passed on to the fifo so far.
    pub closed spec fn lines(&self) -> nat {
        self.lines as nat
    }

    /// A line from `source` goes to the debug buffer.
    pub open spec fn logs(&self, source: Source) -> bool {
        self.debug() && source == Source::Stderr
    }

    /// A line of this text can be laid out: there is a line number left
    /// for it, its control sequences have no parameter of more than four
    /// digits, and its columns fit in 32 bits.
    pub open spec fn fits(&self, text: Seq<char>) -> bool {
        self.lines() < u32::MAX && short_parameters(encode_utf8(text)) && total_bytes(
            sgr_segments(text),
        ) < u32::MAX
    }

    pub fn new(debug: bool) -> (relay: Relay)
        ensures
            relay.debug() == debug,
            relay.lines() == 0,
    {
        Relay { debug, lines: 0 }
    }

    /// Decides what to do with a line that the command has put out.
    ///
    /// With `debug` set, a line of error output becomes a command for the
    /// editor to log it. Every other line becomes the next line of the
    /// fifo buffer: its text without styling codes and with a line break
    /// behind it, and its styles as ranges on that line. A line that cannot
    /// be laid out gives nothing and leaves the relay as it was.
    pub fn on_line(&mut self, source: Source, text: &str) -> (step: Option<Step>)
        ensures
            final(self).debug() == old(self).debug(),
            old(self).logs(source) ==> final(self).lines() == old(self).lines() && (
            step matches Some(Step::Log(command)) && command@ == debug_command(text@)),
            !old(self).logs(source) && old(self).fits(text@) ==> final(self).lines() == old(
                self,
            ).lines() + 1 && (step matches Some(Step::Write(out)) && out.text@ == clean_text(
                sgr_segments(text@),
            ).push('\n') && out.ranges@ == line_ranges(
                sgr_segments(text@),
                final(self).lines() as u32,
            )),
            !old(self).logs(source) && !old(self).fits(text@) ==> final(self).lines() == old(
                self,
            ).lines() && step is None,
    {
        let to_log = self.debug && match source {
            Source::Stderr => true,
            Source::Stdout => false,
        };
        if to_log {
            let mut command = String::new();
            command.push_str("echo -debug ");
            command.push_str(text);
            return Some(Step::Log(command));
        }
        if self.lines == u32::MAX {
            return None;
        }
        match relay_line(text, self.lines + 1) {
            Some(out) => {
                self.lines = self.lines + 1;
                let mut out = out;
                out.text.push('\n');
                Some(Step::Write(out))
            },
            None => None,
        }
    }

    /// Ends the relay when the command's output has ended: tells the server
    /// so through the shared queue, in the state that the server reads when
    /// it decides whether to stop. A command that gave the fifo no line at
    /// all counts as a failure.
    pub fn finish(&self, shared: &mut SharedRanges) -> (end: Result<(), Error>)
        ensures
            final(shared).producer_done(),
            final(shared).queue() == old(shared).queue(),
            end == (if self.lines() == 0 {
                Err::<(), Error>(Error::NoOutput)
            } else {
                Ok::<(), Error>(())
            }),
    {
        shared.close();
        if self.lines == 0 {
            Err(Error::NoOutput)
        } else {
            Ok(())
        }
    }
}

} // verus!
