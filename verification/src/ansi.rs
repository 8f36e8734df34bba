//! Splitting a line at its styling codes.

use crate::face::{Color, ColorName, StyleEffect};
use crate::range::is_digit;
use vstd::prelude::*;
use vstd::string::StringSliceAdditionalSpecFns;
use yew_ansi::{get_sgr_segments, ColorEffect};

verus! {

/// A run of text and the style effect in force over it.
#[derive(Debug, PartialEq, Eq)]
pub struct Segment {
    pub effect: StyleEffect,
    pub text: String,
}

impl View for Segment {
    type V = (StyleEffect, Seq<char>);

    open spec fn view(&self) -> (StyleEffect, Seq<char>) {
        (self.effect, self.text@)
    }
}

/// The views of a sequence of segments.
pub open spec fn segment_views(segments: Seq<Segment>) -> Seq<(StyleEffect, Seq<char>)> {
    segments.map_values(|s: Segment| s@)
}

/// The segments that `yew_ansi::get_sgr_segments` finds in a line: each run
/// of text between styling codes, with the effect that the codes before it
/// add up to.
pub uninterp spec fn sgr_segments(line: Seq<char>) -> Seq<(StyleEffect, Seq<char>)>;

/// The byte of the escape character, which opens a control sequence.
pub const ESCAPE: u8 = 0x1b;

/// The byte of the opening bracket, which follows the escape character in
/// a control sequence.
pub const OPEN_BRACKET: u8 = 0x5b;

/// The longest number that a parameter of a control sequence may be
/// written with, in digits.
pub const MAX_DIGITS: usize = 4;

/// The index of the first byte, at `from` or behind it, that lies outside
/// `low..=high`; the length of the bytes where there is none.
pub open spec fn run_end(bytes: Seq<u8>, from: int, low: u8, high: u8) -> int
    decreases bytes.len() - from,
{
    if 0 <= from < bytes.len() && low <= bytes[from] <= high {
        run_end(bytes, from + 1, low, high)
    } else {
        from
    }
}

/// Where the parameters begin of the control sequence that the escape
/// character at index `at` opens: behind the escape character, any bytes
/// from space to slash, and an opening bracket. Without the bracket there
/// are no parameters.
pub open spec fn parameters_start(bytes: Seq<u8>, at: int) -> Option<int> {
    let bracket = run_end(bytes, at + 1, 0x20, 0x2f);
    if bracket < bytes.len() && bytes[bracket] == OPEN_BRACKET {
        Some(bracket + 1)
    } else {
        None
    }
}

/// Where the parameters end that begin at `start`: they are made of the
/// bytes from `0` to `?`, which are the digits and `:;<=>?`.
pub open spec fn parameters_end(bytes: Seq<u8>, start: int) -> int {
    run_end(bytes, start, 0x30, 0x3f)
}

/// One more digit than a parameter may have stands at index `i`.
pub open spec fn long_number_at(bytes: Seq<u8>, i: int) -> bool {
    forall|k: int| 0 <= k <= MAX_DIGITS ==> is_digit(#[trigger] bytes[i + k])
}

/// Between `from` and `to` no number has more digits than a parameter may
/// have.
pub open spec fn short_numbers(bytes: Seq<u8>, from: int, to: int) -> bool {
    forall|i: int| from <= i && i + MAX_DIGITS < to ==> !#[trigger] long_number_at(bytes, i)
}

/// The parameters of the control sequence that opens at index `at` are
/// short numbers.
pub open spec fn sequence_fits(bytes: Seq<u8>, at: int) -> bool {
    match parameters_start(bytes, at) {
        Some(start) => short_numbers(bytes, start, parameters_end(bytes, start)),
        None => true,
    }
}

/// No control sequence of the line has a parameter of more than four
/// digits. Numbers in the text itself may be as long as they like.
///
/// The parser adds up the three parameters of a colour, the first shifted
/// by sixteen bits and the second by eight, without a check, and fails when
/// the sum overflows. With parameters below ten thousand the sum stays
/// below two to the power of 31.
pub open spec fn short_parameters(bytes: Seq<u8>) -> bool {
    forall|at: int| 0 <= at < bytes.len() && bytes[at] == ESCAPE ==> #[trigger] sequence_fits(
        bytes,
        at,
    )
}

/// Finds the end of the run of bytes within `low..=high` that begins at
/// `from`.
fn skip_run(bytes: &[u8], from: usize, low: u8, high: u8) -> (end: usize)
    requires
        from <= bytes.len(),
    ensures
        end == run_end(bytes@, from as int, low, high),
        from <= end <= bytes.len(),
{
    let mut end: usize = from;
    while end < bytes.len() && low <= bytes[end] && bytes[end] <= high
        invariant
            from <= end <= bytes.len(),
            run_end(bytes@, end as int, low, high) == run_end(bytes@, from as int, low, high),
        decreases bytes.len() - end,
    {
        end = end + 1;
    }
    end
}

/// Looks for a number of more than four digits between `from` and `to`.
fn numbers_are_short(bytes: &[u8], from: usize, to: usize) -> (short: bool)
    requires
        from <= to <= bytes.len(),
    ensures
        short == short_numbers(bytes@, from as int, to as int),
{
    let mut run: usize = 0;
    let mut at: usize = from;
    while at < to
        invariant
            from <= at <= to <= bytes.len(),
            run <= MAX_DIGITS,
            run <= at - from,
            forall|j: int| at - run <= j < at ==> is_digit(#[trigger] bytes@[j]),
            at - run > from ==> !is_digit(bytes@[at - run - 1]),
            forall|i: int|
                from <= i && i + MAX_DIGITS < at ==> !#[trigger] long_number_at(bytes@, i),
        decreases to - at,
    {
        let ghost first = at - MAX_DIGITS;
        if 48 <= bytes[at] && bytes[at] <= 57 {
            if run == MAX_DIGITS {
                assert forall|k: int| 0 <= k <= MAX_DIGITS implies is_digit(
                    #[trigger] bytes@[first + k],
                ) by {}
                assert(long_number_at(bytes@, first));
                return false;
            }
            proof {
                if first >= from {
                    assert(!is_digit(bytes@[first + (MAX_DIGITS - run - 1)]));
                }
            }
            run = run + 1;
        } else {
            proof {
                if first >= from {
                    assert(!is_digit(bytes@[first + MAX_DIGITS]));
                }
            }
            run = 0;
        }
        at = at + 1;
    }
    true
}

/// Tells whether no control sequence of the line has a parameter of more
/// than four digits.
pub fn has_short_parameters(line: &str) -> (short: bool)
    ensures
        short == short_parameters(line.spec_bytes()),
{
    let bytes = line.as_bytes();
    let mut at: usize = 0;
    while at < bytes.len()
        invariant
            at <= bytes.len(),
            bytes@ == line.spec_bytes(),
            forall|a: int|
                0 <= a < at && bytes@[a] == ESCAPE ==> #[trigger] sequence_fits(bytes@, a),
        decreases bytes.len() - at,
    {
        if bytes[at] == ESCAPE {
            let bracket = skip_run(bytes, at + 1, 0x20, 0x2f);
            if bracket < bytes.len() && bytes[bracket] == OPEN_BRACKET {
                let end = skip_run(bytes, bracket + 1, 0x30, 0x3f);
                if !numbers_are_short(bytes, bracket + 1, end) {
                    assert(!sequence_fits(bytes@, at as int));
                    return false;
                }
            }
        }
        at = at + 1;
    }
    true
}

/// Runs `yew_ansi::get_sgr_segments` over the line and collects what it
/// yields. Nothing is claimed of the segments but that they are the ones
/// this parser finds in this line; the parser knows the attributes bold,
/// italic and underline, so `reverse` and `dim` stay unset.
///
/// The parser reads each parameter of a control sequence as a number and
/// adds the three parameters of a colour up unchecked: on parameters of
/// many digits the sum overflows and the call fails. So the line must hold
/// no parameter of more than four digits.
#[verifier::external_body]
pub(crate) fn split_sgr(line: &str) -> (segments: Vec<Segment>)
    requires
        short_parameters(line.spec_bytes()),
    ensures
        segment_views(segments@) == sgr_segments(line@),
{
    let color = |c: &ColorEffect| match c {
        ColorEffect::None => None,
        ColorEffect::Name(n) => ColorName::from_code(*n as u8).map(Color::Name),
        ColorEffect::NameBright(n) => ColorName::from_code(*n as u8).map(Color::Bright),
        ColorEffect::Rgb(v) => Some(Color::Rgb(*v)),
    };
    get_sgr_segments(line).map(|(e, t)| Segment {
        effect: StyleEffect { fg: color(&e.fg), bg: color(&e.bg), italic: e.italic,
            underline: e.underline, bold: e.bold, ..StyleEffect::plain() },
        text: t.to_owned(),
    }).collect()
}

} // verus!
