//! Positions, selections and styled ranges of a buffer.

use crate::face::{descriptor, display_face, StyleEffect};
use crate::text::{
    decimal, decimal_digit, find_byte, first_index, lemma_first_index, lemma_first_index_is,
    push_decimal,
};
use vstd::prelude::*;
use vstd::utf8::{encode_utf8, is_ascii_chars, is_ascii_chars_encode_utf8};

verus! {

/// The byte is one of the ten decimal digits.
pub open spec fn is_digit(byte: u8) -> bool {
    48 <= byte <= 57
}

/// The number that a row of decimal digits writes.
pub open spec fn digits_value(digits: Seq<u8>) -> nat
    decreases digits.len(),
{
    if digits.len() == 0 {
        0
    } else {
        digits_value(digits.drop_last()) * 10 + (digits.last() - 48) as nat
    }
}

/// One coordinate of a position, read from text: the number it writes where
/// it is one or more decimal digits and fits in 32 bits, and zero, which
/// marks the coordinate as unset, for anything else.
pub open spec fn coordinate(text: Seq<u8>) -> u32 {
    if text.len() > 0 && (forall|i: int| 0 <= i < text.len() ==> is_digit(#[trigger] text[i]))
        && digits_value(text) <= u32::MAX {
        digits_value(text) as u32
    } else {
        0
    }
}

/// The text in front of the first `separator`: all of it where there is no
/// separator.
pub open spec fn before_first(text: Seq<u8>, separator: u8) -> Seq<u8> {
    text.take(first_index(text, separator))
}

/// The text behind the first `separator`: none where there is no separator.
pub open spec fn after_first(text: Seq<u8>, separator: u8) -> Seq<u8> {
    if first_index(text, separator) < text.len() {
        text.skip(first_index(text, separator) + 1)
    } else {
        Seq::empty()
    }
}

/// The byte of the dot between a line and a column.
pub const DOT: u8 = 0x2e;

/// The byte of the comma between two positions.
pub const COMMA: u8 = 0x2c;

/// The position that a text of the form `line.column` stands for.
pub open spec fn parse_pos(text: Seq<u8>) -> Pos {
    Pos(coordinate(before_first(text, DOT)), coordinate(after_first(text, DOT)))
}

/// The selection that a text of the form `line.column,line.column` stands
/// for.
pub open spec fn parse_selection(text: Seq<u8>) -> Selection {
    Selection(parse_pos(before_first(text, COMMA)), parse_pos(after_first(text, COMMA)))
}

/// A longer row of digits writes no smaller number.
proof fn lemma_digits_value_grows(digits: Seq<u8>, n: int)
    requires
        0 <= n <= digits.len(),
        forall|i: int| 0 <= i < digits.len() ==> is_digit(#[trigger] digits[i]),
    ensures
        digits_value(digits.take(n)) <= digits_value(digits),
    decreases digits.len() - n,
{
    if n < digits.len() {
        lemma_digits_value_grows(digits, n + 1);
        assert(digits.take(n + 1).drop_last() == digits.take(n));
        assert(is_digit(digits[n]));
    } else {
        assert(digits.take(n) == digits);
    }
}

fn read_coordinate(text: &[u8]) -> (n: u32)
    ensures
        n == coordinate(text@),
{
    if text.len() == 0 {
        return 0;
    }
    let mut value: u32 = 0;
    let mut i: usize = 0;
    while i < text.len()
        invariant
            i <= text.len(),
            forall|k: int| 0 <= k < i ==> is_digit(#[trigger] text@[k]),
            value == digits_value(text@.take(i as int)),
        decreases text.len() - i,
    {
        let byte = text[i];
        if byte < 48 || byte > 57 {
            return 0;
        }
        assert(text@.take(i as int + 1).drop_last() == text@.take(i as int));
        let next: u64 = value as u64 * 10 + (byte - 48) as u64;
        if next > u32::MAX as u64 {
            proof {
                if forall|k: int| 0 <= k < text.len() ==> is_digit(#[trigger] text@[k]) {
                    lemma_digits_value_grows(text@, i as int + 1);
                }
            }
            return 0;
        }
        value = next as u32;
        i = i + 1;
    }
    assert(text@.take(text.len() as int) == text@);
    value
}

fn split_at_first(text: &[u8], separator: u8) -> (parts: (&[u8], &[u8]))
    ensures
        parts.0@ == before_first(text@, separator),
        parts.1@ == after_first(text@, separator),
{
    let at = find_byte(text, separator);
    proof {
        lemma_first_index(text@, separator);
    }
    if at < text.len() {
        (&text[0..at], &text[at + 1..text.len()])
    } else {
        (text, &text[0..0])
    }
}

/// The bytes of a text of ASCII characters.
pub open spec fn ascii_bytes(text: Seq<char>) -> Seq<u8> {
    Seq::new(text.len(), |i: int| text[i] as u8)
}

/// A decimal numeral is one or more digits, and they write the number.
proof fn lemma_decimal(n: nat)
    ensures
        decimal(n).len() > 0,
        is_ascii_chars(decimal(n)),
        forall|i: int| 0 <= i < decimal(n).len() ==> is_digit(#[trigger] ascii_bytes(decimal(n))[i]),
        digits_value(ascii_bytes(decimal(n))) == n,
    decreases n,
{
    let text = decimal(n);
    let bytes = ascii_bytes(text);
    if n < 10 {
        assert(bytes.drop_last() == Seq::<u8>::empty());
        assert(digits_value(bytes.drop_last()) == 0);
    } else {
        lemma_decimal(n / 10);
        let front = decimal(n / 10);
        assert(text == front.push(decimal_digit(n % 10)));
        assert(bytes.drop_last() == ascii_bytes(front));
        assert forall|i: int| 0 <= i < text.len() implies is_digit(#[trigger] bytes[i]) by {
            if i < front.len() {
                assert(bytes[i] == ascii_bytes(front)[i]);
            }
        }
        assert forall|i: int| 0 <= i < text.len() implies '\0' <= #[trigger] text[i]
            <= '\u{7f}' by {
            if i < front.len() {
                assert(text[i] == front[i]);
            }
        }
    }
}

/// Reading the text of a position gives the position back.
pub proof fn lemma_pos_round_trip(pos: Pos)
    ensures
        is_ascii_chars(pos.text()),
        encode_utf8(pos.text()) == ascii_bytes(pos.text()),
        first_index(ascii_bytes(pos.text()), COMMA) == pos.text().len(),
        parse_pos(encode_utf8(pos.text())) == pos,
{
    lemma_decimal(pos.0 as nat);
    lemma_decimal(pos.1 as nat);
    let line = decimal(pos.0 as nat);
    let column = decimal(pos.1 as nat);
    let text = pos.text();
    let bytes = ascii_bytes(text);
    assert forall|i: int| 0 <= i < text.len() implies '\0' <= #[trigger] text[i] <= '\u{7f}'
        && bytes[i] != COMMA && (i < line.len() ==> bytes[i] != DOT) by {
        if i < line.len() {
            assert(text[i] == line[i]);
            assert(is_digit(ascii_bytes(line)[i]));
        } else if i > line.len() {
            assert(text[i] == column[i - line.len() - 1]);
            assert(is_digit(ascii_bytes(column)[i - line.len() - 1]));
        }
    }
    is_ascii_chars_encode_utf8(text);
    assert(encode_utf8(text) =~= bytes);
    lemma_first_index_is(bytes, DOT, line.len() as int);
    lemma_first_index_is(bytes, COMMA, text.len() as int);
    assert(before_first(bytes, DOT) =~= ascii_bytes(line));
    assert(after_first(bytes, DOT) =~= ascii_bytes(column));
}

/// Reading the text of a selection gives the selection back: what a client
/// writes of the selection it has displayed, the server reads as that
/// selection.
pub proof fn lemma_selection_round_trip(selection: Selection)
    ensures
        parse_selection(encode_utf8(selection.text())) == selection,
{
    lemma_pos_round_trip(selection.0);
    lemma_pos_round_trip(selection.1);
    let start = selection.0.text();
    let end = selection.1.text();
    let text = selection.text();
    let bytes = ascii_bytes(text);
    assert forall|i: int| 0 <= i < text.len() implies '\0' <= #[trigger] text[i] <= '\u{7f}'
        && (i < start.len() ==> bytes[i] != COMMA) by {
        if i < start.len() {
            assert(text[i] == start[i]);
            lemma_first_index(ascii_bytes(start), COMMA);
            assert(ascii_bytes(start)[i] != COMMA);
        } else if i > start.len() {
            assert(text[i] == end[i - start.len() - 1]);
        }
    }
    is_ascii_chars_encode_utf8(text);
    assert(encode_utf8(text) =~= bytes);
    lemma_first_index_is(bytes, COMMA, start.len() as int);
    assert(before_first(bytes, COMMA) =~= ascii_bytes(start));
    assert(after_first(bytes, COMMA) =~= ascii_bytes(end));
}

/// A place in a buffer: line and column, both counted from 1. A zero in
/// either field marks the position as unset.
#[derive(Clone, Copy, Debug, PartialEq, Eq, PartialOrd, Ord, Structural)]
pub struct Pos(pub u32, pub u32);

impl Pos {
    /// Both coordinates are set.
    pub open spec fn valid(self) -> bool {
        self.0 != 0 && self.1 != 0
    }

    /// Strict lexicographic order by line, then column.
    pub open spec fn before(self, other: Pos) -> bool {
        self.0 < other.0 || (self.0 == other.0 && self.1 < other.1)
    }

    /// Lexicographic order by line, then column.
    pub open spec fn at_or_before(self, other: Pos) -> bool {
        self.0 < other.0 || (self.0 == other.0 && self.1 <= other.1)
    }

    pub fn is_valid(&self) -> (valid: bool)
        ensures
            valid == self.valid(),
    {
        self.0 != 0 && self.1 != 0
    }

    /// The position as text: line, a dot, column.
    pub open spec fn text(self) -> Seq<char> {
        decimal(self.0 as nat) + seq!['.'] + decimal(self.1 as nat)
    }

    /// Appends the position's text to `buf`.
    pub fn write_to(&self, buf: &mut String)
        ensures
            final(buf)@ == old(buf)@ + self.text(),
    {
        push_decimal(buf, self.0);
        buf.push('.');
        push_decimal(buf, self.1);
        assert(final(buf)@ =~= old(buf)@ + self.text());
    }

    pub fn to_string(&self) -> (text: String)
        ensures
            text@ == self.text(),
    {
        let mut text = String::new();
        self.write_to(&mut text);
        assert(text@ =~= self.text());
        text
    }

    /// Reads a position from text of the form `line.column`. A coordinate
    /// that is missing or is no number comes out as zero, and the position
    /// is then not valid.
    pub fn parse(text: &[u8]) -> (pos: Pos)
        ensures
            pos == parse_pos(text@),
    {
        let (line, column) = split_at_first(text, DOT);
        Pos(read_coordinate(line), read_coordinate(column))
    }

    pub fn is_before(&self, other: &Pos) -> (before: bool)
        ensures
            before == self.before(*other),
    {
        self.0 < other.0 || (self.0 == other.0 && self.1 < other.1)
    }

    pub fn is_at_or_before(&self, other: &Pos) -> (le: bool)
        ensures
            le == self.at_or_before(*other),
    {
        self.0 < other.0 || (self.0 == other.0 && self.1 <= other.1)
    }
}

/// A span of text between two positions.
///
/// A selection that is not valid stands for "no bound": whoever receives it
/// as a limit hands out everything there is.
#[derive(Clone, Copy, Debug, PartialEq, Eq, Structural)]
pub struct Selection(pub Pos, pub Pos);

impl Selection {
    /// Both ends are set and the first lies strictly before the second.
    pub open spec fn valid(self) -> bool {
        self.0.valid() && self.1.valid() && self.0.before(self.1)
    }

    pub fn is_valid(&self) -> (valid: bool)
        ensures
            valid == self.valid(),
    {
        self.0.is_valid() && self.1.is_valid() && self.0.is_before(&self.1)
    }

    /// Reads a selection from text of the form `line.column,line.column`.
    /// Text of another form is no error: the coordinates that cannot be
    /// read come out as zero, and the selection is then not valid.
    pub fn parse(text: &[u8]) -> (selection: Selection)
        ensures
            selection == parse_selection(text@),
    {
        let (start, end) = split_at_first(text, COMMA);
        Selection(Pos::parse(start), Pos::parse(end))
    }

    /// The selection as text: its two positions with a comma between them.
    pub open spec fn text(self) -> Seq<char> {
        self.0.text() + seq![','] + self.1.text()
    }

    /// Appends the selection's text to `buf`.
    pub fn write_to(&self, buf: &mut String)
        ensures
            final(buf)@ == old(buf)@ + self.text(),
    {
        self.0.write_to(buf);
        buf.push(',');
        self.1.write_to(buf);
        assert(final(buf)@ =~= old(buf)@ + self.text());
    }

    pub fn to_string(&self) -> (text: String)
        ensures
            text@ == self.text(),
    {
        let mut text = String::new();
        self.write_to(&mut text);
        assert(text@ =~= self.text());
        text
    }
}

/// A span of text and the style it is shown in.
///
/// A range exists to carry a style: one whose effect is trivial says
/// nothing, and `Range::new` makes none.
#[derive(Clone, Copy, Debug, PartialEq, Eq)]
pub struct Range {
    pub selection: Selection,
    pub effect: StyleEffect,
}

impl Range {
    /// The range carries a style.
    pub open spec fn wf(self) -> bool {
        !self.effect.trivial()
    }

    /// What `Range::new` returns for a selection and an effect.
    pub open spec fn make(selection: Selection, effect: StyleEffect) -> Option<Range> {
        if effect.trivial() {
            None
        } else {
            Some(Range { selection, effect })
        }
    }

    /// The range of `selection` in the style `effect`, or nothing where the
    /// effect is trivial.
    pub fn new(selection: Selection, effect: StyleEffect) -> (range: Option<Range>)
        ensures
            range == Range::make(selection, effect),
            range matches Some(r) ==> r.wf(),
    {
        if effect.is_trivial() {
            None
        } else {
            Some(Range { selection, effect })
        }
    }

    /// The range as text: the selection, a bar, the face descriptor.
    pub open spec fn text(self) -> Seq<char> {
        self.selection.text() + seq!['|'] + descriptor(self.effect)
    }

    /// Appends the range's text to `buf`.
    pub fn write_to(&self, buf: &mut String)
        ensures
            final(buf)@ == old(buf)@ + self.text(),
    {
        self.selection.write_to(buf);
        buf.push('|');
        let face = display_face(&self.effect, String::new());
        buf.push_str(face.as_str());
        assert(final(buf)@ =~= old(buf)@ + self.text());
    }

    pub fn to_string(&self) -> (text: String)
        ensures
            text@ == self.text(),
    {
        let mut text = String::new();
        self.write_to(&mut text);
        assert(text@ =~= self.text());
        text
    }
}

} // verus!
