//! Style effects and their Kakoune face descriptors.

use crate::ansi::{
    has_short_parameters, segment_views, sgr_segments, short_parameters, split_sgr, Segment,
};
use crate::escape::{
    first_token, lemma_first_token, EscapeIterator, Mode, Token, TokenView, OPEN_BRACE,
};
use crate::text::{
    first_index, lemma_ascii_char_shows, lemma_ascii_first, lemma_boundary_at_ascii,
    lemma_first_index, lemma_split_text,
};
use vstd::prelude::*;
use vstd::string::StringSliceAdditionalSpecFns;
use vstd::utf8::{
    decode_utf8, decode_utf8_encode_utf8, encode_utf8, encode_utf8_decode_utf8,
    encode_utf8_valid_utf8, is_char_boundary_start_end_of_seq,
};

verus! {

/// One of the eight colours that terminals name.
#[derive(Clone, Copy, Debug, PartialEq, Eq, Structural)]
pub enum ColorName {
    Black,
    Red,
    Green,
    Yellow,
    Blue,
    Magenta,
    Cyan,
    White,
}

impl ColorName {
    /// The colour that terminals number `code`: black is 0, then red, green,
    /// yellow, blue, magenta, cyan, and white is 7.
    pub open spec fn of_code(code: u8) -> Option<ColorName> {
        match code {
            0 => Some(ColorName::Black),
            1 => Some(ColorName::Red),
            2 => Some(ColorName::Green),
            3 => Some(ColorName::Yellow),
            4 => Some(ColorName::Blue),
            5 => Some(ColorName::Magenta),
            6 => Some(ColorName::Cyan),
            7 => Some(ColorName::White),
            _ => None,
        }
    }

    pub fn from_code(code: u8) -> (name: Option<ColorName>)
        ensures
            name == ColorName::of_code(code),
    {
        match code {
            0 => Some(ColorName::Black),
            1 => Some(ColorName::Red),
            2 => Some(ColorName::Green),
            3 => Some(ColorName::Yellow),
            4 => Some(ColorName::Blue),
            5 => Some(ColorName::Magenta),
            6 => Some(ColorName::Cyan),
            7 => Some(ColorName::White),
            _ => None,
        }
    }
}

/// A colour: one of the eight names, its bright variant, or 24 bits of red,
/// green and blue (red in the highest byte).
#[derive(Clone, Copy, Debug, PartialEq, Eq, Structural)]
pub enum Color {
    Name(ColorName),
    Bright(ColorName),
    Rgb(u32),
}

/// What a run of styling codes amounts to for the text that follows them.
#[derive(Clone, Copy, Debug, PartialEq, Eq)]
pub struct StyleEffect {
    pub fg: Option<Color>,
    pub bg: Option<Color>,
    pub italic: bool,
    pub underline: bool,
    pub bold: bool,
    pub reverse: bool,
    pub dim: bool,
}

impl StyleEffect {
    /// At least one of the five attributes is set.
    pub open spec fn has_attributes(self) -> bool {
        self.italic || self.underline || self.bold || self.reverse || self.dim
    }

    /// No colour and no attribute: text styled so looks like plain text.
    pub open spec fn trivial(self) -> bool {
        self.fg is None && self.bg is None && !self.has_attributes()
    }

    /// The effect of no styling at all.
    pub fn plain() -> (effect: StyleEffect)
        ensures
            effect.trivial(),
            effect == (StyleEffect {
                fg: None,
                bg: None,
                italic: false,
                underline: false,
                bold: false,
                reverse: false,
                dim: false,
            }),
    {
        StyleEffect {
            fg: None,
            bg: None,
            italic: false,
            underline: false,
            bold: false,
            reverse: false,
            dim: false,
        }
    }

    pub fn is_trivial(&self) -> (trivial: bool)
        ensures
            trivial == self.trivial(),
    {
        self.fg.is_none() && self.bg.is_none() && !(self.italic || self.underline || self.bold
            || self.reverse || self.dim)
    }
}

/// The name of a colour as faces spell it.
pub open spec fn color_name(name: ColorName) -> Seq<char> {
    match name {
        ColorName::Black => "black"@,
        ColorName::Red => "red"@,
        ColorName::Green => "green"@,
        ColorName::Yellow => "yellow"@,
        ColorName::Blue => "blue"@,
        ColorName::Magenta => "magenta"@,
        ColorName::Cyan => "cyan"@,
        ColorName::White => "white"@,
    }
}

/// The upper-case hexadecimal digit for a number below sixteen.
pub open spec fn hex_digit(d: u32) -> char
    recommends
        d < 16,
{
    if d < 10 {
        ((48 + d) as u8) as char
    } else {
        ((55 + d) as u8) as char
    }
}

/// A colour value in upper-case hexadecimal: six digits, with one or two
/// more in front where the value does not fit in 24 bits.
pub open spec fn rgb_hex(v: u32) -> Seq<char> {
    let beyond = if v >= 0x1000_0000 {
        seq![hex_digit((v / 0x1000_0000 % 16) as u32), hex_digit((v / 0x100_0000 % 16) as u32)]
    } else if v >= 0x100_0000 {
        seq![hex_digit((v / 0x100_0000 % 16) as u32)]
    } else {
        seq![]
    };
    beyond + seq![
        hex_digit((v / 0x10_0000 % 16) as u32),
        hex_digit((v / 0x1_0000 % 16) as u32),
        hex_digit((v / 0x1000 % 16) as u32),
        hex_digit((v / 0x100 % 16) as u32),
        hex_digit((v / 0x10 % 16) as u32),
        hex_digit((v % 16) as u32),
    ]
}

/// How a colour is written in a face.
pub open spec fn color_token(color: Color) -> Seq<char> {
    match color {
        Color::Name(name) => color_name(name),
        Color::Bright(name) => "bright-"@ + color_name(name),
        Color::Rgb(v) => "rgb:"@ + rgb_hex(v),
    }
}

/// The foreground part of a face. Without a foreground colour it is empty,
/// unless a background follows: then it reads `default`.
pub open spec fn foreground_token(effect: StyleEffect) -> Seq<char> {
    match effect.fg {
        Some(color) => color_token(color),
        None => if effect.bg is Some {
            "default"@
        } else {
            Seq::empty()
        },
    }
}

/// The background part of a face: a comma where a foreground colour comes
/// before it, then the colour.
pub open spec fn background_token(effect: StyleEffect) -> Seq<char> {
    match effect.bg {
        Some(color) => if effect.fg is Some {
            seq![','] + color_token(color)
        } else {
            color_token(color)
        },
        None => Seq::empty(),
    }
}

/// The letter of an attribute where it is set, nothing where it is not.
pub open spec fn attribute_letter(set: bool, letter: char) -> Seq<char> {
    if set {
        seq![letter]
    } else {
        Seq::empty()
    }
}

/// The attributes part of a face: a plus sign and the letters of the set
/// attributes in the order italic, underline, bold, reverse, dim.
pub open spec fn attributes_token(effect: StyleEffect) -> Seq<char> {
    if effect.has_attributes() {
        seq!['+'] + attribute_letter(effect.italic, 'i') + attribute_letter(effect.underline, 'u')
            + attribute_letter(effect.bold, 'b') + attribute_letter(effect.reverse, 'r')
            + attribute_letter(effect.dim, 'd')
    } else {
        Seq::empty()
    }
}

/// The face descriptor of a style effect.
pub open spec fn descriptor(effect: StyleEffect) -> Seq<char> {
    foreground_token(effect) + background_token(effect) + attributes_token(effect)
}

/// A colour is never written as nothing.
pub proof fn lemma_color_token_not_empty(color: Color)
    ensures
        color_token(color).len() > 0,
{
    reveal_strlit("black");
    reveal_strlit("red");
    reveal_strlit("green");
    reveal_strlit("yellow");
    reveal_strlit("blue");
    reveal_strlit("magenta");
    reveal_strlit("cyan");
    reveal_strlit("white");
    reveal_strlit("bright-");
    reveal_strlit("rgb:");
}

/// The descriptor is empty for the trivial effects and for no others: an
/// empty descriptor tells that there is nothing to show.
pub proof fn lemma_descriptor_empty_iff_trivial(effect: StyleEffect)
    ensures
        descriptor(effect).len() == 0 <==> effect.trivial(),
{
    match effect.fg {
        Some(color) => lemma_color_token_not_empty(color),
        None => {},
    }
    match effect.bg {
        Some(color) => lemma_color_token_not_empty(color),
        None => {},
    }
}

fn color_name_str(name: ColorName) -> (text: &'static str)
    ensures
        text@ == color_name(name),
{
    match name {
        ColorName::Black => "black",
        ColorName::Red => "red",
        ColorName::Green => "green",
        ColorName::Yellow => "yellow",
        ColorName::Blue => "blue",
        ColorName::Magenta => "magenta",
        ColorName::Cyan => "cyan",
        ColorName::White => "white",
    }
}

fn push_hex_digit(buf: &mut String, d: u32)
    requires
        d < 16,
    ensures
        final(buf)@ == old(buf)@.push(hex_digit(d)),
{
    let code: u8 = if d < 10 {
        48u8 + d as u8
    } else {
        55u8 + d as u8
    };
    buf.push(code as char);
}

fn push_rgb_hex(buf: &mut String, v: u32)
    ensures
        final(buf)@ == old(buf)@ + rgb_hex(v),
{
    if v >= 0x1000_0000 {
        push_hex_digit(buf, v / 0x1000_0000 % 16);
    }
    if v >= 0x100_0000 {
        push_hex_digit(buf, v / 0x100_0000 % 16);
    }
    push_hex_digit(buf, v / 0x10_0000 % 16);
    push_hex_digit(buf, v / 0x1_0000 % 16);
    push_hex_digit(buf, v / 0x1000 % 16);
    push_hex_digit(buf, v / 0x100 % 16);
    push_hex_digit(buf, v / 0x10 % 16);
    push_hex_digit(buf, v % 16);
    assert(final(buf)@ =~= old(buf)@ + rgb_hex(v));
}

fn push_color(buf: &mut String, color: Color)
    ensures
        final(buf)@ == old(buf)@ + color_token(color),
{
    match color {
        Color::Name(name) => {
            buf.push_str(color_name_str(name));
        },
        Color::Bright(name) => {
            buf.push_str("bright-");
            buf.push_str(color_name_str(name));
        },
        Color::Rgb(v) => {
            buf.push_str("rgb:");
            push_rgb_hex(buf, v);
        },
    }
    assert(final(buf)@ =~= old(buf)@ + color_token(color));
}

fn push_attribute(buf: &mut String, set: bool, letter: char)
    ensures
        final(buf)@ == old(buf)@ + attribute_letter(set, letter),
{
    if set {
        buf.push(letter);
    }
    assert(final(buf)@ =~= old(buf)@ + attribute_letter(set, letter));
}

fn push_foreground(buf: &mut String, effect: &StyleEffect)
    ensures
        final(buf)@ == old(buf)@ + foreground_token(*effect),
{
    match effect.fg {
        Some(color) => {
            push_color(buf, color);
        },
        None => {
            if effect.bg.is_some() {
                buf.push_str("default");
            }
        },
    }
    assert(final(buf)@ =~= old(buf)@ + foreground_token(*effect));
}

fn push_background(buf: &mut String, effect: &StyleEffect)
    ensures
        final(buf)@ == old(buf)@ + background_token(*effect),
{
    match effect.bg {
        Some(color) => {
            if effect.fg.is_some() {
                buf.push(',');
            }
            push_color(buf, color);
        },
        None => {},
    }
    assert(final(buf)@ =~= old(buf)@ + background_token(*effect));
}

fn push_attributes(buf: &mut String, effect: &StyleEffect)
    ensures
        final(buf)@ == old(buf)@ + attributes_token(*effect),
{
    if effect.italic || effect.underline || effect.bold || effect.reverse || effect.dim {
        buf.push('+');
        push_attribute(buf, effect.italic, 'i');
        push_attribute(buf, effect.underline, 'u');
        push_attribute(buf, effect.bold, 'b');
        push_attribute(buf, effect.reverse, 'r');
        push_attribute(buf, effect.dim, 'd');
    }
    assert(final(buf)@ =~= old(buf)@ + attributes_token(*effect));
}

/// Writes the face descriptor of `effect` into `face`, whose allocation is
/// used again and whose earlier contents are dropped.
pub fn display_face(effect: &StyleEffect, face: String) -> (out: String)
    ensures
        out@ == descriptor(*effect),
{
    let mut face = face;
    face.clear();
    push_foreground(&mut face, effect);
    push_background(&mut face, effect);
    push_attributes(&mut face, effect);
    assert(face@ =~= descriptor(*effect));
    face
}

/// The text with a backslash put before each opening brace, so that the
/// editor takes the brace for text and not for the beginning of a face.
pub open spec fn escape_braces(text: Seq<char>) -> Seq<char>
    decreases text.len(),
{
    if text.len() == 0 {
        Seq::empty()
    } else if text.last() == '{' {
        escape_braces(text.drop_last()) + seq!['\\', '{']
    } else {
        escape_braces(text.drop_last()).push(text.last())
    }
}

/// The face of an effect as it is written into marked-up text: the
/// descriptor in braces, or nothing for an effect whose descriptor is empty.
pub open spec fn face_markup(effect: StyleEffect) -> Seq<char> {
    if descriptor(effect).len() == 0 {
        Seq::empty()
    } else {
        seq!['{'] + descriptor(effect) + seq!['}']
    }
}

/// The marked-up text of the first `n` segments: for each its face, then
/// its text with the braces escaped.
pub open spec fn markup_before(segments: Seq<(StyleEffect, Seq<char>)>, n: int) -> Seq<char>
    decreases n,
{
    if n <= 0 {
        Seq::empty()
    } else {
        markup_before(segments, n - 1) + face_markup(segments[n - 1].0) + escape_braces(
            segments[n - 1].1,
        )
    }
}

/// The marked-up text of all the segments.
pub open spec fn markup_of(segments: Seq<(StyleEffect, Seq<char>)>) -> Seq<char> {
    markup_before(segments, segments.len() as int)
}

/// Text without an opening brace is escaped by leaving it as it is.
pub proof fn lemma_escape_plain(front: Seq<char>, plain: Seq<char>)
    requires
        forall|i: int| 0 <= i < plain.len() ==> #[trigger] plain[i] != '{',
    ensures
        escape_braces(front + plain) == escape_braces(front) + plain,
    decreases plain.len(),
{
    if plain.len() == 0 {
        assert(front + plain == front);
        assert(escape_braces(front) + plain == escape_braces(front));
    } else {
        let all = front + plain;
        assert(all.drop_last() == front + plain.drop_last());
        assert(all.last() == plain.last());
        lemma_escape_plain(front, plain.drop_last());
        assert((escape_braces(front) + plain.drop_last()).push(plain.last()) == escape_braces(
            front,
        ) + plain);
    }
}

/// In escaped text no opening brace stands bare: a backslash comes directly
/// before each.
pub proof fn lemma_escaped_braces_guarded(text: Seq<char>, i: int)
    requires
        0 <= i < escape_braces(text).len(),
        escape_braces(text)[i] == '{',
    ensures
        i > 0,
        escape_braces(text)[i - 1] == '\\',
    decreases text.len(),
{
    let front = escape_braces(text.drop_last());
    if i < front.len() {
        lemma_escaped_braces_guarded(text.drop_last(), i);
    }
}

/// The ASCII character with the number of the opening brace is the
/// opening brace.
proof fn lemma_open_brace(c: char)
    requires
        c <= '\u{7f}',
        c as u8 == OPEN_BRACE,
    ensures
        c == '{',
{
}

/// Appends the text to `out`, with a backslash before each opening brace.
fn push_escaped(out: &mut String, text: &str)
    ensures
        final(out)@ == old(out)@ + escape_braces(text@),
{
    let mut scanner = EscapeIterator::new(text, Mode::Brace);
    let ghost mut done: Seq<char> = Seq::empty();
    let ghost mut rest: Seq<char> = text@;
    assert(done + rest == text@);
    assert(out@ == old(out)@ + escape_braces(done));
    loop
        invariant
            scanner.mode() == Mode::Brace,
            scanner.remaining() == encode_utf8(rest),
            done + rest == text@,
            out@ == old(out)@ + escape_braces(done),
        ensures
            out@ == old(out)@ + escape_braces(text@),
        decreases scanner.remaining().len(),
    {
        let ghost bytes = scanner.remaining();
        let ghost before = out@;
        proof {
            encode_utf8_valid_utf8(rest);
            if bytes.len() > 0 {
                lemma_first_token(bytes, Mode::Brace);
                lemma_first_index(bytes, OPEN_BRACE);
            }
        }
        match scanner.next() {
            None => {
                assert(rest.len() == 0);
                assert(done + rest == done);
                break ;
            },
            Some(Token::OpenBrace) => {
                out.push_str("\\{");
                proof {
                    reveal_strlit("\\{");
                    lemma_ascii_first(rest);
                    lemma_open_brace(rest[0]);
                    assert("\\{"@ == seq!['\\', '{']);
                    assert(done.push('{').drop_last() == done);
                    assert(done.push('{') + rest.drop_first() =~= done + rest);
                    done = done.push('{');
                    rest = rest.drop_first();
                    assert(out@ == old(out)@ + escape_braces(done));
                }
            },
            Some(Token::Str(plain)) => {
                out.push_str(plain);
                proof {
                    let cut = first_index(bytes, OPEN_BRACE);
                    if cut < bytes.len() {
                        lemma_boundary_at_ascii(bytes, cut);
                    } else {
                        is_char_boundary_start_end_of_seq(bytes);
                    }
                    lemma_split_text(rest, cut);
                    encode_utf8_decode_utf8(plain@);
                    decode_utf8_encode_utf8(bytes.skip(cut));
                    assert forall|i: int| 0 <= i < plain@.len() implies #[trigger] plain@[i]
                        != '{' by {
                        if plain@[i] == '{' {
                            let k = lemma_ascii_char_shows(plain@, i);
                            assert(bytes.take(cut)[k] == bytes[k]);
                        }
                    }
                    lemma_escape_plain(done, plain@);
                    assert(done + plain@ + decode_utf8(bytes.skip(cut)) == done + rest);
                    done = done + plain@;
                    rest = decode_utf8(bytes.skip(cut));
                    assert(out@ == old(out)@ + escape_braces(done));
                }
            },
            Some(_) => {
                assert(false);
            },
        }
    }
}

/// Writes the segments as marked-up text: before each segment's text goes
/// its face in braces, unless the face is empty, and each opening brace of
/// the text gets a backslash.
pub fn markup_segments(segments: &Vec<Segment>) -> (out: String)
    ensures
        out@ == markup_of(segment_views(segments@)),
{
    let ghost views = segment_views(segments@);
    let mut out = String::new();
    let mut face = String::new();
    let mut i: usize = 0;
    while i < segments.len()
        invariant
            i <= segments.len(),
            views == segment_views(segments@),
            out@ == markup_before(views, i as int),
        decreases segments.len() - i,
    {
        let segment = &segments[i];
        assert(views[i as int] == segment@);
        let ghost before = out@;
        face = display_face(&segment.effect, face);
        if !face.as_str().is_empty() {
            out.push('{');
            out.push_str(face.as_str());
            out.push('}');
        }
        assert(out@ == before + face_markup(segment.effect));
        push_escaped(&mut out, segment.text.as_str());
        i = i + 1;
    }
    out
}

/// Turns text with styling codes into marked-up text: the codes become
/// faces in braces, and the braces of the text itself are escaped. There is
/// no marked-up text where a control sequence has a parameter of more than
/// four digits, which the parser of the styling codes cannot take.
pub fn markup(ansi: &str) -> (out: Option<String>)
    ensures
        out is Some <==> short_parameters(ansi.spec_bytes()),
        out matches Some(text) ==> text@ == markup_of(sgr_segments(ansi@)),
{
    if !has_short_parameters(ansi) {
        return None;
    }
    let segments = split_sgr(ansi);
    Some(markup_segments(&segments))
}

} // verus!
