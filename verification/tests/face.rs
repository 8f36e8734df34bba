use kakpipe::ansi::Segment;
use kakpipe::face::{display_face, markup, markup_segments, Color, ColorName, StyleEffect};

fn effect(fg: Option<Color>, bg: Option<Color>) -> StyleEffect {
    StyleEffect { fg, bg, ..StyleEffect::plain() }
}

#[test]
fn trivial_effect_has_empty_face() {
    assert_eq!(display_face(&StyleEffect::plain(), String::new()), "");
    assert!(StyleEffect::plain().is_trivial());
}

#[test]
fn face_of_bold_red() {
    let e = StyleEffect { bold: true, ..effect(Some(Color::Name(ColorName::Red)), None) };
    assert!(!e.is_trivial());
    assert_eq!(display_face(&e, String::new()), "red+b");
}

#[test]
fn face_drops_what_the_buffer_held() {
    let e = effect(Some(Color::Name(ColorName::Green)), None);
    let first = display_face(&e, String::from("left over"));
    assert_eq!(first, "green");
    let second = display_face(&e, first.clone());
    assert_eq!(second, first);
}

#[test]
fn face_of_each_colour_name() {
    let names = [
        (ColorName::Black, "black"),
        (ColorName::Red, "red"),
        (ColorName::Green, "green"),
        (ColorName::Yellow, "yellow"),
        (ColorName::Blue, "blue"),
        (ColorName::Magenta, "magenta"),
        (ColorName::Cyan, "cyan"),
        (ColorName::White, "white"),
    ];
    for (code, (name, text)) in names.iter().enumerate() {
        assert_eq!(ColorName::from_code(code as u8), Some(*name));
        assert_eq!(display_face(&effect(Some(Color::Name(*name)), None), String::new()), *text);
        assert_eq!(
            display_face(&effect(Some(Color::Bright(*name)), None), String::new()),
            format!("bright-{}", text)
        );
    }
    assert_eq!(ColorName::from_code(8), None);
}

#[test]
fn face_of_foreground_and_background() {
    let e = effect(Some(Color::Name(ColorName::Red)), Some(Color::Bright(ColorName::Blue)));
    assert_eq!(display_face(&e, String::new()), "red,bright-blue");
}

#[test]
fn face_of_background_alone() {
    let e = effect(None, Some(Color::Name(ColorName::Red)));
    assert_eq!(display_face(&e, String::new()), "defaultred");
}

#[test]
fn face_of_rgb() {
    let e = effect(Some(Color::Rgb(0x00ff7f)), None);
    assert_eq!(display_face(&e, String::new()), "rgb:00FF7F");
    let e = effect(Some(Color::Rgb(0)), Some(Color::Rgb(0xabcdef)));
    assert_eq!(display_face(&e, String::new()), "rgb:000000,rgb:ABCDEF");
    let e = effect(Some(Color::Rgb(0x1234567)), None);
    assert_eq!(display_face(&e, String::new()), "rgb:1234567");
    let e = effect(Some(Color::Rgb(u32::MAX)), None);
    assert_eq!(display_face(&e, String::new()), "rgb:FFFFFFFF");
}

#[test]
fn face_attributes_in_fixed_order() {
    let e = StyleEffect {
        italic: true,
        underline: true,
        bold: true,
        reverse: true,
        dim: true,
        ..StyleEffect::plain()
    };
    assert_eq!(display_face(&e, String::new()), "+iubrd");
    let e = StyleEffect { dim: true, italic: true, ..StyleEffect::plain() };
    assert_eq!(display_face(&e, String::new()), "+id");
    let e = StyleEffect { reverse: true, ..effect(None, Some(Color::Name(ColorName::Cyan))) };
    assert_eq!(display_face(&e, String::new()), "defaultcyan+r");
}

#[test]
fn markup_escapes_braces() {
    assert_eq!(markup("a{b}{{").unwrap(), "a\\{b}\\{\\{");
    assert_eq!(markup("plain").unwrap(), "plain");
    assert_eq!(markup("").unwrap(), "");
}

#[test]
fn markup_writes_faces() {
    assert_eq!(markup("\u{1b}[31mred{\u{1b}[0m}").unwrap(), "{red}red\\{}");
    assert_eq!(
        markup("Hello \u{1b}[32mWorld\u{1b}[39;1m!").unwrap(),
        "Hello {green}World{+b}!"
    );
}

#[test]
fn markup_of_given_segments() {
    let segments = vec![
        Segment { effect: StyleEffect::plain(), text: String::from("{é") },
        Segment {
            effect: StyleEffect { reverse: true, ..StyleEffect::plain() },
            text: String::from("x"),
        },
    ];
    assert_eq!(markup_segments(&segments), "\\{é{+r}x");
}

#[test]
fn markup_names_each_colour_that_the_codes_name() {
    let names = ["black", "red", "green", "yellow", "blue", "magenta", "cyan", "white"];
    for (code, name) in names.iter().enumerate() {
        assert_eq!(
            markup(&format!("\u{1b}[{}mx", 30 + code)).unwrap(),
            format!("{{{}}}x", name)
        );
        assert_eq!(
            markup(&format!("\u{1b}[{}mx", 90 + code)).unwrap(),
            format!("{{bright-{}}}x", name)
        );
        assert_eq!(
            markup(&format!("\u{1b}[{}mx", 40 + code)).unwrap(),
            format!("{{default{}}}x", name)
        );
        assert_eq!(
            markup(&format!("\u{1b}[38;5;{}mx", 8 + code)).unwrap(),
            format!("{{bright-{}}}x", name)
        );
    }
}

#[test]
fn markup_refuses_long_parameters() {
    assert_eq!(markup("\u{1b}[38;2;18446744073709551615;18446744073709551615;0mx"), None);
    assert_eq!(markup("fine \u{1b}[1mbold\u{1b}[00000m"), None);
    assert_eq!(
        markup("\u{1b}[38;2;9999;9999;9999mx").unwrap(),
        format!("{{rgb:{:X}}}x", (9999u32 << 16) + (9999 << 8) + 9999)
    );
    assert_eq!(markup("123456789 \u{1b}[1m123456789").unwrap(), "123456789 {+b}123456789");
}
