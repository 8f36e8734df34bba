use kakpipe::face::{Color, ColorName, StyleEffect};
use kakpipe::range::{Pos, Range, Selection};

#[test]
fn positions_order_by_line_then_column() {
    assert!(Pos(1, 9).is_before(&Pos(2, 1)));
    assert!(Pos(2, 1).is_before(&Pos(2, 2)));
    assert!(!Pos(2, 2).is_before(&Pos(2, 2)));
    assert!(Pos(2, 2).is_at_or_before(&Pos(2, 2)));
    assert!(!Pos(3, 1).is_at_or_before(&Pos(2, 9)));
    assert!(Pos(1, 9) < Pos(2, 1));
    assert!(Pos(2, 1) < Pos(2, 2));
}

#[test]
fn zero_marks_a_position_unset() {
    assert!(Pos(1, 1).is_valid());
    assert!(!Pos(0, 1).is_valid());
    assert!(!Pos(1, 0).is_valid());
    assert!(!Pos(0, 0).is_valid());
}

#[test]
fn selection_needs_two_set_ends_in_order() {
    assert!(Selection(Pos(1, 1), Pos(1, 2)).is_valid());
    assert!(Selection(Pos(1, 5), Pos(2, 1)).is_valid());
    assert!(!Selection(Pos(1, 1), Pos(1, 1)).is_valid());
    assert!(!Selection(Pos(2, 1), Pos(1, 9)).is_valid());
    assert!(!Selection(Pos(0, 1), Pos(1, 9)).is_valid());
    assert!(!Selection(Pos(1, 1), Pos(1, 0)).is_valid());
    assert!(!Selection(Pos(0, 0), Pos(0, 0)).is_valid());
}

#[test]
fn selection_as_text() {
    assert_eq!(Pos(12, 345).to_string(), "12.345");
    assert_eq!(Selection(Pos(1, 1), Pos(10, 20)).to_string(), "1.1,10.20");
    assert_eq!(
        Selection(Pos(0, 0), Pos(u32::MAX, u32::MAX)).to_string(),
        "0.0,4294967295.4294967295"
    );
}

#[test]
fn selection_from_text() {
    assert_eq!(Selection::parse(b"1.1,10.20"), Selection(Pos(1, 1), Pos(10, 20)));
    assert_eq!(Selection::parse(b"0.0,0.0"), Selection(Pos(0, 0), Pos(0, 0)));
    assert_eq!(Selection::parse(b"007.08,9.010"), Selection(Pos(7, 8), Pos(9, 10)));
    assert_eq!(
        Selection::parse(b"4294967295.1,1.4294967295"),
        Selection(Pos(u32::MAX, 1), Pos(1, u32::MAX))
    );
}

#[test]
fn malformed_text_gives_unset_coordinates() {
    assert_eq!(Selection::parse(b""), Selection(Pos(0, 0), Pos(0, 0)));
    assert_eq!(Selection::parse(b"garbage"), Selection(Pos(0, 0), Pos(0, 0)));
    assert_eq!(Selection::parse(b"1.2"), Selection(Pos(1, 2), Pos(0, 0)));
    assert_eq!(Selection::parse(b"1,2"), Selection(Pos(1, 0), Pos(2, 0)));
    assert_eq!(Selection::parse(b"1.x,3.4"), Selection(Pos(1, 0), Pos(3, 4)));
    assert_eq!(Selection::parse(b"1.2,3.4,5.6"), Selection(Pos(1, 2), Pos(3, 0)));
    assert_eq!(Selection::parse(b"1.2.3,4.5"), Selection(Pos(1, 0), Pos(4, 5)));
    assert_eq!(Selection::parse(b" 1.2,3.4"), Selection(Pos(0, 2), Pos(3, 4)));
    assert_eq!(Selection::parse(b"+1.2,-3.4"), Selection(Pos(0, 2), Pos(0, 4)));
    assert_eq!(Selection::parse(b"4294967296.1,1.1"), Selection(Pos(0, 1), Pos(1, 1)));
    assert_eq!(
        Selection::parse(b"99999999999999999999999999.1,1.1"),
        Selection(Pos(0, 1), Pos(1, 1))
    );
    assert_eq!(Selection::parse(&[0xff, b'.', b'1', b',', 0xc3]), Selection(Pos(0, 1), Pos(0, 0)));
    assert!(!Selection::parse(b"garbage").is_valid());
}

#[test]
fn text_of_a_selection_reads_back() {
    for selection in [
        Selection(Pos(1, 1), Pos(1, 2)),
        Selection(Pos(0, 0), Pos(0, 0)),
        Selection(Pos(10, 100), Pos(1000, 10000)),
        Selection(Pos(u32::MAX, 0), Pos(9, u32::MAX)),
    ] {
        assert_eq!(Selection::parse(selection.to_string().as_bytes()), selection);
        assert_eq!(Pos::parse(selection.0.to_string().as_bytes()), selection.0);
    }
}

#[test]
fn range_needs_a_style() {
    let selection = Selection(Pos(1, 1), Pos(1, 5));
    assert_eq!(Range::new(selection, StyleEffect::plain()), None);
    let effect = StyleEffect { italic: true, ..StyleEffect::plain() };
    assert_eq!(Range::new(selection, effect), Some(Range { selection, effect }));
}

#[test]
fn range_as_text() {
    let effect = StyleEffect {
        fg: Some(Color::Bright(ColorName::Yellow)),
        bg: Some(Color::Rgb(0x102030)),
        underline: true,
        ..StyleEffect::plain()
    };
    let range = Range::new(Selection(Pos(3, 1), Pos(3, 12)), effect).unwrap();
    assert_eq!(range.to_string(), "3.1,3.12|bright-yellow,rgb:102030+u");
}
