use kakpipe::face::{Color, ColorName, StyleEffect};
use kakpipe::range::{Pos, Range, Selection};
use kakpipe::range_specs::{encode_request, format_ranges, highlight_command, SharedRanges};

fn red() -> StyleEffect {
    StyleEffect { fg: Some(Color::Name(ColorName::Red)), ..StyleEffect::plain() }
}

fn on_line(line: u32) -> Range {
    Range { selection: Selection(Pos(line, 1), Pos(line, 4)), effect: red() }
}

fn filled(lines: &[u32]) -> SharedRanges {
    let mut shared = SharedRanges::new();
    for line in lines {
        shared.append(on_line(*line));
    }
    shared
}

#[test]
fn new_queue_is_empty_and_open() {
    let shared = SharedRanges::new();
    assert_eq!(shared.len(), 0);
    assert!(!shared.is_finished());
}

#[test]
fn drain_takes_the_prefix_up_to_the_watermark() {
    let mut shared = filled(&[1, 2, 3, 5, 8]);
    let watermark = Selection(Pos(1, 1), Pos(3, 4));
    let (ranges, finished) = shared.drain_up_to(&watermark);
    assert_eq!(ranges, vec![on_line(1), on_line(2), on_line(3)]);
    assert!(!finished);
    assert_eq!(shared.len(), 2);
    let (rest, _) = shared.drain_up_to(&Selection(Pos(0, 0), Pos(0, 0)));
    assert_eq!(rest, vec![on_line(5), on_line(8)]);
}

#[test]
fn drain_compares_the_ends() {
    let mut shared = filled(&[3]);
    let (ranges, _) = shared.drain_up_to(&Selection(Pos(1, 1), Pos(3, 3)));
    assert!(ranges.is_empty());
    assert_eq!(shared.len(), 1);
    let (ranges, _) = shared.drain_up_to(&Selection(Pos(1, 1), Pos(3, 4)));
    assert_eq!(ranges, vec![on_line(3)]);
    assert_eq!(shared.len(), 0);
}

#[test]
fn drain_stops_at_the_first_range_beyond() {
    let mut shared = filled(&[1, 9, 2]);
    let (ranges, _) = shared.drain_up_to(&Selection(Pos(1, 1), Pos(4, 1)));
    assert_eq!(ranges, vec![on_line(1)]);
    assert_eq!(shared.len(), 2);
}

#[test]
fn invalid_watermark_takes_everything() {
    for watermark in [
        Selection(Pos(0, 0), Pos(0, 0)),
        Selection(Pos(5, 1), Pos(1, 1)),
        Selection(Pos(1, 1), Pos(1, 0)),
    ] {
        let mut shared = filled(&[1, 100, 7, 4000000000]);
        let (ranges, finished) = shared.drain_up_to(&watermark);
        assert_eq!(ranges, vec![on_line(1), on_line(100), on_line(7), on_line(4000000000)]);
        assert_eq!(shared.len(), 0);
        assert!(!finished);
    }
}

#[test]
fn two_requests_share_no_range() {
    let mut shared = filled(&[1, 2, 3, 4, 5, 6]);
    let (first, _) = shared.drain_up_to(&Selection(Pos(1, 1), Pos(2, 9)));
    let (second, _) = shared.drain_up_to(&Selection(Pos(1, 1), Pos(4, 9)));
    let (third, _) = shared.drain_up_to(&Selection(Pos(1, 1), Pos(4, 9)));
    assert_eq!(first, vec![on_line(1), on_line(2)]);
    assert_eq!(second, vec![on_line(3), on_line(4)]);
    assert!(third.is_empty());
    for range in &second {
        assert!(!first.contains(range));
    }
    assert_eq!(shared.len(), 2);
}

#[test]
fn server_stops_when_output_has_ended_and_queue_is_empty() {
    let mut shared = filled(&[1, 2]);
    let reply = shared.serve(b"1.1,1.9");
    assert_eq!(reply.text, "1.1,1.4|red");
    assert!(!reply.finished);
    shared.close();
    assert!(!shared.is_finished());
    let reply = shared.serve(b"1.1,1.9");
    assert_eq!(reply.text, "");
    assert!(!reply.finished);
    let reply = shared.serve(b"1.1,2.9");
    assert_eq!(reply.text, "2.1,2.4|red");
    assert!(reply.finished);
    assert!(shared.is_finished());
}

#[test]
fn server_answers_a_wildcard_with_all_ranges() {
    let mut shared = filled(&[1, 2, 30]);
    let reply = shared.serve(b"0.0,0.0");
    assert_eq!(reply.text, "1.1,1.4|red 2.1,2.4|red 30.1,30.4|red");
    assert!(!reply.finished);
    assert_eq!(shared.len(), 0);
    let mut shared = filled(&[4]);
    shared.close();
    let reply = shared.serve(b"what?");
    assert_eq!(reply.text, "4.1,4.4|red");
    assert!(reply.finished);
}

#[test]
fn closed_empty_queue_is_finished_at_once() {
    let mut shared = SharedRanges::new();
    shared.close();
    let reply = shared.serve(b"0.0,0.0");
    assert_eq!(reply.text, "");
    assert!(reply.finished);
}

#[test]
fn ranges_are_separated_by_one_space() {
    assert_eq!(format_ranges(&vec![]), "");
    assert_eq!(format_ranges(&vec![on_line(1)]), "1.1,1.4|red");
    assert_eq!(format_ranges(&vec![on_line(1), on_line(2)]), "1.1,1.4|red 2.1,2.4|red");
}

#[test]
fn request_is_length_then_text() {
    assert_eq!(
        encode_request("0.0,0.0"),
        Some(vec![7, b'0', b'.', b'0', b',', b'0', b'.', b'0'])
    );
    assert_eq!(encode_request(""), Some(vec![0]));
    let longest = "1".repeat(255);
    let frame = encode_request(&longest).unwrap();
    assert_eq!(frame.len(), 256);
    assert_eq!(frame[0], 255);
    assert_eq!(encode_request(&"1".repeat(256)), None);
}

#[test]
fn request_reads_back_on_the_server() {
    let selection = Selection(Pos(1, 1), Pos(2, 9));
    let frame = encode_request(&selection.to_string()).unwrap();
    let mut shared = filled(&[1, 2, 3]);
    let reply = shared.serve(&frame[1..1 + frame[0] as usize]);
    assert_eq!(reply.text, "1.1,1.4|red 2.1,2.4|red");
}

#[test]
fn answer_becomes_a_command() {
    assert_eq!(highlight_command(""), "nop");
    assert_eq!(
        highlight_command("1.1,1.4|red"),
        "update-option buffer kakpipe_color_ranges\nset-option -add buffer kakpipe_color_ranges 1.1,1.4|red"
    );
}
