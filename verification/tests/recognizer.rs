use ansi_parser::parse_escape;
use ansi_parser::AnsiSequence;

/// Parses `input`, renders the value back, and checks the exact round trip.
fn assert_exact_roundtrip(input: &str) {
    let ret = parse_escape(input);
    assert!(ret.is_some());
    let pe = ret.unwrap();
    assert_eq!(pe.rest, "");
    assert_eq!(pe.seq.render(), input);
}

/// Parses `input`, renders the value, re-parses the rendering, and checks
/// that the two structured values agree even where the texts differ.
fn assert_value_roundtrip(input: &str) {
    let ret = parse_escape(input);
    assert!(ret.is_some());
    let first = ret.unwrap().seq;

    let rendered = first.render();
    let ret2 = parse_escape(&rendered);
    assert!(ret2.is_some());
    assert_eq!(first, ret2.unwrap().seq);
}

#[test]
fn roundtrip_cursor_sequences() {
    assert_value_roundtrip("\u{1b}[H");
    assert_value_roundtrip("\u{1b}[10;5H");
    assert_value_roundtrip("\u{1b}[A");
    assert_value_roundtrip("\u{1b}[5A");
    assert_value_roundtrip("\u{1b}[5B");
    assert_value_roundtrip("\u{1b}[5C");
    assert_value_roundtrip("\u{1b}[5D");
    assert_exact_roundtrip("\u{1b}[s");
    assert_exact_roundtrip("\u{1b}[u");
    assert_exact_roundtrip("\u{1b}[2J");
    assert_exact_roundtrip("\u{1b}[K");
}

#[test]
fn roundtrip_video_modes() {
    assert_exact_roundtrip("\u{1b}[4m");
    assert_exact_roundtrip("\u{1b}[4;42m");
    assert_exact_roundtrip("\u{1b}[4;31;42m");
    assert_exact_roundtrip("\u{1b}[4;31;42;42;42m");
    assert_exact_roundtrip("\u{1b}[=13l");
    assert_exact_roundtrip("\u{1b}[=7h");
}

#[test]
fn roundtrip_set_toggles() {
    assert_exact_roundtrip("\u{1b}[?25h");
    assert_exact_roundtrip("\u{1b}[?25l");
    assert_exact_roundtrip("\u{1b}[?1h");
    assert_exact_roundtrip("\u{1b}[20h");
    assert_exact_roundtrip("\u{1b}[?3h");
    assert_exact_roundtrip("\u{1b}[?4h");
    assert_exact_roundtrip("\u{1b}[?5h");
    assert_exact_roundtrip("\u{1b}[?6h");
    assert_exact_roundtrip("\u{1b}[?7h");
    assert_exact_roundtrip("\u{1b}[?8h");
    assert_exact_roundtrip("\u{1b}[?9h");
}

#[test]
fn roundtrip_reset_toggles() {
    assert_exact_roundtrip("\u{1b}[?1l");
    assert_exact_roundtrip("\u{1b}[20l");
    assert_exact_roundtrip("\u{1b}[?2l");
    assert_exact_roundtrip("\u{1b}[?3l");
    assert_exact_roundtrip("\u{1b}[?4l");
    assert_exact_roundtrip("\u{1b}[?5l");
    assert_exact_roundtrip("\u{1b}[?6l");
    assert_exact_roundtrip("\u{1b}[?7l");
    assert_exact_roundtrip("\u{1b}[?8l");
    assert_exact_roundtrip("\u{1b}[?9l");
}

#[test]
fn roundtrip_keypad_and_charsets() {
    assert_exact_roundtrip("\u{1b}=");
    assert_exact_roundtrip("\u{1b}>");
    assert_exact_roundtrip("\u{1b}(A");
    assert_exact_roundtrip("\u{1b})A");
    assert_exact_roundtrip("\u{1b}(B");
    assert_exact_roundtrip("\u{1b})B");
    assert_exact_roundtrip("\u{1b}(0");
    assert_exact_roundtrip("\u{1b})0");
    assert_exact_roundtrip("\u{1b}(1");
    assert_exact_roundtrip("\u{1b})1");
    assert_exact_roundtrip("\u{1b}(2");
    assert_exact_roundtrip("\u{1b})2");
    assert_exact_roundtrip("\u{1b}N");
    assert_exact_roundtrip("\u{1b}O");
}

#[test]
fn roundtrip_scroll_region() {
    assert_exact_roundtrip("\u{1b}[3;14r");
}

#[test]
fn parse_consumes_exactly_the_match() {
    let pe = parse_escape("\u{1b}[5;20Hrest of the line").unwrap();
    assert_eq!(pe.seq, AnsiSequence::CursorPos(5, 20));
    assert_eq!(pe.rest, "rest of the line");
}

#[test]
fn parse_defaults_missing_cursor_fields_to_one() {
    assert_eq!(parse_escape("\u{1b}[H").unwrap().seq, AnsiSequence::CursorPos(1, 1));
    assert_eq!(parse_escape("\u{1b}[;5H").unwrap().seq, AnsiSequence::CursorPos(1, 5));
    assert_eq!(parse_escape("\u{1b}[5;H").unwrap().seq, AnsiSequence::CursorPos(5, 1));
    assert_eq!(parse_escape("\u{1b}[B").unwrap().seq, AnsiSequence::CursorDown(1));
}

#[test]
fn parse_accepts_the_f_final_letter() {
    assert_eq!(parse_escape("\u{1b}[5;20f").unwrap().seq, AnsiSequence::CursorPos(5, 20));
}

#[test]
fn parse_rejects_what_no_grammar_covers() {
    // No introducer at all.
    assert!(parse_escape("[5;20H").is_none());
    // A bare introducer at the end of the input.
    assert!(parse_escape("\u{1b}").is_none());
    // Four graphics-mode fields: between the three- and five-field forms.
    assert!(parse_escape("\u{1b}[36;1;15;2m").is_none());
    // A graphics-mode code that does not fit one byte.
    assert!(parse_escape("\u{1b}[300m").is_none());
    // A mode code that does not fit one byte.
    assert!(parse_escape("\u{1b}[=300h").is_none());
    // A cursor amount that does not fit the parameter width.
    assert!(parse_escape("\u{1b}[99999999999999999999A").is_none());
    // Letters inside a numeric field.
    assert!(parse_escape("\u{1b}[7asd;1234H").is_none());
}

#[test]
fn parse_empty_graphics_mode_list() {
    let pe = parse_escape("\u{1b}[m").unwrap();
    assert_eq!(pe.seq.render(), "\x1b[m");
    assert_eq!(pe.rest, "");
}

#[test]
fn parse_two_introducers_is_the_escape_marker() {
    let pe = parse_escape("\u{1b}\u{1b}").unwrap();
    assert_eq!(pe.seq, AnsiSequence::Escape);
    assert_eq!(pe.rest, "");
}
