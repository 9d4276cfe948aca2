use ansi_parser::AnsiSequence;
use ansi_parser::GraphicsModes;
use ansi_parser::Output;

#[test]
fn test_cursor_pos() {
    let pos = AnsiSequence::CursorPos(5, 20);
    let mut buff = String::new();

    buff.push_str(&pos.render());

    assert_eq!(buff, "\x1b[5;20H");
}

#[test]
fn test_write_ansi_seq_to_string() {
    let out = vec![
        Output::Escape(AnsiSequence::CursorPos(5, 20)),
        Output::TextBlock("Hello World!"),
    ];

    let mut buff = String::new();
    for o in out {
        buff.push_str(&o.render());
    }

    assert_eq!(buff, "\x1b[5;20HHello World!");
}

#[test]
fn render_escape_is_two_introducers() {
    assert_eq!(AnsiSequence::Escape.render(), "\x1b\x1b");
}

#[test]
fn render_cursor_motions() {
    assert_eq!(AnsiSequence::CursorUp(5).render(), "\x1b[5A");
    assert_eq!(AnsiSequence::CursorDown(0).render(), "\x1b[0B");
    assert_eq!(AnsiSequence::CursorForward(123456).render(), "\x1b[123456C");
    assert_eq!(AnsiSequence::CursorBackward(1).render(), "\x1b[1D");
}

#[test]
fn render_writes_explicit_digits_for_defaults() {
    // The canonical form never uses the empty-digit short form.
    assert_eq!(AnsiSequence::CursorPos(1, 1).render(), "\x1b[1;1H");
}

#[test]
fn render_largest_values() {
    assert_eq!(
        AnsiSequence::CursorPos(u32::MAX, u32::MAX).render(),
        "\x1b[4294967295;4294967295H"
    );
    assert_eq!(AnsiSequence::SetMode(255).render(), "\x1b[=255h");
}

#[test]
fn render_graphics_modes() {
    let mut g = GraphicsModes::empty();
    assert_eq!(AnsiSequence::SetGraphicsMode(g).render(), "\x1b[m");
    g.push(0);
    assert_eq!(AnsiSequence::SetGraphicsMode(g).render(), "\x1b[0m");
    g.push(36);
    assert_eq!(AnsiSequence::SetGraphicsMode(g).render(), "\x1b[0;36m");
    g.push(1);
    g.push(15);
    g.push(2);
    assert_eq!(AnsiSequence::SetGraphicsMode(g).render(), "\x1b[0;36;1;15;2m");
}

#[test]
fn render_fixed_toggles() {
    assert_eq!(AnsiSequence::CursorSave.render(), "\x1b[s");
    assert_eq!(AnsiSequence::EraseDisplay.render(), "\x1b[2J");
    assert_eq!(AnsiSequence::EraseLine.render(), "\x1b[K");
    assert_eq!(AnsiSequence::HideCursor.render(), "\x1b[?25l");
    assert_eq!(AnsiSequence::SetNewLineMode.render(), "\x1b[20h");
    assert_eq!(AnsiSequence::SetTopAndBottom(3, 14).render(), "\x1b[3;14r");
    assert_eq!(AnsiSequence::SetAlternateKeypad.render(), "\x1b=");
    assert_eq!(AnsiSequence::SetUKG1.render(), "\x1b)A");
    assert_eq!(AnsiSequence::SetSingleShift3.render(), "\x1bO");
}
