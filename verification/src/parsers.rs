use vstd::prelude::*;

use crate::enums::esc;
use crate::enums::AnsiSequence;
use crate::enums::GraphicsModes;

verus! {

/// Whether `c` is an ASCII decimal digit.
pub open spec fn is_digit(c: char) -> bool {
    '0' <= c && c <= '9'
}

/// The numeric value of an ASCII decimal digit.
pub open spec fn digit_val(c: char) -> int {
    c as int - '0' as int
}

/// The first position at or after `p` that does not hold a digit
/// (or the end of the input).
pub open spec fn digits_end(s: Seq<char>, p: int) -> int
    decreases s.len() - p,
{
    if p < 0 || p >= s.len() || !is_digit(s[p]) {
        p
    } else {
        digits_end(s, p + 1)
    }
}

/// The base-10 value of the digit run `s[p..q]`.
pub open spec fn digits_value(s: Seq<char>, p: int, q: int) -> int
    decreases q - p,
{
    if p >= q {
        0
    } else {
        digits_value(s, p, q - 1) * 10 + digit_val(s[q - 1])
    }
}

/// A numeric field with a default: an empty digit run yields 1, a digit run
/// that does not fit in the parameter width fails the grammar attempt.
pub open spec fn def_int(s: Seq<char>, p: int) -> Option<(u32, int)> {
    let q = digits_end(s, p);
    if q == p {
        Some((1u32, p))
    } else if digits_value(s, p, q) <= u32::MAX as int {
        Some((digits_value(s, p, q) as u32, q))
    } else {
        None
    }
}

/// A required numeric field: at least one digit, value unbounded here
/// (each grammar checks its own parameter width).
pub open spec fn req_int(s: Seq<char>, p: int) -> Option<(int, int)> {
    let q = digits_end(s, p);
    if q == p {
        None
    } else {
        Some((digits_value(s, p, q), q))
    }
}

/// A second introducer immediately after the first: the bare-escape variant.
pub open spec fn escape_rule(s: Seq<char>, p: int) -> Option<(AnsiSequence, int)> {
    if p < s.len() && s[p] == esc() {
        Some((AnsiSequence::Escape, p + 1))
    } else {
        None
    }
}

/// `[` row? `;`? col? (`H`|`f`), both fields defaulting to 1.
pub open spec fn cursor_pos_rule(s: Seq<char>, p: int) -> Option<(AnsiSequence, int)> {
    if p < s.len() && s[p] == '[' {
        match def_int(s, p + 1) {
            None => None,
            Some((x, q)) => {
                let q2 = if q < s.len() && s[q] == ';' {
                    q + 1
                } else {
                    q
                };
                match def_int(s, q2) {
                    None => None,
                    Some((y, r)) => {
                        if r < s.len() && (s[r] == 'H' || s[r] == 'f') {
                            Some((AnsiSequence::CursorPos(x, y), r + 1))
                        } else {
                            None
                        }
                    },
                }
            },
        }
    } else {
        None
    }
}

/// `[` amount? `fin`, the amount defaulting to 1: the shape shared by the
/// four relative cursor motions.
pub open spec fn cursor_move_rule(s: Seq<char>, p: int, fin: char) -> Option<(u32, int)> {
    if p < s.len() && s[p] == '[' {
        match def_int(s, p + 1) {
            None => None,
            Some((n, q)) => {
                if q < s.len() && s[q] == fin {
                    Some((n, q + 1))
                } else {
                    None
                }
            },
        }
    } else {
        None
    }
}

pub open spec fn cursor_up_rule(s: Seq<char>, p: int) -> Option<(AnsiSequence, int)> {
    match cursor_move_rule(s, p, 'A') {
        Some((n, q)) => Some((AnsiSequence::CursorUp(n), q)),
        None => None,
    }
}

pub open spec fn cursor_down_rule(s: Seq<char>, p: int) -> Option<(AnsiSequence, int)> {
    match cursor_move_rule(s, p, 'B') {
        Some((n, q)) => Some((AnsiSequence::CursorDown(n), q)),
        None => None,
    }
}

pub open spec fn cursor_forward_rule(s: Seq<char>, p: int) -> Option<(AnsiSequence, int)> {
    match cursor_move_rule(s, p, 'C') {
        Some((n, q)) => Some((AnsiSequence::CursorForward(n), q)),
        None => None,
    }
}

pub open spec fn cursor_backward_rule(s: Seq<char>, p: int) -> Option<(AnsiSequence, int)> {
    match cursor_move_rule(s, p, 'D') {
        Some((n, q)) => Some((AnsiSequence::CursorBackward(n), q)),
        None => None,
    }
}

/// A fixed one-character pattern.
pub open spec fn tag_rule1(s: Seq<char>, p: int, c0: char, e: AnsiSequence) -> Option<
    (AnsiSequence, int),
> {
    if p < s.len() && s[p] == c0 {
        Some((e, p + 1))
    } else {
        None
    }
}

/// A fixed two-character pattern.
pub open spec fn tag_rule2(s: Seq<char>, p: int, c0: char, c1: char, e: AnsiSequence) -> Option<
    (AnsiSequence, int),
> {
    if p + 1 < s.len() && s[p] == c0 && s[p + 1] == c1 {
        Some((e, p + 2))
    } else {
        None
    }
}

/// A fixed three-character pattern.
pub open spec fn tag_rule3(
    s: Seq<char>,
    p: int,
    c0: char,
    c1: char,
    c2: char,
    e: AnsiSequence,
) -> Option<(AnsiSequence, int)> {
    if p + 2 < s.len() && s[p] == c0 && s[p + 1] == c1 && s[p + 2] == c2 {
        Some((e, p + 3))
    } else {
        None
    }
}

/// A fixed four-character pattern.
pub open spec fn tag_rule4(
    s: Seq<char>,
    p: int,
    c0: char,
    c1: char,
    c2: char,
    c3: char,
    e: AnsiSequence,
) -> Option<(AnsiSequence, int)> {
    if p + 3 < s.len() && s[p] == c0 && s[p + 1] == c1 && s[p + 2] == c2 && s[p + 3] == c3 {
        Some((e, p + 4))
    } else {
        None
    }
}

/// A fixed five-character pattern.
pub open spec fn tag_rule5(
    s: Seq<char>,
    p: int,
    c0: char,
    c1: char,
    c2: char,
    c3: char,
    c4: char,
    e: AnsiSequence,
) -> Option<(AnsiSequence, int)> {
    if p + 4 < s.len() && s[p] == c0 && s[p + 1] == c1 && s[p + 2] == c2 && s[p + 3] == c3 && s[p
        + 4] == c4 {
        Some((e, p + 5))
    } else {
        None
    }
}

/// A graphics-mode field followed by `;`: at least one digit, then the
/// separator.
pub open spec fn sep_field(s: Seq<char>, p: int) -> Option<(int, int)> {
    match req_int(s, p) {
        None => None,
        Some((v, q)) => {
            if q < s.len() && s[q] == ';' {
                Some((v, q + 1))
            } else {
                None
            }
        },
    }
}

/// The graphics-mode list holding one code.
pub open spec fn gm1_of(v1: int) -> GraphicsModes {
    GraphicsModes { len: 1, m0: v1 as u8, m1: 0, m2: 0, m3: 0, m4: 0 }
}

/// The graphics-mode list holding two codes.
pub open spec fn gm2_of(v1: int, v2: int) -> GraphicsModes {
    GraphicsModes { len: 2, m0: v1 as u8, m1: v2 as u8, m2: 0, m3: 0, m4: 0 }
}

/// The graphics-mode list holding three codes.
pub open spec fn gm3_of(v1: int, v2: int, v3: int) -> GraphicsModes {
    GraphicsModes { len: 3, m0: v1 as u8, m1: v2 as u8, m2: v3 as u8, m3: 0, m4: 0 }
}

/// The graphics-mode list holding five codes.
pub open spec fn gm5_of(v1: int, v2: int, v3: int, v4: int, v5: int) -> GraphicsModes {
    GraphicsModes { len: 5, m0: v1 as u8, m1: v2 as u8, m2: v3 as u8, m3: v4 as u8, m4: v5 as u8 }
}

/// `[` code `m`: one graphics-mode field; a field that does not fit one
/// byte fails the attempt.
pub open spec fn gm1_rule(s: Seq<char>, p: int) -> Option<(AnsiSequence, int)> {
    if p < s.len() && s[p] == '[' {
        match req_int(s, p + 1) {
            None => None,
            Some((v1, q)) => {
                if q < s.len() && s[q] == 'm' && 0 <= v1 <= 255 {
                    Some((AnsiSequence::SetGraphicsMode(gm1_of(v1)), q + 1))
                } else {
                    None
                }
            },
        }
    } else {
        None
    }
}

/// `[` code `;` code `m`: two graphics-mode fields.
pub open spec fn gm2_rule(s: Seq<char>, p: int) -> Option<(AnsiSequence, int)> {
    if p < s.len() && s[p] == '[' {
        match sep_field(s, p + 1) {
            None => None,
            Some((v1, q1)) => match req_int(s, q1) {
                None => None,
                Some((v2, q)) => {
                    if q < s.len() && s[q] == 'm' && 0 <= v1 <= 255 && 0 <= v2 <= 255 {
                        Some((AnsiSequence::SetGraphicsMode(gm2_of(v1, v2)), q + 1))
                    } else {
                        None
                    }
                },
            },
        }
    } else {
        None
    }
}

/// `[` code `;` code `;` code `m`: three graphics-mode fields.
pub open spec fn gm3_rule(s: Seq<char>, p: int) -> Option<(AnsiSequence, int)> {
    if p < s.len() && s[p] == '[' {
        match sep_field(s, p + 1) {
            None => None,
            Some((v1, q1)) => match sep_field(s, q1) {
                None => None,
                Some((v2, q2)) => match req_int(s, q2) {
                    None => None,
                    Some((v3, q)) => {
                        if q < s.len() && s[q] == 'm' && 0 <= v1 <= 255 && 0 <= v2 <= 255 && 0 <= v3
                            <= 255 {
                            Some((AnsiSequence::SetGraphicsMode(gm3_of(v1, v2, v3)), q + 1))
                        } else {
                            None
                        }
                    },
                },
            },
        }
    } else {
        None
    }
}

/// `[` followed by five `;`-separated codes and `m`.
pub open spec fn gm5_rule(s: Seq<char>, p: int) -> Option<(AnsiSequence, int)> {
    if p < s.len() && s[p] == '[' {
        match sep_field(s, p + 1) {
            None => None,
            Some((v1, q1)) => match sep_field(s, q1) {
                None => None,
                Some((v2, q2)) => match sep_field(s, q2) {
                    None => None,
                    Some((v3, q3)) => match sep_field(s, q3) {
                        None => None,
                        Some((v4, q4)) => match req_int(s, q4) {
                            None => None,
                            Some((v5, q)) => {
                                if q < s.len() && s[q] == 'm' && 0 <= v1 <= 255 && 0 <= v2 <= 255
                                    && 0 <= v3 <= 255 && 0 <= v4 <= 255 && 0 <= v5 <= 255 {
                                    Some(
                                        (
                                            AnsiSequence::SetGraphicsMode(
                                                gm5_of(v1, v2, v3, v4, v5),
                                            ),
                                            q + 1,
                                        ),
                                    )
                                } else {
                                    None
                                }
                            },
                        },
                    },
                },
            },
        }
    } else {
        None
    }
}

/// `[m` alone: the empty graphics-mode list.
pub open spec fn gm_empty_rule(s: Seq<char>, p: int) -> Option<(AnsiSequence, int)> {
    if p + 1 < s.len() && s[p] == '[' && s[p + 1] == 'm' {
        Some(
            (
                AnsiSequence::SetGraphicsMode(
                    GraphicsModes { len: 0, m0: 0, m1: 0, m2: 0, m3: 0, m4: 0 },
                ),
                p + 2,
            ),
        )
    } else {
        None
    }
}

/// The graphics-mode alternatives in their priority order: one, two or
/// three fields, then the empty form, then five fields (a four-field
/// sequence matches no grammar).
pub open spec fn graphics_rule(s: Seq<char>, p: int) -> Option<(AnsiSequence, int)> {
    if gm1_rule(s, p) is Some {
        gm1_rule(s, p)
    } else if gm2_rule(s, p) is Some {
        gm2_rule(s, p)
    } else if gm3_rule(s, p) is Some {
        gm3_rule(s, p)
    } else if gm_empty_rule(s, p) is Some {
        gm_empty_rule(s, p)
    } else {
        gm5_rule(s, p)
    }
}

/// `[=` mode `fin`, the mode fitting one byte: set (`h`) or reset (`l`).
pub open spec fn mode_rule(s: Seq<char>, p: int, fin: char) -> Option<(u8, int)> {
    if p + 1 < s.len() && s[p] == '[' && s[p + 1] == '=' {
        match req_int(s, p + 2) {
            None => None,
            Some((v, q)) => {
                if 0 <= v <= 255 && q < s.len() && s[q] == fin {
                    Some((v as u8, q + 1))
                } else {
                    None
                }
            },
        }
    } else {
        None
    }
}

pub open spec fn set_mode_rule(s: Seq<char>, p: int) -> Option<(AnsiSequence, int)> {
    match mode_rule(s, p, 'h') {
        Some((m, q)) => Some((AnsiSequence::SetMode(m), q)),
        None => None,
    }
}

pub open spec fn reset_mode_rule(s: Seq<char>, p: int) -> Option<(AnsiSequence, int)> {
    match mode_rule(s, p, 'l') {
        Some((m, q)) => Some((AnsiSequence::ResetMode(m), q)),
        None => None,
    }
}

/// `[` top `;` bottom `r`: the scroll-region bounds.
pub open spec fn top_bottom_rule(s: Seq<char>, p: int) -> Option<(AnsiSequence, int)> {
    if p < s.len() && s[p] == '[' {
        match req_int(s, p + 1) {
            None => None,
            Some((t, q)) => {
                if 0 <= t <= u32::MAX as int && q < s.len() && s[q] == ';' {
                    match req_int(s, q + 1) {
                        None => None,
                        Some((b, r)) => {
                            if 0 <= b <= u32::MAX as int && r < s.len() && s[r] == 'r' {
                                Some((AnsiSequence::SetTopAndBottom(t as u32, b as u32), r + 1))
                            } else {
                                None
                            }
                        },
                    }
                } else {
                    None
                }
            },
        }
    } else {
        None
    }
}

/// The cursor-movement and erase grammars, in their priority order.
pub open spec fn combined_cursor(s: Seq<char>, p: int) -> Option<(AnsiSequence, int)> {
    if escape_rule(s, p) is Some {
        escape_rule(s, p)
    } else if cursor_pos_rule(s, p) is Some {
        cursor_pos_rule(s, p)
    } else if cursor_up_rule(s, p) is Some {
        cursor_up_rule(s, p)
    } else if cursor_down_rule(s, p) is Some {
        cursor_down_rule(s, p)
    } else if cursor_forward_rule(s, p) is Some {
        cursor_forward_rule(s, p)
    } else if cursor_backward_rule(s, p) is Some {
        cursor_backward_rule(s, p)
    } else if tag_rule2(s, p, '[', 's', AnsiSequence::CursorSave) is Some {
        tag_rule2(s, p, '[', 's', AnsiSequence::CursorSave)
    } else if tag_rule2(s, p, '[', 'u', AnsiSequence::CursorRestore) is Some {
        tag_rule2(s, p, '[', 'u', AnsiSequence::CursorRestore)
    } else if tag_rule3(s, p, '[', '2', 'J', AnsiSequence::EraseDisplay) is Some {
        tag_rule3(s, p, '[', '2', 'J', AnsiSequence::EraseDisplay)
    } else {
        tag_rule2(s, p, '[', 'K', AnsiSequence::EraseLine)
    }
}

/// The graphics-mode and mode-toggle grammars, in their priority order.
pub open spec fn combined_modes(s: Seq<char>, p: int) -> Option<(AnsiSequence, int)> {
    if graphics_rule(s, p) is Some {
        graphics_rule(s, p)
    } else if set_mode_rule(s, p) is Some {
        set_mode_rule(s, p)
    } else if reset_mode_rule(s, p) is Some {
        reset_mode_rule(s, p)
    } else if tag_rule5(s, p, '[', '?', '2', '5', 'l', AnsiSequence::HideCursor) is Some {
        tag_rule5(s, p, '[', '?', '2', '5', 'l', AnsiSequence::HideCursor)
    } else if tag_rule5(s, p, '[', '?', '2', '5', 'h', AnsiSequence::ShowCursor) is Some {
        tag_rule5(s, p, '[', '?', '2', '5', 'h', AnsiSequence::ShowCursor)
    } else if tag_rule4(s, p, '[', '?', '1', 'h', AnsiSequence::CursorToApp) is Some {
        tag_rule4(s, p, '[', '?', '1', 'h', AnsiSequence::CursorToApp)
    } else if tag_rule4(s, p, '[', '2', '0', 'h', AnsiSequence::SetNewLineMode) is Some {
        tag_rule4(s, p, '[', '2', '0', 'h', AnsiSequence::SetNewLineMode)
    } else if tag_rule4(s, p, '[', '?', '3', 'h', AnsiSequence::SetCol132) is Some {
        tag_rule4(s, p, '[', '?', '3', 'h', AnsiSequence::SetCol132)
    } else if tag_rule4(s, p, '[', '?', '4', 'h', AnsiSequence::SetSmoothScroll) is Some {
        tag_rule4(s, p, '[', '?', '4', 'h', AnsiSequence::SetSmoothScroll)
    } else if tag_rule4(s, p, '[', '?', '5', 'h', AnsiSequence::SetReverseVideo) is Some {
        tag_rule4(s, p, '[', '?', '5', 'h', AnsiSequence::SetReverseVideo)
    } else if tag_rule4(s, p, '[', '?', '6', 'h', AnsiSequence::SetOriginRelative) is Some {
        tag_rule4(s, p, '[', '?', '6', 'h', AnsiSequence::SetOriginRelative)
    } else if tag_rule4(s, p, '[', '?', '7', 'h', AnsiSequence::SetAutoWrap) is Some {
        tag_rule4(s, p, '[', '?', '7', 'h', AnsiSequence::SetAutoWrap)
    } else if tag_rule4(s, p, '[', '?', '8', 'h', AnsiSequence::SetAutoRepeat) is Some {
        tag_rule4(s, p, '[', '?', '8', 'h', AnsiSequence::SetAutoRepeat)
    } else if tag_rule4(s, p, '[', '?', '9', 'h', AnsiSequence::SetInterlacing) is Some {
        tag_rule4(s, p, '[', '?', '9', 'h', AnsiSequence::SetInterlacing)
    } else if tag_rule4(s, p, '[', '2', '0', 'l', AnsiSequence::SetLineFeedMode) is Some {
        tag_rule4(s, p, '[', '2', '0', 'l', AnsiSequence::SetLineFeedMode)
    } else if tag_rule4(s, p, '[', '?', '1', 'l', AnsiSequence::SetCursorKeyToCursor) is Some {
        tag_rule4(s, p, '[', '?', '1', 'l', AnsiSequence::SetCursorKeyToCursor)
    } else if tag_rule4(s, p, '[', '?', '2', 'l', AnsiSequence::SetVT52) is Some {
        tag_rule4(s, p, '[', '?', '2', 'l', AnsiSequence::SetVT52)
    } else if tag_rule4(s, p, '[', '?', '3', 'l', AnsiSequence::SetCol80) is Some {
        tag_rule4(s, p, '[', '?', '3', 'l', AnsiSequence::SetCol80)
    } else if tag_rule4(s, p, '[', '?', '4', 'l', AnsiSequence::SetJumpScrolling) is Some {
        tag_rule4(s, p, '[', '?', '4', 'l', AnsiSequence::SetJumpScrolling)
    } else if tag_rule4(s, p, '[', '?', '5', 'l', AnsiSequence::SetNormalVideo) is Some {
        tag_rule4(s, p, '[', '?', '5', 'l', AnsiSequence::SetNormalVideo)
    } else if tag_rule4(s, p, '[', '?', '6', 'l', AnsiSequence::SetOriginAbsolute) is Some {
        tag_rule4(s, p, '[', '?', '6', 'l', AnsiSequence::SetOriginAbsolute)
    } else if tag_rule4(s, p, '[', '?', '7', 'l', AnsiSequence::ResetAutoWrap) is Some {
        tag_rule4(s, p, '[', '?', '7', 'l', AnsiSequence::ResetAutoWrap)
    } else if tag_rule4(s, p, '[', '?', '8', 'l', AnsiSequence::ResetAutoRepeat) is Some {
        tag_rule4(s, p, '[', '?', '8', 'l', AnsiSequence::ResetAutoRepeat)
    } else {
        tag_rule4(s, p, '[', '?', '9', 'l', AnsiSequence::ResetInterlacing)
    }
}

/// The scroll-region and keypad or character-set grammars, in their
/// priority order.
pub open spec fn combined_keypad(s: Seq<char>, p: int) -> Option<(AnsiSequence, int)> {
    if top_bottom_rule(s, p) is Some {
        top_bottom_rule(s, p)
    } else if tag_rule1(s, p, '=', AnsiSequence::SetAlternateKeypad) is Some {
        tag_rule1(s, p, '=', AnsiSequence::SetAlternateKeypad)
    } else if tag_rule1(s, p, '>', AnsiSequence::SetNumericKeypad) is Some {
        tag_rule1(s, p, '>', AnsiSequence::SetNumericKeypad)
    } else if tag_rule2(s, p, '(', 'A', AnsiSequence::SetUKG0) is Some {
        tag_rule2(s, p, '(', 'A', AnsiSequence::SetUKG0)
    } else if tag_rule2(s, p, ')', 'A', AnsiSequence::SetUKG1) is Some {
        tag_rule2(s, p, ')', 'A', AnsiSequence::SetUKG1)
    } else if tag_rule2(s, p, '(', 'B', AnsiSequence::SetUSG0) is Some {
        tag_rule2(s, p, '(', 'B', AnsiSequence::SetUSG0)
    } else if tag_rule2(s, p, ')', 'B', AnsiSequence::SetUSG1) is Some {
        tag_rule2(s, p, ')', 'B', AnsiSequence::SetUSG1)
    } else if tag_rule2(s, p, '(', '0', AnsiSequence::SetG0SpecialChars) is Some {
        tag_rule2(s, p, '(', '0', AnsiSequence::SetG0SpecialChars)
    } else if tag_rule2(s, p, ')', '0', AnsiSequence::SetG1SpecialChars) is Some {
        tag_rule2(s, p, ')', '0', AnsiSequence::SetG1SpecialChars)
    } else if tag_rule2(s, p, '(', '1', AnsiSequence::SetG0AlternateChar) is Some {
        tag_rule2(s, p, '(', '1', AnsiSequence::SetG0AlternateChar)
    } else if tag_rule2(s, p, ')', '1', AnsiSequence::SetG1AlternateChar) is Some {
        tag_rule2(s, p, ')', '1', AnsiSequence::SetG1AlternateChar)
    } else if tag_rule2(s, p, '(', '2', AnsiSequence::SetG0AltAndSpecialGraph) is Some {
        tag_rule2(s, p, '(', '2', AnsiSequence::SetG0AltAndSpecialGraph)
    } else if tag_rule2(s, p, ')', '2', AnsiSequence::SetG1AltAndSpecialGraph) is Some {
        tag_rule2(s, p, ')', '2', AnsiSequence::SetG1AltAndSpecialGraph)
    } else if tag_rule1(s, p, 'N', AnsiSequence::SetSingleShift2) is Some {
        tag_rule1(s, p, 'N', AnsiSequence::SetSingleShift2)
    } else {
        tag_rule1(s, p, 'O', AnsiSequence::SetSingleShift3)
    }
}

/// All sequence grammars tried in a fixed priority order at position `p`,
/// anchored immediately after the introducer.
pub open spec fn combined_spec(s: Seq<char>, p: int) -> Option<(AnsiSequence, int)> {
    if combined_cursor(s, p) is Some {
        combined_cursor(s, p)
    } else if combined_modes(s, p) is Some {
        combined_modes(s, p)
    } else {
        combined_keypad(s, p)
    }
}

/// The recognizer: an introducer at the start of `s` followed by one of the
/// recognized grammars. On a match the result carries the structured value
/// and how many characters were consumed; otherwise there is no match.
pub open spec fn parse_escape_spec(s: Seq<char>) -> Option<(AnsiSequence, int)> {
    if s.len() > 0 && s[0] == esc() {
        combined_spec(s, 1)
    } else {
        None
    }
}

/// Whether an executable match result agrees with a grammar rule's value.
pub open spec fn opt_agrees(r: Option<(AnsiSequence, usize)>, sp: Option<(AnsiSequence, int)>) -> bool {
    match (r, sp) {
        (Some((e, n)), Some((se, sn))) => e == se && n as int == sn,
        (None, None) => true,
        _ => false,
    }
}

/// The value of a digit run is never negative.
proof fn lemma_digits_value_nonneg(s: Seq<char>, p: int, q: int)
    requires
        forall|j: int| p <= j < q ==> is_digit(#[trigger] s[j]),
    ensures
        digits_value(s, p, q) >= 0,
    decreases q - p,
{
    if p < q {
        lemma_digits_value_nonneg(s, p, q - 1);
        assert(is_digit(s[q - 1]));
    }
}

/// The value of a digit run never shrinks as the run extends.
proof fn lemma_digits_value_grow(s: Seq<char>, p: int, i: int, q: int)
    requires
        p <= i <= q,
        forall|j: int| p <= j < q ==> is_digit(#[trigger] s[j]),
    ensures
        digits_value(s, p, q) >= digits_value(s, p, i),
    decreases q - i,
{
    if i < q {
        lemma_digits_value_grow(s, p, i, q - 1);
        lemma_digits_value_nonneg(s, p, q - 1);
        assert(is_digit(s[q - 1]));
        assert(digits_value(s, p, q) == digits_value(s, p, q - 1) * 10 + digit_val(s[q - 1]));
    }
}

/// The first non-digit position at or after `p`.
fn digits_end_exec(s: &str, p: usize, n: usize) -> (r: usize)
    requires
        n as int == s@.len(),
        p <= n,
    ensures
        r as int == digits_end(s@, p as int),
        p <= r <= n,
        forall|j: int| p as int <= j < r as int ==> is_digit(#[trigger] s@[j]),
{
    let mut q = p;
    while q < n
        invariant
            n as int == s@.len(),
            p <= q <= n,
            digits_end(s@, p as int) == digits_end(s@, q as int),
            forall|j: int| p as int <= j < q as int ==> is_digit(#[trigger] s@[j]),
        decreases n - q,
    {
        let c = s.get_char(q);
        if '0' <= c && c <= '9' {
            q = q + 1;
        } else {
            return q;
        }
    }
    q
}

/// Reads the digit run `s[p..q]` as a 32-bit number; a run whose value does
/// not fit reports failure rather than truncating.
fn parse_u32_run(s: &str, p: usize, q: usize) -> (r: Option<u32>)
    requires
        p <= q,
        q as int <= s@.len(),
        forall|j: int| p as int <= j < q as int ==> is_digit(#[trigger] s@[j]),
    ensures
        match r {
            Some(v) => v as int == digits_value(s@, p as int, q as int),
            None => digits_value(s@, p as int, q as int) > u32::MAX as int,
        },
{
    let mut acc: u32 = 0;
    let mut i = p;
    while i < q
        invariant
            p <= i <= q,
            q as int <= s@.len(),
            forall|j: int| p as int <= j < q as int ==> is_digit(#[trigger] s@[j]),
            acc as int == digits_value(s@, p as int, i as int),
        decreases q - i,
    {
        let c = s.get_char(i);
        let cv = c as u32;
        proof {
            assert(is_digit(s@[i as int]));
            assert(cv >= 48 && cv <= 57);
        }
        let d = cv - 48;
        if acc > (u32::MAX - d) / 10 {
            proof {
                let t = (u32::MAX - d) as int;
                assert(t == (t / 10) * 10 + t % 10) by {
                    vstd::arithmetic::div_mod::lemma_fundamental_div_mod(t, 10);
                }
                assert(acc as int * 10 + d as int > u32::MAX as int);
                assert(digits_value(s@, p as int, i as int + 1) == acc as int * 10 + d as int);
                lemma_digits_value_grow(s@, p as int, i as int + 1, q as int);
            }
            return None;
        }
        proof {
            let t = (u32::MAX - d) as int;
            assert(t == (t / 10) * 10 + t % 10) by {
                vstd::arithmetic::div_mod::lemma_fundamental_div_mod(t, 10);
            }
            assert(acc as int * 10 + d as int <= u32::MAX as int);
            assert(digits_value(s@, p as int, i as int + 1) == acc as int * 10 + d as int);
        }
        acc = acc * 10 + d;
        i = i + 1;
    }
    Some(acc)
}

/// A numeric field defaulting to 1 on an empty digit run.
fn def_int_exec(s: &str, p: usize, n: usize) -> (r: Option<(u32, usize)>)
    requires
        n as int == s@.len(),
        p <= n,
    ensures
        match (r, def_int(s@, p as int)) {
            (Some((v, q)), Some((sv, sq))) => v == sv && q as int == sq && p <= q <= n,
            (None, None) => true,
            _ => false,
        },
{
    let q = digits_end_exec(s, p, n);
    if q == p {
        Some((1, p))
    } else {
        match parse_u32_run(s, p, q) {
            Some(v) => Some((v, q)),
            None => None,
        }
    }
}

/// A required numeric field: at least one digit, fitting 32 bits.
/// Failure does not tell an absent field from one that does not fit; the
/// caller's grammar fails either way.
fn req_u32_exec(s: &str, p: usize, n: usize) -> (r: Option<(u32, usize)>)
    requires
        n as int == s@.len(),
        p <= n,
    ensures
        match (r, req_int(s@, p as int)) {
            (Some((v, q)), Some((sv, sq))) => v as int == sv && q as int == sq && p < q <= n,
            (None, Some((sv, sq))) => sv > u32::MAX as int,
            (None, None) => true,
            (Some(_), None) => false,
        },
{
    let q = digits_end_exec(s, p, n);
    if q == p {
        None
    } else {
        match parse_u32_run(s, p, q) {
            Some(v) => Some((v, q)),
            None => None,
        }
    }
}

/// A required field followed by the `;` separator.
fn sep_field_exec(s: &str, p: usize, n: usize) -> (r: Option<(u32, usize)>)
    requires
        n as int == s@.len(),
        p <= n,
    ensures
        match (r, sep_field(s@, p as int)) {
            (Some((v, q)), Some((sv, sq))) => v as int == sv && q as int == sq && p < q <= n,
            (None, Some((sv, sq))) => sv > u32::MAX as int,
            (None, None) => true,
            (Some(_), None) => false,
        },
{
    match req_u32_exec(s, p, n) {
        None => None,
        Some((v, q)) => {
            if q < n && s.get_char(q) == ';' {
                Some((v, q + 1))
            } else {
                None
            }
        },
    }
}

fn escape_exec(s: &str, p: usize, n: usize) -> (r: Option<(AnsiSequence, usize)>)
    requires
        n as int == s@.len(),
        p <= n,
    ensures
        opt_agrees(r, escape_rule(s@, p as int)),
{
    if p < n && s.get_char(p) == '\u{1b}' {
        Some((AnsiSequence::Escape, p + 1))
    } else {
        None
    }
}

fn cursor_pos_exec(s: &str, p: usize, n: usize) -> (r: Option<(AnsiSequence, usize)>)
    requires
        n as int == s@.len(),
        p <= n,
    ensures
        opt_agrees(r, cursor_pos_rule(s@, p as int)),
{
    if p >= n || s.get_char(p) != '[' {
        return None;
    }
    match def_int_exec(s, p + 1, n) {
        None => None,
        Some((x, q)) => {
            let q2 = if q < n && s.get_char(q) == ';' {
                q + 1
            } else {
                q
            };
            match def_int_exec(s, q2, n) {
                None => None,
                Some((y, r2)) => {
                    if r2 < n && (s.get_char(r2) == 'H' || s.get_char(r2) == 'f') {
                        Some((AnsiSequence::CursorPos(x, y), r2 + 1))
                    } else {
                        None
                    }
                },
            }
        },
    }
}

fn cursor_move_exec(s: &str, p: usize, n: usize, fin: char) -> (r: Option<(u32, usize)>)
    requires
        n as int == s@.len(),
        p <= n,
    ensures
        match (r, cursor_move_rule(s@, p as int, fin)) {
            (Some((v, q)), Some((sv, sq))) => v == sv && q as int == sq && p < q <= n,
            (None, None) => true,
            _ => false,
        },
{
    if p >= n || s.get_char(p) != '[' {
        return None;
    }
    match def_int_exec(s, p + 1, n) {
        None => None,
        Some((v, q)) => {
            if q < n && s.get_char(q) == fin {
                Some((v, q + 1))
            } else {
                None
            }
        },
    }
}

fn tag1_exec(s: &str, p: usize, n: usize, c0: char, e: AnsiSequence) -> (r: Option<
    (AnsiSequence, usize),
>)
    requires
        n as int == s@.len(),
        p <= n,
    ensures
        opt_agrees(r, tag_rule1(s@, p as int, c0, e)),
{
    if p < n && s.get_char(p) == c0 {
        Some((e, p + 1))
    } else {
        None
    }
}

fn tag2_exec(s: &str, p: usize, n: usize, c0: char, c1: char, e: AnsiSequence) -> (r: Option<
    (AnsiSequence, usize),
>)
    requires
        n as int == s@.len(),
        p <= n,
    ensures
        opt_agrees(r, tag_rule2(s@, p as int, c0, c1, e)),
{
    if p < n && p + 1 < n && s.get_char(p) == c0 && s.get_char(p + 1) == c1 {
        Some((e, p + 2))
    } else {
        None
    }
}

fn tag3_exec(s: &str, p: usize, n: usize, c0: char, c1: char, c2: char, e: AnsiSequence) -> (r:
    Option<(AnsiSequence, usize)>)
    requires
        n as int == s@.len(),
        p <= n,
    ensures
        opt_agrees(r, tag_rule3(s@, p as int, c0, c1, c2, e)),
{
    if p < n && n - p > 2 && s.get_char(p) == c0 && s.get_char(p + 1) == c1 && s.get_char(p + 2)
        == c2 {
        Some((e, p + 3))
    } else {
        None
    }
}

fn tag4_exec(
    s: &str,
    p: usize,
    n: usize,
    c0: char,
    c1: char,
    c2: char,
    c3: char,
    e: AnsiSequence,
) -> (r: Option<(AnsiSequence, usize)>)
    requires
        n as int == s@.len(),
        p <= n,
    ensures
        opt_agrees(r, tag_rule4(s@, p as int, c0, c1, c2, c3, e)),
{
    if p < n && n - p > 3 && s.get_char(p) == c0 && s.get_char(p + 1) == c1 && s.get_char(p + 2)
        == c2 && s.get_char(p + 3) == c3 {
        Some((e, p + 4))
    } else {
        None
    }
}

fn tag5_exec(
    s: &str,
    p: usize,
    n: usize,
    c0: char,
    c1: char,
    c2: char,
    c3: char,
    c4: char,
    e: AnsiSequence,
) -> (r: Option<(AnsiSequence, usize)>)
    requires
        n as int == s@.len(),
        p <= n,
    ensures
        opt_agrees(r, tag_rule5(s@, p as int, c0, c1, c2, c3, c4, e)),
{
    if p < n && n - p > 4 && s.get_char(p) == c0 && s.get_char(p + 1) == c1 && s.get_char(p + 2)
        == c2 && s.get_char(p + 3) == c3 && s.get_char(p + 4) == c4 {
        Some((e, p + 5))
    } else {
        None
    }
}

fn gm1_exec(s: &str, p: usize, n: usize) -> (r: Option<(AnsiSequence, usize)>)
    requires
        n as int == s@.len(),
        p <= n,
    ensures
        opt_agrees(r, gm1_rule(s@, p as int)),
{
    if p >= n || s.get_char(p) != '[' {
        return None;
    }
    match req_u32_exec(s, p + 1, n) {
        None => None,
        Some((v1, q)) => {
            if q < n && s.get_char(q) == 'm' && v1 <= 255 {
                Some(
                    (
                        AnsiSequence::SetGraphicsMode(
                            GraphicsModes { len: 1, m0: v1 as u8, m1: 0, m2: 0, m3: 0, m4: 0 },
                        ),
                        q + 1,
                    ),
                )
            } else {
                None
            }
        },
    }
}

fn gm2_exec(s: &str, p: usize, n: usize) -> (r: Option<(AnsiSequence, usize)>)
    requires
        n as int == s@.len(),
        p <= n,
    ensures
        opt_agrees(r, gm2_rule(s@, p as int)),
{
    if p >= n || s.get_char(p) != '[' {
        return None;
    }
    match sep_field_exec(s, p + 1, n) {
        None => None,
        Some((v1, q1)) => match req_u32_exec(s, q1, n) {
            None => None,
            Some((v2, q)) => {
                if q < n && s.get_char(q) == 'm' && v1 <= 255 && v2 <= 255 {
                    Some(
                        (
                            AnsiSequence::SetGraphicsMode(
                                GraphicsModes {
                                    len: 2,
                                    m0: v1 as u8,
                                    m1: v2 as u8,
                                    m2: 0,
                                    m3: 0,
                                    m4: 0,
                                },
                            ),
                            q + 1,
                        ),
                    )
                } else {
                    None
                }
            },
        },
    }
}

fn gm3_exec(s: &str, p: usize, n: usize) -> (r: Option<(AnsiSequence, usize)>)
    requires
        n as int == s@.len(),
        p <= n,
    ensures
        opt_agrees(r, gm3_rule(s@, p as int)),
{
    if p >= n || s.get_char(p) != '[' {
        return None;
    }
    match sep_field_exec(s, p + 1, n) {
        None => None,
        Some((v1, q1)) => match sep_field_exec(s, q1, n) {
            None => None,
            Some((v2, q2)) => match req_u32_exec(s, q2, n) {
                None => None,
                Some((v3, q)) => {
                    if q < n && s.get_char(q) == 'm' && v1 <= 255 && v2 <= 255 && v3 <= 255 {
                        Some(
                            (
                                AnsiSequence::SetGraphicsMode(
                                    GraphicsModes {
                                        len: 3,
                                        m0: v1 as u8,
                                        m1: v2 as u8,
                                        m2: v3 as u8,
                                        m3: 0,
                                        m4: 0,
                                    },
                                ),
                                q + 1,
                            ),
                        )
                    } else {
                        None
                    }
                },
            },
        },
    }
}

fn gm5_exec(s: &str, p: usize, n: usize) -> (r: Option<(AnsiSequence, usize)>)
    requires
        n as int == s@.len(),
        p <= n,
    ensures
        opt_agrees(r, gm5_rule(s@, p as int)),
{
    if p >= n || s.get_char(p) != '[' {
        return None;
    }
    match sep_field_exec(s, p + 1, n) {
        None => None,
        Some((v1, q1)) => match sep_field_exec(s, q1, n) {
            None => None,
            Some((v2, q2)) => match sep_field_exec(s, q2, n) {
                None => None,
                Some((v3, q3)) => match sep_field_exec(s, q3, n) {
                    None => None,
                    Some((v4, q4)) => match req_u32_exec(s, q4, n) {
                        None => None,
                        Some((v5, q)) => {
                            if q < n && s.get_char(q) == 'm' && v1 <= 255 && v2 <= 255 && v3 <= 255
                                && v4 <= 255 && v5 <= 255 {
                                Some(
                                    (
                                        AnsiSequence::SetGraphicsMode(
                                            GraphicsModes {
                                                len: 5,
                                                m0: v1 as u8,
                                                m1: v2 as u8,
                                                m2: v3 as u8,
                                                m3: v4 as u8,
                                                m4: v5 as u8,
                                            },
                                        ),
                                        q + 1,
                                    ),
                                )
                            } else {
                                None
                            }
                        },
                    },
                },
            },
        },
    }
}

fn graphics_exec(s: &str, p: usize, n: usize) -> (r: Option<(AnsiSequence, usize)>)
    requires
        n as int == s@.len(),
        p <= n,
    ensures
        opt_agrees(r, graphics_rule(s@, p as int)),
{
    if let Some(x) = gm1_exec(s, p, n) {
        return Some(x);
    }
    if let Some(x) = gm2_exec(s, p, n) {
        return Some(x);
    }
    if let Some(x) = gm3_exec(s, p, n) {
        return Some(x);
    }
    if let Some(x) = tag2_exec(
        s,
        p,
        n,
        '[',
        'm',
        AnsiSequence::SetGraphicsMode(GraphicsModes { len: 0, m0: 0, m1: 0, m2: 0, m3: 0, m4: 0 }),
    ) {
        return Some(x);
    }
    gm5_exec(s, p, n)
}

fn mode_exec(s: &str, p: usize, n: usize, fin: char) -> (r: Option<(u8, usize)>)
    requires
        n as int == s@.len(),
        p <= n,
    ensures
        match (r, mode_rule(s@, p as int, fin)) {
            (Some((v, q)), Some((sv, sq))) => v == sv && q as int == sq && p < q <= n,
            (None, None) => true,
            _ => false,
        },
{
    if p >= n || p + 1 >= n || s.get_char(p) != '[' || s.get_char(p + 1) != '=' {
        return None;
    }
    match req_u32_exec(s, p + 2, n) {
        None => None,
        Some((v, q)) => {
            if v <= 255 && q < n && s.get_char(q) == fin {
                Some((v as u8, q + 1))
            } else {
                None
            }
        },
    }
}

fn top_bottom_exec(s: &str, p: usize, n: usize) -> (r: Option<(AnsiSequence, usize)>)
    requires
        n as int == s@.len(),
        p <= n,
    ensures
        opt_agrees(r, top_bottom_rule(s@, p as int)),
{
    if p >= n || s.get_char(p) != '[' {
        return None;
    }
    match req_u32_exec(s, p + 1, n) {
        None => None,
        Some((t, q)) => {
            if q < n && s.get_char(q) == ';' {
                match req_u32_exec(s, q + 1, n) {
                    None => None,
                    Some((b, r2)) => {
                        if r2 < n && s.get_char(r2) == 'r' {
                            Some((AnsiSequence::SetTopAndBottom(t, b), r2 + 1))
                        } else {
                            None
                        }
                    },
                }
            } else {
                None
            }
        },
    }
}

/// The scan for the end of a digit run stays inside the input.
pub proof fn lemma_digits_end_bounds(s: Seq<char>, p: int)
    requires
        0 <= p <= s.len(),
    ensures
        p <= digits_end(s, p) <= s.len(),
    decreases s.len() - p,
{
    if p < s.len() && is_digit(s[p]) {
        lemma_digits_end_bounds(s, p + 1);
    }
}

/// A matched defaultable field ends inside the input.
proof fn lemma_def_int_bounds(s: Seq<char>, p: int)
    requires
        0 <= p <= s.len(),
    ensures
        def_int(s, p) matches Some((v, q)) ==> p <= q <= s.len(),
{
    lemma_digits_end_bounds(s, p);
}

/// A matched required field ends inside the input, past its first digit.
proof fn lemma_req_int_bounds(s: Seq<char>, p: int)
    requires
        0 <= p <= s.len(),
    ensures
        req_int(s, p) matches Some((v, q)) ==> p < q <= s.len(),
{
    lemma_digits_end_bounds(s, p);
}

/// A matched separated field ends inside the input, past its first digit.
proof fn lemma_sep_field_bounds(s: Seq<char>, p: int)
    requires
        0 <= p <= s.len(),
    ensures
        sep_field(s, p) matches Some((v, q)) ==> p < q <= s.len(),
{
    lemma_req_int_bounds(s, p);
}

/// Every matched grammar consumes at least one character and no more than
/// the input holds.
pub proof fn lemma_combined_bounds(s: Seq<char>, p: int)
    requires
        0 <= p <= s.len(),
    ensures
        combined_spec(s, p) matches Some((e, q)) ==> p < q <= s.len(),
{
    if p < s.len() && s[p] == '[' {
        lemma_def_int_bounds(s, p + 1);
        match def_int(s, p + 1) {
            Some((x, q)) => {
                let q2 = if q < s.len() && s[q] == ';' {
                    q + 1
                } else {
                    q
                };
                lemma_def_int_bounds(s, q2);
            },
            None => {},
        }
        lemma_req_int_bounds(s, p + 1);
        match req_int(s, p + 1) {
            Some((tv, q)) => {
                if q < s.len() {
                    lemma_req_int_bounds(s, q + 1);
                }
            },
            None => {},
        }
        lemma_sep_field_bounds(s, p + 1);
        match sep_field(s, p + 1) {
            Some((v1, q1)) => {
                lemma_req_int_bounds(s, q1);
                lemma_sep_field_bounds(s, q1);
                match sep_field(s, q1) {
                    Some((v2, q2)) => {
                        lemma_req_int_bounds(s, q2);
                        lemma_sep_field_bounds(s, q2);
                        match sep_field(s, q2) {
                            Some((v3, q3)) => {
                                lemma_req_int_bounds(s, q3);
                                lemma_sep_field_bounds(s, q3);
                                match sep_field(s, q3) {
                                    Some((v4, q4)) => {
                                        lemma_req_int_bounds(s, q4);
                                    },
                                    None => {},
                                }
                            },
                            None => {},
                        }
                    },
                    None => {},
                }
            },
            None => {},
        }
        if p + 1 < s.len() && s[p + 1] == '=' {
            lemma_req_int_bounds(s, p + 2);
        }
    }
}

/// Every matched grammar yields a well-formed structured value.
pub proof fn lemma_combined_wf(s: Seq<char>, p: int)
    ensures
        combined_spec(s, p) matches Some((e, q)) ==> e.wf(),
{
}

/// A recognized sequence consumes at least the introducer and one more
/// character, and never more than the input holds; its value is well formed.
pub proof fn lemma_parse_escape_spec_bounds(s: Seq<char>)
    ensures
        parse_escape_spec(s) matches Some((e, q)) ==> 1 < q <= s.len() && e.wf(),
{
    if s.len() > 0 && s[0] == esc() {
        lemma_combined_bounds(s, 1);
        lemma_combined_wf(s, 1);
    }
}

fn combined_cursor_exec(s: &str, p: usize, n: usize) -> (r: Option<(AnsiSequence, usize)>)
    requires
        n as int == s@.len(),
        p <= n,
    ensures
        opt_agrees(r, combined_cursor(s@, p as int)),
{
    if let Some(x) = escape_exec(s, p, n) {
        return Some(x);
    }
    if let Some(x) = cursor_pos_exec(s, p, n) {
        return Some(x);
    }
    if let Some((v, q)) = cursor_move_exec(s, p, n, 'A') {
        return Some((AnsiSequence::CursorUp(v), q));
    }
    if let Some((v, q)) = cursor_move_exec(s, p, n, 'B') {
        return Some((AnsiSequence::CursorDown(v), q));
    }
    if let Some((v, q)) = cursor_move_exec(s, p, n, 'C') {
        return Some((AnsiSequence::CursorForward(v), q));
    }
    if let Some((v, q)) = cursor_move_exec(s, p, n, 'D') {
        return Some((AnsiSequence::CursorBackward(v), q));
    }
    if let Some(x) = tag2_exec(s, p, n, '[', 's', AnsiSequence::CursorSave) {
        return Some(x);
    }
    if let Some(x) = tag2_exec(s, p, n, '[', 'u', AnsiSequence::CursorRestore) {
        return Some(x);
    }
    if let Some(x) = tag3_exec(s, p, n, '[', '2', 'J', AnsiSequence::EraseDisplay) {
        return Some(x);
    }
    tag2_exec(s, p, n, '[', 'K', AnsiSequence::EraseLine)
}

fn combined_modes_exec(s: &str, p: usize, n: usize) -> (r: Option<(AnsiSequence, usize)>)
    requires
        n as int == s@.len(),
        p <= n,
    ensures
        opt_agrees(r, combined_modes(s@, p as int)),
{
    if let Some(x) = graphics_exec(s, p, n) {
        return Some(x);
    }
    if let Some((m, q)) = mode_exec(s, p, n, 'h') {
        return Some((AnsiSequence::SetMode(m), q));
    }
    if let Some((m, q)) = mode_exec(s, p, n, 'l') {
        return Some((AnsiSequence::ResetMode(m), q));
    }
    if let Some(x) = tag5_exec(s, p, n, '[', '?', '2', '5', 'l', AnsiSequence::HideCursor) {
        return Some(x);
    }
    if let Some(x) = tag5_exec(s, p, n, '[', '?', '2', '5', 'h', AnsiSequence::ShowCursor) {
        return Some(x);
    }
    if let Some(x) = tag4_exec(s, p, n, '[', '?', '1', 'h', AnsiSequence::CursorToApp) {
        return Some(x);
    }
    if let Some(x) = tag4_exec(s, p, n, '[', '2', '0', 'h', AnsiSequence::SetNewLineMode) {
        return Some(x);
    }
    if let Some(x) = tag4_exec(s, p, n, '[', '?', '3', 'h', AnsiSequence::SetCol132) {
        return Some(x);
    }
    if let Some(x) = tag4_exec(s, p, n, '[', '?', '4', 'h', AnsiSequence::SetSmoothScroll) {
        return Some(x);
    }
    if let Some(x) = tag4_exec(s, p, n, '[', '?', '5', 'h', AnsiSequence::SetReverseVideo) {
        return Some(x);
    }
    if let Some(x) = tag4_exec(s, p, n, '[', '?', '6', 'h', AnsiSequence::SetOriginRelative) {
        return Some(x);
    }
    if let Some(x) = tag4_exec(s, p, n, '[', '?', '7', 'h', AnsiSequence::SetAutoWrap) {
        return Some(x);
    }
    if let Some(x) = tag4_exec(s, p, n, '[', '?', '8', 'h', AnsiSequence::SetAutoRepeat) {
        return Some(x);
    }
    if let Some(x) = tag4_exec(s, p, n, '[', '?', '9', 'h', AnsiSequence::SetInterlacing) {
        return Some(x);
    }
    if let Some(x) = tag4_exec(s, p, n, '[', '2', '0', 'l', AnsiSequence::SetLineFeedMode) {
        return Some(x);
    }
    if let Some(x) = tag4_exec(s, p, n, '[', '?', '1', 'l', AnsiSequence::SetCursorKeyToCursor) {
        return Some(x);
    }
    if let Some(x) = tag4_exec(s, p, n, '[', '?', '2', 'l', AnsiSequence::SetVT52) {
        return Some(x);
    }
    if let Some(x) = tag4_exec(s, p, n, '[', '?', '3', 'l', AnsiSequence::SetCol80) {
        return Some(x);
    }
    if let Some(x) = tag4_exec(s, p, n, '[', '?', '4', 'l', AnsiSequence::SetJumpScrolling) {
        return Some(x);
    }
    if let Some(x) = tag4_exec(s, p, n, '[', '?', '5', 'l', AnsiSequence::SetNormalVideo) {
        return Some(x);
    }
    if let Some(x) = tag4_exec(s, p, n, '[', '?', '6', 'l', AnsiSequence::SetOriginAbsolute) {
        return Some(x);
    }
    if let Some(x) = tag4_exec(s, p, n, '[', '?', '7', 'l', AnsiSequence::ResetAutoWrap) {
        return Some(x);
    }
    if let Some(x) = tag4_exec(s, p, n, '[', '?', '8', 'l', AnsiSequence::ResetAutoRepeat) {
        return Some(x);
    }
    tag4_exec(s, p, n, '[', '?', '9', 'l', AnsiSequence::ResetInterlacing)
}

fn combined_keypad_exec(s: &str, p: usize, n: usize) -> (r: Option<(AnsiSequence, usize)>)
    requires
        n as int == s@.len(),
        p <= n,
    ensures
        opt_agrees(r, combined_keypad(s@, p as int)),
{
    if let Some(x) = top_bottom_exec(s, p, n) {
        return Some(x);
    }
    if let Some(x) = tag1_exec(s, p, n, '=', AnsiSequence::SetAlternateKeypad) {
        return Some(x);
    }
    if let Some(x) = tag1_exec(s, p, n, '>', AnsiSequence::SetNumericKeypad) {
        return Some(x);
    }
    if let Some(x) = tag2_exec(s, p, n, '(', 'A', AnsiSequence::SetUKG0) {
        return Some(x);
    }
    if let Some(x) = tag2_exec(s, p, n, ')', 'A', AnsiSequence::SetUKG1) {
        return Some(x);
    }
    if let Some(x) = tag2_exec(s, p, n, '(', 'B', AnsiSequence::SetUSG0) {
        return Some(x);
    }
    if let Some(x) = tag2_exec(s, p, n, ')', 'B', AnsiSequence::SetUSG1) {
        return Some(x);
    }
    if let Some(x) = tag2_exec(s, p, n, '(', '0', AnsiSequence::SetG0SpecialChars) {
        return Some(x);
    }
    if let Some(x) = tag2_exec(s, p, n, ')', '0', AnsiSequence::SetG1SpecialChars) {
        return Some(x);
    }
    if let Some(x) = tag2_exec(s, p, n, '(', '1', AnsiSequence::SetG0AlternateChar) {
        return Some(x);
    }
    if let Some(x) = tag2_exec(s, p, n, ')', '1', AnsiSequence::SetG1AlternateChar) {
        return Some(x);
    }
    if let Some(x) = tag2_exec(s, p, n, '(', '2', AnsiSequence::SetG0AltAndSpecialGraph) {
        return Some(x);
    }
    if let Some(x) = tag2_exec(s, p, n, ')', '2', AnsiSequence::SetG1AltAndSpecialGraph) {
        return Some(x);
    }
    if let Some(x) = tag1_exec(s, p, n, 'N', AnsiSequence::SetSingleShift2) {
        return Some(x);
    }
    tag1_exec(s, p, n, 'O', AnsiSequence::SetSingleShift3)
}

/// Tries every grammar at `p` in the fixed priority order.
fn combined_exec(s: &str, p: usize, n: usize) -> (r: Option<(AnsiSequence, usize)>)
    requires
        n as int == s@.len(),
        p <= n,
    ensures
        opt_agrees(r, combined_spec(s@, p as int)),
{
    if let Some(x) = combined_cursor_exec(s, p, n) {
        return Some(x);
    }
    if let Some(x) = combined_modes_exec(s, p, n) {
        return Some(x);
    }
    combined_keypad_exec(s, p, n)
}

/// The recognizer on the whole of `s`: an introducer, then the first
/// matching grammar. Returns the structured value and how many characters
/// the match consumed.
pub(crate) fn parse_escape_core(s: &str) -> (r: Option<(AnsiSequence, usize)>)
    ensures
        opt_agrees(r, parse_escape_spec(s@)),
{
    let n = s.unicode_len();
    if n == 0 {
        return None;
    }
    if s.get_char(0) != '\u{1b}' {
        return None;
    }
    combined_exec(s, 1, n)
}

/// A successful recognition: the structured value and the remaining input
/// after the matched prefix (a borrowed view, never a copy).
pub struct ParsedEscape<'a> {
    pub seq: AnsiSequence,
    pub rest: &'a str,
}

/// What a successful recognition returns: the structured value and the
/// remaining input that the grammar match gives, the value well formed.
pub open spec fn parse_escape_post(s: Seq<char>, rest: Seq<char>, e: AnsiSequence) -> bool {
    match parse_escape_spec(s) {
        Some((se, sn)) => e == se && rest == s.skip(sn) && e.wf(),
        None => false,
    }
}

/// Attempts to recognize one escape sequence at the start of `s`.
///
/// On a match, returns the structured value together with the input after
/// the matched prefix, exactly as the grammar gives them; on no match
/// (including a numeric parameter that does not fit its width) returns
/// nothing, and the caller falls back to treating the text as literal.
pub fn parse_escape<'a>(s: &'a str) -> (r: Option<ParsedEscape<'a>>)
    ensures
        (r is Some) == (parse_escape_spec(s@) is Some),
        r matches Some(pe) ==> parse_escape_post(s@, pe.rest@, pe.seq),
{
    match parse_escape_core(s) {
        None => None,
        Some((e, q)) => {
            let n = s.unicode_len();
            proof {
                lemma_parse_escape_spec_bounds(s@);
            }
            let rest = s.substring_char(q, n);
            Some(ParsedEscape { seq: e, rest })
        },
    }
}

/// A digit run of length `k` at `p`, ended by the input's end or by a
/// non-digit, is exactly what the scan for the end of a run finds.
pub proof fn lemma_digits_end_at(s: Seq<char>, p: int, k: int)
    requires
        0 <= p,
        0 <= k,
        p + k <= s.len(),
        forall|i: int| p <= i < p + k ==> is_digit(#[trigger] s[i]),
        p + k == s.len() || !is_digit(s[p + k]),
    ensures
        digits_end(s, p) == p + k,
    decreases k,
{
    if k > 0 {
        assert(is_digit(s[p]));
        lemma_digits_end_at(s, p + 1, k - 1);
    }
}

/// What the scan for the end of a digit run finds: digits up to it, and no
/// digit at it.
proof fn lemma_digits_end_chars(s: Seq<char>, p: int)
    requires
        0 <= p <= s.len(),
    ensures
        p <= digits_end(s, p) <= s.len(),
        forall|j: int| p <= j < digits_end(s, p) ==> is_digit(#[trigger] s[j]),
        digits_end(s, p) < s.len() ==> !is_digit(s[digits_end(s, p)]),
    decreases s.len() - p,
{
    if p < s.len() && is_digit(s[p]) {
        lemma_digits_end_chars(s, p + 1);
    }
}

/// The value of a digit run depends only on the characters it covers.
proof fn lemma_digits_value_agree(s: Seq<char>, s2: Seq<char>, p: int, q: int)
    requires
        forall|j: int| p <= j < q ==> s[j] == s2[j],
    ensures
        digits_value(s, p, q) == digits_value(s2, p, q),
    decreases q - p,
{
    if p < q {
        lemma_digits_value_agree(s, s2, p, q - 1);
    }
}

/// A digit run at `p`, with what it ends on, is the same in the input and
/// in any prefix of the input that still holds the run's end.
proof fn lemma_digits_end_agree(s: Seq<char>, n: int, p: int)
    requires
        0 <= p <= n <= s.len(),
    ensures
        digits_end(s, p) <= n ==> digits_end(s.take(n), p) == digits_end(s, p),
        digits_end(s.take(n), p) < n ==> digits_end(s, p) == digits_end(s.take(n), p),
        digits_end(s, p) <= n ==> digits_value(s.take(n), p, digits_end(s, p)) == digits_value(
            s,
            p,
            digits_end(s, p),
        ),
{
    let s2 = s.take(n);
    lemma_digits_end_chars(s, p);
    lemma_digits_end_chars(s2, p);
    let d = digits_end(s, p);
    let d2 = digits_end(s2, p);
    if d <= n {
        assert(forall|j: int| p <= j < d ==> is_digit(#[trigger] s2[j]));
        lemma_digits_end_at(s2, p, d - p);
        lemma_digits_value_agree(s, s2, p, d);
    }
    if d2 < n {
        assert(forall|j: int| p <= j < d2 ==> is_digit(#[trigger] s[j]));
        lemma_digits_end_at(s, p, d2 - p);
    }
}

/// A defaultable field, with what it ends on, reads the same from the input
/// and from a prefix of the input that still holds its end.
proof fn lemma_def_int_take(s: Seq<char>, n: int, p: int)
    requires
        0 <= p <= n <= s.len(),
    ensures
        (def_int(s, p) matches Some((v, q)) && q <= n) ==> def_int(s.take(n), p) == def_int(s, p),
        (def_int(s.take(n), p) matches Some((v, q)) && q < n) ==> def_int(s, p) == def_int(
            s.take(n),
            p,
        ),
{
    lemma_digits_end_agree(s, n, p);
    let s2 = s.take(n);
    if digits_end(s2, p) < n {
        lemma_digits_value_agree(s, s2, p, digits_end(s2, p));
    }
}

/// A required field, with what it ends on, reads the same from the input
/// and from a prefix of the input that still holds its end.
proof fn lemma_req_int_take(s: Seq<char>, n: int, p: int)
    requires
        0 <= p <= n <= s.len(),
    ensures
        (req_int(s, p) matches Some((v, q)) && q <= n) ==> req_int(s.take(n), p) == req_int(s, p),
        (req_int(s.take(n), p) matches Some((v, q)) && q < n) ==> req_int(s, p) == req_int(
            s.take(n),
            p,
        ),
{
    lemma_digits_end_agree(s, n, p);
    let s2 = s.take(n);
    if digits_end(s2, p) < n {
        lemma_digits_value_agree(s, s2, p, digits_end(s2, p));
    }
}

/// A separated field reads the same from the input and from a prefix of the
/// input that still holds its separator.
proof fn lemma_sep_field_take(s: Seq<char>, n: int, p: int)
    requires
        0 <= p <= n <= s.len(),
    ensures
        (sep_field(s, p) matches Some((v, q)) && q <= n) ==> sep_field(s.take(n), p) == sep_field(
            s,
            p,
        ),
        (sep_field(s.take(n), p) is Some) ==> sep_field(s, p) == sep_field(s.take(n), p),
{
    lemma_req_int_take(s, n, p);
    lemma_req_int_bounds(s, p);
    lemma_req_int_bounds(s.take(n), p);
}

/// A relative cursor motion reads the same from the input and from a prefix
/// that still holds everything the match consumed.
proof fn lemma_cursor_move_take(s: Seq<char>, n: int, p: int, fin: char)
    requires
        0 <= p < n <= s.len(),
    ensures
        (cursor_move_rule(s, p, fin) matches Some((v, q)) && q <= n) ==> cursor_move_rule(
            s.take(n),
            p,
            fin,
        ) == cursor_move_rule(s, p, fin),
        (cursor_move_rule(s.take(n), p, fin) is Some) ==> cursor_move_rule(s, p, fin)
            == cursor_move_rule(s.take(n), p, fin),
{
    lemma_def_int_take(s, n, p + 1);
    lemma_def_int_bounds(s, p + 1);
    lemma_def_int_bounds(s.take(n), p + 1);
}

/// The cursor-position grammar reads the same from the input and from a
/// prefix that still holds everything the match consumed.
proof fn lemma_cursor_pos_take(s: Seq<char>, n: int, p: int)
    requires
        0 <= p < n <= s.len(),
    ensures
        (cursor_pos_rule(s, p) matches Some((e, q)) && q <= n) ==> cursor_pos_rule(s.take(n), p)
            == cursor_pos_rule(s, p),
        (cursor_pos_rule(s.take(n), p) is Some) ==> cursor_pos_rule(s, p) == cursor_pos_rule(
            s.take(n),
            p,
        ),
{
    let s2 = s.take(n);
    lemma_def_int_take(s, n, p + 1);
    lemma_def_int_bounds(s, p + 1);
    lemma_def_int_bounds(s2, p + 1);
    match def_int(s, p + 1) {
        Some((x, q)) => {
            let q2 = if q < s.len() && s[q] == ';' {
                q + 1
            } else {
                q
            };
            if q2 <= s.len() {
                lemma_def_int_bounds(s, q2);
            }
            if q2 <= n {
                lemma_def_int_take(s, n, q2);
                lemma_def_int_bounds(s2, q2);
            }
        },
        None => {},
    }
    match def_int(s2, p + 1) {
        Some((x, q)) => {
            let q2 = if q < n && s2[q] == ';' {
                q + 1
            } else {
                q
            };
            if q2 <= n {
                lemma_def_int_take(s, n, q2);
                lemma_def_int_bounds(s, q2);
                lemma_def_int_bounds(s2, q2);
            }
        },
        None => {},
    }
}

/// A mode grammar reads the same from the input and from a prefix that
/// still holds everything the match consumed.
proof fn lemma_mode_take(s: Seq<char>, n: int, p: int, fin: char)
    requires
        0 <= p < n <= s.len(),
    ensures
        (mode_rule(s, p, fin) matches Some((v, q)) && q <= n) ==> mode_rule(s.take(n), p, fin)
            == mode_rule(s, p, fin),
        (mode_rule(s.take(n), p, fin) is Some) ==> mode_rule(s, p, fin) == mode_rule(
            s.take(n),
            p,
            fin,
        ),
{
    if p + 2 <= s.len() {
        lemma_req_int_bounds(s, p + 2);
    }
    if p + 2 <= n {
        lemma_req_int_take(s, n, p + 2);
        lemma_req_int_bounds(s.take(n), p + 2);
    }
}

/// The scroll-region grammar reads the same from the input and from a
/// prefix that still holds everything the match consumed.
proof fn lemma_top_bottom_take(s: Seq<char>, n: int, p: int)
    requires
        0 <= p < n <= s.len(),
    ensures
        (top_bottom_rule(s, p) matches Some((e, q)) && q <= n) ==> top_bottom_rule(s.take(n), p)
            == top_bottom_rule(s, p),
        (top_bottom_rule(s.take(n), p) is Some) ==> top_bottom_rule(s, p) == top_bottom_rule(
            s.take(n),
            p,
        ),
{
    let s2 = s.take(n);
    lemma_req_int_take(s, n, p + 1);
    lemma_req_int_bounds(s, p + 1);
    lemma_req_int_bounds(s2, p + 1);
    match req_int(s, p + 1) {
        Some((tv, q)) => {
            if q + 1 <= s.len() {
                lemma_req_int_bounds(s, q + 1);
            }
            if q + 1 <= n {
                lemma_req_int_take(s, n, q + 1);
                lemma_req_int_bounds(s2, q + 1);
            }
        },
        None => {},
    }
    match req_int(s2, p + 1) {
        Some((tv, q)) => {
            if q + 1 <= n {
                lemma_req_int_take(s, n, q + 1);
                lemma_req_int_bounds(s, q + 1);
                lemma_req_int_bounds(s2, q + 1);
            }
        },
        None => {},
    }
}

/// The one-field graphics grammar reads the same from the input and from a
/// prefix that still holds everything the match consumed.
proof fn lemma_gm1_take(s: Seq<char>, n: int, p: int)
    requires
        0 <= p < n <= s.len(),
    ensures
        (gm1_rule(s, p) matches Some((e, q)) && q <= n) ==> gm1_rule(s.take(n), p) == gm1_rule(
            s,
            p,
        ),
        (gm1_rule(s.take(n), p) is Some) ==> gm1_rule(s, p) == gm1_rule(s.take(n), p),
{
    lemma_req_int_take(s, n, p + 1);
    lemma_req_int_bounds(s, p + 1);
    lemma_req_int_bounds(s.take(n), p + 1);
}

/// The two-field graphics grammar reads the same from the input and from a
/// prefix that still holds everything the match consumed.
proof fn lemma_gm2_take(s: Seq<char>, n: int, p: int)
    requires
        0 <= p < n <= s.len(),
    ensures
        (gm2_rule(s, p) matches Some((e, q)) && q <= n) ==> gm2_rule(s.take(n), p) == gm2_rule(
            s,
            p,
        ),
        (gm2_rule(s.take(n), p) is Some) ==> gm2_rule(s, p) == gm2_rule(s.take(n), p),
{
    let s2 = s.take(n);
    lemma_sep_field_take(s, n, p + 1);
    lemma_sep_field_bounds(s, p + 1);
    lemma_sep_field_bounds(s2, p + 1);
    match sep_field(s, p + 1) {
        Some((v1, q1)) => {
            lemma_req_int_bounds(s, q1);
            if q1 <= n {
                lemma_req_int_take(s, n, q1);
                lemma_req_int_bounds(s2, q1);
            }
        },
        None => {},
    }
    match sep_field(s2, p + 1) {
        Some((v1, q1)) => {
            lemma_req_int_take(s, n, q1);
            lemma_req_int_bounds(s, q1);
            lemma_req_int_bounds(s2, q1);
        },
        None => {},
    }
}

/// The three-field graphics grammar reads the same from the input and from
/// a prefix that still holds everything the match consumed.
proof fn lemma_gm3_take(s: Seq<char>, n: int, p: int)
    requires
        0 <= p < n <= s.len(),
    ensures
        (gm3_rule(s, p) matches Some((e, q)) && q <= n) ==> gm3_rule(s.take(n), p) == gm3_rule(
            s,
            p,
        ),
        (gm3_rule(s.take(n), p) is Some) ==> gm3_rule(s, p) == gm3_rule(s.take(n), p),
{
    let s2 = s.take(n);
    lemma_sep_field_take(s, n, p + 1);
    lemma_sep_field_bounds(s, p + 1);
    lemma_sep_field_bounds(s2, p + 1);
    match sep_field(s, p + 1) {
        Some((v1, q1)) => {
            lemma_sep_field_bounds(s, q1);
            if q1 <= n {
                lemma_sep_field_take(s, n, q1);
                lemma_sep_field_bounds(s2, q1);
            }
            match sep_field(s, q1) {
                Some((v2, q2)) => {
                    lemma_req_int_bounds(s, q2);
                    if q2 <= n {
                        lemma_req_int_take(s, n, q2);
                        lemma_req_int_bounds(s2, q2);
                    }
                },
                None => {},
            }
        },
        None => {},
    }
    match sep_field(s2, p + 1) {
        Some((v1, q1)) => {
            lemma_sep_field_take(s, n, q1);
            lemma_sep_field_bounds(s, q1);
            lemma_sep_field_bounds(s2, q1);
            match sep_field(s2, q1) {
                Some((v2, q2)) => {
                    lemma_req_int_take(s, n, q2);
                    lemma_req_int_bounds(s, q2);
                    lemma_req_int_bounds(s2, q2);
                },
                None => {},
            }
        },
        None => {},
    }
}

/// The five-field graphics grammar reads the same from the input and from a
/// prefix that still holds everything the match consumed.
#[verifier::rlimit(60)]
proof fn lemma_gm5_take(s: Seq<char>, n: int, p: int)
    requires
        0 <= p < n <= s.len(),
    ensures
        (gm5_rule(s, p) matches Some((e, q)) && q <= n) ==> gm5_rule(s.take(n), p) == gm5_rule(
            s,
            p,
        ),
        (gm5_rule(s.take(n), p) is Some) ==> gm5_rule(s, p) == gm5_rule(s.take(n), p),
{
    let s2 = s.take(n);
    lemma_sep_field_take(s, n, p + 1);
    lemma_sep_field_bounds(s, p + 1);
    lemma_sep_field_bounds(s2, p + 1);
    match sep_field(s, p + 1) {
        Some((v1, q1)) => {
            lemma_sep_field_bounds(s, q1);
            if q1 <= n {
                lemma_sep_field_take(s, n, q1);
                lemma_sep_field_bounds(s2, q1);
            }
            match sep_field(s, q1) {
                Some((v2, q2)) => {
                    lemma_sep_field_bounds(s, q2);
                    if q2 <= n {
                        lemma_sep_field_take(s, n, q2);
                        lemma_sep_field_bounds(s2, q2);
                    }
                    match sep_field(s, q2) {
                        Some((v3, q3)) => {
                            lemma_sep_field_bounds(s, q3);
                            if q3 <= n {
                                lemma_sep_field_take(s, n, q3);
                                lemma_sep_field_bounds(s2, q3);
                            }
                            match sep_field(s, q3) {
                                Some((v4, q4)) => {
                                    lemma_req_int_bounds(s, q4);
                                    if q4 <= n {
                                        lemma_req_int_take(s, n, q4);
                                        lemma_req_int_bounds(s2, q4);
                                    }
                                },
                                None => {},
                            }
                        },
                        None => {},
                    }
                },
                None => {},
            }
        },
        None => {},
    }
    match sep_field(s2, p + 1) {
        Some((v1, q1)) => {
            lemma_sep_field_take(s, n, q1);
            lemma_sep_field_bounds(s, q1);
            lemma_sep_field_bounds(s2, q1);
            match sep_field(s2, q1) {
                Some((v2, q2)) => {
                    lemma_sep_field_take(s, n, q2);
                    lemma_sep_field_bounds(s, q2);
                    lemma_sep_field_bounds(s2, q2);
                    match sep_field(s2, q2) {
                        Some((v3, q3)) => {
                            lemma_sep_field_take(s, n, q3);
                            lemma_sep_field_bounds(s, q3);
                            lemma_sep_field_bounds(s2, q3);
                            match sep_field(s2, q3) {
                                Some((v4, q4)) => {
                                    lemma_req_int_take(s, n, q4);
                                    lemma_req_int_bounds(s, q4);
                                    lemma_req_int_bounds(s2, q4);
                                },
                                None => {},
                            }
                        },
                        None => {},
                    }
                },
                None => {},
            }
        },
        None => {},
    }
}

/// A recognized match is determined by exactly the text it consumed: the
/// matched prefix alone is recognized again as the same value, consuming
/// all of it.
pub proof fn lemma_parse_matched_prefix(s: Seq<char>)
    ensures
        parse_escape_spec(s) matches Some((e, m)) ==> parse_escape_spec(s.take(m)) == Some(
            (e, m),
        ),
{
    match parse_escape_spec(s) {
        None => {},
        Some((e, m)) => {
            lemma_parse_escape_spec_bounds(s);
            let s2 = s.take(m);
            lemma_cursor_pos_take(s, m, 1);
            lemma_cursor_move_take(s, m, 1, 'A');
            lemma_cursor_move_take(s, m, 1, 'B');
            lemma_cursor_move_take(s, m, 1, 'C');
            lemma_cursor_move_take(s, m, 1, 'D');
            assert(combined_cursor(s2, 1) == combined_cursor(s, 1));
            if combined_cursor(s, 1) is None {
                lemma_gm1_take(s, m, 1);
                lemma_gm2_take(s, m, 1);
                lemma_gm3_take(s, m, 1);
                lemma_gm5_take(s, m, 1);
                lemma_mode_take(s, m, 1, 'h');
                lemma_mode_take(s, m, 1, 'l');
                assert(combined_modes(s2, 1) == combined_modes(s, 1));
                if combined_modes(s, 1) is None {
                    lemma_top_bottom_take(s, m, 1);
                    assert(combined_keypad(s2, 1) == combined_keypad(s, 1));
                }
            }
            assert(parse_escape_spec(s2) == Some((e, m)));
        },
    }
}

} // verus!
