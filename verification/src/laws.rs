use vstd::prelude::*;

use crate::enums::dec_digits;
use crate::enums::digit_char;
use crate::enums::render_spec;
use crate::enums::AnsiSequence;
use crate::parsers::digits_end;
use crate::parsers::digits_value;
use crate::parsers::is_digit;
use crate::parsers::lemma_digits_end_at;
use crate::parsers::parse_escape_spec;

verus! {

/// A base-10 rendering is a non-empty run of digits.
proof fn lemma_dec_digits_props(n: int)
    requires
        0 <= n,
    ensures
        dec_digits(n).len() >= 1,
        forall|i: int| 0 <= i < dec_digits(n).len() ==> is_digit(#[trigger] dec_digits(n)[i]),
    decreases n,
{
    if n >= 10 {
        lemma_dec_digits_props(n / 10);
    }
}

/// Reading a base-10 rendering embedded at position `p` gives back the
/// rendered number.
proof fn lemma_dec_value(s: Seq<char>, p: int, n: int)
    requires
        0 <= n,
        0 <= p,
        p + dec_digits(n).len() <= s.len(),
        forall|i: int|
            0 <= i < dec_digits(n).len() ==> s[p + i] == #[trigger] dec_digits(n)[i],
    ensures
        digits_value(s, p, p + dec_digits(n).len()) == n,
    decreases n,
{
    let d = dec_digits(n);
    if n < 10 {
        assert(digits_value(s, p, p + 1) == digits_value(s, p, p) * 10 + digit_val_at(s, p));
        assert(s[p] == d[0]);
    } else {
        let dh = dec_digits(n / 10);
        assert(d == dh.push(digit_char(n % 10)));
        assert(forall|i: int| 0 <= i < dh.len() ==> s[p + i] == #[trigger] dh[i]) by {
            assert(forall|i: int| 0 <= i < dh.len() ==> #[trigger] dh[i] == d[i]);
        }
        lemma_dec_value(s, p, n / 10);
        lemma_dec_digits_props(n / 10);
        assert(d[d.len() - 1] == digit_char(n % 10));
        assert(s[p + (d.len() - 1)] == d[d.len() - 1]);
        assert(s[p + d.len() - 1] == digit_char(n % 10));
        assert(digits_value(s, p, p + d.len()) == digits_value(s, p, p + dh.len()) * 10
            + digit_val_at(s, p + d.len() - 1));
        vstd::arithmetic::div_mod::lemma_fundamental_div_mod(n, 10);
    }
}

/// The digit value of the character at `p`.
spec fn digit_val_at(s: Seq<char>, p: int) -> int {
    crate::parsers::digit_val(s[p])
}

/// The variants whose rendered bodies do not start with `[`: the keypad
/// and character-set toggles.
spec fn is_keypad_variant(e: AnsiSequence) -> bool {
    match e {
        AnsiSequence::SetAlternateKeypad => true,
        AnsiSequence::SetNumericKeypad => true,
        AnsiSequence::SetUKG0 => true,
        AnsiSequence::SetUKG1 => true,
        AnsiSequence::SetUSG0 => true,
        AnsiSequence::SetUSG1 => true,
        AnsiSequence::SetG0SpecialChars => true,
        AnsiSequence::SetG1SpecialChars => true,
        AnsiSequence::SetG0AlternateChar => true,
        AnsiSequence::SetG1AlternateChar => true,
        AnsiSequence::SetG0AltAndSpecialGraph => true,
        AnsiSequence::SetG1AltAndSpecialGraph => true,
        AnsiSequence::SetSingleShift2 => true,
        AnsiSequence::SetSingleShift3 => true,
        _ => false,
    }
}

/// Round trip for the keypad and character-set variants, whose rendered
/// bodies do not start with `[`.
#[verifier::rlimit(60)]
#[verifier::spinoff_prover]
proof fn lemma_rt_keypad(e: AnsiSequence)
    requires
        is_keypad_variant(e),
    ensures
        parse_escape_spec(render_spec(e)) == Some((e, render_spec(e).len() as int)),
{
    let s = render_spec(e);
    assert(s[0] == crate::enums::esc());
    assert(crate::parsers::combined_cursor(s, 1) is None);
    assert(crate::parsers::combined_modes(s, 1) is None);
    assert(crate::parsers::combined_keypad(s, 1) == Some((e, s.len() as int)));
}

/// The cursor-save, restore and erase variants, and the toggles set with
/// a trailing `h`.
spec fn is_bracket_tag_h_variant(e: AnsiSequence) -> bool {
    match e {
        AnsiSequence::CursorSave => true,
        AnsiSequence::CursorRestore => true,
        AnsiSequence::EraseDisplay => true,
        AnsiSequence::EraseLine => true,
        AnsiSequence::ShowCursor => true,
        AnsiSequence::CursorToApp => true,
        AnsiSequence::SetNewLineMode => true,
        AnsiSequence::SetCol132 => true,
        AnsiSequence::SetSmoothScroll => true,
        AnsiSequence::SetReverseVideo => true,
        AnsiSequence::SetOriginRelative => true,
        AnsiSequence::SetAutoWrap => true,
        AnsiSequence::SetAutoRepeat => true,
        AnsiSequence::SetInterlacing => true,
        _ => false,
    }
}

/// The toggles reset with a trailing `l`.
spec fn is_bracket_tag_l_variant(e: AnsiSequence) -> bool {
    match e {
        AnsiSequence::HideCursor => true,
        AnsiSequence::SetLineFeedMode => true,
        AnsiSequence::SetCursorKeyToCursor => true,
        AnsiSequence::SetVT52 => true,
        AnsiSequence::SetCol80 => true,
        AnsiSequence::SetJumpScrolling => true,
        AnsiSequence::SetNormalVideo => true,
        AnsiSequence::SetOriginAbsolute => true,
        AnsiSequence::ResetAutoWrap => true,
        AnsiSequence::ResetAutoRepeat => true,
        AnsiSequence::ResetInterlacing => true,
        _ => false,
    }
}

/// Round trip for the bare introducer and the first half of the fixed
/// `[`-prefixed toggles.
#[verifier::rlimit(60)]
#[verifier::spinoff_prover]
proof fn lemma_rt_fixed_h(e: AnsiSequence)
    requires
        e == AnsiSequence::Escape || is_bracket_tag_h_variant(e),
    ensures
        parse_escape_spec(render_spec(e)) == Some((e, render_spec(e).len() as int)),
{
    let s = render_spec(e);
    assert(s[0] == crate::enums::esc());
    reveal_with_fuel(crate::parsers::digits_end, 4);
    reveal_with_fuel(crate::parsers::digits_value, 4);
    assert(crate::parsers::combined_spec(s, 1) == Some((e, s.len() as int)));
}

/// Round trip for the second half of the fixed `[`-prefixed toggles.
#[verifier::rlimit(60)]
#[verifier::spinoff_prover]
proof fn lemma_rt_fixed_l(e: AnsiSequence)
    requires
        is_bracket_tag_l_variant(e),
    ensures
        parse_escape_spec(render_spec(e)) == Some((e, render_spec(e).len() as int)),
{
    let s = render_spec(e);
    assert(s[0] == crate::enums::esc());
    reveal_with_fuel(crate::parsers::digits_end, 4);
    reveal_with_fuel(crate::parsers::digits_value, 4);
    assert(crate::parsers::combined_spec(s, 1) == Some((e, s.len() as int)));
}

/// Round trip for the four relative cursor motions.
#[verifier::spinoff_prover]
proof fn lemma_rt_cursor_move(e: AnsiSequence)
    requires
        e matches AnsiSequence::CursorUp(_) || e matches AnsiSequence::CursorDown(_)
            || e matches AnsiSequence::CursorForward(_) || e matches AnsiSequence::CursorBackward(
            _,
        ),
    ensures
        parse_escape_spec(render_spec(e)) == Some((e, render_spec(e).len() as int)),
{
    let s = render_spec(e);
    let v = match e {
        AnsiSequence::CursorUp(n) => n,
        AnsiSequence::CursorDown(n) => n,
        AnsiSequence::CursorForward(n) => n,
        AnsiSequence::CursorBackward(n) => n,
        _ => 0u32,
    };
    let d = dec_digits(v as int);
    lemma_dec_digits_props(v as int);
    assert(s.len() == 3 + d.len());
    assert(s[0] == crate::enums::esc());
    assert(s[1] == '[');
    assert(forall|i: int| 0 <= i < d.len() ==> s[2 + i] == #[trigger] d[i]);
    lemma_digits_end_at(s, 2, d.len() as int);
    lemma_dec_value(s, 2, v as int);
    assert(crate::parsers::def_int(s, 2) == Some((v, 2 + d.len() as int)));
    assert(crate::parsers::combined_spec(s, 1) == Some((e, s.len() as int)));
}

/// Round trip for the cursor-position variant.
#[verifier::spinoff_prover]
proof fn lemma_rt_cursor_pos(e: AnsiSequence)
    requires
        e matches AnsiSequence::CursorPos(_, _),
    ensures
        parse_escape_spec(render_spec(e)) == Some((e, render_spec(e).len() as int)),
{
    let s = render_spec(e);
    let (x, y) = match e {
        AnsiSequence::CursorPos(x, y) => (x, y),
        _ => (0u32, 0u32),
    };
    let dx = dec_digits(x as int);
    let dy = dec_digits(y as int);
    lemma_dec_digits_props(x as int);
    lemma_dec_digits_props(y as int);
    let py = 3 + dx.len() as int;
    assert(s.len() == 4 + dx.len() + dy.len());
    assert(s[0] == crate::enums::esc());
    assert(s[1] == '[');
    assert(forall|i: int| 0 <= i < dx.len() ==> s[2 + i] == #[trigger] dx[i]);
    assert(s[2 + dx.len() as int] == ';');
    assert(forall|i: int| 0 <= i < dy.len() ==> s[py + i] == #[trigger] dy[i]);
    assert(s[py + dy.len() as int] == 'H');
    lemma_digits_end_at(s, 2, dx.len() as int);
    lemma_dec_value(s, 2, x as int);
    lemma_digits_end_at(s, py, dy.len() as int);
    lemma_dec_value(s, py, y as int);
    assert(crate::parsers::def_int(s, 2) == Some((x, 2 + dx.len() as int)));
    assert(crate::parsers::def_int(s, py) == Some((y, py + dy.len() as int)));
    assert(crate::parsers::combined_spec(s, 1) == Some((e, s.len() as int)));
}

/// Round trip for the set-mode and reset-mode variants.
#[verifier::spinoff_prover]
proof fn lemma_rt_mode(e: AnsiSequence)
    requires
        e matches AnsiSequence::SetMode(_) || e matches AnsiSequence::ResetMode(_),
    ensures
        parse_escape_spec(render_spec(e)) == Some((e, render_spec(e).len() as int)),
{
    let s = render_spec(e);
    let m = match e {
        AnsiSequence::SetMode(m) => m,
        AnsiSequence::ResetMode(m) => m,
        _ => 0u8,
    };
    let d = dec_digits(m as int);
    lemma_dec_digits_props(m as int);
    assert(s.len() == 4 + d.len());
    assert(s[0] == crate::enums::esc());
    assert(s[1] == '[');
    assert(s[2] == '=');
    assert(forall|i: int| 0 <= i < d.len() ==> s[3 + i] == #[trigger] d[i]);
    lemma_digits_end_at(s, 3, d.len() as int);
    lemma_dec_value(s, 3, m as int);
    assert(crate::parsers::req_int(s, 3) == Some((m as int, 3 + d.len() as int)));
    assert(crate::parsers::combined_spec(s, 1) == Some((e, s.len() as int)));
}

/// Round trip for the scroll-region variant.
#[verifier::spinoff_prover]
proof fn lemma_rt_top_bottom(e: AnsiSequence)
    requires
        e matches AnsiSequence::SetTopAndBottom(_, _),
    ensures
        parse_escape_spec(render_spec(e)) == Some((e, render_spec(e).len() as int)),
{
    let s = render_spec(e);
    let (t, b) = match e {
        AnsiSequence::SetTopAndBottom(t, b) => (t, b),
        _ => (0u32, 0u32),
    };
    let dt = dec_digits(t as int);
    let db = dec_digits(b as int);
    lemma_dec_digits_props(t as int);
    lemma_dec_digits_props(b as int);
    let pb = 3 + dt.len() as int;
    assert(s.len() == 4 + dt.len() + db.len());
    assert(s[0] == crate::enums::esc());
    assert(s[1] == '[');
    assert(forall|i: int| 0 <= i < dt.len() ==> s[2 + i] == #[trigger] dt[i]);
    assert(s[2 + dt.len() as int] == ';');
    assert(forall|i: int| 0 <= i < db.len() ==> s[pb + i] == #[trigger] db[i]);
    assert(s[pb + db.len() as int] == 'r');
    lemma_digits_end_at(s, 2, dt.len() as int);
    lemma_dec_value(s, 2, t as int);
    lemma_digits_end_at(s, pb, db.len() as int);
    lemma_dec_value(s, pb, b as int);
    assert(crate::parsers::req_int(s, 2) == Some((t as int, 2 + dt.len() as int)));
    assert(crate::parsers::req_int(s, pb) == Some((b as int, pb + db.len() as int)));
    assert(crate::parsers::combined_spec(s, 1) == Some((e, s.len() as int)));
}

/// Round trip for the graphics-mode variant, for every list length the
/// grammar has a form for (zero and one to three or five codes; a
/// four-code list renders to text that no grammar accepts).
proof fn lemma_rt_graphics(e: AnsiSequence)
    requires
        e matches AnsiSequence::SetGraphicsMode(g) && g.wf() && g.len != 4,
    ensures
        parse_escape_spec(render_spec(e)) == Some((e, render_spec(e).len() as int)),
{
    let g = match e {
        AnsiSequence::SetGraphicsMode(g) => g,
        _ => crate::enums::GraphicsModes { len: 0, m0: 0, m1: 0, m2: 0, m3: 0, m4: 0 },
    };
    if g.len == 0 {
        lemma_rt_graphics0(e, g);
    } else if g.len == 1 {
        lemma_rt_graphics1(e, g);
    } else if g.len == 2 {
        lemma_rt_graphics2(e, g);
    } else if g.len == 3 {
        lemma_rt_graphics3(e, g);
    } else {
        lemma_rt_graphics5(e, g);
    }
}

#[verifier::spinoff_prover]
proof fn lemma_rt_graphics0(e: AnsiSequence, g: crate::enums::GraphicsModes)
    requires
        e == AnsiSequence::SetGraphicsMode(g),
        g.wf(),
        g.len == 0,
    ensures
        parse_escape_spec(render_spec(e)) == Some((e, render_spec(e).len() as int)),
{
    let s = render_spec(e);
    let vs = g@;
    assert(s[0] == crate::enums::esc());
    reveal_with_fuel(crate::parsers::digits_end, 2);
    reveal_with_fuel(crate::parsers::digits_value, 2);
        assert(crate::enums::sgr_args_spec(vs) =~= Seq::<char>::empty());
        assert(s =~= seq![crate::enums::esc(), '[', 'm']);
        assert(crate::parsers::combined_spec(s, 1) == Some((e, s.len() as int)));
}

#[verifier::spinoff_prover]
proof fn lemma_rt_graphics1(e: AnsiSequence, g: crate::enums::GraphicsModes)
    requires
        e == AnsiSequence::SetGraphicsMode(g),
        g.wf(),
        g.len == 1,
    ensures
        parse_escape_spec(render_spec(e)) == Some((e, render_spec(e).len() as int)),
{
    let s = render_spec(e);
    let vs = g@;
    assert(s[0] == crate::enums::esc());
    reveal_with_fuel(crate::parsers::digits_end, 2);
    reveal_with_fuel(crate::parsers::digits_value, 2);
        let d0 = dec_digits(g.m0 as int);
        lemma_dec_digits_props(g.m0 as int);
        assert(vs[0] == g.m0);
        assert(crate::enums::sgr_args_spec(vs) == d0);
        assert(s =~= seq![crate::enums::esc(), '['] + d0 + seq!['m']);
        assert(forall|i: int| 0 <= i < d0.len() ==> s[2 + i] == #[trigger] d0[i]);
        assert(s[2 + d0.len() as int] == 'm');
        lemma_digits_end_at(s, 2, d0.len() as int);
        lemma_dec_value(s, 2, g.m0 as int);
        assert(crate::parsers::req_int(s, 2) == Some((g.m0 as int, 2 + d0.len() as int)));
        assert(crate::parsers::gm1_rule(s, 1) == Some((e, s.len() as int)));
        assert(crate::parsers::combined_spec(s, 1) == Some((e, s.len() as int)));
}

#[verifier::rlimit(100)]
#[verifier::spinoff_prover]
proof fn lemma_rt_graphics2(e: AnsiSequence, g: crate::enums::GraphicsModes)
    requires
        e == AnsiSequence::SetGraphicsMode(g),
        g.wf(),
        g.len == 2,
    ensures
        parse_escape_spec(render_spec(e)) == Some((e, render_spec(e).len() as int)),
{
    let s = render_spec(e);
    let vs = g@;
    assert(s[0] == crate::enums::esc());
    reveal_with_fuel(crate::parsers::digits_end, 2);
    reveal_with_fuel(crate::parsers::digits_value, 2);
        let d0 = dec_digits(g.m0 as int);
        let d1 = dec_digits(g.m1 as int);
        lemma_dec_digits_props(g.m0 as int);
        lemma_dec_digits_props(g.m1 as int);
        assert(vs.drop_last() =~= seq![g.m0]);
        assert(crate::enums::sgr_args_spec(vs.drop_last()) == dec_digits(
            vs.drop_last()[0] as int,
        ));
        assert(crate::enums::sgr_args_spec(vs) == d0 + seq![';'] + d1);
        assert(s =~= seq![crate::enums::esc(), '['] + d0 + seq![';'] + d1 + seq!['m']);
        let p1 = 3 + d0.len() as int;
        assert(forall|i: int| 0 <= i < d0.len() ==> s[2 + i] == #[trigger] d0[i]);
        assert(s[2 + d0.len() as int] == ';');
        assert(forall|i: int| 0 <= i < d1.len() ==> s[p1 + i] == #[trigger] d1[i]);
        assert(s[p1 + d1.len() as int] == 'm');
        lemma_digits_end_at(s, 2, d0.len() as int);
        lemma_dec_value(s, 2, g.m0 as int);
        lemma_digits_end_at(s, p1, d1.len() as int);
        lemma_dec_value(s, p1, g.m1 as int);
        assert(crate::parsers::sep_field(s, 2) == Some((g.m0 as int, p1)));
        assert(crate::parsers::req_int(s, p1) == Some((g.m1 as int, p1 + d1.len() as int)));
        assert(crate::parsers::gm1_rule(s, 1) is None);
        assert(crate::parsers::gm2_rule(s, 1) == Some((e, s.len() as int)));
        assert(crate::parsers::combined_spec(s, 1) == Some((e, s.len() as int)));
}

#[verifier::rlimit(100)]
#[verifier::spinoff_prover]
proof fn lemma_rt_graphics3(e: AnsiSequence, g: crate::enums::GraphicsModes)
    requires
        e == AnsiSequence::SetGraphicsMode(g),
        g.wf(),
        g.len == 3,
    ensures
        parse_escape_spec(render_spec(e)) == Some((e, render_spec(e).len() as int)),
{
    let s = render_spec(e);
    let vs = g@;
    assert(s[0] == crate::enums::esc());
    reveal_with_fuel(crate::parsers::digits_end, 2);
    reveal_with_fuel(crate::parsers::digits_value, 2);
        let d0 = dec_digits(g.m0 as int);
        let d1 = dec_digits(g.m1 as int);
        let d2 = dec_digits(g.m2 as int);
        lemma_dec_digits_props(g.m0 as int);
        lemma_dec_digits_props(g.m1 as int);
        lemma_dec_digits_props(g.m2 as int);
        let vs2 = vs.drop_last();
        assert(vs2.drop_last() =~= seq![g.m0]);
        assert(crate::enums::sgr_args_spec(vs2.drop_last()) == dec_digits(
            vs2.drop_last()[0] as int,
        ));
        assert(vs2.last() == g.m1);
        assert(crate::enums::sgr_args_spec(vs2) == d0 + seq![';'] + d1);
        assert(vs.last() == g.m2);
        assert(crate::enums::sgr_args_spec(vs) == d0 + seq![';'] + d1 + seq![';'] + d2);
        assert(s =~= seq![crate::enums::esc(), '['] + d0 + seq![';'] + d1 + seq![';'] + d2
            + seq!['m']);
        let p1 = 3 + d0.len() as int;
        let p2 = p1 + d1.len() as int + 1;
        assert(forall|i: int| 0 <= i < d0.len() ==> s[2 + i] == #[trigger] d0[i]);
        assert(s[2 + d0.len() as int] == ';');
        assert(forall|i: int| 0 <= i < d1.len() ==> s[p1 + i] == #[trigger] d1[i]);
        assert(s[p1 + d1.len() as int] == ';');
        assert(forall|i: int| 0 <= i < d2.len() ==> s[p2 + i] == #[trigger] d2[i]);
        assert(s[p2 + d2.len() as int] == 'm');
        lemma_digits_end_at(s, 2, d0.len() as int);
        lemma_dec_value(s, 2, g.m0 as int);
        lemma_digits_end_at(s, p1, d1.len() as int);
        lemma_dec_value(s, p1, g.m1 as int);
        lemma_digits_end_at(s, p2, d2.len() as int);
        lemma_dec_value(s, p2, g.m2 as int);
        assert(crate::parsers::sep_field(s, 2) == Some((g.m0 as int, p1)));
        assert(crate::parsers::sep_field(s, p1) == Some((g.m1 as int, p2)));
        assert(crate::parsers::req_int(s, p2) == Some((g.m2 as int, p2 + d2.len() as int)));
        assert(crate::parsers::gm1_rule(s, 1) is None);
        assert(crate::parsers::gm2_rule(s, 1) is None);
        assert(crate::parsers::gm3_rule(s, 1) == Some((e, s.len() as int)));
        assert(crate::parsers::combined_spec(s, 1) == Some((e, s.len() as int)));
}

/// The length of the base-10 rendering of one graphics-mode code.
spec fn dlen(v: u8) -> int {
    dec_digits(v as int).len() as int
}

/// The rendered parameter list of a five-code graphics-mode value, written
/// out flat.
proof fn lemma_sgr5_flat(g: crate::enums::GraphicsModes)
    requires
        g.len == 5,
    ensures
        crate::enums::sgr_args_spec(g@) == dec_digits(g.m0 as int) + seq![';'] + dec_digits(
            g.m1 as int,
        ) + seq![';'] + dec_digits(g.m2 as int) + seq![';'] + dec_digits(g.m3 as int) + seq![';']
            + dec_digits(g.m4 as int),
{
    let vs = g@;
    let vs4 = vs.drop_last();
    let vs3 = vs4.drop_last();
    let vs2 = vs3.drop_last();
    assert(vs2.drop_last() =~= seq![g.m0]);
    assert(crate::enums::sgr_args_spec(vs2.drop_last()) == dec_digits(
        vs2.drop_last()[0] as int,
    ));
    assert(vs2.last() == g.m1);
    assert(crate::enums::sgr_args_spec(vs2) =~= dec_digits(g.m0 as int) + seq![';'] + dec_digits(
        g.m1 as int,
    ));
    assert(vs3.last() == g.m2);
    assert(crate::enums::sgr_args_spec(vs3) =~= dec_digits(g.m0 as int) + seq![';'] + dec_digits(
        g.m1 as int,
    ) + seq![';'] + dec_digits(g.m2 as int));
    assert(vs4.last() == g.m3);
    assert(crate::enums::sgr_args_spec(vs4) =~= dec_digits(g.m0 as int) + seq![';'] + dec_digits(
        g.m1 as int,
    ) + seq![';'] + dec_digits(g.m2 as int) + seq![';'] + dec_digits(g.m3 as int));
    assert(vs.last() == g.m4);
    assert(crate::enums::sgr_args_spec(vs) =~= dec_digits(g.m0 as int) + seq![';'] + dec_digits(
        g.m1 as int,
    ) + seq![';'] + dec_digits(g.m2 as int) + seq![';'] + dec_digits(g.m3 as int) + seq![';']
        + dec_digits(g.m4 as int));
}

/// Where each code and separator of a rendered five-code graphics-mode
/// sequence stands.
#[verifier::rlimit(60)]
#[verifier::spinoff_prover]
proof fn lemma_rt_graphics5_layout(e: AnsiSequence, g: crate::enums::GraphicsModes)
    requires
        e == AnsiSequence::SetGraphicsMode(g),
        g.len == 5,
    ensures
        render_spec(e).len() as int == 7 + dlen(g.m0) + dlen(g.m1) + dlen(g.m2) + dlen(g.m3)
            + dlen(g.m4),
        render_spec(e)[0] == crate::enums::esc(),
        render_spec(e)[1] == '[',
        forall|i: int|
            0 <= i < dlen(g.m0) ==> render_spec(e)[2 + i] == #[trigger] dec_digits(
                g.m0 as int,
            )[i],
        render_spec(e)[2 + dlen(g.m0)] == ';',
        forall|i: int|
            0 <= i < dlen(g.m1) ==> render_spec(e)[3 + dlen(g.m0) + i] == #[trigger] dec_digits(
                g.m1 as int,
            )[i],
        render_spec(e)[3 + dlen(g.m0) + dlen(g.m1)] == ';',
        forall|i: int|
            0 <= i < dlen(g.m2) ==> render_spec(e)[4 + dlen(g.m0) + dlen(g.m1) + i]
                == #[trigger] dec_digits(g.m2 as int)[i],
        render_spec(e)[4 + dlen(g.m0) + dlen(g.m1) + dlen(g.m2)] == ';',
        forall|i: int|
            0 <= i < dlen(g.m3) ==> render_spec(e)[5 + dlen(g.m0) + dlen(g.m1) + dlen(g.m2) + i]
                == #[trigger] dec_digits(g.m3 as int)[i],
        render_spec(e)[5 + dlen(g.m0) + dlen(g.m1) + dlen(g.m2) + dlen(g.m3)] == ';',
        forall|i: int|
            0 <= i < dlen(g.m4) ==> render_spec(e)[6 + dlen(g.m0) + dlen(g.m1) + dlen(g.m2) + dlen(
                g.m3,
            ) + i] == #[trigger] dec_digits(g.m4 as int)[i],
        render_spec(e)[6 + dlen(g.m0) + dlen(g.m1) + dlen(g.m2) + dlen(g.m3) + dlen(g.m4)] == 'm',
{
    lemma_sgr5_flat(g);
    let s = render_spec(e);
    let d0 = dec_digits(g.m0 as int);
    let d1 = dec_digits(g.m1 as int);
    let d2 = dec_digits(g.m2 as int);
    let d3 = dec_digits(g.m3 as int);
    let d4 = dec_digits(g.m4 as int);
    assert(s =~= seq![crate::enums::esc(), '['] + d0 + seq![';'] + d1 + seq![';'] + d2 + seq![';']
        + d3 + seq![';'] + d4 + seq!['m']);
}

/// The field chain of a rendered five-code graphics-mode sequence.
#[verifier::rlimit(60)]
#[verifier::spinoff_prover]
proof fn lemma_rt_graphics5_fields(e: AnsiSequence, g: crate::enums::GraphicsModes)
    requires
        e == AnsiSequence::SetGraphicsMode(g),
        g.len == 5,
    ensures
        render_spec(e).len() as int == 7 + dlen(g.m0) + dlen(g.m1) + dlen(g.m2) + dlen(g.m3)
            + dlen(g.m4),
        render_spec(e)[0] == crate::enums::esc(),
        render_spec(e)[1] == '[',
        crate::parsers::sep_field(render_spec(e), 2) == Some((g.m0 as int, 3 + dlen(g.m0))),
        crate::parsers::sep_field(render_spec(e), 3 + dlen(g.m0)) == Some(
            (g.m1 as int, 4 + dlen(g.m0) + dlen(g.m1)),
        ),
        crate::parsers::sep_field(render_spec(e), 4 + dlen(g.m0) + dlen(g.m1)) == Some(
            (g.m2 as int, 5 + dlen(g.m0) + dlen(g.m1) + dlen(g.m2)),
        ),
        crate::parsers::sep_field(render_spec(e), 5 + dlen(g.m0) + dlen(g.m1) + dlen(g.m2))
            == Some((g.m3 as int, 6 + dlen(g.m0) + dlen(g.m1) + dlen(g.m2) + dlen(g.m3))),
        crate::parsers::req_int(
            render_spec(e),
            6 + dlen(g.m0) + dlen(g.m1) + dlen(g.m2) + dlen(g.m3),
        ) == Some(
            (g.m4 as int, 6 + dlen(g.m0) + dlen(g.m1) + dlen(g.m2) + dlen(g.m3) + dlen(g.m4)),
        ),
        render_spec(e)[6 + dlen(g.m0) + dlen(g.m1) + dlen(g.m2) + dlen(g.m3) + dlen(g.m4)] == 'm',
{
    lemma_rt_graphics5_layout(e, g);
    let s = render_spec(e);
    lemma_dec_digits_props(g.m0 as int);
    lemma_dec_digits_props(g.m1 as int);
    lemma_dec_digits_props(g.m2 as int);
    lemma_dec_digits_props(g.m3 as int);
    lemma_dec_digits_props(g.m4 as int);
    let p1 = 3 + dlen(g.m0);
    let p2 = p1 + dlen(g.m1) + 1;
    let p3 = p2 + dlen(g.m2) + 1;
    let p4 = p3 + dlen(g.m3) + 1;
    assert forall|j: int| 2 <= j < 2 + dlen(g.m0) implies is_digit(#[trigger] s[j]) by {
        assert(s[2 + (j - 2)] == dec_digits(g.m0 as int)[j - 2]);
    }
    assert forall|j: int| p1 <= j < p1 + dlen(g.m1) implies is_digit(#[trigger] s[j]) by {
        assert(s[3 + dlen(g.m0) + (j - p1)] == dec_digits(g.m1 as int)[j - p1]);
    }
    assert forall|j: int| p2 <= j < p2 + dlen(g.m2) implies is_digit(#[trigger] s[j]) by {
        assert(s[4 + dlen(g.m0) + dlen(g.m1) + (j - p2)] == dec_digits(g.m2 as int)[j - p2]);
    }
    assert forall|j: int| p3 <= j < p3 + dlen(g.m3) implies is_digit(#[trigger] s[j]) by {
        assert(s[5 + dlen(g.m0) + dlen(g.m1) + dlen(g.m2) + (j - p3)] == dec_digits(
            g.m3 as int,
        )[j - p3]);
    }
    assert forall|j: int| p4 <= j < p4 + dlen(g.m4) implies is_digit(#[trigger] s[j]) by {
        assert(s[6 + dlen(g.m0) + dlen(g.m1) + dlen(g.m2) + dlen(g.m3) + (j - p4)] == dec_digits(
            g.m4 as int,
        )[j - p4]);
    }
    lemma_digits_end_at(s, 2, dlen(g.m0));
    lemma_dec_value(s, 2, g.m0 as int);
    lemma_digits_end_at(s, p1, dlen(g.m1));
    lemma_dec_value(s, p1, g.m1 as int);
    lemma_digits_end_at(s, p2, dlen(g.m2));
    lemma_dec_value(s, p2, g.m2 as int);
    lemma_digits_end_at(s, p3, dlen(g.m3));
    lemma_dec_value(s, p3, g.m3 as int);
    lemma_digits_end_at(s, p4, dlen(g.m4));
    lemma_dec_value(s, p4, g.m4 as int);
}

/// Round trip for a five-code graphics-mode list.
#[verifier::rlimit(90)]
#[verifier::spinoff_prover]
proof fn lemma_rt_graphics5(e: AnsiSequence, g: crate::enums::GraphicsModes)
    requires
        e == AnsiSequence::SetGraphicsMode(g),
        g.wf(),
        g.len == 5,
    ensures
        parse_escape_spec(render_spec(e)) == Some((e, render_spec(e).len() as int)),
{
    lemma_rt_graphics5_fields(e, g);
    let s = render_spec(e);
    assert(crate::parsers::gm1_rule(s, 1) is None);
    assert(crate::parsers::gm2_rule(s, 1) is None);
    assert(crate::parsers::gm3_rule(s, 1) is None);
    assert(crate::parsers::gm_empty_rule(s, 1) is None);
    assert(crate::parsers::gm5_rule(s, 1) == Some((e, s.len() as int)));
    assert(crate::parsers::combined_cursor(s, 1) is None);
    assert(crate::parsers::combined_spec(s, 1) == Some((e, s.len() as int)));
}

/// Whether a structured value's rendering is recognized again: the value is
/// well formed and its graphics-mode list is not exactly four codes long,
/// the one length the grammar has no form for.
pub open spec fn round_trippable(e: AnsiSequence) -> bool {
    e.wf() && match e {
        AnsiSequence::SetGraphicsMode(g) => g.len != 4,
        _ => true,
    }
}

/// Round trip for every variant: rendering a structured value and
/// recognizing the rendered text yields an equal value and consumes the
/// whole text. A graphics-mode list of exactly four codes is the one value
/// whose rendering no grammar accepts, so it is left out.
pub proof fn lemma_render_parse_roundtrip(e: AnsiSequence)
    requires
        round_trippable(e),
    ensures
        parse_escape_spec(render_spec(e)) == Some((e, render_spec(e).len() as int)),
{
    if is_keypad_variant(e) {
        lemma_rt_keypad(e);
    } else {
        match e {
            AnsiSequence::CursorPos(_, _) => lemma_rt_cursor_pos(e),
            AnsiSequence::CursorUp(_) => lemma_rt_cursor_move(e),
            AnsiSequence::CursorDown(_) => lemma_rt_cursor_move(e),
            AnsiSequence::CursorForward(_) => lemma_rt_cursor_move(e),
            AnsiSequence::CursorBackward(_) => lemma_rt_cursor_move(e),
            AnsiSequence::SetGraphicsMode(_) => lemma_rt_graphics(e),
            AnsiSequence::SetMode(_) => lemma_rt_mode(e),
            AnsiSequence::ResetMode(_) => lemma_rt_mode(e),
            AnsiSequence::SetTopAndBottom(_, _) => lemma_rt_top_bottom(e),
            AnsiSequence::Escape => lemma_rt_fixed_h(e),
            _ => {
                if is_bracket_tag_h_variant(e) {
                    lemma_rt_fixed_h(e);
                } else {
                    lemma_rt_fixed_l(e);
                }
            },
        }
    }
}

/// Whatever the recognizer yields can be rendered and recognized again.
pub proof fn lemma_parse_gives_round_trippable(s: Seq<char>)
    ensures
        parse_escape_spec(s) matches Some((e, n)) ==> round_trippable(e),
{
    crate::parsers::lemma_parse_escape_spec_bounds(s);
}

/// Idempotence past defaults: whatever value an input parses to (however
/// the input wrote its defaultable fields), rendering that value and
/// parsing the rendered text yields the same value again.
pub proof fn lemma_parse_render_parse(s: Seq<char>)
    ensures
        parse_escape_spec(s) matches Some((e, n)) ==> parse_escape_spec(render_spec(e)) == Some(
            (e, render_spec(e).len() as int),
        ),
{
    match parse_escape_spec(s) {
        Some((e, n)) => {
            lemma_parse_gives_round_trippable(s);
            lemma_render_parse_roundtrip(e);
        },
        None => {},
    }
}

} // verus!
