use vstd::prelude::*;

verus! {

/// The escape introducer: code point 0x1B begins every recognized sequence.
pub open spec fn esc() -> char {
    '\u{1b}'
}

/// The parameters of a graphics-mode (SGR) sequence: an ordered list of at
/// most five small integer codes, stored in fixed slots so that two equal
/// lists are structurally equal values.
#[derive(Debug, Clone, Copy, PartialEq, Eq, Structural)]
pub struct GraphicsModes {
    pub len: u8,
    pub m0: u8,
    pub m1: u8,
    pub m2: u8,
    pub m3: u8,
    pub m4: u8,
}

impl View for GraphicsModes {
    type V = Seq<u8>;

    open spec fn view(&self) -> Seq<u8> {
        seq![self.m0, self.m1, self.m2, self.m3, self.m4].take(self.len as int)
    }
}

impl GraphicsModes {
    /// Slots past `len` stay zero, so structural equality of two
    /// well-formed values coincides with equality of the lists they hold.
    pub open spec fn wf(&self) -> bool {
        self.len <= 5
        && (self.len <= 0 ==> self.m0 == 0)
        && (self.len <= 1 ==> self.m1 == 0)
        && (self.len <= 2 ==> self.m2 == 0)
        && (self.len <= 3 ==> self.m3 == 0)
        && (self.len <= 4 ==> self.m4 == 0)
    }

    /// The empty list of graphics-mode codes.
    pub fn empty() -> (r: GraphicsModes)
        ensures
            r.wf(),
            r@ == Seq::<u8>::empty(),
    {
        GraphicsModes { len: 0, m0: 0, m1: 0, m2: 0, m3: 0, m4: 0 }
    }

    /// Appends one code to the list.
    pub fn push(&mut self, v: u8)
        requires
            old(self).wf(),
            old(self).len < 5,
        ensures
            final(self).wf(),
            final(self)@ == old(self)@.push(v),
    {
        if self.len == 0 {
            self.m0 = v;
        } else if self.len == 1 {
            self.m1 = v;
        } else if self.len == 2 {
            self.m2 = v;
        } else if self.len == 3 {
            self.m3 = v;
        } else {
            self.m4 = v;
        }
        self.len = self.len + 1;
        proof {
            assert(final(self)@ =~= old(self)@.push(v));
        }
    }

    /// The number of codes in the list.
    pub fn count(&self) -> (r: u8)
        requires
            self.wf(),
        ensures
            r as int == self@.len(),
    {
        self.len
    }

    /// The code at position `i`.
    pub fn get(&self, i: u8) -> (r: u8)
        requires
            self.wf(),
            i < self@.len(),
        ensures
            r == self@[i as int],
    {
        if i == 0 {
            self.m0
        } else if i == 1 {
            self.m1
        } else if i == 2 {
            self.m2
        } else if i == 3 {
            self.m3
        } else {
            self.m4
        }
    }

    /// Two well-formed values are structurally equal exactly when the lists
    /// they hold are equal.
    pub proof fn lemma_eq_is_list_eq(a: GraphicsModes, b: GraphicsModes)
        requires
            a.wf(),
            b.wf(),
        ensures
            a == b <==> a@ == b@,
    {
        if a@ == b@ {
            assert(a@.len() == b@.len());
            assert(a.len == b.len);
            if a.len > 0 {
                assert(a.m0 == a@[0] && b.m0 == b@[0]);
            }
            if a.len > 1 {
                assert(a.m1 == a@[1] && b.m1 == b@[1]);
            }
            if a.len > 2 {
                assert(a.m2 == a@[2] && b.m2 == b@[2]);
            }
            if a.len > 3 {
                assert(a.m3 == a@[3] && b.m3 == b@[3]);
            }
            if a.len > 4 {
                assert(a.m4 == a@[4] && b.m4 == b@[4]);
            }
        }
    }
}

/// The ASCII digit character for the value `d` (0 to 9).
pub open spec fn digit_char(d: int) -> char {
    if d == 0 {
        '0'
    } else if d == 1 {
        '1'
    } else if d == 2 {
        '2'
    } else if d == 3 {
        '3'
    } else if d == 4 {
        '4'
    } else if d == 5 {
        '5'
    } else if d == 6 {
        '6'
    } else if d == 7 {
        '7'
    } else if d == 8 {
        '8'
    } else {
        '9'
    }
}

/// The base-10 rendering of `n`, without leading zeros (`0` renders as "0").
pub open spec fn dec_digits(n: int) -> Seq<char>
    decreases n,
{
    if n < 10 {
        seq![digit_char(n)]
    } else {
        dec_digits(n / 10).push(digit_char(n % 10))
    }
}

/// Graphics-mode codes rendered as base-10 numbers joined by `;`.
pub open spec fn sgr_args_spec(vs: Seq<u8>) -> Seq<char>
    decreases vs.len(),
{
    if vs.len() == 0 {
        Seq::empty()
    } else if vs.len() == 1 {
        dec_digits(vs[0] as int)
    } else {
        sgr_args_spec(vs.drop_last()) + seq![';'] + dec_digits(vs.last() as int)
    }
}

/// One recognized ANSI escape sequence, carrying only the numeric
/// parameters the sequence encodes. Two equal variants with equal
/// parameters are interchangeable values.
#[derive(Debug, Clone, Copy, PartialEq, Eq, Structural)]
pub enum AnsiSequence {
    Escape,
    CursorPos(u32, u32),
    CursorUp(u32),
    CursorDown(u32),
    CursorForward(u32),
    CursorBackward(u32),
    CursorSave,
    CursorRestore,
    EraseDisplay,
    EraseLine,
    SetGraphicsMode(GraphicsModes),
    SetMode(u8),
    ResetMode(u8),
    HideCursor,
    ShowCursor,
    CursorToApp,
    SetNewLineMode,
    SetCol132,
    SetSmoothScroll,
    SetReverseVideo,
    SetOriginRelative,
    SetAutoWrap,
    SetAutoRepeat,
    SetInterlacing,
    SetLineFeedMode,
    SetCursorKeyToCursor,
    SetVT52,
    SetCol80,
    SetJumpScrolling,
    SetNormalVideo,
    SetOriginAbsolute,
    ResetAutoWrap,
    ResetAutoRepeat,
    ResetInterlacing,
    SetTopAndBottom(u32, u32),
    SetAlternateKeypad,
    SetNumericKeypad,
    SetUKG0,
    SetUKG1,
    SetUSG0,
    SetUSG1,
    SetG0SpecialChars,
    SetG1SpecialChars,
    SetG0AlternateChar,
    SetG1AlternateChar,
    SetG0AltAndSpecialGraph,
    SetG1AltAndSpecialGraph,
    SetSingleShift2,
    SetSingleShift3,
}

/// The canonical textual form of `e` after the introducer: defaulting-free,
/// with every numeric field written out in explicit digits.
pub open spec fn render_body_spec(e: AnsiSequence) -> Seq<char> {
    match e {
        AnsiSequence::Escape => seq![esc()],
        AnsiSequence::CursorPos(x, y) => seq!['['] + dec_digits(x as int) + seq![';'] + dec_digits(
            y as int,
        ) + seq!['H'],
        AnsiSequence::CursorUp(n) => seq!['['] + dec_digits(n as int) + seq!['A'],
        AnsiSequence::CursorDown(n) => seq!['['] + dec_digits(n as int) + seq!['B'],
        AnsiSequence::CursorForward(n) => seq!['['] + dec_digits(n as int) + seq!['C'],
        AnsiSequence::CursorBackward(n) => seq!['['] + dec_digits(n as int) + seq!['D'],
        AnsiSequence::CursorSave => seq!['[', 's'],
        AnsiSequence::CursorRestore => seq!['[', 'u'],
        AnsiSequence::EraseDisplay => seq!['[', '2', 'J'],
        AnsiSequence::EraseLine => seq!['[', 'K'],
        AnsiSequence::SetGraphicsMode(g) => seq!['['] + sgr_args_spec(g@) + seq!['m'],
        AnsiSequence::SetMode(m) => seq!['[', '='] + dec_digits(m as int) + seq!['h'],
        AnsiSequence::ResetMode(m) => seq!['[', '='] + dec_digits(m as int) + seq!['l'],
        AnsiSequence::HideCursor => seq!['[', '?', '2', '5', 'l'],
        AnsiSequence::ShowCursor => seq!['[', '?', '2', '5', 'h'],
        AnsiSequence::CursorToApp => seq!['[', '?', '1', 'h'],
        AnsiSequence::SetNewLineMode => seq!['[', '2', '0', 'h'],
        AnsiSequence::SetCol132 => seq!['[', '?', '3', 'h'],
        AnsiSequence::SetSmoothScroll => seq!['[', '?', '4', 'h'],
        AnsiSequence::SetReverseVideo => seq!['[', '?', '5', 'h'],
        AnsiSequence::SetOriginRelative => seq!['[', '?', '6', 'h'],
        AnsiSequence::SetAutoWrap => seq!['[', '?', '7', 'h'],
        AnsiSequence::SetAutoRepeat => seq!['[', '?', '8', 'h'],
        AnsiSequence::SetInterlacing => seq!['[', '?', '9', 'h'],
        AnsiSequence::SetLineFeedMode => seq!['[', '2', '0', 'l'],
        AnsiSequence::SetCursorKeyToCursor => seq!['[', '?', '1', 'l'],
        AnsiSequence::SetVT52 => seq!['[', '?', '2', 'l'],
        AnsiSequence::SetCol80 => seq!['[', '?', '3', 'l'],
        AnsiSequence::SetJumpScrolling => seq!['[', '?', '4', 'l'],
        AnsiSequence::SetNormalVideo => seq!['[', '?', '5', 'l'],
        AnsiSequence::SetOriginAbsolute => seq!['[', '?', '6', 'l'],
        AnsiSequence::ResetAutoWrap => seq!['[', '?', '7', 'l'],
        AnsiSequence::ResetAutoRepeat => seq!['[', '?', '8', 'l'],
        AnsiSequence::ResetInterlacing => seq!['[', '?', '9', 'l'],
        AnsiSequence::SetTopAndBottom(t, b) => seq!['['] + dec_digits(t as int) + seq![';']
            + dec_digits(b as int) + seq!['r'],
        AnsiSequence::SetAlternateKeypad => seq!['='],
        AnsiSequence::SetNumericKeypad => seq!['>'],
        AnsiSequence::SetUKG0 => seq!['(', 'A'],
        AnsiSequence::SetUKG1 => seq![')', 'A'],
        AnsiSequence::SetUSG0 => seq!['(', 'B'],
        AnsiSequence::SetUSG1 => seq![')', 'B'],
        AnsiSequence::SetG0SpecialChars => seq!['(', '0'],
        AnsiSequence::SetG1SpecialChars => seq![')', '0'],
        AnsiSequence::SetG0AlternateChar => seq!['(', '1'],
        AnsiSequence::SetG1AlternateChar => seq![')', '1'],
        AnsiSequence::SetG0AltAndSpecialGraph => seq!['(', '2'],
        AnsiSequence::SetG1AltAndSpecialGraph => seq![')', '2'],
        AnsiSequence::SetSingleShift2 => seq!['N'],
        AnsiSequence::SetSingleShift3 => seq!['O'],
    }
}

/// The canonical textual form of `e`: the introducer followed by the body.
pub open spec fn render_spec(e: AnsiSequence) -> Seq<char> {
    seq![esc()] + render_body_spec(e)
}

impl AnsiSequence {
    /// A structured value is well formed when the graphics-mode list it may
    /// carry is.
    pub open spec fn wf(&self) -> bool {
        match *self {
            AnsiSequence::SetGraphicsMode(g) => g.wf(),
            _ => true,
        }
    }

    /// Renders the sequence back to its canonical textual encoding: the
    /// introducer followed by the defaulting-free body, with every numeric
    /// field written in explicit digits.
    pub fn render(&self) -> (r: String)
        requires
            self.wf(),
        ensures
            r@ == render_spec(*self),
    {
        let mut out = String::new();
        out.append("\u{1b}");
        proof {
            reveal_strlit("\u{1b}");
            assert(out@ =~= seq![esc()]);
        }
        match self {
            AnsiSequence::Escape => {
                out.append("\u{1b}");
                proof {
                    reveal_strlit("\u{1b}");
                    assert(out@ =~= render_spec(*self));
                }
            },
            AnsiSequence::CursorPos(x, y) => {
                out.append("[");
                append_u32(&mut out, *x);
                out.append(";");
                append_u32(&mut out, *y);
                out.append("H");
                proof {
                    reveal_strlit("[");
                    reveal_strlit(";");
                    reveal_strlit("H");
                    assert(out@ =~= render_spec(*self));
                }
            },
            AnsiSequence::CursorUp(n) => {
                out.append("[");
                append_u32(&mut out, *n);
                out.append("A");
                proof {
                    reveal_strlit("[");
                    reveal_strlit("A");
                    assert(out@ =~= render_spec(*self));
                }
            },
            AnsiSequence::CursorDown(n) => {
                out.append("[");
                append_u32(&mut out, *n);
                out.append("B");
                proof {
                    reveal_strlit("[");
                    reveal_strlit("B");
                    assert(out@ =~= render_spec(*self));
                }
            },
            AnsiSequence::CursorForward(n) => {
                out.append("[");
                append_u32(&mut out, *n);
                out.append("C");
                proof {
                    reveal_strlit("[");
                    reveal_strlit("C");
                    assert(out@ =~= render_spec(*self));
                }
            },
            AnsiSequence::CursorBackward(n) => {
                out.append("[");
                append_u32(&mut out, *n);
                out.append("D");
                proof {
                    reveal_strlit("[");
                    reveal_strlit("D");
                    assert(out@ =~= render_spec(*self));
                }
            },
            AnsiSequence::CursorSave => {
                out.append("[s");
                proof {
                    reveal_strlit("[s");
                    assert(out@ =~= render_spec(*self));
                }
            },
            AnsiSequence::CursorRestore => {
                out.append("[u");
                proof {
                    reveal_strlit("[u");
                    assert(out@ =~= render_spec(*self));
                }
            },
            AnsiSequence::EraseDisplay => {
                out.append("[2J");
                proof {
                    reveal_strlit("[2J");
                    assert(out@ =~= render_spec(*self));
                }
            },
            AnsiSequence::EraseLine => {
                out.append("[K");
                proof {
                    reveal_strlit("[K");
                    assert(out@ =~= render_spec(*self));
                }
            },
            AnsiSequence::SetGraphicsMode(g) => {
                out.append("[");
                append_sgr_args(&mut out, g);
                out.append("m");
                proof {
                    reveal_strlit("[");
                    reveal_strlit("m");
                    assert(out@ =~= render_spec(*self));
                }
            },
            AnsiSequence::SetMode(m) => {
                out.append("[=");
                append_u32(&mut out, *m as u32);
                out.append("h");
                proof {
                    reveal_strlit("[=");
                    reveal_strlit("h");
                    assert(out@ =~= render_spec(*self));
                }
            },
            AnsiSequence::ResetMode(m) => {
                out.append("[=");
                append_u32(&mut out, *m as u32);
                out.append("l");
                proof {
                    reveal_strlit("[=");
                    reveal_strlit("l");
                    assert(out@ =~= render_spec(*self));
                }
            },
            AnsiSequence::HideCursor => {
                out.append("[?25l");
                proof {
                    reveal_strlit("[?25l");
                    assert(out@ =~= render_spec(*self));
                }
            },
            AnsiSequence::ShowCursor => {
                out.append("[?25h");
                proof {
                    reveal_strlit("[?25h");
                    assert(out@ =~= render_spec(*self));
                }
            },
            AnsiSequence::CursorToApp => {
                out.append("[?1h");
                proof {
                    reveal_strlit("[?1h");
                    assert(out@ =~= render_spec(*self));
                }
            },
            AnsiSequence::SetNewLineMode => {
                out.append("[20h");
                proof {
                    reveal_strlit("[20h");
                    assert(out@ =~= render_spec(*self));
                }
            },
            AnsiSequence::SetCol132 => {
                out.append("[?3h");
                proof {
                    reveal_strlit("[?3h");
                    assert(out@ =~= render_spec(*self));
                }
            },
            AnsiSequence::SetSmoothScroll => {
                out.append("[?4h");
                proof {
                    reveal_strlit("[?4h");
                    assert(out@ =~= render_spec(*self));
                }
            },
            AnsiSequence::SetReverseVideo => {
                out.append("[?5h");
                proof {
                    reveal_strlit("[?5h");
                    assert(out@ =~= render_spec(*self));
                }
            },
            AnsiSequence::SetOriginRelative => {
                out.append("[?6h");
                proof {
                    reveal_strlit("[?6h");
                    assert(out@ =~= render_spec(*self));
                }
            },
            AnsiSequence::SetAutoWrap => {
                out.append("[?7h");
                proof {
                    reveal_strlit("[?7h");
                    assert(out@ =~= render_spec(*self));
                }
            },
            AnsiSequence::SetAutoRepeat => {
                out.append("[?8h");
                proof {
                    reveal_strlit("[?8h");
                    assert(out@ =~= render_spec(*self));
                }
            },
            AnsiSequence::SetInterlacing => {
                out.append("[?9h");
                proof {
                    reveal_strlit("[?9h");
                    assert(out@ =~= render_spec(*self));
                }
            },
            AnsiSequence::SetLineFeedMode => {
                out.append("[20l");
                proof {
                    reveal_strlit("[20l");
                    assert(out@ =~= render_spec(*self));
                }
            },
            AnsiSequence::SetCursorKeyToCursor => {
                out.append("[?1l");
                proof {
                    reveal_strlit("[?1l");
                    assert(out@ =~= render_spec(*self));
                }
            },
            AnsiSequence::SetVT52 => {
                out.append("[?2l");
                proof {
                    reveal_strlit("[?2l");
                    assert(out@ =~= render_spec(*self));
                }
            },
            AnsiSequence::SetCol80 => {
                out.append("[?3l");
                proof {
                    reveal_strlit("[?3l");
                    assert(out@ =~= render_spec(*self));
                }
            },
            AnsiSequence::SetJumpScrolling => {
                out.append("[?4l");
                proof {
                    reveal_strlit("[?4l");
                    assert(out@ =~= render_spec(*self));
                }
            },
            AnsiSequence::SetNormalVideo => {
                out.append("[?5l");
                proof {
                    reveal_strlit("[?5l");
                    assert(out@ =~= render_spec(*self));
                }
            },
            AnsiSequence::SetOriginAbsolute => {
                out.append("[?6l");
                proof {
                    reveal_strlit("[?6l");
                    assert(out@ =~= render_spec(*self));
                }
            },
            AnsiSequence::ResetAutoWrap => {
                out.append("[?7l");
                proof {
                    reveal_strlit("[?7l");
                    assert(out@ =~= render_spec(*self));
                }
            },
            AnsiSequence::ResetAutoRepeat => {
                out.append("[?8l");
                proof {
                    reveal_strlit("[?8l");
                    assert(out@ =~= render_spec(*self));
                }
            },
            AnsiSequence::ResetInterlacing => {
                out.append("[?9l");
                proof {
                    reveal_strlit("[?9l");
                    assert(out@ =~= render_spec(*self));
                }
            },
            AnsiSequence::SetTopAndBottom(t, b) => {
                out.append("[");
                append_u32(&mut out, *t);
                out.append(";");
                append_u32(&mut out, *b);
                out.append("r");
                proof {
                    reveal_strlit("[");
                    reveal_strlit(";");
                    reveal_strlit("r");
                    assert(out@ =~= render_spec(*self));
                }
            },
            AnsiSequence::SetAlternateKeypad => {
                out.append("=");
                proof {
                    reveal_strlit("=");
                    assert(out@ =~= render_spec(*self));
                }
            },
            AnsiSequence::SetNumericKeypad => {
                out.append(">");
                proof {
                    reveal_strlit(">");
                    assert(out@ =~= render_spec(*self));
                }
            },
            AnsiSequence::SetUKG0 => {
                out.append("(A");
                proof {
                    reveal_strlit("(A");
                    assert(out@ =~= render_spec(*self));
                }
            },
            AnsiSequence::SetUKG1 => {
                out.append(")A");
                proof {
                    reveal_strlit(")A");
                    assert(out@ =~= render_spec(*self));
                }
            },
            AnsiSequence::SetUSG0 => {
                out.append("(B");
                proof {
                    reveal_strlit("(B");
                    assert(out@ =~= render_spec(*self));
                }
            },
            AnsiSequence::SetUSG1 => {
                out.append(")B");
                proof {
                    reveal_strlit(")B");
                    assert(out@ =~= render_spec(*self));
                }
            },
            AnsiSequence::SetG0SpecialChars => {
                out.append("(0");
                proof {
                    reveal_strlit("(0");
                    assert(out@ =~= render_spec(*self));
                }
            },
            AnsiSequence::SetG1SpecialChars => {
                out.append(")0");
                proof {
                    reveal_strlit(")0");
                    assert(out@ =~= render_spec(*self));
                }
            },
            AnsiSequence::SetG0AlternateChar => {
                out.append("(1");
                proof {
                    reveal_strlit("(1");
                    assert(out@ =~= render_spec(*self));
                }
            },
            AnsiSequence::SetG1AlternateChar => {
                out.append(")1");
                proof {
                    reveal_strlit(")1");
                    assert(out@ =~= render_spec(*self));
                }
            },
            AnsiSequence::SetG0AltAndSpecialGraph => {
                out.append("(2");
                proof {
                    reveal_strlit("(2");
                    assert(out@ =~= render_spec(*self));
                }
            },
            AnsiSequence::SetG1AltAndSpecialGraph => {
                out.append(")2");
                proof {
                    reveal_strlit(")2");
                    assert(out@ =~= render_spec(*self));
                }
            },
            AnsiSequence::SetSingleShift2 => {
                out.append("N");
                proof {
                    reveal_strlit("N");
                    assert(out@ =~= render_spec(*self));
                }
            },
            AnsiSequence::SetSingleShift3 => {
                out.append("O");
                proof {
                    reveal_strlit("O");
                    assert(out@ =~= render_spec(*self));
                }
            },
        }
        out
    }
}

/// Compares two string slices character by character.
pub fn str_eq(a: &str, b: &str) -> (r: bool)
    ensures
        r == (a@ == b@),
{
    let la = a.unicode_len();
    let lb = b.unicode_len();
    if la != lb {
        return false;
    }
    let mut i: usize = 0;
    while i < la
        invariant
            la as int == a@.len(),
            la as int == b@.len(),
            0 <= i <= la,
            forall|j: int| 0 <= j < i as int ==> a@[j] == b@[j],
        decreases la - i,
    {
        if a.get_char(i) != b.get_char(i) {
            return false;
        }
        i = i + 1;
    }
    proof {
        assert(a@ =~= b@);
    }
    true
}

/// The unit of tokenizer output: either a single recognized control sequence
/// or a maximal run of literal text, borrowed from the original input.
#[derive(Debug, Clone, Copy)]
pub enum Output<'a> {
    TextBlock(&'a str),
    Escape(AnsiSequence),
}

/// The text a token stands for: a literal run verbatim, a recognized
/// sequence in its canonical rendering.
pub open spec fn output_text_spec(o: Output) -> Seq<char> {
    match o {
        Output::TextBlock(t) => t@,
        Output::Escape(e) => render_spec(e),
    }
}

impl<'a> Output<'a> {
    /// A token is well formed when the sequence it may carry is.
    pub open spec fn wf(&self) -> bool {
        match *self {
            Output::TextBlock(_) => true,
            Output::Escape(e) => e.wf(),
        }
    }

    /// Renders the token back into a text stream: a literal run verbatim,
    /// a recognized sequence in its canonical textual form.
    pub fn render(&self) -> (r: String)
        requires
            self.wf(),
        ensures
            r@ == output_text_spec(*self),
    {
        match self {
            Output::TextBlock(t) => String::from_str(t),
            Output::Escape(e) => e.render(),
        }
    }
}

impl<'a> PartialEq for Output<'a> {
    fn eq(&self, other: &Output<'a>) -> (r: bool) {
        match (self, other) {
            (Output::TextBlock(a), Output::TextBlock(b)) => str_eq(a, b),
            (Output::Escape(x), Output::Escape(y)) => x == y,
            _ => false,
        }
    }
}

impl<'a> vstd::std_specs::cmp::PartialEqSpecImpl for Output<'a> {
    open spec fn obeys_eq_spec() -> bool {
        true
    }

    open spec fn eq_spec(&self, other: &Output<'a>) -> bool {
        match (*self, *other) {
            (Output::TextBlock(a), Output::TextBlock(b)) => a@ == b@,
            (Output::Escape(x), Output::Escape(y)) => x == y,
            _ => false,
        }
    }
}

/// The single ASCII digit character for `d`.
fn digit_str(d: u8) -> (r: &'static str)
    requires
        d < 10,
    ensures
        r@ == seq![digit_char(d as int)],
{
    let r: &'static str = match d {
        0 => "0",
        1 => "1",
        2 => "2",
        3 => "3",
        4 => "4",
        5 => "5",
        6 => "6",
        7 => "7",
        8 => "8",
        _ => "9",
    };
    proof {
        reveal_strlit("0");
        reveal_strlit("1");
        reveal_strlit("2");
        reveal_strlit("3");
        reveal_strlit("4");
        reveal_strlit("5");
        reveal_strlit("6");
        reveal_strlit("7");
        reveal_strlit("8");
        reveal_strlit("9");
        assert(r@ =~= seq![digit_char(d as int)]);
    }
    r
}

/// Appends the base-10 rendering of `n` to `out`.
fn append_u32(out: &mut String, n: u32)
    ensures
        final(out)@ == old(out)@ + dec_digits(n as int),
    decreases n,
{
    if n >= 10 {
        append_u32(out, n / 10);
        out.append(digit_str((n % 10) as u8));
        proof {
            assert(final(out)@ =~= old(out)@ + dec_digits(n as int));
        }
    } else {
        out.append(digit_str(n as u8));
        proof {
            assert(final(out)@ =~= old(out)@ + dec_digits(n as int));
        }
    }
}

/// Appends the graphics-mode codes of `g`, joined by `;`, to `out`.
fn append_sgr_args(out: &mut String, g: &GraphicsModes)
    requires
        g.wf(),
    ensures
        final(out)@ == old(out)@ + sgr_args_spec(g@),
{
    let n = g.count();
    let mut i: u8 = 0;
    while i < n
        invariant
            g.wf(),
            n as int == g@.len(),
            0 <= i <= n,
            out@ == old(out)@ + sgr_args_spec(g@.take(i as int)),
        decreases n - i,
    {
        if i > 0 {
            out.append(";");
            proof {
                reveal_strlit(";");
            }
        }
        append_u32(out, g.get(i) as u32);
        proof {
            let pre = g@.take(i as int);
            let now = g@.take(i as int + 1);
            assert(now.drop_last() =~= pre);
            assert(now.last() == g@[i as int]);
            if i == 0 {
                assert(sgr_args_spec(now) =~= dec_digits(g@[0] as int));
            }
            assert(out@ =~= old(out)@ + sgr_args_spec(now));
        }
        i = i + 1;
    }
    proof {
        assert(g@.take(n as int) =~= g@);
    }
}

} // verus!
