use vstd::prelude::*;

use crate::enums::esc;
use crate::enums::render_spec;
use crate::enums::AnsiSequence;
use crate::enums::Output;
use crate::parsers::lemma_parse_escape_spec_bounds;
use crate::parsers::lemma_parse_matched_prefix;
use crate::parsers::parse_escape_core;
use crate::parsers::parse_escape_spec;

verus! {

/// The mathematical form of one token: a literal text run or a recognized
/// escape sequence.
pub enum TokenModel {
    Text(Seq<char>),
    Escape(AnsiSequence),
}

/// Whether an emitted token carries exactly what its model says.
pub open spec fn token_matches(tok: Output, t: TokenModel) -> bool {
    match (tok, t) {
        (Output::TextBlock(x), TokenModel::Text(xs)) => x@ == xs,
        (Output::Escape(e), TokenModel::Escape(se)) => e == se,
        _ => false,
    }
}

/// The position of the first escape introducer at or after `from`.
pub open spec fn first_esc(s: Seq<char>, from: int) -> Option<int>
    decreases s.len() - from,
{
    if from < 0 || from >= s.len() {
        None
    } else if s[from] == esc() {
        Some(from)
    } else {
        first_esc(s, from + 1)
    }
}

/// The first introducer lies inside the input, holds the introducer, and
/// nothing before it does.
pub proof fn lemma_first_esc(s: Seq<char>, from: int)
    requires
        0 <= from,
    ensures
        first_esc(s, from) matches Some(l) ==> from <= l < s.len() && s[l] == esc(),
        (first_esc(s, from) is None) ==> (forall|j: int|
            from <= j < s.len() ==> s[j] != esc()),
    decreases s.len() - from,
{
    if from < s.len() && s[from] != esc() {
        lemma_first_esc(s, from + 1);
    }
}

/// The next token of the input and how many characters it consumes: the
/// text before the next introducer, a recognized sequence at an introducer,
/// or, where no grammar matches there, the text up to the following
/// introducer (or the end), so that nothing is ever lost.
pub open spec fn next_token_spec(s: Seq<char>) -> (TokenModel, int) {
    match first_esc(s, 0) {
        None => (TokenModel::Text(s), s.len() as int),
        Some(loc) => {
            if loc > 0 {
                (TokenModel::Text(s.take(loc)), loc)
            } else {
                match parse_escape_spec(s) {
                    Some((e, n)) => (TokenModel::Escape(e), n),
                    None => {
                        match first_esc(s, 1) {
                            Some(l2) => (TokenModel::Text(s.take(l2)), l2),
                            None => (TokenModel::Text(s), s.len() as int),
                        }
                    },
                }
            }
        },
    }
}

/// Forward progress: on a non-empty input the next token consumes at least
/// one character, and never more than the input holds.
pub proof fn lemma_next_token_progress(s: Seq<char>)
    requires
        s.len() > 0,
    ensures
        1 <= next_token_spec(s).1 <= s.len(),
{
    lemma_first_esc(s, 0);
    lemma_first_esc(s, 1);
    lemma_parse_escape_spec_bounds(s);
}

/// The tokens of the whole input, each paired with the text it consumed.
pub open spec fn tokenize_full(s: Seq<char>) -> Seq<(TokenModel, Seq<char>)>
    decreases s.len(),
    via tokenize_full_dec
{
    if s.len() == 0 {
        Seq::empty()
    } else {
        let (t, n) = next_token_spec(s);
        seq![(t, s.take(n))] + tokenize_full(s.skip(n))
    }
}

#[via_fn]
proof fn tokenize_full_dec(s: Seq<char>) {
    if s.len() > 0 {
        lemma_next_token_progress(s);
    }
}

/// The tokenization of the input: the ordered token sequence.
pub open spec fn tokenize_spec(s: Seq<char>) -> Seq<TokenModel> {
    tokenize_full(s).map_values(|p: (TokenModel, Seq<char>)| p.0)
}

/// The texts of a token sequence, concatenated in order.
pub open spec fn concat_texts(ts: Seq<(TokenModel, Seq<char>)>) -> Seq<char>
    decreases ts.len(),
{
    if ts.len() == 0 {
        Seq::empty()
    } else {
        ts[0].1 + concat_texts(ts.drop_first())
    }
}

/// Concatenation invariant: the texts consumed by the tokens of any input,
/// in order, reconstruct exactly that input. Nothing is lost, whatever the
/// input holds.
pub proof fn lemma_tokenize_reconstructs(s: Seq<char>)
    ensures
        concat_texts(tokenize_full(s)) == s,
    decreases s.len(),
{
    if s.len() == 0 {
        assert(concat_texts(tokenize_full(s)) =~= s);
    } else {
        let (t, n) = next_token_spec(s);
        lemma_next_token_progress(s);
        lemma_tokenize_reconstructs(s.skip(n));
        let full = tokenize_full(s);
        assert(full.drop_first() =~= tokenize_full(s.skip(n)));
        assert(concat_texts(full) =~= s.take(n) + concat_texts(tokenize_full(s.skip(n))));
        assert(s.take(n) + s.skip(n) =~= s);
    }
}

/// Whether a token is recognized again from the text it consumed: a
/// literal run trivially is; an escape token's consumed text must parse
/// back to exactly its value, consuming all of it.
pub open spec fn pair_reparses(p: (TokenModel, Seq<char>)) -> bool {
    match p.0 {
        TokenModel::Text(_) => true,
        TokenModel::Escape(e) => parse_escape_spec(p.1) == Some((e, p.1.len() as int)),
    }
}

/// Every escape token of a tokenization is recognized again from exactly
/// the text it consumed: the token sequence is faithful to the recognizer.
pub proof fn lemma_escape_tokens_reparse(s: Seq<char>)
    ensures
        forall|i: int|
            0 <= i < tokenize_full(s).len() ==> pair_reparses(#[trigger] tokenize_full(s)[i]),
    decreases s.len(),
{
    if s.len() > 0 {
        let (t, n) = next_token_spec(s);
        lemma_next_token_progress(s);
        let full = tokenize_full(s);
        let tail = tokenize_full(s.skip(n));
        assert(full.drop_first() =~= tail);
        lemma_parse_matched_prefix(s);
        assert(pair_reparses(full[0]));
        lemma_escape_tokens_reparse(s.skip(n));
        assert forall|i: int| 0 <= i < full.len() implies pair_reparses(#[trigger] full[i]) by {
            if i > 0 {
                assert(full[i] == tail[i - 1]);
                assert(pair_reparses(tail[i - 1]));
            }
        }
    }
}

/// Whether a token came from text written exactly in its canonical form:
/// a literal run always did; a recognized sequence did when the matched
/// text equals the canonical rendering of its value.
pub open spec fn canonical_pair(p: (TokenModel, Seq<char>)) -> bool {
    match p.0 {
        TokenModel::Text(_) => true,
        TokenModel::Escape(e) => p.1 == render_spec(e),
    }
}

/// Whether every escape sequence of the input is written canonically.
pub open spec fn escapes_canonical(ts: Seq<(TokenModel, Seq<char>)>) -> bool {
    forall|i: int| 0 <= i < ts.len() ==> canonical_pair(#[trigger] ts[i])
}

/// The text a token stands for: a literal run verbatim, a recognized
/// sequence in its canonical rendering.
pub open spec fn token_rendered(t: TokenModel) -> Seq<char> {
    match t {
        TokenModel::Text(x) => x,
        TokenModel::Escape(e) => render_spec(e),
    }
}

/// The rendered texts of a token sequence, concatenated in order.
pub open spec fn concat_rendered(ts: Seq<(TokenModel, Seq<char>)>) -> Seq<char>
    decreases ts.len(),
{
    if ts.len() == 0 {
        Seq::empty()
    } else {
        token_rendered(ts[0].0) + concat_rendered(ts.drop_first())
    }
}

/// Concatenation invariant, rendered form: where every escape sequence of
/// the input is written canonically, taking literal tokens verbatim and
/// rendering escape tokens back to text reconstructs exactly the input.
/// (An input that writes a sequence non-canonically, say with a defaulted
/// field, is recognized all the same, but renders back longer than it was
/// written: there the matched-text form of the invariant still holds.)
pub proof fn lemma_rendered_reconstructs(s: Seq<char>)
    requires
        escapes_canonical(tokenize_full(s)),
    ensures
        concat_rendered(tokenize_full(s)) == s,
    decreases s.len(),
{
    if s.len() == 0 {
        assert(concat_rendered(tokenize_full(s)) =~= s);
    } else {
        let (t, n) = next_token_spec(s);
        lemma_next_token_progress(s);
        let full = tokenize_full(s);
        let tail = tokenize_full(s.skip(n));
        assert(full.drop_first() =~= tail);
        assert(canonical_pair(full[0]));
        match t {
            TokenModel::Text(x) => {
                assert(x =~= s.take(n));
            },
            TokenModel::Escape(e) => {
                assert(full[0].1 == s.take(n));
            },
        }
        assert(token_rendered(t) == s.take(n));
        assert(escapes_canonical(tail)) by {
            assert forall|i: int| 0 <= i < tail.len() implies canonical_pair(#[trigger] tail[i]) by {
                assert(tail[i] == full[i + 1]);
                assert(canonical_pair(full[i + 1]));
            }
        }
        lemma_rendered_reconstructs(s.skip(n));
        assert(concat_rendered(full) =~= s.take(n) + concat_rendered(tail));
        assert(s.take(n) + s.skip(n) =~= s);
    }
}

/// A streaming tokenizer over an input string: it holds only a cursor to
/// the remaining unconsumed suffix (a borrowed view, never a copy), which
/// advances monotonically and never rewinds.
#[derive(Debug)]
pub struct AnsiParseIterator<'a> {
    dat: &'a str,
}

/// What one pull from the tokenizer leaves behind: the cursor advanced past
/// the next token of the old remaining input, and the emitted token equal
/// to that token's model.
pub open spec fn next_post(s: Seq<char>, rest: Seq<char>, tok: Output) -> bool {
    let (t, n) = next_token_spec(s);
    rest == s.skip(n) && token_matches(tok, t)
}

impl<'a> AnsiParseIterator<'a> {
    /// The remaining unconsumed input.
    pub closed spec fn remaining(&self) -> Seq<char> {
        self.dat@
    }

    /// Produces the next token, or nothing once the input is exhausted.
    ///
    /// Tokens come in strict left-to-right order: literal text up to the
    /// next introducer, a recognized escape sequence, or, where no grammar
    /// matches at an introducer, the unrecognized region verbatim as
    /// literal text. Each emitted token consumes at least one character:
    /// the cursor always advances.
    pub fn next(&mut self) -> (r: Option<Output<'a>>)
        ensures
            (r is None) == (old(self).remaining().len() == 0),
            r is None ==> final(self).remaining() == old(self).remaining(),
            r matches Some(tok) ==> next_post(old(self).remaining(), final(self).remaining(), tok),
            r matches Some(tok) ==> tok.wf(),
            r is Some ==> final(self).remaining().len() < old(self).remaining().len(),
    {
        let n = self.dat.unicode_len();
        if n == 0 {
            return None;
        }
        proof {
            lemma_first_esc(self.dat@, 0);
            lemma_first_esc(self.dat@, 1);
            lemma_parse_escape_spec_bounds(self.dat@);
        }
        match find_esc(self.dat, 0, n) {
            None => {
                let t = self.dat;
                self.dat = self.dat.substring_char(n, n);
                proof {
                    assert(final(self).remaining() =~= old(self).remaining().skip(n as int));
                }
                Some(Output::TextBlock(t))
            },
            Some(loc) => {
                if loc == 0 {
                    match parse_escape_core(self.dat) {
                        Some((e, q)) => {
                            self.dat = self.dat.substring_char(q, n);
                            proof {
                                assert(final(self).remaining() =~= old(self).remaining().skip(
                                    q as int,
                                ));
                            }
                            Some(Output::Escape(e))
                        },
                        None => {
                            match find_esc(self.dat, 1, n) {
                                Some(l2) => {
                                    let t = self.dat.substring_char(0, l2);
                                    self.dat = self.dat.substring_char(l2, n);
                                    Some(Output::TextBlock(t))
                                },
                                None => {
                                    let t = self.dat;
                                    self.dat = self.dat.substring_char(n, n);
                                    proof {
                                        assert(final(self).remaining()
                                            =~= old(self).remaining().skip(n as int));
                                    }
                                    Some(Output::TextBlock(t))
                                },
                            }
                        },
                    }
                } else {
                    let t = self.dat.substring_char(0, loc);
                    self.dat = self.dat.substring_char(loc, n);
                    Some(Output::TextBlock(t))
                }
            },
        }
    }

    /// Pulls every remaining token, in order: the whole tokenization of the
    /// remaining input, leaving the tokenizer exhausted.
    pub fn tokens(&mut self) -> (r: Vec<Output<'a>>)
        ensures
            final(self).remaining().len() == 0,
            r@.len() == tokenize_full(old(self).remaining()).len(),
            forall|i: int|
                0 <= i < r@.len() ==> token_matches(
                    #[trigger] r@[i],
                    tokenize_full(old(self).remaining())[i].0,
                ),
    {
        let ghost s0 = self.remaining();
        let mut out: Vec<Output<'a>> = Vec::new();
        loop
            invariant
                s0 == old(self).remaining(),
                out@.len() + tokenize_full(self.remaining()).len() == tokenize_full(s0).len(),
                tokenize_full(self.remaining()) =~= tokenize_full(s0).skip(out@.len() as int),
                forall|i: int|
                    0 <= i < out@.len() ==> token_matches(
                        #[trigger] out@[i],
                        tokenize_full(s0)[i].0,
                    ),
            decreases self.remaining().len(),
        {
            let ghost rem = self.remaining();
            let ghost k = out@.len() as int;
            match self.next() {
                None => {
                    return out;
                },
                Some(tok) => {
                    proof {
                        lemma_next_token_progress(rem);
                        assert(tokenize_full(rem)[0].0 == next_token_spec(rem).0);
                        assert(tokenize_full(rem)[0] == tokenize_full(s0).skip(k)[0]);
                        assert(tokenize_full(self.remaining()) =~= tokenize_full(rem).drop_first());
                        assert(tokenize_full(rem).drop_first() =~= tokenize_full(s0).skip(k + 1));
                    }
                    out.push(tok);
                },
            }
        }
    }
}

/// The position of the first escape introducer at or after `from`.
fn find_esc(s: &str, from: usize, n: usize) -> (r: Option<usize>)
    requires
        n as int == s@.len(),
        from <= n,
    ensures
        match (r, first_esc(s@, from as int)) {
            (Some(i), Some(si)) => i as int == si && from <= i && i < n,
            (None, None) => true,
            _ => false,
        },
{
    let mut i = from;
    while i < n
        invariant
            n as int == s@.len(),
            from <= i <= n,
            first_esc(s@, from as int) == first_esc(s@, i as int),
        decreases n - i,
    {
        if s.get_char(i) == '\u{1b}' {
            return Some(i);
        }
        i = i + 1;
    }
    None
}

/// Anything that can be walked as a stream of ANSI tokens.
pub trait AnsiParser {
    /// The character content that will be tokenized.
    spec fn text(&self) -> Seq<char>;

    /// A fresh tokenizer over the whole of `self`.
    fn ansi_parse(&self) -> (r: AnsiParseIterator<'_>)
        ensures
            r.remaining() == self.text(),
    ;
}

impl AnsiParser for str {
    open spec fn text(&self) -> Seq<char> {
        self@
    }

    fn ansi_parse(&self) -> (r: AnsiParseIterator<'_>) {
        AnsiParseIterator { dat: self }
    }
}

impl AnsiParser for String {
    open spec fn text(&self) -> Seq<char> {
        self@
    }

    fn ansi_parse(&self) -> (r: AnsiParseIterator<'_>) {
        AnsiParseIterator { dat: self.as_str() }
    }
}

} // verus!
