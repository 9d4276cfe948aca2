use ansi_parser::AnsiParser;
use ansi_parser::AnsiSequence;
use ansi_parser::Output;

/// Pulls every token out of a fresh tokenizer over `s`.
fn collect_tokens(s: &str) -> Vec<Output<'_>> {
    let mut it = s.ansi_parse();
    let mut parts = Vec::new();
    while let Some(t) = it.next() {
        parts.push(t);
    }
    parts
}

/// The literal text runs among `parts`.
fn text_blocks<'a>(parts: &'a [Output]) -> Vec<&'a str> {
    parts
        .iter()
        .filter_map(|part| match part {
            Output::TextBlock(text) => Some(*text),
            _ => None,
        })
        .collect()
}

#[test]
fn test_parser_iterator() {
    let count = collect_tokens("\x1b[=25l\x1b[=7l\x1b[0m\x1b[36m\x1b[1m-`").len();

    assert_eq!(count, 6);
}

#[test]
fn test_parser_iterator_failure() {
    let count = collect_tokens("\x1b[=25l\x1b[=7l\x1b[0m\x1b[36;1;15;2m\x1b[1m-`").len();

    assert_eq!(count, 6);
}

#[test]
fn test_default_value() {
    let strings: Vec<Output> =
        collect_tokens("\x1b[H\x1b[123456H\x1b[;123456H\x1b[7asd;1234H\x1b[a;sd7H");

    assert_eq!(strings.len(), 5);
    assert_eq!(strings[0], Output::Escape(AnsiSequence::CursorPos(1, 1)));
    assert_eq!(
        strings[1],
        Output::Escape(AnsiSequence::CursorPos(123456, 1))
    );
    assert_eq!(
        strings[2],
        Output::Escape(AnsiSequence::CursorPos(1, 123456))
    );
    assert_eq!(strings[3], Output::TextBlock("\x1b[7asd;1234H"));
    assert_eq!(strings[4], Output::TextBlock("\x1b[a;sd7H"));
}

#[test]
fn test_escape() {
    let parts: Vec<_> = collect_tokens("\x1b\x1b[33mFoobar");
    assert_eq!(
        parts,
        vec![
            Output::Escape(AnsiSequence::Escape),
            Output::TextBlock("[33mFoobar")
        ]
    );
}

#[test]
fn test_lolcat() {
    let parts: Vec<Output> = collect_tokens("\u{1b}[38;2;51;254;77mS\u{1b}[39m\u{1b}[38;2;52;254;77mt\u{1b}[39m\u{1b}[38;2;52;254;77ma\u{1b}[39m\u{1b}[38;2;52;254;76mt\u{1b}[39m\u{1b}[38;2;53;254;76me\u{1b}[39m\u{1b}[38;2;53;254;76m \u{1b}[39m\u{1b}[38;2;53;254;75m{\u{1b}[39m\u{1b}[38;2;54;254;75m \u{1b}[39m\u{1b}[38;2;54;254;74ms\u{1b}[39m\u{1b}[38;2;54;254;74mt\u{1b}[39m\u{1b}[38;2;55;254;74ma\u{1b}[39m\u{1b}[38;2;55;254;73mc\u{1b}[39m\u{1b}[38;2;56;254;73mk\u{1b}[39m\u{1b}[38;2;56;254;72m:\u{1b}[39m\u{1b}[38;2;56;254;72m \u{1b}[39m\u{1b}[38;2;57;254;72m[\u{1b}[39m\u{1b}[38;2;57;254;71m0\u{1b}[39m\u{1b}[38;2;57;254;71m]\u{1b}[39m\u{1b}[38;2;58;254;71m \u{1b}[39m\u{1b}[38;2;58;254;70m}\u{1b}[39m");

    println!("{:?}", text_blocks(&parts));
}

#[test]
fn test_lolcat_2() {
    let test_data = "\u{1b}[38;2;51;254;77mS\u{1b}[39m\u{1b}[38;2;52;254;77mt\u{1b}[39m\u{1b}[38;2;52;254;77ma\u{1b}[39m\u{1b}[38;2;52;254;76mt\u{1b}[39m\u{1b}[38;2;53;254;76me\u{1b}[39m\u{1b}[38;2;53;254;76m \u{1b}[39m\u{1b}[38;2;53;254;75m{\u{1b}[39m\u{1b}[38;2;54;254;75m \u{1b}[39m\u{1b}[38;2;54;254;74ms\u{1b}[39m\u{1b}[38;2;54;254;74mt\u{1b}[39m\u{1b}[38;2;55;254;74ma\u{1b}[39m\u{1b}[38;2;55;254;73mc\u{1b}[39m\u{1b}[38;2;56;254;73mk\u{1b}[39m\u{1b}[38;2;56;254;72m:\u{1b}[39m\u{1b}[38;2;56;254;72m \u{1b}[39m\u{1b}[38;2;57;254;72m[\u{1b}[39m\u{1b}[38;2;57;254;71m0\u{1b}[39m\u{1b}[38;2;57;254;71m]\u{1b}[39m\u{1b}[38;2;58;254;71m \u{1b}[39m\u{1b}[38;2;58;254;70m}\u{1b}[39m";
    let unparsed_ansi_text = ANSIText::new(test_data);
    println!("{:?}", unparsed_ansi_text.segments());
    println!("{}", unparsed_ansi_text.segments().len());
}

#[derive(Debug, Clone, PartialEq, Default)]
pub struct ANSITextSegment<'a> {
    pub vec_parts: Vec<Output<'a>>,
    pub unicode_width: usize,
}

impl ANSITextSegment<'_> {
    pub fn new() -> Self {
        Self {
            vec_parts: vec![],
            ..Default::default()
        }
    }
}

#[derive(Debug, Clone, PartialEq, Default)]
pub struct ANSIText<'a> {
    pub ansi_text: &'a str,
    pub parts: Vec<Output<'a>>,
}

impl<'a> ANSIText<'a> {
    /// Given an unparsed ANSI text, parse it and return an [ANSIText].
    pub fn new(ansi_text: &'a str) -> Self {
        let parts = collect_tokens(ansi_text);
        Self { ansi_text, parts }
    }

    /// Returns all the segments that are delimited by an [Output::TextBlock].
    pub fn segments(&'a self) -> Vec<ANSITextSegment<'a>> {
        let mut vec_segments = Vec::new();

        let mut current_segment = ANSITextSegment::new();

        for part in &self.parts {
            match part {
                Output::TextBlock(_text) => {
                    current_segment.vec_parts.push(*part);
                    // Start a new segment & save the current one.
                    vec_segments.push(current_segment);
                    current_segment = ANSITextSegment::new();
                }
                Output::Escape(_ansi_sequence) => {
                    current_segment.vec_parts.push(*part);
                }
            }
        }

        // Take care of dangling current_segment.
        if !vec_segments.contains(&current_segment) {
            vec_segments.push(current_segment);
        }

        // Calculate the unicode_width of each segment.
        for segment in &mut vec_segments {
            for part in &segment.vec_parts {
                if let Output::TextBlock(text) = part {
                    segment.unicode_width += unicode_width::UnicodeWidthStr::width(*text);
                }
            }
        }

        vec_segments
    }
}

#[test]
fn tokenizer_empty_input_yields_nothing() {
    assert_eq!(collect_tokens("").len(), 0);
}

#[test]
fn tokenizer_plain_text_is_one_block() {
    assert_eq!(collect_tokens("plain text"), vec![Output::TextBlock("plain text")]);
}

#[test]
fn tokenizer_lone_trailing_introducer_is_literal_text() {
    assert_eq!(collect_tokens("tail\u{1b}"), vec![
        Output::TextBlock("tail"),
        Output::TextBlock("\u{1b}"),
    ]);
}

#[test]
fn tokenizer_back_to_back_introducers_keep_the_malformed_region() {
    // The first introducer starts no valid grammar: everything up to (not
    // including) the second introducer comes back verbatim.
    let parts = collect_tokens("\u{1b}@\u{1b}[2J");
    assert_eq!(parts, vec![
        Output::TextBlock("\u{1b}@"),
        Output::Escape(AnsiSequence::EraseDisplay),
    ]);
}

#[test]
fn tokenizer_concatenation_reconstructs_canonical_input() {
    // Every escape below is written in its canonical form, so re-rendering
    // all tokens in order gives back the input exactly.
    let input = "start\x1b[5;20Hmiddle\x1b[0;36m\x1b[?25l\u{1b}@junk\x1b[2Jend";
    let mut rebuilt = String::new();
    for part in collect_tokens(input) {
        rebuilt.push_str(&part.render());
    }
    assert_eq!(rebuilt, input);
}

#[test]
fn tokenizer_handles_multibyte_text() {
    let parts = collect_tokens("héllo\x1b[1mwörld");
    assert_eq!(parts.len(), 3);
    assert_eq!(parts[0], Output::TextBlock("héllo"));
    assert_eq!(parts[2], Output::TextBlock("wörld"));
}

#[test]
fn tokenizer_string_input() {
    let owned = String::from("\x1b[K-");
    let mut it = owned.ansi_parse();
    assert_eq!(it.next(), Some(Output::Escape(AnsiSequence::EraseLine)));
    assert_eq!(it.next(), Some(Output::TextBlock("-")));
    assert_eq!(it.next(), None);
}

#[test]
fn tokenizer_tokens_pulls_everything() {
    let mut it = "\x1b[=25l\x1b[=7l\x1b[0m\x1b[36m\x1b[1m-`".ansi_parse();
    let all = it.tokens();
    assert_eq!(all.len(), 6);
    assert_eq!(all[5], Output::TextBlock("-`"));
    assert_eq!(it.next(), None);
}
