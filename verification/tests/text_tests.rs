use mini_http::text::{chars_of, is_space_char, line_spans, skip_line, skip_spaces, skip_word, trim_span, word_spans, Span};

fn piece(chars: &[char], span: Span) -> String {
    chars[span.start..span.end].iter().collect()
}

const SAMPLES: [&str; 16] = [
    "",
    "one line",
    "one line\n",
    "a\nb",
    "a\r\nb\r\n",
    "\r\n\r\n",
    "\n\n\n",
    "a\rb\r",
    "a\r\r\nb",
    "  lead and trail \t ",
    "\u{a0}non\u{2003}breaking\u{3000}",
    "\r",
    "\n",
    " ",
    "x\u{e9}\u{20ac}\u{1f600}y\nz",
    "tab\there\u{b}and\u{c}there\u{85}next",
];

#[test]
fn white_space_is_what_the_standard_library_says() {
    for code in 0u32..=0x10FFFF {
        if let Some(c) = char::from_u32(code) {
            assert_eq!(is_space_char(c), c.is_whitespace(), "U+{:04X}", code);
        }
    }
}

#[test]
fn characters_are_listed_in_order() {
    for text in SAMPLES {
        assert_eq!(chars_of(text), text.chars().collect::<Vec<char>>());
    }
}

#[test]
fn lines_are_those_of_the_standard_library() {
    for text in SAMPLES {
        let chars = chars_of(text);
        let got: Vec<String> = line_spans(&chars).into_iter().map(|s| piece(&chars, s)).collect();
        let want: Vec<String> = text.lines().map(|l| l.to_string()).collect();
        assert_eq!(got, want, "{:?}", text);
    }
}

#[test]
fn words_are_those_of_the_standard_library() {
    for text in SAMPLES {
        let chars = chars_of(text);
        let whole = Span { start: 0, end: chars.len() };
        let got: Vec<String> = word_spans(&chars, whole).into_iter().map(|s| piece(&chars, s)).collect();
        let want: Vec<String> = text.split_whitespace().map(|l| l.to_string()).collect();
        assert_eq!(got, want, "{:?}", text);
    }
}

#[test]
fn trimming_is_that_of_the_standard_library() {
    for text in SAMPLES {
        let chars = chars_of(text);
        let whole = Span { start: 0, end: chars.len() };
        assert_eq!(piece(&chars, trim_span(&chars, whole)), text.trim(), "{:?}", text);
    }
}

#[test]
fn words_of_a_stretch_stay_inside_it() {
    let chars = chars_of("ab cd ef gh");
    let spans = word_spans(&chars, Span { start: 1, end: 7 });
    let got: Vec<String> = spans.into_iter().map(|s| piece(&chars, s)).collect();
    assert_eq!(got, vec!["b", "cd", "e"]);
}

#[test]
fn scanning_stops_at_the_first_character_of_another_kind() {
    let chars = chars_of("  ab \ncd");
    let whole = Span { start: 0, end: chars.len() };
    assert_eq!(skip_spaces(&chars, whole), 2);
    assert_eq!(skip_word(&chars, Span { start: 2, end: chars.len() }), 4);
    assert_eq!(skip_word(&chars, whole), 0);
    assert_eq!(skip_line(&chars, whole), 5);
    assert_eq!(skip_line(&chars, Span { start: 6, end: chars.len() }), 8);
    assert_eq!(skip_spaces(&chars, Span { start: 4, end: 5 }), 5);
}
