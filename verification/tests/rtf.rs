//! Tests for the RTF tokenizer.

use f4merge::transcript::rtf::{Rtf, Token, TokenKind};

fn tokens_of(source: &[u8]) -> Vec<Token> {
    let mut rtf = Rtf::new(source);
    let mut tokens = Vec::new();
    while let Some(token) = rtf.next() {
        tokens.push(token);
    }
    tokens
}

fn text_only(source: &[u8]) -> Vec<String> {
    tokens_of(source)
        .iter()
        .filter(|t| t.kind().is_text())
        .map(|t| String::from_utf8(t.as_str(source).to_vec()).unwrap())
        .collect()
}

#[test]
fn iterate_empty_paragraph() {
    const RTF_PARAGRAPH: &str = "{\\f0 \\fs24 \\ul0 \\b0 \\i0 \\cf0 \\par}";
    let source = RTF_PARAGRAPH.as_bytes();
    let rtf_tokens = tokens_of(source);
    let rtf_token_kinds: Vec<TokenKind> = rtf_tokens.iter().map(|t| t.kind()).collect();
    let rtf_token_strings: Vec<&str> = rtf_tokens
        .iter()
        .map(|t| std::str::from_utf8(t.as_str(source)).unwrap())
        .collect();

    assert_eq!(
        rtf_token_strings,
        vec![
            "{", "\\f", "0", " ", "\\fs", "24", " ", "\\ul", "0", " ", "\\b", "0", " ", "\\i",
            "0", " ", "\\cf", "0", " ", "\\par", "}"
        ]
    );
    assert_eq!(
        rtf_token_kinds,
        vec![
            TokenKind::GroupStart,  // {
            TokenKind::ControlWord, // \f
            TokenKind::Parameter,   // 0
            TokenKind::Delimiter,   // " "
            TokenKind::ControlWord, // \fs
            TokenKind::Parameter,   // 24
            TokenKind::Delimiter,   // " "
            TokenKind::ControlWord, // \ul
            TokenKind::Parameter,   // 0
            TokenKind::Delimiter,   // " ",
            TokenKind::ControlWord, // \b
            TokenKind::Parameter,   // 0
            TokenKind::Delimiter,   // " ",
            TokenKind::ControlWord, // \i
            TokenKind::Parameter,   // 0
            TokenKind::Delimiter,   // " "
            TokenKind::ControlWord, // \cf
            TokenKind::Parameter,   // 0
            TokenKind::Delimiter,   // " "
            TokenKind::ControlWord, // \par
            TokenKind::GroupEnd     // }
        ]
    )
}

#[test]
fn mhm_genau() {
    const RTF_WITH_TEXT: &str = "{\\f0 \\fs24 \\ul0 \\b0 \\i0 \\cf0 {\\f0 \\fs24 \\ul0 \\b0 \\i0 \\cf0 I}{\\f0 \\fs24 \\ul0 \\b0 \\i0 \\cf0 : Mhm, genau. #00:00:19-0#}\\par}";
    let rtf_text_only = text_only(RTF_WITH_TEXT.as_bytes());
    assert_eq!(rtf_text_only, vec!["I", ": Mhm, genau. #00:00:19-0#"]);
}

#[test]
fn zurueck_zu_den_methoden() {
    const RTF_WITH_TEXT: &str = "{\\f0 \\fs24 \\ul0 \\b0 \\i0 \\cf0 {\\f0 \\fs24 \\ul0 \\b0 \\i0 \\cf0 Z}{\\f0 \\fs24 \\ul0 \\b0 \\i0 \\cf0 : Zur\\'fcck zu den Methoden #00:00:17-5#}\\par}";
    let rtf_text_only = text_only(RTF_WITH_TEXT.as_bytes());
    assert_eq!(
        rtf_text_only,
        vec!["Z", ": Zur\\'fcck zu den Methoden #00:00:17-5#"]
    );
}

#[test]
fn control_symbol_and_escape_handling() {
    // A control symbol is the backslash plus one non-letter byte; an
    // escape sequence stays inside the surrounding text run.
    let source = "\\~a\\'fcb{".as_bytes();
    let tokens = tokens_of(source);
    let kinds: Vec<TokenKind> = tokens.iter().map(|t| t.kind()).collect();
    let strings: Vec<&str> = tokens
        .iter()
        .map(|t| std::str::from_utf8(t.as_str(source)).unwrap())
        .collect();
    assert_eq!(
        kinds,
        vec![
            TokenKind::ControlSym,
            TokenKind::Delimiter,
            TokenKind::Text,
            TokenKind::GroupStart,
        ]
    );
    assert_eq!(strings, vec!["\\~", "a", "\\'fcb", "{"]);
}

#[test]
fn parameter_only_after_control_word() {
    // A digit run directly after a control word is a parameter; anywhere
    // else digits are plain text.
    let source = "\\green255 12".as_bytes();
    let tokens = tokens_of(source);
    let kinds: Vec<TokenKind> = tokens.iter().map(|t| t.kind()).collect();
    assert_eq!(
        kinds,
        vec![
            TokenKind::ControlWord,
            TokenKind::Parameter,
            TokenKind::Delimiter,
            TokenKind::Text,
        ]
    );
    let strings: Vec<&str> = tokens
        .iter()
        .map(|t| std::str::from_utf8(t.as_str(source)).unwrap())
        .collect();
    assert_eq!(strings, vec!["\\green", "255", " ", "12"]);
}
