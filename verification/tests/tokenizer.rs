use vilmos_assembler::error::SyntaxError;
use vilmos_assembler::parser::{chars_of, escaped, is_whitespace, parse};

fn tokens(line: &str) -> Vec<String> {
    parse(line).unwrap()
}

#[test]
fn comment_behind_a_token_is_dropped() {
    assert_eq!(vec!["SUB".to_string()], tokens("SUB #comment"));
}

#[test]
fn quoted_token_keeps_its_blank() {
    assert_eq!(vec!["RAW_STRING".to_string(), "a b".to_string()], tokens("RAW_STRING \"a b\""));
}

#[test]
fn lone_quote_is_unterminated() {
    assert_eq!(Err(SyntaxError::UnterminatedQuote), parse("RAW_STRING \""));
}

#[test]
fn quote_without_end_is_unterminated() {
    assert_eq!(Err(SyntaxError::UnterminatedQuote), parse("RAW_STRING \"abc"));
    assert_eq!(Err(SyntaxError::UnterminatedQuote), parse("\"abc\\\""));
}

#[test]
fn unknown_escape_is_refused() {
    assert_eq!(Err(SyntaxError::InvalidEscapeSequence), parse("a\\qb"));
    assert_eq!(Err(SyntaxError::InvalidEscapeSequence), parse("\"a\\ b\""));
    assert_eq!(Err(SyntaxError::InvalidEscapeSequence), parse("\"abc\\"));
    assert_eq!(Err(SyntaxError::InvalidEscapeSequence), parse("abc\\"));
}

#[test]
fn first_error_of_the_line_is_reported() {
    assert_eq!(Err(SyntaxError::InvalidEscapeSequence), parse("a\\x \"open"));
    assert_eq!(Err(SyntaxError::InvalidEscapeSequence), parse("ok \"open \\x"));
    assert_eq!(Err(SyntaxError::UnterminatedQuote), parse("ok \"open \\\" x # y"));
}

#[test]
fn blank_and_comment_lines_have_no_tokens() {
    assert!(tokens("").is_empty());
    assert!(tokens("   \t ").is_empty());
    assert!(tokens("# only a comment").is_empty());
    assert!(tokens("   #SUB").is_empty());
}

#[test]
fn hash_ends_an_unquoted_token() {
    assert_eq!(vec!["SUB".to_string()], tokens("SUB#comment \"not a token"));
}

#[test]
fn hash_inside_quotes_is_text() {
    assert_eq!(vec!["a # b".to_string(), "c".to_string()], tokens("\"a # b\" c # d"));
}

#[test]
fn escapes_stand_for_one_character_each() {
    assert_eq!(vec!["\n\r\t\"\\\0".to_string()], tokens("\"\\n\\r\\t\\\"\\\\\\0\""));
    assert_eq!(vec!["a\nb".to_string()], tokens("a\\nb"));
}

#[test]
fn quoted_tokens_need_no_separator() {
    assert_eq!(vec!["a".to_string(), "b".to_string(), "c".to_string()], tokens("\"a\"\"b\"c"));
    assert_eq!(vec!["".to_string()], tokens("\"\""));
}

#[test]
fn quote_inside_an_unquoted_token_is_text() {
    assert_eq!(vec!["ab\"cd".to_string()], tokens("ab\"cd"));
}

#[test]
fn every_white_space_separates() {
    assert_eq!(vec!["a".to_string(), "b".to_string(), "c".to_string()], tokens("\u{3000}a\u{00A0}\u{2003}b\tc\u{0085}"));
    for c in ['\t', '\n', '\u{000B}', '\u{000C}', '\r', ' ', '\u{0085}', '\u{00A0}', '\u{1680}',
        '\u{2000}', '\u{200A}', '\u{2028}', '\u{2029}', '\u{202F}', '\u{205F}', '\u{3000}'] {
        assert!(is_whitespace(c));
    }
    for c in ['a', '#', '"', '\0', '\u{200B}', '\u{FEFF}', '\u{001F}', '\u{180E}'] {
        assert!(!is_whitespace(c));
    }
}

#[test]
fn white_space_agrees_with_the_standard_property() {
    for code in 0u32..0x11000 {
        if let Some(c) = char::from_u32(code) {
            assert_eq!(c.is_whitespace(), is_whitespace(c));
        }
    }
}

#[test]
fn escaped_knows_six_letters() {
    assert_eq!(Some('\n'), escaped(Some('n')));
    assert_eq!(Some('\r'), escaped(Some('r')));
    assert_eq!(Some('\t'), escaped(Some('t')));
    assert_eq!(Some('"'), escaped(Some('"')));
    assert_eq!(Some('\\'), escaped(Some('\\')));
    assert_eq!(Some('\0'), escaped(Some('0')));
    assert_eq!(None, escaped(Some('a')));
    assert_eq!(None, escaped(Some(' ')));
    assert_eq!(None, escaped(None));
}

#[test]
fn chars_of_keeps_order() {
    assert_eq!(vec!['h', 'é', '日', '!'], chars_of("hé日!"));
    assert!(chars_of("").is_empty());
}

#[test]
fn plain_line_is_split_into_its_words() {
    for line in ["", "   ", "POP", "  RAW_COLOR 1\t22   333 ", "a\u{3000}b\u{85}c", "x  y\rz\n"] {
        let words: Vec<String> = line.split_whitespace().map(|w| w.to_string()).collect();
        assert_eq!(words, tokens(line));
    }
    assert_eq!(vec!["RAW_COLOR", "1", "22", "333"], tokens("  RAW_COLOR 1\t22   333 "));
}
