use gedcom::text::{str_eq, str_eq_ignore_case};
use gedcom::token::{Token, TokenKind};
use gedcom::tokenizer::Tokenizer;

fn all_tokens(text: &str) -> Vec<Token> {
    let mut tokenizer = Tokenizer::new(text.chars());
    let mut tokens = Vec::new();
    loop {
        tokenizer.next_token();
        if tokenizer.done() {
            return tokens;
        }
        tokens.push(tokenizer.current().clone());
    }
}

fn tag(text: &str) -> Token {
    Token::Tag(text.to_string())
}

fn value(text: &str) -> Token {
    Token::LineValue(text.to_string())
}

#[test]
fn a_new_tokenizer_holds_the_start_token() {
    let tokenizer = Tokenizer::new("0 HEAD".chars());
    assert_eq!(*tokenizer.current(), Token::Start);
    assert_eq!(tokenizer.kind(), TokenKind::Start);
    assert_eq!(tokenizer.line(), 0);
    assert!(!tokenizer.done());
}

#[test]
fn a_line_is_level_tag_and_value() {
    assert_eq!(
        all_tokens("1 NAME John /Doe/\n"),
        vec![Token::Level(1), tag("NAME"), value("John /Doe/")]
    );
}

#[test]
fn a_pointer_loses_its_delimiters() {
    assert_eq!(
        all_tokens("0 @I1@ INDI"),
        vec![Token::Level(0), Token::Pointer("I1".to_string()), tag("INDI")]
    );
    assert_eq!(
        all_tokens("0 @I1 INDI"),
        vec![Token::Level(0), Token::Pointer("I1".to_string()), tag("INDI")]
    );
    assert_eq!(all_tokens("0 @"), vec![Token::Level(0), Token::Pointer(String::new())]);
    assert_eq!(all_tokens("0 @@"), vec![Token::Level(0), Token::Pointer(String::new())]);
}

#[test]
fn a_pointer_in_a_value_keeps_its_delimiters() {
    assert_eq!(all_tokens("1 HUSB @I1@"), vec![Token::Level(1), tag("HUSB"), value("@I1@")]);
}

#[test]
fn an_underscore_begins_a_custom_tag() {
    assert_eq!(
        all_tokens("1 _UID 12 34"),
        vec![Token::Level(1), Token::CustomTag("_UID".to_string()), value("12 34")]
    );
    assert_eq!(
        all_tokens("0 @X1@ _LOC"),
        vec![Token::Level(0), Token::Pointer("X1".to_string()), Token::CustomTag("_LOC".to_string())]
    );
}

#[test]
fn a_tag_without_value_is_followed_by_the_next_level() {
    assert_eq!(
        all_tokens("1 BIRT\n2 DATE 1900\n"),
        vec![Token::Level(1), tag("BIRT"), Token::Level(2), tag("DATE"), value("1900")]
    );
    assert_eq!(
        all_tokens("1 BIRT   \r\n2 DATE 1900"),
        vec![Token::Level(1), tag("BIRT"), Token::Level(2), tag("DATE"), value("1900")]
    );
}

#[test]
fn a_value_is_trimmed() {
    assert_eq!(
        all_tokens("1 NOTE   some text \t \r\n1 SEX M\r\n"),
        vec![Token::Level(1), tag("NOTE"), value("some text"), Token::Level(1), tag("SEX"), value("M")]
    );
}

#[test]
fn blank_lines_and_leading_blanks_are_passed_over() {
    assert_eq!(
        all_tokens("\n\n  0 HEAD\n\n \t\n1 CHAR UTF-8\n\n"),
        vec![Token::Level(0), tag("HEAD"), Token::Level(1), tag("CHAR"), value("UTF-8")]
    );
}

#[test]
fn a_byte_order_mark_is_white_space() {
    assert_eq!(all_tokens("\u{feff}0 HEAD"), vec![Token::Level(0), tag("HEAD")]);
}

#[test]
fn a_level_is_a_decimal_number_up_to_255() {
    assert_eq!(all_tokens("007 X"), vec![Token::Level(7), tag("X")]);
    assert_eq!(all_tokens("255 X"), vec![Token::Level(255), tag("X")]);
    assert_eq!(all_tokens("256 X"), vec![Token::Level(255), tag("X")]);
    assert_eq!(all_tokens("99999999999999999999999 X"), vec![Token::Level(255), tag("X")]);
    assert_eq!(all_tokens("12X"), vec![Token::Level(12), tag("X")]);
}

#[test]
fn a_line_without_a_level_begins_with_its_word() {
    assert_eq!(
        all_tokens("1 NOTE first\nsecond part\n1 SEX M"),
        vec![
            Token::Level(1),
            tag("NOTE"),
            value("first"),
            tag("second"),
            value("part"),
            Token::Level(1),
            tag("SEX"),
            value("M"),
        ]
    );
}

#[test]
fn a_digit_inside_a_line_is_no_level() {
    assert_eq!(all_tokens("1 AGE 42"), vec![Token::Level(1), tag("AGE"), value("42")]);
    assert_eq!(
        all_tokens("0 @I1@ 5"),
        vec![Token::Level(0), Token::Pointer("I1".to_string()), tag("5")]
    );
}

#[test]
fn the_lines_are_counted_by_their_levels() {
    let mut tokenizer = Tokenizer::new("0 HEAD\n1 CHAR X\n\nstray\n0 TRLR".chars());
    let mut lines = Vec::new();
    loop {
        tokenizer.next_token();
        if tokenizer.done() {
            break;
        }
        lines.push(tokenizer.line());
    }
    assert_eq!(lines, vec![1, 1, 2, 2, 2, 2, 3, 3]);
    assert_eq!(tokenizer.line(), 3);
}

#[test]
fn the_end_stays_the_end() {
    let mut tokenizer = Tokenizer::new("0 TRLR".chars());
    tokenizer.next_token();
    tokenizer.next_token();
    tokenizer.next_token();
    assert!(tokenizer.done());
    assert_eq!(*tokenizer.current(), Token::EOF);
    tokenizer.next_token();
    assert!(tokenizer.done());
    assert_eq!(tokenizer.kind(), TokenKind::EOF);
    assert_eq!(tokenizer.line(), 1);
}

#[test]
fn an_empty_text_has_no_tokens() {
    assert_eq!(all_tokens(""), Vec::<Token>::new());
    assert_eq!(all_tokens(" \n\r\n\t"), Vec::<Token>::new());
}

#[test]
fn a_token_is_copied_with_its_text() {
    let token = Token::Tag("NAME".to_string());
    assert_eq!(token.clone(), token);
    assert_eq!(token.text(), "NAME");
    assert_eq!(token.kind(), TokenKind::Tag);
    assert_eq!(Token::Level(3).text(), "");
    assert_eq!(Token::Level(3).kind(), TokenKind::Level(3));
    assert_eq!(Token::Level(3).clone(), Token::Level(3));
}

#[test]
fn strings_are_compared_by_their_characters() {
    assert!(str_eq("HEAD", "HEAD"));
    assert!(str_eq("", ""));
    assert!(!str_eq("HEAD", "HEAP"));
    assert!(!str_eq("HEAD", "HEA"));
    assert!(!str_eq("HEA", "HEAD"));
    assert!(str_eq("Zoë", "Zoë"));
    assert!(str_eq_ignore_case("Lineage-Linked", "LINEAGE-LINKED"));
    assert!(str_eq_ignore_case("lineage-linked", "LINEAGE-LINKED"));
    assert!(!str_eq_ignore_case("lineage linked", "LINEAGE-LINKED"));
    assert!(!str_eq_ignore_case("lineage-linke", "LINEAGE-LINKED"));
    assert!(!str_eq_ignore_case("@", "`"));
    assert!(!str_eq_ignore_case("[", "{"));
}
