use fts_query::lexer::{lex, Fraction, Token};

fn word(s: &str) -> Token {
    Token::WordOrPhrase(s.to_string())
}

fn zto(num: u64, scale: u32) -> Token {
    Token::ZeroToOne(Fraction { num, scale })
}

#[test]
fn words_and_symbols() {
    assert_eq!(
        lex("cat & dog"),
        vec![word("cat"), Token::And, word("dog")]
    );
    assert_eq!(
        lex("(a | b) + !c - d,e:"),
        vec![
            Token::LeftParen,
            word("a"),
            Token::Or,
            word("b"),
            Token::RightParen,
            Token::Plus,
            Token::Bang,
            word("c"),
            Token::Minus,
            word("d"),
            Token::Comma,
            word("e"),
            Token::Colon,
        ]
    );
}

#[test]
fn whitespace_is_skipped() {
    assert_eq!(lex("  cat\tdog\r\n"), vec![word("cat"), word("dog")]);
    assert_eq!(lex(""), Vec::<Token>::new());
    assert_eq!(lex(" \t\n"), Vec::<Token>::new());
}

#[test]
fn word_characters_include_symbols() {
    assert_eq!(lex("a.b_c/d=e"), vec![word("a.b_c/d=e")]);
    assert_eq!(lex("x%y$z#w"), vec![word("x%y$z#w")]);
}

#[test]
fn phrases_keep_their_quotes() {
    assert_eq!(lex("\"a cat\""), vec![word("\"a cat\"")]);
    assert_eq!(lex("\"\""), vec![word("\"\"")]);
    assert_eq!(lex("\"a\" \"b\""), vec![word("\"a\""), word("\"b\"")]);
}

#[test]
fn phrase_escapes() {
    assert_eq!(lex("\"a\\\"b\""), vec![word("\"a\\\"b\"")]);
    assert_eq!(lex("\"a\\\\\""), vec![word("\"a\\\\\"")]);
}

#[test]
fn unterminated_phrase_is_an_error_marker() {
    assert_eq!(lex("\"abc"), vec![Token::Error, word("abc")]);
}

#[test]
fn numbers() {
    assert_eq!(lex("123"), vec![Token::Number(123)]);
    assert_eq!(lex("10"), vec![Token::Number(10)]);
    assert_eq!(lex("01"), vec![Token::Number(1)]);
    assert_eq!(lex("18446744073709551615"), vec![Token::Number(u64::MAX)]);
}

#[test]
fn zero_to_one_fractions() {
    assert_eq!(lex("0"), vec![zto(0, 0)]);
    assert_eq!(lex("1"), vec![zto(1, 0)]);
    assert_eq!(lex("00"), vec![zto(0, 0)]);
    assert_eq!(lex("0.5"), vec![zto(5, 1)]);
    assert_eq!(lex("0.25"), vec![zto(25, 2)]);
    assert_eq!(lex("0.05"), vec![zto(5, 2)]);
    assert_eq!(lex("00.50"), vec![zto(5, 1)]);
    assert_eq!(lex("0.000"), vec![zto(0, 0)]);
}

#[test]
fn longest_match_decides_the_numeric_class() {
    // A digit run that extends past the 0/1 shapes is a plain number.
    assert_eq!(lex("1.0"), vec![zto(1, 0), word("."), zto(0, 0)]);
    assert_eq!(lex("12.5"), vec![Token::Number(12), word("."), Token::Number(5)]);
}

#[test]
fn numeric_limits_become_error_markers() {
    // One digit over u64::MAX.
    assert_eq!(lex("18446744073709551616"), vec![Token::Error]);
    // Nineteen significant fractional digits.
    assert_eq!(lex("0.1234567890123456789"), vec![Token::Error]);
    // Eighteen are fine.
    assert_eq!(lex("0.123456789012345678"), vec![zto(123456789012345678, 18)]);
}

#[test]
fn keywords() {
    assert_eq!(
        lex("@contains @startswith @inflection @thesaurus @near @weighted"),
        vec![
            Token::Contains,
            Token::Starts,
            Token::Inflection,
            Token::Thesaurus,
            Token::Near,
            Token::Weighted,
        ]
    );
}

#[test]
fn unknown_at_word_is_an_error_marker() {
    assert_eq!(lex("@foo"), vec![Token::Error, word("foo")]);
    assert_eq!(lex("@"), vec![Token::Error]);
}

#[test]
fn unrecognized_character_is_an_error_marker() {
    assert_eq!(lex("cat*dog"), vec![word("cat"), Token::Error, word("dog")]);
}

#[test]
fn a_whole_query() {
    assert_eq!(
        lex("@weighted: \"cat\", 0.5, \"dog\", 0.5:"),
        vec![
            Token::Weighted,
            Token::Colon,
            word("\"cat\""),
            Token::Comma,
            zto(5, 1),
            Token::Comma,
            word("\"dog\""),
            Token::Comma,
            zto(5, 1),
            Token::Colon,
        ]
    );
}
