use fts_query::ast::{Expression, Operator, Statement};
use fts_query::lexer::{lex, Fraction, Token};
use fts_query::parser::{parse, ParseError, WeightSum};

fn parse_str(s: &str) -> Result<Vec<Statement>, ParseError> {
    parse(lex(s))
}

fn word(s: &str) -> Expression {
    Expression::WordOrPhrase(s.to_string())
}

fn zto(num: u64, scale: u32) -> Expression {
    Expression::ZeroToOne(Fraction { num, scale })
}

#[test]
fn contains_single_word() {
    let ast = parse_str("@contains: \"cat\":").unwrap();
    assert_eq!(ast, vec![Statement::Contains { expression: word("\"cat\"") }]);
}

#[test]
fn weighted_summing_to_one_parses() {
    let ast = parse_str("@weighted: \"cat\", 0.5, \"dog\", 0.5:").unwrap();
    assert_eq!(
        ast,
        vec![Statement::Weighted {
            parameter: vec![
                (word("\"cat\""), zto(5, 1)),
                (word("\"dog\""), zto(5, 1)),
            ],
        }]
    );
}

#[test]
fn weighted_not_summing_to_one_fails_with_the_sum() {
    let err = parse_str("@weighted: \"cat\", 0.5, \"dog\", 0.6:").unwrap_err();
    assert_eq!(err, ParseError::WeightError(WeightSum { num: 11, scale: 1 }));
}

#[test]
fn weighted_sum_is_exact_decimal_arithmetic() {
    // 0.3 + 0.3 + 0.4 is exactly 1 in decimal (in binary floating point it
    // is not).
    assert!(parse_str("@weighted: \"a\", 0.3, \"b\", 0.3, \"c\", 0.4:").is_ok());
    let err = parse_str("@weighted: \"a\", 0.25, \"b\", 0.85:").unwrap_err();
    assert_eq!(err, ParseError::WeightError(WeightSum { num: 11, scale: 1 }));
    let err = parse_str("@weighted::").unwrap_err();
    assert_eq!(err, ParseError::WeightError(WeightSum { num: 0, scale: 0 }));
}

#[test]
fn weighted_shape_errors() {
    // A number in the term position.
    assert!(matches!(
        parse_str("@weighted: 3, 0.5:"),
        Err(ParseError::UnexpectedToken(_))
    ));
    // A missing comma between term and weight.
    assert!(matches!(
        parse_str("@weighted: \"a\" 0.5:"),
        Err(ParseError::UnexpectedToken(_))
    ));
    // A plain number in the weight position.
    assert!(matches!(
        parse_str("@weighted: \"a\", 5:"),
        Err(ParseError::UnexpectedToken(_))
    ));
}

#[test]
fn near_defaults_the_proximity_to_five() {
    let ast = parse_str("@near: \"cat\", \"dog\":").unwrap();
    assert_eq!(
        ast,
        vec![Statement::Near {
            parameter: vec![word("\"cat\""), word("\"dog\"")],
            proximity: Expression::Number(5),
        }]
    );
}

#[test]
fn near_takes_a_trailing_proximity() {
    let ast = parse_str("@near: \"cat\", \"dog\", 3:").unwrap();
    assert_eq!(
        ast,
        vec![Statement::Near {
            parameter: vec![word("\"cat\""), word("\"dog\"")],
            proximity: Expression::Number(3),
        }]
    );
}

#[test]
fn near_rejects_a_number_before_the_end() {
    let err = parse_str("@near: \"cat\", 3, \"dog\":").unwrap_err();
    assert_eq!(err, ParseError::UnexpectedToken(Token::Comma));
}

#[test]
fn near_rejects_an_empty_term_list() {
    let err = parse_str("@near::").unwrap_err();
    assert_eq!(err, ParseError::UnexpectedToken(Token::Colon));
    let err = parse_str("@near: 3:").unwrap_err();
    assert_eq!(err, ParseError::UnexpectedToken(Token::Colon));
}

#[test]
fn bang_is_never_a_statement_prefix() {
    let err = parse_str("! @contains: \"cat\":").unwrap_err();
    assert_eq!(err, ParseError::UnexpectedToken(Token::Bang));
    let err = parse_str("- @contains: \"cat\":").unwrap_err();
    assert_eq!(err, ParseError::UnexpectedToken(Token::Minus));
}

#[test]
fn juxtaposition_parses_like_an_explicit_and() {
    let implicit = parse_str("@contains: \"cat\" \"dog\":").unwrap();
    let explicit = parse_str("@contains: \"cat\" & \"dog\":").unwrap();
    assert_eq!(implicit, explicit);
    assert_eq!(
        implicit,
        vec![Statement::Contains {
            expression: Expression::Infix(
                Box::new(word("\"cat\"")),
                Operator::And,
                Box::new(word("\"dog\"")),
            ),
        }]
    );
}

#[test]
fn parsing_twice_yields_equal_trees() {
    let source = "@near: \"cat\", \"dog\", 3: | @weighted: \"a\", 0.5, \"b\", 0.5:";
    let first = parse_str(source);
    let second = parse_str(source);
    assert_eq!(first, second);
    assert!(first.is_ok());
}

#[test]
fn statement_level_infix() {
    let ast = parse_str("@contains: \"cat\": & @startswith: \"dog\":").unwrap();
    assert_eq!(
        ast,
        vec![Statement::Infix {
            statement: Box::new(Statement::Contains { expression: word("\"cat\"") }),
            operator: Operator::And,
            second_statement: Box::new(Statement::Starts { expression: word("\"dog\"") }),
        }]
    );
}

#[test]
fn prefix_and_groups_inside_a_body() {
    let ast = parse_str("@contains: !\"cat\":").unwrap();
    assert_eq!(
        ast,
        vec![Statement::Contains {
            expression: Expression::Prefix(Operator::Not, Box::new(word("\"cat\""))),
        }]
    );
    let ast = parse_str("@contains: (\"cat\" | \"dog\"):").unwrap();
    assert_eq!(
        ast,
        vec![Statement::Contains {
            expression: Expression::Infix(
                Box::new(word("\"cat\"")),
                Operator::Or,
                Box::new(word("\"dog\"")),
            ),
        }]
    );
}

#[test]
fn missing_colon_fails() {
    let err = parse_str("@contains \"cat\":").unwrap_err();
    assert_eq!(err, ParseError::UnexpectedToken(Token::WordOrPhrase("\"cat\"".to_string())));
}

#[test]
fn unclosed_body_fails_at_end_of_input() {
    let err = parse_str("@contains: \"cat\"").unwrap_err();
    assert_eq!(err, ParseError::UnexpectedToken(Token::EoF));
}

#[test]
fn an_error_marker_is_rejected() {
    let err = parse_str("@contains: cat*:").unwrap_err();
    assert_eq!(err, ParseError::UnexpectedToken(Token::Error));
}

#[test]
fn empty_input_parses_to_no_statements() {
    assert_eq!(parse_str("").unwrap(), Vec::<Statement>::new());
    assert_eq!(parse_str("   ").unwrap(), Vec::<Statement>::new());
}

#[test]
fn two_adjacent_predicates_form_two_statements() {
    let ast = parse_str("@contains: \"a\": @contains: \"b\":").unwrap();
    assert_eq!(ast.len(), 2);
}
