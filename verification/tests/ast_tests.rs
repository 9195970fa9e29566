use fts_query::ast::Operator;
use fts_query::lexer::Token;

#[test]
fn operator_tokens_map_to_operators() {
    assert_eq!(Operator::token(Token::Plus), Operator::And);
    assert_eq!(Operator::token(Token::And), Operator::And);
    assert_eq!(Operator::token(Token::Or), Operator::Or);
    assert_eq!(Operator::token(Token::Minus), Operator::Not);
    assert_eq!(Operator::token(Token::Bang), Operator::Not);
}
