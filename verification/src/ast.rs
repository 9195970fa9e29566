//! The abstract syntax shared by the parser and the generator: [`Operator`],
//! [`Expression`] and [`Statement`], together with their spec-level models
//! ([`ExprModel`], [`StmtModel`]) in which text is a character sequence.

use vstd::prelude::*;

use crate::lexer::Fraction;
use crate::lexer::Lexeme;
use crate::lexer::Token;
use crate::lexer::fraction_wf;

verus! {

/// A boolean connective.
#[derive(Debug, Clone, Copy, PartialEq, Eq, Structural)]
pub enum Operator {
    And,
    Or,
    Not,
}

/// A boolean term inside a predicate body or a parameter list.
#[derive(Debug, PartialEq)]
pub enum Expression {
    /// A bare word or a quoted phrase, quotes retained.
    WordOrPhrase(String),
    /// An unsigned integer, used as the proximity argument of `@near`.
    Number(u64),
    /// An exact decimal fraction in `[0, 1]`, used as a `@weighted` weight.
    ZeroToOne(Fraction),
    /// A binary connective application.
    Infix(Box<Expression>, Operator, Box<Expression>),
    /// A prefix connective application.
    Prefix(Operator, Box<Expression>),
}

/// A top-level predicate or a combination of predicates.
#[derive(Debug, PartialEq)]
pub enum Statement {
    Contains { expression: Expression },
    Starts { expression: Expression },
    Inflection { expression: Expression },
    Thesaurus { expression: Expression },
    Near { parameter: Vec<Expression>, proximity: Expression },
    Weighted { parameter: Vec<(Expression, Expression)> },
    Infix { statement: Box<Statement>, operator: Operator, second_statement: Box<Statement> },
}

/// The spec-level model of an [`Expression`].
pub enum ExprModel {
    WordOrPhrase(Seq<char>),
    Number(u64),
    ZeroToOne(Fraction),
    Infix(Box<ExprModel>, Operator, Box<ExprModel>),
    Prefix(Operator, Box<ExprModel>),
}

/// The spec-level model of a [`Statement`].
pub enum StmtModel {
    Contains { expression: ExprModel },
    Starts { expression: ExprModel },
    Inflection { expression: ExprModel },
    Thesaurus { expression: ExprModel },
    Near { parameter: Seq<ExprModel>, proximity: ExprModel },
    Weighted { parameter: Seq<(ExprModel, ExprModel)> },
    Infix { statement: Box<StmtModel>, operator: Operator, second_statement: Box<StmtModel> },
}

impl View for Expression {
    type V = ExprModel;

    open spec fn view(&self) -> ExprModel
        decreases self,
    {
        match self {
            Expression::WordOrPhrase(s) => ExprModel::WordOrPhrase(s@),
            Expression::Number(u) => ExprModel::Number(*u),
            Expression::ZeroToOne(f) => ExprModel::ZeroToOne(*f),
            Expression::Infix(a, op, b) => ExprModel::Infix(Box::new((**a)@), *op, Box::new((**b)@)),
            Expression::Prefix(op, e) => ExprModel::Prefix(*op, Box::new((**e)@)),
        }
    }
}

/// The models of an expression sequence.
pub open spec fn expr_models(es: Seq<Expression>) -> Seq<ExprModel> {
    es.map_values(|e: Expression| e@)
}

/// The models of a (term, weight) pair sequence.
pub open spec fn pair_models(ps: Seq<(Expression, Expression)>) -> Seq<(ExprModel, ExprModel)> {
    ps.map_values(|p: (Expression, Expression)| (p.0@, p.1@))
}

impl View for Statement {
    type V = StmtModel;

    open spec fn view(&self) -> StmtModel
        decreases self,
    {
        match self {
            Statement::Contains { expression } => StmtModel::Contains { expression: expression@ },
            Statement::Starts { expression } => StmtModel::Starts { expression: expression@ },
            Statement::Inflection { expression } => StmtModel::Inflection {
                expression: expression@,
            },
            Statement::Thesaurus { expression } => StmtModel::Thesaurus {
                expression: expression@,
            },
            Statement::Near { parameter, proximity } => StmtModel::Near {
                parameter: expr_models(parameter@),
                proximity: proximity@,
            },
            Statement::Weighted { parameter } => StmtModel::Weighted {
                parameter: pair_models(parameter@),
            },
            Statement::Infix { statement, operator, second_statement } => StmtModel::Infix {
                statement: Box::new((**statement)@),
                operator: *operator,
                second_statement: Box::new((**second_statement)@),
            },
        }
    }
}

/// The models of a statement sequence.
pub open spec fn stmt_models(ss: Seq<Statement>) -> Seq<StmtModel> {
    ss.map_values(|s: Statement| s@)
}

/// The operator denoted by an operator token: `+`/`&` mean `And`, `|` means
/// `Or`, `-`/`!` mean `Not`. Total for the sake of spec functions; outside
/// the five operator lexemes the result is never relied on.
pub open spec fn op_of(l: Lexeme) -> Operator {
    match l {
        Lexeme::And => Operator::And,
        Lexeme::Plus => Operator::And,
        Lexeme::Or => Operator::Or,
        Lexeme::Minus => Operator::Not,
        Lexeme::Bang => Operator::Not,
        _ => Operator::And,
    }
}

/// Whether a lexeme is one of the five operator tokens.
pub open spec fn is_operator_lexeme(l: Lexeme) -> bool {
    match l {
        Lexeme::And | Lexeme::Plus | Lexeme::Or | Lexeme::Minus | Lexeme::Bang => true,
        _ => false,
    }
}

/// Whether every fraction leaf of the expression is canonical.
pub open spec fn expr_frac_wf(e: ExprModel) -> bool
    decreases e,
{
    match e {
        ExprModel::ZeroToOne(f) => fraction_wf(f),
        ExprModel::Infix(a, _, b) => expr_frac_wf(*a) && expr_frac_wf(*b),
        ExprModel::Prefix(_, inner) => expr_frac_wf(*inner),
        _ => true,
    }
}

impl Operator {
    /// The operator denoted by an operator token. The grammar guarantees the
    /// argument is one of the five operator tokens; any other token would be
    /// a programming error, so it is excluded by precondition rather than
    /// reported at run time.
    pub fn token(token: Token) -> (r: Operator)
        requires
            is_operator_lexeme(token@),
        ensures
            r == op_of(token@),
    {
        match token {
            Token::And | Token::Plus => Operator::And,
            Token::Or => Operator::Or,
            Token::Minus | Token::Bang => Operator::Not,
            _ => vstd::pervasive::unreached(),
        }
    }
}

} // verus!
