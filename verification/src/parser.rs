//! The parser: turns the token sequence into a sequence of [`Statement`]s by
//! two-token-lookahead recursive descent with an explicit precedence ladder.
//!
//! The grammar, at a glance:
//!
//! * A program is a run of statements, ended by the end of input.
//! * A statement is one predicate (`@contains: e :`, `@startswith: e :`,
//!   `@inflection: e :`, `@thesaurus: e :`, `@near: t, t, ... [, n] :`,
//!   `@weighted: t, w, t, w, ... :`), optionally combined with further
//!   statements by the statement-level infix operators `+`, `&` (and) and
//!   `|` (or). A bare `!`/`-` may never prefix a whole predicate.
//! * An expression (inside a predicate body or a parameter list) is a word or
//!   phrase, a number, a fraction, a prefix `!`/`-` application, or a
//!   parenthesized group; expressions combine by explicit infix operators or
//!   by juxtaposition, which means conjunction.
//! * A `@near` parameter list holds word/phrase terms; a number is accepted
//!   only directly before the closing colon, where it overrides the default
//!   proximity of `5`. The term list may not be empty.
//! * A `@weighted` parameter list holds (term, weight) pairs; the weights
//!   must sum to exactly one, checked in exact decimal arithmetic, else
//!   parsing fails with [`ParseError::WeightError`] carrying the sum.
//!
//! The executable [`parse`] returns exactly [`spec_parse_program`] of the
//! token sequence, so parsing is deterministic and every shape and invariant
//! of the result is pinned by the spec parser.

use vstd::prelude::*;
use vstd::arithmetic::mul::lemma_mul_inequality;

use crate::ast::ExprModel;
use crate::ast::Expression;
use crate::ast::Operator;
use crate::ast::Statement;
use crate::ast::StmtModel;
use crate::ast::expr_models;
use crate::ast::op_of;
use crate::ast::pair_models;
use crate::ast::stmt_models;
use crate::lexer::Fraction;
use crate::lexer::Lexeme;
use crate::lexer::Token;
use crate::lexer::fraction_wf;
use crate::lexer::lexeme_wf;
use crate::lexer::lexemes_of;
use crate::lexer::lexemes_wf;
use crate::numeral::lemma_pow10_adds;
use crate::numeral::lemma_pow10_values;
use crate::numeral::pow10;
use crate::numeral::pow10_u64;

verus! {

/// The sum of a `@weighted` block's weights, as an exact decimal
/// `num / 10^scale` with trailing zero digits stripped.
#[derive(Debug, Clone, Copy, PartialEq, Eq, Structural)]
pub struct WeightSum {
    /// The numerator.
    pub num: u128,
    /// The power of ten of the denominator.
    pub scale: u32,
}

/// A parse failure.
#[derive(Debug, Clone, PartialEq)]
pub enum ParseError {
    /// The carried token cannot start or continue the current production.
    UnexpectedToken(Token),
    /// An internal branch the grammar cannot reach; reported, never a panic.
    Unreachable,
    /// A `@weighted` block's weights do not sum to exactly one; carries the
    /// computed sum.
    WeightError(WeightSum),
}

/// The spec-level model of a [`ParseError`].
pub enum ParseErrModel {
    UnexpectedToken(Lexeme),
    Unreachable,
    WeightError(WeightSum),
}

impl View for ParseError {
    type V = ParseErrModel;

    open spec fn view(&self) -> ParseErrModel {
        match self {
            ParseError::UnexpectedToken(t) => ParseErrModel::UnexpectedToken(t@),
            ParseError::Unreachable => ParseErrModel::Unreachable,
            ParseError::WeightError(w) => ParseErrModel::WeightError(*w),
        }
    }
}

/// The precedence ladder used for binding decisions, weakest first.
#[derive(Debug, Clone, Copy, PartialEq, Eq, Structural)]
pub enum Precedence {
    Lowest,
    Statement,
    Or,
    And,
    Not,
    Prefix,
    Group,
}

/// The numeric rank of a precedence level.
pub open spec fn prec_rank(p: Precedence) -> int {
    match p {
        Precedence::Lowest => 0,
        Precedence::Statement => 1,
        Precedence::Or => 2,
        Precedence::And => 3,
        Precedence::Not => 4,
        Precedence::Prefix => 5,
        Precedence::Group => 6,
    }
}

/// The precedence at which a lookahead token binds: `!`/`-` at `Not`,
/// `+`/`&` and a bare word (juxtaposition) at `And`, `|` at `Or`, `(` at
/// `Group`, a predicate keyword at `Statement`, anything else at `Lowest`.
pub open spec fn prec_of(l: Lexeme) -> Precedence {
    match l {
        Lexeme::Bang | Lexeme::Minus => Precedence::Not,
        Lexeme::Plus | Lexeme::And | Lexeme::WordOrPhrase(_) => Precedence::And,
        Lexeme::Or => Precedence::Or,
        Lexeme::LeftParen => Precedence::Group,
        Lexeme::Contains | Lexeme::Starts | Lexeme::Inflection | Lexeme::Thesaurus | Lexeme::Near
            | Lexeme::Weighted => Precedence::Statement,
        _ => Precedence::Lowest,
    }
}

/// The token the parser sees at `pos`: past either end of the buffer it sees
/// the end-of-input marker.
pub open spec fn tok_at(toks: Seq<Lexeme>, pos: int) -> Lexeme {
    if 0 <= pos < toks.len() {
        toks[pos]
    } else {
        Lexeme::EoF
    }
}

/// The tokens left from `pos` on; the first component of every termination
/// measure below.
pub open spec fn rem(toks: Seq<Lexeme>, pos: int) -> int {
    if pos <= toks.len() {
        toks.len() - pos
    } else {
        0
    }
}

/// The outcome of a sub-parse that consumes at least one token on success:
/// `Consumed { v, extra }` means `v` was parsed from `1 + extra` tokens.
pub enum Parsed<T> {
    Consumed { v: T, extra: nat },
    Failed(ParseErrModel),
}

/// The outcome of a climbing loop, which may consume nothing:
/// `Done { v, used }` means `v` was folded from `used` tokens.
pub enum Climbed<T> {
    Done { v: T, used: nat },
    Failed(ParseErrModel),
}

/// A leaf expression: a word or phrase, a number, a fraction, a prefix
/// `!`/`-` application, or a parenthesized group.
pub open spec fn sp_leaf(toks: Seq<Lexeme>, pos: int) -> Parsed<ExprModel>
    decreases rem(toks, pos), 2int,
{
    match tok_at(toks, pos) {
        Lexeme::WordOrPhrase(s) => Parsed::Consumed { v: ExprModel::WordOrPhrase(s), extra: 0 },
        Lexeme::Number(u) => Parsed::Consumed { v: ExprModel::Number(u), extra: 0 },
        Lexeme::ZeroToOne(f) => Parsed::Consumed { v: ExprModel::ZeroToOne(f), extra: 0 },
        Lexeme::Minus | Lexeme::Bang => match sp_expression(toks, pos + 1, Precedence::Prefix) {
            Parsed::Consumed { v, extra } => Parsed::Consumed {
                v: ExprModel::Prefix(op_of(tok_at(toks, pos)), Box::new(v)),
                extra: 1 + extra,
            },
            Parsed::Failed(e) => Parsed::Failed(e),
        },
        Lexeme::LeftParen => match sp_expression(toks, pos + 1, Precedence::Statement) {
            Parsed::Consumed { v, extra } => {
                let p2 = pos + 2 + extra;
                if tok_at(toks, p2) is RightParen {
                    Parsed::Consumed { v, extra: 2 + extra }
                } else {
                    Parsed::Failed(ParseErrModel::UnexpectedToken(tok_at(toks, p2)))
                }
            },
            Parsed::Failed(e) => Parsed::Failed(e),
        },
        l => Parsed::Failed(ParseErrModel::UnexpectedToken(l)),
    }
}

/// The climbing loop of expression parsing: while the lookahead binds
/// tighter than `minprec`, fold in either an implicit conjunction (the next
/// token starts another term: juxtaposition means AND) or an explicit infix
/// operator; otherwise stop.
pub open spec fn sp_expr_climb(toks: Seq<Lexeme>, p: int, minprec: Precedence, acc: ExprModel)
    -> Climbed<ExprModel>
    decreases rem(toks, p), 4int,
{
    if tok_at(toks, p) is EoF || prec_rank(minprec) >= prec_rank(prec_of(tok_at(toks, p))) {
        Climbed::Done { v: acc, used: 0 }
    } else {
        match tok_at(toks, p) {
            Lexeme::Minus | Lexeme::Bang | Lexeme::WordOrPhrase(_) => {
                match sp_expression(toks, p, Precedence::And) {
                    Parsed::Consumed { v, extra } => {
                        let folded = ExprModel::Infix(Box::new(acc), Operator::And, Box::new(v));
                        match sp_expr_climb(toks, p + 1 + extra, minprec, folded) {
                            Climbed::Done { v: v2, used } => Climbed::Done {
                                v: v2,
                                used: 1 + extra + used,
                            },
                            Climbed::Failed(e) => Climbed::Failed(e),
                        }
                    },
                    Parsed::Failed(e) => Climbed::Failed(e),
                }
            },
            Lexeme::Plus | Lexeme::And | Lexeme::Or => {
                let op = op_of(tok_at(toks, p));
                match sp_expression(toks, p + 1, prec_of(tok_at(toks, p))) {
                    Parsed::Consumed { v, extra } => {
                        let folded = ExprModel::Infix(Box::new(acc), op, Box::new(v));
                        match sp_expr_climb(toks, p + 2 + extra, minprec, folded) {
                            Climbed::Done { v: v2, used } => Climbed::Done {
                                v: v2,
                                used: 2 + extra + used,
                            },
                            Climbed::Failed(e) => Climbed::Failed(e),
                        }
                    },
                    Parsed::Failed(e) => Climbed::Failed(e),
                }
            },
            _ => Climbed::Done { v: acc, used: 0 },
        }
    }
}

/// An expression at minimum precedence `minprec`: a leaf, then the climbing
/// loop.
pub open spec fn sp_expression(toks: Seq<Lexeme>, pos: int, minprec: Precedence)
    -> Parsed<ExprModel>
    decreases rem(toks, pos), 3int,
{
    if tok_at(toks, pos) is EoF {
        Parsed::Failed(ParseErrModel::UnexpectedToken(Lexeme::EoF))
    } else {
        match sp_leaf(toks, pos) {
            Parsed::Consumed { v, extra } => {
                match sp_expr_climb(toks, pos + 1 + extra, minprec, v) {
                    Climbed::Done { v: v2, used } => Parsed::Consumed { v: v2, extra: extra + used },
                    Climbed::Failed(e) => Parsed::Failed(e),
                }
            },
            Parsed::Failed(e) => Parsed::Failed(e),
        }
    }
}

/// The shared body of the four simple predicates: the keyword, a colon, one
/// expression at `Statement` precedence, and the closing colon.
pub open spec fn sp_pred_body(toks: Seq<Lexeme>, pos: int) -> Parsed<ExprModel>
    decreases rem(toks, pos), 4int,
{
    if !(tok_at(toks, pos + 1) is Colon) {
        Parsed::Failed(ParseErrModel::UnexpectedToken(tok_at(toks, pos + 1)))
    } else {
        match sp_expression(toks, pos + 2, Precedence::Statement) {
            Parsed::Consumed { v, extra } => {
                let p2 = pos + 3 + extra;
                if tok_at(toks, p2) is Colon {
                    Parsed::Consumed { v, extra: 3 + extra }
                } else {
                    Parsed::Failed(ParseErrModel::UnexpectedToken(tok_at(toks, p2)))
                }
            },
            Parsed::Failed(e) => Parsed::Failed(e),
        }
    }
}

/// The parameter loop of `@near`: terms until the closing colon, each a word
/// or phrase; a number is accepted only directly before the closing colon,
/// where it replaces the default proximity. The term list may not end up
/// empty.
pub open spec fn sp_near_items(toks: Seq<Lexeme>, p: int, acc: Seq<ExprModel>, prox: u64)
    -> Climbed<(Seq<ExprModel>, u64)>
    decreases rem(toks, p), 4int,
{
    if tok_at(toks, p) is Colon {
        if acc.len() == 0 {
            Climbed::Failed(ParseErrModel::UnexpectedToken(Lexeme::Colon))
        } else {
            Climbed::Done { v: (acc, prox), used: 0 }
        }
    } else if tok_at(toks, p) is EoF {
        Climbed::Failed(ParseErrModel::UnexpectedToken(Lexeme::EoF))
    } else {
        let skip: int = if tok_at(toks, p) is Comma {
            1
        } else {
            0
        };
        match sp_expression(toks, p + skip, Precedence::Lowest) {
            Parsed::Consumed { v, extra } => {
                let p2 = p + skip + 1 + extra;
                match v {
                    ExprModel::WordOrPhrase(_) => {
                        match sp_near_items(toks, p2, acc.push(v), prox) {
                            Climbed::Done { v: v2, used } => Climbed::Done {
                                v: v2,
                                used: (skip + 1 + extra + used) as nat,
                            },
                            Climbed::Failed(e) => Climbed::Failed(e),
                        }
                    },
                    ExprModel::Number(u) => {
                        if tok_at(toks, p2) is Colon {
                            match sp_near_items(toks, p2, acc, u) {
                                Climbed::Done { v: v2, used } => Climbed::Done {
                                    v: v2,
                                    used: (skip + 1 + extra + used) as nat,
                                },
                                Climbed::Failed(e) => Climbed::Failed(e),
                            }
                        } else {
                            Climbed::Failed(ParseErrModel::UnexpectedToken(tok_at(toks, p2)))
                        }
                    },
                    _ => Climbed::Failed(ParseErrModel::UnexpectedToken(tok_at(toks, p2))),
                }
            },
            Parsed::Failed(e) => Climbed::Failed(e),
        }
    }
}

/// `@near: term, term, ... [, proximity] :` — the keyword, a colon, the
/// parameter loop, and the closing colon; proximity defaults to `5`.
pub open spec fn sp_near(toks: Seq<Lexeme>, pos: int) -> Parsed<(Seq<ExprModel>, u64)>
    decreases rem(toks, pos), 5int,
{
    if !(tok_at(toks, pos + 1) is Colon) {
        Parsed::Failed(ParseErrModel::UnexpectedToken(tok_at(toks, pos + 1)))
    } else {
        match sp_near_items(toks, pos + 2, seq![], 5) {
            Climbed::Done { v, used } => Parsed::Consumed { v, extra: 2 + used },
            Climbed::Failed(e) => Parsed::Failed(e),
        }
    }
}

/// The weight of a parsed pair, for summation. The parameter loop only ever
/// builds pairs whose weight is a fraction.
pub open spec fn pair_weight(pair: (ExprModel, ExprModel)) -> Fraction {
    match pair.1 {
        ExprModel::ZeroToOne(f) => f,
        _ => Fraction { num: 0, scale: 0 },
    }
}

/// A fraction's value scaled to eighteen decimal places.
pub open spec fn scaled18(f: Fraction) -> nat {
    (f.num * pow10((18 - f.scale) as nat)) as nat
}

/// The sum of the weights of the pairs, scaled to eighteen decimal places.
pub open spec fn weights_scaled_sum(pairs: Seq<(ExprModel, ExprModel)>) -> nat
    decreases pairs.len(),
{
    if pairs.len() == 0 {
        0
    } else {
        weights_scaled_sum(pairs.drop_last()) + scaled18(pair_weight(pairs.last()))
    }
}

/// The canonical decimal form of `num / 10^scale`: trailing zero digits
/// stripped.
pub open spec fn canon_sum(num: nat, scale: nat) -> WeightSum
    decreases scale,
{
    if scale > 0 && num % 10 == 0 {
        canon_sum(num / 10, (scale - 1) as nat)
    } else {
        WeightSum { num: num as u128, scale: scale as u32 }
    }
}

/// The parameter loop of `@weighted`: (term, comma, weight) groups until the
/// closing colon; the term must be a word or phrase and the weight a
/// fraction.
pub open spec fn sp_weighted_items(toks: Seq<Lexeme>, p: int, acc: Seq<(ExprModel, ExprModel)>)
    -> Climbed<Seq<(ExprModel, ExprModel)>>
    decreases rem(toks, p), 4int,
{
    if tok_at(toks, p) is Colon {
        Climbed::Done { v: acc, used: 0 }
    } else if tok_at(toks, p) is EoF {
        Climbed::Failed(ParseErrModel::UnexpectedToken(Lexeme::EoF))
    } else {
        let skip: int = if tok_at(toks, p) is Comma {
            1
        } else {
            0
        };
        match sp_expression(toks, p + skip, Precedence::Lowest) {
            Parsed::Consumed { v: term, extra } => {
                let p2 = p + skip + 1 + extra;
                if !(term is WordOrPhrase) {
                    Climbed::Failed(ParseErrModel::UnexpectedToken(tok_at(toks, p2)))
                } else if !(tok_at(toks, p2) is Comma) {
                    Climbed::Failed(ParseErrModel::UnexpectedToken(tok_at(toks, p2)))
                } else {
                    match sp_expression(toks, p2 + 1, Precedence::Lowest) {
                        Parsed::Consumed { v: weight, extra: extra2 } => {
                            let p3 = p2 + 2 + extra2;
                            if weight is ZeroToOne {
                                match sp_weighted_items(toks, p3, acc.push((term, weight))) {
                                    Climbed::Done { v: v2, used } => Climbed::Done {
                                        v: v2,
                                        used: (skip + 3 + extra + extra2 + used) as nat,
                                    },
                                    Climbed::Failed(e) => Climbed::Failed(e),
                                }
                            } else {
                                Climbed::Failed(ParseErrModel::UnexpectedToken(tok_at(toks, p3)))
                            }
                        },
                        Parsed::Failed(e) => Climbed::Failed(e),
                    }
                }
            },
            Parsed::Failed(e) => Climbed::Failed(e),
        }
    }
}

/// `@weighted: term, weight, term, weight, ... :` — after the parameter
/// loop, the weights must sum to exactly one (scaled: to `10^18`); otherwise
/// the block fails with `WeightError` carrying the canonical sum.
pub open spec fn sp_weighted(toks: Seq<Lexeme>, pos: int) -> Parsed<Seq<(ExprModel, ExprModel)>>
    decreases rem(toks, pos), 5int,
{
    if !(tok_at(toks, pos + 1) is Colon) {
        Parsed::Failed(ParseErrModel::UnexpectedToken(tok_at(toks, pos + 1)))
    } else {
        match sp_weighted_items(toks, pos + 2, seq![]) {
            Climbed::Done { v: pairs, used } => {
                let s = weights_scaled_sum(pairs);
                if s != pow10(18) {
                    Parsed::Failed(ParseErrModel::WeightError(canon_sum(s, 18)))
                } else {
                    Parsed::Consumed { v: pairs, extra: 2 + used }
                }
            },
            Climbed::Failed(e) => Parsed::Failed(e),
        }
    }
}

/// One predicate, dispatched on the keyword at `pos`; any other token fails.
pub open spec fn sp_stmt_base(toks: Seq<Lexeme>, pos: int) -> Parsed<StmtModel>
    decreases rem(toks, pos), 6int,
{
    match tok_at(toks, pos) {
        Lexeme::Contains => match sp_pred_body(toks, pos) {
            Parsed::Consumed { v, extra } => Parsed::Consumed {
                v: StmtModel::Contains { expression: v },
                extra,
            },
            Parsed::Failed(e) => Parsed::Failed(e),
        },
        Lexeme::Starts => match sp_pred_body(toks, pos) {
            Parsed::Consumed { v, extra } => Parsed::Consumed {
                v: StmtModel::Starts { expression: v },
                extra,
            },
            Parsed::Failed(e) => Parsed::Failed(e),
        },
        Lexeme::Inflection => match sp_pred_body(toks, pos) {
            Parsed::Consumed { v, extra } => Parsed::Consumed {
                v: StmtModel::Inflection { expression: v },
                extra,
            },
            Parsed::Failed(e) => Parsed::Failed(e),
        },
        Lexeme::Thesaurus => match sp_pred_body(toks, pos) {
            Parsed::Consumed { v, extra } => Parsed::Consumed {
                v: StmtModel::Thesaurus { expression: v },
                extra,
            },
            Parsed::Failed(e) => Parsed::Failed(e),
        },
        Lexeme::Near => match sp_near(toks, pos) {
            Parsed::Consumed { v, extra } => Parsed::Consumed {
                v: StmtModel::Near { parameter: v.0, proximity: ExprModel::Number(v.1) },
                extra,
            },
            Parsed::Failed(e) => Parsed::Failed(e),
        },
        Lexeme::Weighted => match sp_weighted(toks, pos) {
            Parsed::Consumed { v, extra } => Parsed::Consumed {
                v: StmtModel::Weighted { parameter: v },
                extra,
            },
            Parsed::Failed(e) => Parsed::Failed(e),
        },
        l => Parsed::Failed(ParseErrModel::UnexpectedToken(l)),
    }
}

/// The climbing loop of statement parsing: while the lookahead binds tighter
/// than `minprec` and is a statement-level infix operator (`+`, `&`, `|`),
/// fold in a right-hand statement; otherwise stop. There is no
/// statement-level prefix or juxtaposition rule.
pub open spec fn sp_stmt_climb(toks: Seq<Lexeme>, p: int, minprec: Precedence, st: StmtModel)
    -> Climbed<StmtModel>
    decreases rem(toks, p), 7int,
{
    if tok_at(toks, p) is EoF || prec_rank(minprec) >= prec_rank(prec_of(tok_at(toks, p))) {
        Climbed::Done { v: st, used: 0 }
    } else {
        match tok_at(toks, p) {
            Lexeme::Plus | Lexeme::And | Lexeme::Or => {
                let op = op_of(tok_at(toks, p));
                match sp_statement(toks, p + 1, prec_of(tok_at(toks, p))) {
                    Parsed::Consumed { v, extra } => {
                        let folded = StmtModel::Infix {
                            statement: Box::new(st),
                            operator: op,
                            second_statement: Box::new(v),
                        };
                        match sp_stmt_climb(toks, p + 2 + extra, minprec, folded) {
                            Climbed::Done { v: v2, used } => Climbed::Done {
                                v: v2,
                                used: 2 + extra + used,
                            },
                            Climbed::Failed(e) => Climbed::Failed(e),
                        }
                    },
                    Parsed::Failed(e) => Climbed::Failed(e),
                }
            },
            _ => Climbed::Done { v: st, used: 0 },
        }
    }
}

/// One statement at minimum precedence `minprec`: a predicate, then the
/// statement-level climbing loop.
pub open spec fn sp_statement(toks: Seq<Lexeme>, pos: int, minprec: Precedence)
    -> Parsed<StmtModel>
    decreases rem(toks, pos), 7int,
{
    if tok_at(toks, pos) is EoF {
        Parsed::Failed(ParseErrModel::UnexpectedToken(Lexeme::EoF))
    } else {
        match sp_stmt_base(toks, pos) {
            Parsed::Consumed { v, extra } => {
                match sp_stmt_climb(toks, pos + 1 + extra, minprec, v) {
                    Climbed::Done { v: v2, used } => Parsed::Consumed { v: v2, extra: extra + used },
                    Climbed::Failed(e) => Parsed::Failed(e),
                }
            },
            Parsed::Failed(e) => Parsed::Failed(e),
        }
    }
}

/// A whole program: statements until the end of input (an explicit `EoF`
/// token also ends parsing, as it does in the lookahead model).
pub open spec fn sp_program(toks: Seq<Lexeme>, pos: int) -> Result<Seq<StmtModel>, ParseErrModel>
    decreases rem(toks, pos), 8int,
{
    if tok_at(toks, pos) is EoF {
        Ok(seq![])
    } else {
        match sp_statement(toks, pos, Precedence::Lowest) {
            Parsed::Consumed { v, extra } => match sp_program(toks, pos + 1 + extra) {
                Ok(rest) => Ok(seq![v] + rest),
                Err(e) => Err(e),
            },
            Parsed::Failed(e) => Err(e),
        }
    }
}

/// The parse of a whole token sequence.
pub open spec fn spec_parse_program(toks: Seq<Lexeme>) -> Result<Seq<StmtModel>, ParseErrModel> {
    sp_program(toks, 0)
}

/// Whether every fraction among the tokens is canonical; [`parse`] requires
/// this of its input, and [`crate::lexer::lex`] guarantees it of its output.
pub open spec fn tokens_wf(ts: Seq<Token>) -> bool {
    lexemes_wf(lexemes_of(ts))
}

/// If the expression is a bare fraction leaf, that fraction is canonical.
pub open spec fn zto_wf(e: ExprModel) -> bool {
    match e {
        ExprModel::ZeroToOne(f) => fraction_wf(f),
        _ => true,
    }
}

/// Every pair's weight is a canonical fraction leaf, so the weight sum can
/// be computed.
pub open spec fn pairs_sum_ready(ps: Seq<(ExprModel, ExprModel)>) -> bool {
    forall|i: int|
        0 <= i < ps.len() ==> ((#[trigger] ps[i]).1 matches ExprModel::ZeroToOne(f)
            && fraction_wf(f))
}

/// Rebuilds a token value with the same model (for lookahead and for error
/// reports).
fn dup_token(t: &Token) -> (r: Token)
    ensures
        r@ == t@,
{
    match t {
        Token::WordOrPhrase(s) => Token::WordOrPhrase(s.clone()),
        Token::ZeroToOne(f) => Token::ZeroToOne(*f),
        Token::Number(u) => Token::Number(*u),
        Token::Bang => Token::Bang,
        Token::Minus => Token::Minus,
        Token::And => Token::And,
        Token::Plus => Token::Plus,
        Token::Or => Token::Or,
        Token::LeftParen => Token::LeftParen,
        Token::RightParen => Token::RightParen,
        Token::Comma => Token::Comma,
        Token::Contains => Token::Contains,
        Token::Starts => Token::Starts,
        Token::Inflection => Token::Inflection,
        Token::Thesaurus => Token::Thesaurus,
        Token::Near => Token::Near,
        Token::Weighted => Token::Weighted,
        Token::Colon => Token::Colon,
        Token::EoF => Token::EoF,
        Token::Error => Token::Error,
    }
}

/// The token the parser sees at `pos`, as a value (the end-of-input marker
/// past the end).
fn current_token(toks: &Vec<Token>, pos: usize) -> (t: Token)
    ensures
        t@ == tok_at(lexemes_of(toks@), pos as int),
{
    if pos < toks.len() {
        dup_token(&toks[pos])
    } else {
        Token::EoF
    }
}

fn is_eof_at(toks: &Vec<Token>, pos: usize) -> (b: bool)
    ensures
        b == (tok_at(lexemes_of(toks@), pos as int) is EoF),
{
    if pos >= toks.len() {
        true
    } else {
        match &toks[pos] {
            Token::EoF => true,
            _ => false,
        }
    }
}

fn is_colon_at(toks: &Vec<Token>, pos: usize) -> (b: bool)
    ensures
        b == (tok_at(lexemes_of(toks@), pos as int) is Colon),
{
    if pos >= toks.len() {
        false
    } else {
        match &toks[pos] {
            Token::Colon => true,
            _ => false,
        }
    }
}

fn is_comma_at(toks: &Vec<Token>, pos: usize) -> (b: bool)
    ensures
        b == (tok_at(lexemes_of(toks@), pos as int) is Comma),
{
    if pos >= toks.len() {
        false
    } else {
        match &toks[pos] {
            Token::Comma => true,
            _ => false,
        }
    }
}

fn is_rparen_at(toks: &Vec<Token>, pos: usize) -> (b: bool)
    ensures
        b == (tok_at(lexemes_of(toks@), pos as int) is RightParen),
{
    if pos >= toks.len() {
        false
    } else {
        match &toks[pos] {
            Token::RightParen => true,
            _ => false,
        }
    }
}

fn prec_rank_x(p: Precedence) -> (r: u8)
    ensures
        r as int == prec_rank(p),
{
    match p {
        Precedence::Lowest => 0,
        Precedence::Statement => 1,
        Precedence::Or => 2,
        Precedence::And => 3,
        Precedence::Not => 4,
        Precedence::Prefix => 5,
        Precedence::Group => 6,
    }
}

fn prec_of_current(toks: &Vec<Token>, pos: usize) -> (p: Precedence)
    ensures
        p == prec_of(tok_at(lexemes_of(toks@), pos as int)),
{
    if pos >= toks.len() {
        return Precedence::Lowest;
    }
    match &toks[pos] {
        Token::Bang | Token::Minus => Precedence::Not,
        Token::Plus | Token::And | Token::WordOrPhrase(_) => Precedence::And,
        Token::Or => Precedence::Or,
        Token::LeftParen => Precedence::Group,
        Token::Contains | Token::Starts | Token::Inflection | Token::Thesaurus | Token::Near
            | Token::Weighted => Precedence::Statement,
        _ => Precedence::Lowest,
    }
}

fn p_leaf(toks: &Vec<Token>, pos: usize) -> (r: Result<(Expression, usize), ParseError>)
    requires
        tokens_wf(toks@),
        pos <= toks@.len(),
    ensures
        ({
            let sp = sp_leaf(lexemes_of(toks@), pos as int);
            match r {
                Ok(res) => sp matches Parsed::Consumed { v, extra } && res.0@ == v && res.1
                    == pos + 1 + extra && res.1 <= toks@.len() && zto_wf(v),
                Err(e) => sp matches Parsed::Failed(m) && e@ == m,
            }
        }),
    decreases toks@.len() - pos, 2int,
{
    if pos >= toks.len() {
        return Err(ParseError::UnexpectedToken(Token::EoF));
    }
    proof {
        assert(lexemes_of(toks@)[pos as int] == toks@[pos as int]@);
        assert(lexeme_wf(lexemes_of(toks@)[pos as int]));
    }
    match &toks[pos] {
        Token::WordOrPhrase(s) => Ok((Expression::WordOrPhrase(s.clone()), pos + 1)),
        Token::Number(u) => Ok((Expression::Number(*u), pos + 1)),
        Token::ZeroToOne(f) => Ok((Expression::ZeroToOne(*f), pos + 1)),
        Token::Minus | Token::Bang => {
            let op = Operator::token(dup_token(&toks[pos]));
            match p_expression(toks, pos + 1, Precedence::Prefix) {
                Ok((e, np)) => Ok((Expression::Prefix(op, Box::new(e)), np)),
                Err(e) => Err(e),
            }
        },
        Token::LeftParen => {
            match p_expression(toks, pos + 1, Precedence::Statement) {
                Ok((e, np)) => {
                    if is_rparen_at(toks, np) {
                        Ok((e, np + 1))
                    } else {
                        Err(ParseError::UnexpectedToken(current_token(toks, np)))
                    }
                },
                Err(e) => Err(e),
            }
        },
        _ => Err(ParseError::UnexpectedToken(dup_token(&toks[pos]))),
    }
}

fn p_expr_climb(toks: &Vec<Token>, p: usize, minprec: Precedence, acc: Expression) -> (r: Result<
    (Expression, usize),
    ParseError,
>)
    requires
        tokens_wf(toks@),
        p <= toks@.len(),
        zto_wf(acc@),
    ensures
        ({
            let sp = sp_expr_climb(lexemes_of(toks@), p as int, minprec, acc@);
            match r {
                Ok(res) => sp matches Climbed::Done { v, used } && res.0@ == v && res.1 == p + used
                    && res.1 <= toks@.len() && zto_wf(v),
                Err(e) => sp matches Climbed::Failed(m) && e@ == m,
            }
        }),
    decreases toks@.len() - p, 4int,
{
    let stop: bool = if is_eof_at(toks, p) {
        true
    } else {
        let pr = prec_of_current(toks, p);
        prec_rank_x(minprec) >= prec_rank_x(pr)
    };
    if stop {
        return Ok((acc, p));
    }
    let n = toks.len();
    proof {
        assert(lexemes_of(toks@).len() == toks@.len());
        assert(p < n);
    }
    match &toks[p] {
        Token::Minus | Token::Bang | Token::WordOrPhrase(_) => {
            match p_expression(toks, p, Precedence::And) {
                Ok((e2, p2)) => {
                    let folded = Expression::Infix(Box::new(acc), Operator::And, Box::new(e2));
                    p_expr_climb(toks, p2, minprec, folded)
                },
                Err(e) => Err(e),
            }
        },
        Token::Plus | Token::And | Token::Or => {
            let op = Operator::token(dup_token(&toks[p]));
            let pr = prec_of_current(toks, p);
            match p_expression(toks, p + 1, pr) {
                Ok((e2, p2)) => {
                    let folded = Expression::Infix(Box::new(acc), op, Box::new(e2));
                    p_expr_climb(toks, p2, minprec, folded)
                },
                Err(e) => Err(e),
            }
        },
        _ => Ok((acc, p)),
    }
}

fn p_expression(toks: &Vec<Token>, pos: usize, minprec: Precedence) -> (r: Result<
    (Expression, usize),
    ParseError,
>)
    requires
        tokens_wf(toks@),
        pos <= toks@.len(),
    ensures
        ({
            let sp = sp_expression(lexemes_of(toks@), pos as int, minprec);
            match r {
                Ok(res) => sp matches Parsed::Consumed { v, extra } && res.0@ == v && res.1
                    == pos + 1 + extra && res.1 <= toks@.len() && zto_wf(v),
                Err(e) => sp matches Parsed::Failed(m) && e@ == m,
            }
        }),
    decreases toks@.len() - pos, 3int,
{
    if is_eof_at(toks, pos) {
        return Err(ParseError::UnexpectedToken(Token::EoF));
    }
    match p_leaf(toks, pos) {
        Ok((e0, p1)) => p_expr_climb(toks, p1, minprec, e0),
        Err(e) => Err(e),
    }
}

fn p_pred_body(toks: &Vec<Token>, pos: usize) -> (r: Result<(Expression, usize), ParseError>)
    requires
        tokens_wf(toks@),
        pos < toks@.len(),
    ensures
        ({
            let sp = sp_pred_body(lexemes_of(toks@), pos as int);
            match r {
                Ok(res) => sp matches Parsed::Consumed { v, extra } && res.0@ == v && res.1
                    == pos + 1 + extra && res.1 <= toks@.len(),
                Err(e) => sp matches Parsed::Failed(m) && e@ == m,
            }
        }),
    decreases toks@.len() - pos, 4int,
{
    let n = toks.len();
    proof {
        assert(lexemes_of(toks@).len() == n as nat);
    }
    if !is_colon_at(toks, pos + 1) {
        return Err(ParseError::UnexpectedToken(current_token(toks, pos + 1)));
    }
    match p_expression(toks, pos + 2, Precedence::Statement) {
        Ok((e, pe)) => {
            if is_colon_at(toks, pe) {
                Ok((e, pe + 1))
            } else {
                Err(ParseError::UnexpectedToken(current_token(toks, pe)))
            }
        },
        Err(e) => Err(e),
    }
}

fn p_near_items(toks: &Vec<Token>, pos: usize, params: Vec<Expression>, prox: u64) -> (r: Result<
    (Vec<Expression>, u64, usize),
    ParseError,
>)
    requires
        tokens_wf(toks@),
        pos <= toks@.len(),
    ensures
        ({
            let sp = sp_near_items(lexemes_of(toks@), pos as int, expr_models(params@), prox);
            match r {
                Ok(res) => sp matches Climbed::Done { v, used } && expr_models(res.0@) == v.0
                    && res.1 == v.1 && res.2 == pos + used && res.2 <= toks@.len(),
                Err(e) => sp matches Climbed::Failed(m) && e@ == m,
            }
        }),
    decreases toks@.len() - pos, 4int,
{
    let n = toks.len();
    proof {
        assert(lexemes_of(toks@).len() == n as nat);
    }
    if is_colon_at(toks, pos) {
        if params.len() == 0 {
            return Err(ParseError::UnexpectedToken(Token::Colon));
        }
        return Ok((params, prox, pos));
    }
    if is_eof_at(toks, pos) {
        return Err(ParseError::UnexpectedToken(Token::EoF));
    }
    let skip: usize = if is_comma_at(toks, pos) {
        1
    } else {
        0
    };
    match p_expression(toks, pos + skip, Precedence::Lowest) {
        Ok((e, p2)) => {
            match e {
                Expression::WordOrPhrase(_) => {
                    let ghost params0 = params@;
                    let mut ps = params;
                    let ghost em = e@;
                    ps.push(e);
                    proof {
                        assert(expr_models(ps@) =~= expr_models(params0).push(em));
                    }
                    p_near_items(toks, p2, ps, prox)
                },
                Expression::Number(u) => {
                    if is_colon_at(toks, p2) {
                        p_near_items(toks, p2, params, u)
                    } else {
                        Err(ParseError::UnexpectedToken(current_token(toks, p2)))
                    }
                },
                _ => Err(ParseError::UnexpectedToken(current_token(toks, p2))),
            }
        },
        Err(e) => Err(e),
    }
}

fn p_near(toks: &Vec<Token>, pos: usize) -> (r: Result<(Vec<Expression>, u64, usize), ParseError>)
    requires
        tokens_wf(toks@),
        pos < toks@.len(),
    ensures
        ({
            let sp = sp_near(lexemes_of(toks@), pos as int);
            match r {
                Ok(res) => sp matches Parsed::Consumed { v, extra } && expr_models(res.0@) == v.0
                    && res.1 == v.1 && res.2 == pos + 1 + extra && res.2 <= toks@.len(),
                Err(e) => sp matches Parsed::Failed(m) && e@ == m,
            }
        }),
    decreases toks@.len() - pos, 5int,
{
    let n = toks.len();
    proof {
        assert(lexemes_of(toks@).len() == n as nat);
    }
    if !is_colon_at(toks, pos + 1) {
        return Err(ParseError::UnexpectedToken(current_token(toks, pos + 1)));
    }
    proof {
        assert(expr_models(Seq::<Expression>::empty()) =~= Seq::<ExprModel>::empty());
    }
    match p_near_items(toks, pos + 2, Vec::new(), 5) {
        Ok((ps, px, np)) => {
            proof {
                lemma_near_items_colon(
                    lexemes_of(toks@),
                    (pos + 2) as int,
                    expr_models(Seq::<Expression>::empty()),
                    5,
                );
                assert(tok_at(lexemes_of(toks@), np as int) is Colon);
            }
            Ok((ps, px, np + 1))
        },
        Err(e) => Err(e),
    }
}

/// When the `@near` parameter loop succeeds, it has stopped at the closing
/// colon.
proof fn lemma_near_items_colon(toks: Seq<Lexeme>, p: int, acc: Seq<ExprModel>, prox: u64)
    ensures
        sp_near_items(toks, p, acc, prox) matches Climbed::Done { v, used } ==> tok_at(
            toks,
            p + used,
        ) is Colon,
    decreases rem(toks, p), 5int,
{
    if tok_at(toks, p) is Colon {
    } else if tok_at(toks, p) is EoF {
    } else {
        let skip: int = if tok_at(toks, p) is Comma {
            1
        } else {
            0
        };
        match sp_expression(toks, p + skip, Precedence::Lowest) {
            Parsed::Consumed { v, extra } => {
                let p2 = p + skip + 1 + extra;
                match v {
                    ExprModel::WordOrPhrase(_) => {
                        lemma_near_items_colon(toks, p2, acc.push(v), prox);
                    },
                    ExprModel::Number(u) => {
                        if tok_at(toks, p2) is Colon {
                            lemma_near_items_colon(toks, p2, acc, u);
                        }
                    },
                    _ => {},
                }
            },
            Parsed::Failed(_) => {},
        }
    }
}

fn p_weighted_items(toks: &Vec<Token>, pos: usize, pairs: Vec<(Expression, Expression)>) -> (r:
    Result<(Vec<(Expression, Expression)>, usize), ParseError>)
    requires
        tokens_wf(toks@),
        pos <= toks@.len(),
        pairs_sum_ready(pair_models(pairs@)),
    ensures
        ({
            let sp = sp_weighted_items(lexemes_of(toks@), pos as int, pair_models(pairs@));
            match r {
                Ok(res) => sp matches Climbed::Done { v, used } && pair_models(res.0@) == v
                    && res.1 == pos + used && res.1 <= toks@.len() && pairs_sum_ready(v),
                Err(e) => sp matches Climbed::Failed(m) && e@ == m,
            }
        }),
    decreases toks@.len() - pos, 4int,
{
    let n = toks.len();
    proof {
        assert(lexemes_of(toks@).len() == n as nat);
    }
    if is_colon_at(toks, pos) {
        return Ok((pairs, pos));
    }
    if is_eof_at(toks, pos) {
        return Err(ParseError::UnexpectedToken(Token::EoF));
    }
    let skip: usize = if is_comma_at(toks, pos) {
        1
    } else {
        0
    };
    match p_expression(toks, pos + skip, Precedence::Lowest) {
        Ok((term, p2)) => {
            let term_is_word = match &term {
                Expression::WordOrPhrase(_) => true,
                _ => false,
            };
            if !term_is_word {
                return Err(ParseError::UnexpectedToken(current_token(toks, p2)));
            }
            if !is_comma_at(toks, p2) {
                return Err(ParseError::UnexpectedToken(current_token(toks, p2)));
            }
            match p_expression(toks, p2 + 1, Precedence::Lowest) {
                Ok((weight, p3)) => {
                    let weight_is_frac = match &weight {
                        Expression::ZeroToOne(_) => true,
                        _ => false,
                    };
                    if !weight_is_frac {
                        return Err(ParseError::UnexpectedToken(current_token(toks, p3)));
                    }
                    let ghost pairs0 = pairs@;
                    let ghost pm = (term@, weight@);
                    let mut ps = pairs;
                    ps.push((term, weight));
                    proof {
                        assert(pair_models(ps@) =~= pair_models(pairs0).push(pm));
                    }
                    p_weighted_items(toks, p3, ps)
                },
                Err(e) => Err(e),
            }
        },
        Err(e) => Err(e),
    }
}

fn sum_weights(pairs: &Vec<(Expression, Expression)>) -> (s: u128)
    requires
        pairs_sum_ready(pair_models(pairs@)),
    ensures
        s as nat == weights_scaled_sum(pair_models(pairs@)),
{
    proof {
        lemma_pow10_values();
    }
    let ghost ms = pair_models(pairs@);
    let mut acc: u128 = 0;
    let mut i: usize = 0;
    while i < pairs.len()
        invariant
            i <= pairs@.len(),
            ms == pair_models(pairs@),
            pairs_sum_ready(ms),
            acc as nat == weights_scaled_sum(ms.take(i as int)),
            acc as nat <= (i as nat) * pow10(18),
            pow10(18) == 0xDE0B6B3A7640000,
        decreases pairs@.len() - i,
    {
        proof {
            assert(ms[i as int] == (pairs@[i as int].0@, pairs@[i as int].1@));
        }
        let w: Fraction = match &pairs[i].1 {
            Expression::ZeroToOne(f) => *f,
            _ => vstd::pervasive::unreached(),
        };
        proof {
            assert(fraction_wf(w));
            lemma_pow10_adds(w.scale as nat, (18 - w.scale) as nat);
            lemma_mul_inequality(
                w.num as int,
                pow10(w.scale as nat) as int,
                pow10((18 - w.scale) as nat) as int,
            );
        }
        let p = pow10_u64(18 - w.scale);
        let wval: u128 = (w.num as u128) * (p as u128);
        proof {
            assert(wval as nat == scaled18(w));
            assert(wval as nat <= pow10(18));
            assert((i + 1) as nat <= pairs@.len() as nat);
            lemma_mul_inequality((i + 1) as int, pairs@.len() as int, pow10(18) as int);
            assert(pairs@.len() <= usize::MAX);
            lemma_mul_inequality(pairs@.len() as int, u64::MAX as int, pow10(18) as int);
            assert((u64::MAX as int) * (pow10(18) as int) < u128::MAX) by (nonlinear_arith)
                requires
                    pow10(18) == 0xDE0B6B3A7640000,
            ;
            let msp = ms.take(i + 1);
            assert(msp.drop_last() =~= ms.take(i as int));
            assert(msp.last() == ms[i as int]);
            assert(weights_scaled_sum(msp) == weights_scaled_sum(ms.take(i as int)) + scaled18(
                pair_weight(ms[i as int]),
            ));
        }
        acc = acc + wval;
        i = i + 1;
    }
    proof {
        assert(ms.take(pairs@.len() as int) =~= ms);
    }
    acc
}

/// When the `@weighted` parameter loop succeeds, it has stopped at the
/// closing colon.
proof fn lemma_weighted_items_colon(toks: Seq<Lexeme>, p: int, acc: Seq<(ExprModel, ExprModel)>)
    ensures
        sp_weighted_items(toks, p, acc) matches Climbed::Done { v, used } ==> tok_at(
            toks,
            p + used,
        ) is Colon,
    decreases rem(toks, p), 5int,
{
    if tok_at(toks, p) is Colon {
    } else if tok_at(toks, p) is EoF {
    } else {
        let skip: int = if tok_at(toks, p) is Comma {
            1
        } else {
            0
        };
        match sp_expression(toks, p + skip, Precedence::Lowest) {
            Parsed::Consumed { v: term, extra } => {
                let p2 = p + skip + 1 + extra;
                if term is WordOrPhrase && tok_at(toks, p2) is Comma {
                    match sp_expression(toks, p2 + 1, Precedence::Lowest) {
                        Parsed::Consumed { v: weight, extra: extra2 } => {
                            let p3 = p2 + 2 + extra2;
                            if weight is ZeroToOne {
                                lemma_weighted_items_colon(toks, p3, acc.push((term, weight)));
                            }
                        },
                        Parsed::Failed(_) => {},
                    }
                }
            },
            Parsed::Failed(_) => {},
        }
    }
}

fn canon_sum_x(num: u128, scale: u32) -> (w: WeightSum)
    ensures
        w == canon_sum(num as nat, scale as nat),
    decreases scale,
{
    if scale > 0 && num % 10 == 0 {
        canon_sum_x(num / 10, scale - 1)
    } else {
        WeightSum { num, scale }
    }
}

fn p_weighted(toks: &Vec<Token>, pos: usize) -> (r: Result<
    (Vec<(Expression, Expression)>, usize),
    ParseError,
>)
    requires
        tokens_wf(toks@),
        pos < toks@.len(),
    ensures
        ({
            let sp = sp_weighted(lexemes_of(toks@), pos as int);
            match r {
                Ok(res) => sp matches Parsed::Consumed { v, extra } && pair_models(res.0@) == v
                    && res.1 == pos + 1 + extra && res.1 <= toks@.len(),
                Err(e) => sp matches Parsed::Failed(m) && e@ == m,
            }
        }),
    decreases toks@.len() - pos, 5int,
{
    let n = toks.len();
    proof {
        assert(lexemes_of(toks@).len() == n as nat);
    }
    if !is_colon_at(toks, pos + 1) {
        return Err(ParseError::UnexpectedToken(current_token(toks, pos + 1)));
    }
    proof {
        assert(pair_models(Seq::<(Expression, Expression)>::empty()) =~= Seq::<
            (ExprModel, ExprModel),
        >::empty());
    }
    match p_weighted_items(toks, pos + 2, Vec::new()) {
        Ok((pairs, np)) => {
            let s = sum_weights(&pairs);
            proof {
                lemma_pow10_values();
            }
            let target = pow10_u64(18) as u128;
            if s != target {
                Err(ParseError::WeightError(canon_sum_x(s, 18)))
            } else {
                proof {
                    lemma_weighted_items_colon(
                        lexemes_of(toks@),
                        (pos + 2) as int,
                        pair_models(Seq::<(Expression, Expression)>::empty()),
                    );
                    assert(tok_at(lexemes_of(toks@), np as int) is Colon);
                }
                Ok((pairs, np + 1))
            }
        },
        Err(e) => Err(e),
    }
}

fn p_stmt_base(toks: &Vec<Token>, pos: usize) -> (r: Result<(Statement, usize), ParseError>)
    requires
        tokens_wf(toks@),
        pos <= toks@.len(),
    ensures
        ({
            let sp = sp_stmt_base(lexemes_of(toks@), pos as int);
            match r {
                Ok(res) => sp matches Parsed::Consumed { v, extra } && res.0@ == v && res.1
                    == pos + 1 + extra && res.1 <= toks@.len(),
                Err(e) => sp matches Parsed::Failed(m) && e@ == m,
            }
        }),
    decreases toks@.len() - pos, 6int,
{
    proof {
        assert(lexemes_of(toks@).len() == toks@.len());
    }
    if pos >= toks.len() {
        return Err(ParseError::UnexpectedToken(Token::EoF));
    }
    match &toks[pos] {
        Token::Contains => match p_pred_body(toks, pos) {
            Ok((e, np)) => Ok((Statement::Contains { expression: e }, np)),
            Err(e) => Err(e),
        },
        Token::Starts => match p_pred_body(toks, pos) {
            Ok((e, np)) => Ok((Statement::Starts { expression: e }, np)),
            Err(e) => Err(e),
        },
        Token::Inflection => match p_pred_body(toks, pos) {
            Ok((e, np)) => Ok((Statement::Inflection { expression: e }, np)),
            Err(e) => Err(e),
        },
        Token::Thesaurus => match p_pred_body(toks, pos) {
            Ok((e, np)) => Ok((Statement::Thesaurus { expression: e }, np)),
            Err(e) => Err(e),
        },
        Token::Near => match p_near(toks, pos) {
            Ok((ps, px, np)) => Ok(
                (Statement::Near { parameter: ps, proximity: Expression::Number(px) }, np),
            ),
            Err(e) => Err(e),
        },
        Token::Weighted => match p_weighted(toks, pos) {
            Ok((pairs, np)) => Ok((Statement::Weighted { parameter: pairs }, np)),
            Err(e) => Err(e),
        },
        _ => Err(ParseError::UnexpectedToken(dup_token(&toks[pos]))),
    }
}

fn p_stmt_climb(toks: &Vec<Token>, p: usize, minprec: Precedence, st: Statement) -> (r: Result<
    (Statement, usize),
    ParseError,
>)
    requires
        tokens_wf(toks@),
        p <= toks@.len(),
    ensures
        ({
            let sp = sp_stmt_climb(lexemes_of(toks@), p as int, minprec, st@);
            match r {
                Ok(res) => sp matches Climbed::Done { v, used } && res.0@ == v && res.1 == p + used
                    && res.1 <= toks@.len(),
                Err(e) => sp matches Climbed::Failed(m) && e@ == m,
            }
        }),
    decreases toks@.len() - p, 7int,
{
    let stop: bool = if is_eof_at(toks, p) {
        true
    } else {
        let pr = prec_of_current(toks, p);
        prec_rank_x(minprec) >= prec_rank_x(pr)
    };
    if stop {
        return Ok((st, p));
    }
    let n = toks.len();
    proof {
        assert(lexemes_of(toks@).len() == toks@.len());
        assert(p < n);
    }
    match &toks[p] {
        Token::Plus | Token::And | Token::Or => {
            let op = Operator::token(dup_token(&toks[p]));
            let pr = prec_of_current(toks, p);
            match p_statement(toks, p + 1, pr) {
                Ok((v, p2)) => {
                    let folded = Statement::Infix {
                        statement: Box::new(st),
                        operator: op,
                        second_statement: Box::new(v),
                    };
                    p_stmt_climb(toks, p2, minprec, folded)
                },
                Err(e) => Err(e),
            }
        },
        _ => Ok((st, p)),
    }
}

fn p_statement(toks: &Vec<Token>, pos: usize, minprec: Precedence) -> (r: Result<
    (Statement, usize),
    ParseError,
>)
    requires
        tokens_wf(toks@),
        pos <= toks@.len(),
    ensures
        ({
            let sp = sp_statement(lexemes_of(toks@), pos as int, minprec);
            match r {
                Ok(res) => sp matches Parsed::Consumed { v, extra } && res.0@ == v && res.1
                    == pos + 1 + extra && res.1 <= toks@.len(),
                Err(e) => sp matches Parsed::Failed(m) && e@ == m,
            }
        }),
    decreases toks@.len() - pos, 7int,
{
    if is_eof_at(toks, pos) {
        return Err(ParseError::UnexpectedToken(Token::EoF));
    }
    match p_stmt_base(toks, pos) {
        Ok((st, p1)) => p_stmt_climb(toks, p1, minprec, st),
        Err(e) => Err(e),
    }
}

fn p_program(toks: &Vec<Token>, pos: usize) -> (r: Result<Vec<Statement>, ParseError>)
    requires
        tokens_wf(toks@),
        pos <= toks@.len(),
    ensures
        ({
            let sp = sp_program(lexemes_of(toks@), pos as int);
            match r {
                Ok(ast) => sp matches Ok(ms) && stmt_models(ast@) == ms,
                Err(e) => sp matches Err(m) && e@ == m,
            }
        }),
    decreases toks@.len() - pos, 8int,
{
    if is_eof_at(toks, pos) {
        let out: Vec<Statement> = Vec::new();
        proof {
            assert(stmt_models(out@) =~= Seq::<StmtModel>::empty());
        }
        return Ok(out);
    }
    match p_statement(toks, pos, Precedence::Lowest) {
        Ok((st, np)) => {
            match p_program(toks, np) {
                Ok(rest) => {
                    let ghost rest0 = rest@;
                    let ghost stm = st@;
                    let mut out = rest;
                    out.insert(0, st);
                    proof {
                        assert(stmt_models(out@) =~= seq![stm] + stmt_models(rest0));
                    }
                    Ok(out)
                },
                Err(e) => Err(e),
            }
        },
        Err(e) => Err(e),
    }
}

/// Parses the token sequence into the statements of a whole program. The
/// result is exactly [`spec_parse_program`] of the tokens, on success and on
/// failure alike: the parse is deterministic, every `@weighted` block in the
/// result has weights summing exactly to one, every `@near` block has a
/// non-empty term list, and the first structural violation is reported as
/// the error the spec parser assigns to it.
pub fn parse(tokens: Vec<Token>) -> (r: Result<Vec<Statement>, ParseError>)
    requires
        tokens_wf(tokens@),
    ensures
        ({
            let sp = spec_parse_program(lexemes_of(tokens@));
            match r {
                Ok(ast) => sp matches Ok(ms) && stmt_models(ast@) == ms,
                Err(e) => sp matches Err(m) && e@ == m,
            }
        }),
{
    p_program(&tokens, 0)
}

/// A bare `!` is never accepted as a statement-level prefix: a statement
/// whose first token is `!` fails at once with `UnexpectedToken(!)`,
/// whatever the caller's precedence.
pub proof fn lemma_no_statement_prefix_bang(toks: Seq<Lexeme>, pos: int, minprec: Precedence)
    requires
        tok_at(toks, pos) is Bang,
    ensures
        sp_statement(toks, pos, minprec) == Parsed::<StmtModel>::Failed(
            ParseErrModel::UnexpectedToken(Lexeme::Bang),
        ),
{
    assert(!(tok_at(toks, pos) is EoF));
    assert(sp_stmt_base(toks, pos) == Parsed::<StmtModel>::Failed(
        ParseErrModel::UnexpectedToken(Lexeme::Bang),
    ));
}

/// At the top level too: a program whose first token is `!` fails with
/// `UnexpectedToken(!)`, so `!` can never prefix a whole predicate.
pub proof fn lemma_program_rejects_leading_bang(toks: Seq<Lexeme>)
    requires
        tok_at(toks, 0) is Bang,
    ensures
        spec_parse_program(toks) == Result::<Seq<StmtModel>, ParseErrModel>::Err(
            ParseErrModel::UnexpectedToken(Lexeme::Bang),
        ),
{
    lemma_no_statement_prefix_bang(toks, 0, Precedence::Lowest);
}

/// Implicit AND by juxtaposition: inside a predicate body, two adjacent
/// terms with no connective parse to exactly the same expression as the same
/// terms joined by an explicit `&` — the conjunction of the two words — the
/// only difference being the number of tokens consumed.
pub proof fn lemma_juxtaposition_is_and(w1: Seq<char>, w2: Seq<char>)
    ensures
        sp_expression(
            seq![Lexeme::WordOrPhrase(w1), Lexeme::WordOrPhrase(w2)],
            0,
            Precedence::Statement,
        ) == (Parsed::<ExprModel>::Consumed {
            v: ExprModel::Infix(
                Box::new(ExprModel::WordOrPhrase(w1)),
                Operator::And,
                Box::new(ExprModel::WordOrPhrase(w2)),
            ),
            extra: 1,
        }),
        sp_expression(
            seq![Lexeme::WordOrPhrase(w1), Lexeme::And, Lexeme::WordOrPhrase(w2)],
            0,
            Precedence::Statement,
        ) == (Parsed::<ExprModel>::Consumed {
            v: ExprModel::Infix(
                Box::new(ExprModel::WordOrPhrase(w1)),
                Operator::And,
                Box::new(ExprModel::WordOrPhrase(w2)),
            ),
            extra: 2,
        }),
{
    let e1 = ExprModel::WordOrPhrase(w1);
    let e2 = ExprModel::WordOrPhrase(w2);
    let folded = ExprModel::Infix(Box::new(e1), Operator::And, Box::new(e2));

    let tj = seq![Lexeme::WordOrPhrase(w1), Lexeme::WordOrPhrase(w2)];
    assert(tok_at(tj, 0) == Lexeme::WordOrPhrase(w1));
    assert(tok_at(tj, 1) == Lexeme::WordOrPhrase(w2));
    assert(tok_at(tj, 2) is EoF);
    assert(sp_leaf(tj, 0) == Parsed::<ExprModel>::Consumed { v: e1, extra: 0 });
    assert(sp_leaf(tj, 1) == Parsed::<ExprModel>::Consumed { v: e2, extra: 0 });
    assert(sp_expr_climb(tj, 2, Precedence::And, e2) == Climbed::<ExprModel>::Done {
        v: e2,
        used: 0,
    });
    assert(sp_expression(tj, 1, Precedence::And) == Parsed::<ExprModel>::Consumed {
        v: e2,
        extra: 0,
    });
    assert(sp_expr_climb(tj, 2, Precedence::Statement, folded) == Climbed::<ExprModel>::Done {
        v: folded,
        used: 0,
    });
    assert(sp_expr_climb(tj, 1, Precedence::Statement, e1) == Climbed::<ExprModel>::Done {
        v: folded,
        used: 1,
    });
    assert(sp_expression(tj, 0, Precedence::Statement) == Parsed::<ExprModel>::Consumed {
        v: folded,
        extra: 1,
    });

    let te = seq![Lexeme::WordOrPhrase(w1), Lexeme::And, Lexeme::WordOrPhrase(w2)];
    assert(tok_at(te, 0) == Lexeme::WordOrPhrase(w1));
    assert(tok_at(te, 1) == Lexeme::And);
    assert(tok_at(te, 2) == Lexeme::WordOrPhrase(w2));
    assert(tok_at(te, 3) is EoF);
    assert(sp_leaf(te, 0) == Parsed::<ExprModel>::Consumed { v: e1, extra: 0 });
    assert(sp_leaf(te, 2) == Parsed::<ExprModel>::Consumed { v: e2, extra: 0 });
    assert(sp_expr_climb(te, 3, Precedence::And, e2) == Climbed::<ExprModel>::Done {
        v: e2,
        used: 0,
    });
    assert(sp_expression(te, 2, Precedence::And) == Parsed::<ExprModel>::Consumed {
        v: e2,
        extra: 0,
    });
    assert(sp_expr_climb(te, 3, Precedence::Statement, folded) == Climbed::<ExprModel>::Done {
        v: folded,
        used: 0,
    });
    assert(sp_expr_climb(te, 1, Precedence::Statement, e1) == Climbed::<ExprModel>::Done {
        v: folded,
        used: 2,
    });
    assert(sp_expression(te, 0, Precedence::Statement) == Parsed::<ExprModel>::Consumed {
        v: folded,
        extra: 2,
    });
}

/// Parsing is deterministic: the spec parse is a function of the token
/// sequence alone, and [`parse`] returns exactly that function's value, so
/// parsing equal token sequences twice yields structurally equal results.
pub proof fn lemma_parse_deterministic(t1: Seq<Lexeme>, t2: Seq<Lexeme>)
    requires
        t1 == t2,
    ensures
        spec_parse_program(t1) == spec_parse_program(t2),
{
}

/// The data-model invariant of a parsed statement: a `@near` block holds a
/// non-empty list of word/phrase terms and a number proximity; a
/// `@weighted` block holds (word/phrase, fraction) pairs whose weights sum
/// to exactly one; a statement-level infix uses only `And`/`Or` (never
/// `Not`), on two statements that satisfy the invariant in turn.
pub open spec fn stmt_invariant(s: StmtModel) -> bool
    decreases s,
{
    match s {
        StmtModel::Near { parameter, proximity } => {
            &&& parameter.len() >= 1
            &&& forall|i: int| 0 <= i < parameter.len() ==> (#[trigger] parameter[i]) is WordOrPhrase
            &&& proximity is Number
        },
        StmtModel::Weighted { parameter } => {
            &&& weights_scaled_sum(parameter) == pow10(18)
            &&& forall|i: int|
                0 <= i < parameter.len() ==> (#[trigger] parameter[i]).0 is WordOrPhrase
                    && parameter[i].1 is ZeroToOne
        },
        StmtModel::Infix { statement, operator, second_statement } => {
            &&& (operator == Operator::And || operator == Operator::Or)
            &&& stmt_invariant(*statement)
            &&& stmt_invariant(*second_statement)
        },
        _ => true,
    }
}

proof fn lemma_near_items_invariant(toks: Seq<Lexeme>, p: int, acc: Seq<ExprModel>, prox: u64)
    requires
        forall|i: int| 0 <= i < acc.len() ==> (#[trigger] acc[i]) is WordOrPhrase,
    ensures
        sp_near_items(toks, p, acc, prox) matches Climbed::Done { v, used } ==> v.0.len() >= 1
            && (forall|i: int| 0 <= i < v.0.len() ==> (#[trigger] v.0[i]) is WordOrPhrase),
    decreases rem(toks, p), 5int,
{
    if tok_at(toks, p) is Colon {
    } else if tok_at(toks, p) is EoF {
    } else {
        let skip: int = if tok_at(toks, p) is Comma {
            1
        } else {
            0
        };
        match sp_expression(toks, p + skip, Precedence::Lowest) {
            Parsed::Consumed { v, extra } => {
                let p2 = p + skip + 1 + extra;
                match v {
                    ExprModel::WordOrPhrase(_) => {
                        lemma_near_items_invariant(toks, p2, acc.push(v), prox);
                    },
                    ExprModel::Number(u) => {
                        if tok_at(toks, p2) is Colon {
                            lemma_near_items_invariant(toks, p2, acc, u);
                        }
                    },
                    _ => {},
                }
            },
            Parsed::Failed(_) => {},
        }
    }
}

proof fn lemma_weighted_items_invariant(
    toks: Seq<Lexeme>,
    p: int,
    acc: Seq<(ExprModel, ExprModel)>,
)
    requires
        forall|i: int|
            0 <= i < acc.len() ==> (#[trigger] acc[i]).0 is WordOrPhrase
                && acc[i].1 is ZeroToOne,
    ensures
        sp_weighted_items(toks, p, acc) matches Climbed::Done { v, used } ==> forall|i: int|
            0 <= i < v.len() ==> (#[trigger] v[i]).0 is WordOrPhrase && v[i].1 is ZeroToOne,
    decreases rem(toks, p), 5int,
{
    if tok_at(toks, p) is Colon {
    } else if tok_at(toks, p) is EoF {
    } else {
        let skip: int = if tok_at(toks, p) is Comma {
            1
        } else {
            0
        };
        match sp_expression(toks, p + skip, Precedence::Lowest) {
            Parsed::Consumed { v: term, extra } => {
                let p2 = p + skip + 1 + extra;
                if term is WordOrPhrase && tok_at(toks, p2) is Comma {
                    match sp_expression(toks, p2 + 1, Precedence::Lowest) {
                        Parsed::Consumed { v: weight, extra: extra2 } => {
                            let p3 = p2 + 2 + extra2;
                            if weight is ZeroToOne {
                                lemma_weighted_items_invariant(toks, p3, acc.push((term, weight)));
                            }
                        },
                        Parsed::Failed(_) => {},
                    }
                }
            },
            Parsed::Failed(_) => {},
        }
    }
}

proof fn lemma_stmt_base_invariant(toks: Seq<Lexeme>, pos: int)
    ensures
        sp_stmt_base(toks, pos) matches Parsed::Consumed { v, extra } ==> stmt_invariant(v),
    decreases rem(toks, pos), 7int,
{
    match tok_at(toks, pos) {
        Lexeme::Near => {
            lemma_near_items_invariant(toks, pos + 2, seq![], 5);
        },
        Lexeme::Weighted => {
            lemma_weighted_items_invariant(toks, pos + 2, seq![]);
        },
        _ => {},
    }
}

proof fn lemma_stmt_climb_invariant(toks: Seq<Lexeme>, p: int, minprec: Precedence, st: StmtModel)
    requires
        stmt_invariant(st),
    ensures
        sp_stmt_climb(toks, p, minprec, st) matches Climbed::Done { v, used } ==> stmt_invariant(
            v,
        ),
    decreases rem(toks, p), 9int,
{
    if tok_at(toks, p) is EoF || prec_rank(minprec) >= prec_rank(prec_of(tok_at(toks, p))) {
    } else {
        match tok_at(toks, p) {
            Lexeme::Plus | Lexeme::And | Lexeme::Or => {
                let op = op_of(tok_at(toks, p));
                match sp_statement(toks, p + 1, prec_of(tok_at(toks, p))) {
                    Parsed::Consumed { v, extra } => {
                        lemma_statement_invariant(toks, p + 1, prec_of(tok_at(toks, p)));
                        let folded = StmtModel::Infix {
                            statement: Box::new(st),
                            operator: op,
                            second_statement: Box::new(v),
                        };
                        lemma_stmt_climb_invariant(toks, p + 2 + extra, minprec, folded);
                    },
                    Parsed::Failed(_) => {},
                }
            },
            _ => {},
        }
    }
}

proof fn lemma_statement_invariant(toks: Seq<Lexeme>, pos: int, minprec: Precedence)
    ensures
        sp_statement(toks, pos, minprec) matches Parsed::Consumed { v, extra } ==> stmt_invariant(
            v,
        ),
    decreases rem(toks, pos), 8int,
{
    if tok_at(toks, pos) is EoF {
    } else {
        match sp_stmt_base(toks, pos) {
            Parsed::Consumed { v, extra } => {
                lemma_stmt_base_invariant(toks, pos);
                lemma_stmt_climb_invariant(toks, pos + 1 + extra, minprec, v);
            },
            Parsed::Failed(_) => {},
        }
    }
}

/// Every statement of a successful parse satisfies the data-model
/// invariant: `@near` blocks are non-empty word lists with a number
/// proximity, `@weighted` blocks are (word, fraction) pairs whose weights
/// sum to exactly one, and statement-level infixes use only `And`/`Or`.
pub proof fn lemma_parse_result_invariant(toks: Seq<Lexeme>)
    ensures
        spec_parse_program(toks) matches Ok(ms) ==> forall|i: int|
            0 <= i < ms.len() ==> stmt_invariant(#[trigger] ms[i]),
{
    lemma_program_invariant(toks, 0);
}

proof fn lemma_program_invariant(toks: Seq<Lexeme>, pos: int)
    ensures
        sp_program(toks, pos) matches Ok(ms) ==> forall|i: int|
            0 <= i < ms.len() ==> stmt_invariant(#[trigger] ms[i]),
    decreases rem(toks, pos), 9int,
{
    if tok_at(toks, pos) is EoF {
    } else {
        match sp_statement(toks, pos, Precedence::Lowest) {
            Parsed::Consumed { v, extra } => {
                lemma_statement_invariant(toks, pos, Precedence::Lowest);
                lemma_program_invariant(toks, pos + 1 + extra);
            },
            Parsed::Failed(_) => {},
        }
    }
}

} // verus!
