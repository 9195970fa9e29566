//! The generator: renders a statement sequence as the predicate text of the
//! target full-text query language, spliced into a fixed SQL template.
//!
//! Rendering rules: a statement-level infix joins its sides with `AND`/`OR`;
//! `@contains` renders its expression as is; `@startswith` appends a `*`
//! wildcard (inside the closing quote of a quoted phrase); `@inflection` and
//! `@thesaurus` strip surrounding quotes and wrap the term in `FORMSOF(...)`;
//! `@near` renders as `NEAR((t1, t2, ...), proximity)`; `@weighted` renders
//! as `ISABOUT(t1 WEIGHT(w1), ...)`. A prefix application renders as its
//! operator keyword before the parenthesized operand (`NOT ( a )`); an
//! expression-level infix renders as `( a ) OP ( b )`, except that a `NOT`
//! right operand places the keyword directly before a single pair of
//! parentheses around the negated expression (`( a ) OP NOT ( b )`) rather
//! than nesting `NOT ( b )` inside a second pair, because the target
//! predicate grammar does not accept a parenthesized `NOT` as an operand.
//!
//! The executable [`generate`] returns exactly [`render_program`] of the
//! statement models, under the default schema; [`generate_with_config`]
//! takes the schema names and row limit as an explicit [`QueryConfig`].

use vstd::prelude::*;
use vstd::string::StrSliceExecFns;
use vstd::string::StringExecFns;

use crate::ast::ExprModel;
use crate::ast::Expression;
use crate::ast::Operator;
use crate::ast::Statement;
use crate::ast::StmtModel;
use crate::ast::stmt_models;
use crate::lexer::Fraction;
use crate::numeral::dec_seq;
use crate::numeral::u64_to_string;

verus! {

/// The schema names and row limit that the fixed SQL template is filled
/// with.
#[derive(Debug, Clone, PartialEq)]
pub struct QueryConfig {
    /// The database selected by the leading `USE`.
    pub db_name: String,
    /// The table joined against the full-text predicate.
    pub table_name: String,
    /// The attribute column returned for each hit.
    pub return_attribute: String,
    /// The number of top-ranked rows kept.
    pub top_rows: u64,
}

/// The spec-level model of a [`QueryConfig`].
pub struct CfgModel {
    pub db: Seq<char>,
    pub table: Seq<char>,
    pub attr: Seq<char>,
    pub top: u64,
}

impl View for QueryConfig {
    type V = CfgModel;

    open spec fn view(&self) -> CfgModel {
        CfgModel {
            db: self.db_name@,
            table: self.table_name@,
            attr: self.return_attribute@,
            top: self.top_rows@,
        }
    }
}

/// A generation failure. With the closed statement union every shape is
/// renderable, so [`generate`] in fact always succeeds; the variant is kept
/// for the error taxonomy of the pipeline.
#[derive(Debug, PartialEq)]
pub enum GenerateError {
    /// A statement shape the renderer does not recognize.
    UnexpectedStatement(Statement),
}

/// The text of an operator in the infix position and between statements:
/// `NOT` renders as an empty string here, reserved for symmetry only — no
/// grammar production introduces an infix or statement-level `Not`, and a
/// prefix `Not` emits its keyword through [`prefix_op_text`] instead.
pub open spec fn render_op(op: Operator) -> Seq<char> {
    match op {
        Operator::And => "AND"@,
        Operator::Or => "OR"@,
        Operator::Not => ""@,
    }
}

/// The operator keyword of a prefix application.
pub open spec fn prefix_op_text(op: Operator) -> Seq<char> {
    match op {
        Operator::And => "AND"@,
        Operator::Or => "OR"@,
        Operator::Not => "NOT"@,
    }
}

/// `k` zero characters.
pub open spec fn zeros(k: nat) -> Seq<char>
    decreases k,
{
    if k == 0 {
        Seq::empty()
    } else {
        zeros((k - 1) as nat).push('0')
    }
}

/// The decimal text of a fraction: an integer when the scale is zero, else
/// `0.` followed by the fraction digits, zero-padded on the left to the
/// scale.
pub open spec fn frac_seq(f: Fraction) -> Seq<char> {
    if f.scale == 0 {
        dec_seq(f.num as nat)
    } else {
        let digits = dec_seq(f.num as nat);
        let pad = if digits.len() <= f.scale {
            ((f.scale as nat) - digits.len()) as nat
        } else {
            0
        };
        "0."@ + zeros(pad) + digits
    }
}

/// The rendering of one expression.
pub open spec fn render_expr(e: ExprModel) -> Seq<char>
    decreases e,
{
    match e {
        ExprModel::WordOrPhrase(s) => s,
        ExprModel::Number(u) => dec_seq(u as nat),
        ExprModel::ZeroToOne(f) => frac_seq(f),
        ExprModel::Infix(a, op, b) => {
            match *b {
                // A NOT right operand: the keyword stands directly before a
                // single pair of parentheses around the negated expression,
                // since the target grammar refuses a parenthesized NOT.
                ExprModel::Prefix(Operator::Not, inner) => "("@ + " "@ + render_expr(*a) + " "@
                    + ")"@ + " "@ + render_op(op) + " "@ + "NOT ("@ + " "@ + render_expr(*inner)
                    + " "@ + ")"@,
                _ => "("@ + " "@ + render_expr(*a) + " "@ + ")"@ + " "@ + render_op(op) + " "@
                    + "("@ + " "@ + render_expr(*b) + " "@ + ")"@,
            }
        },
        ExprModel::Prefix(op, inner) => prefix_op_text(op) + " "@ + "("@ + " "@ + render_expr(
            *inner,
        ) + " "@ + ")"@,
    }
}

/// Expressions joined with `", "`.
pub open spec fn exprs_joined(es: Seq<ExprModel>) -> Seq<char>
    decreases es.len(),
{
    if es.len() == 0 {
        Seq::empty()
    } else if es.len() == 1 {
        render_expr(es[0])
    } else {
        render_expr(es[0]) + ", "@ + exprs_joined(es.drop_first())
    }
}

/// `term WEIGHT(weight)` groups joined with `", "`.
pub open spec fn pairs_joined(ps: Seq<(ExprModel, ExprModel)>) -> Seq<char>
    decreases ps.len(),
{
    if ps.len() == 0 {
        Seq::empty()
    } else {
        let head = render_expr(ps[0].0) + " WEIGHT("@ + render_expr(ps[0].1) + ")"@;
        if ps.len() == 1 {
            head
        } else {
            head + ", "@ + pairs_joined(ps.drop_first())
        }
    }
}

/// Whether the rendered text is a quoted phrase: at least the opening and
/// closing quote characters.
pub open spec fn quoted2(s: Seq<char>) -> bool {
    s.len() >= 2 && s[0] == '"' && s[s.len() - 1] == '"'
}

/// The rendering of one statement.
pub open spec fn render_stmt(st: StmtModel) -> Seq<char>
    decreases st,
{
    match st {
        StmtModel::Infix { statement, operator, second_statement } => render_stmt(*statement)
            + " "@ + render_op(operator) + " "@ + render_stmt(*second_statement),
        StmtModel::Contains { expression } => render_expr(expression),
        StmtModel::Starts { expression } => {
            let w = render_expr(expression);
            if w.len() >= 1 && w[0] == '"' && w[w.len() - 1] == '"' {
                w.subrange(0, w.len() - 1) + "*"@ + w.subrange(w.len() - 1, w.len() as int)
            } else {
                w + "*"@
            }
        },
        StmtModel::Inflection { expression } => {
            let w = render_expr(expression);
            let inner = if quoted2(w) {
                w.subrange(1, w.len() - 1)
            } else {
                w
            };
            "FORMSOF(INFLECTIONAL,\""@ + inner + "\")"@
        },
        StmtModel::Thesaurus { expression } => {
            let w = render_expr(expression);
            let inner = if quoted2(w) {
                w.subrange(1, w.len() - 1)
            } else {
                w
            };
            "FORMSOF(THESAURUS,\""@ + inner + "\")"@
        },
        StmtModel::Near { parameter, proximity } => {
            // Rendering is total: an empty term list (which the parser never
            // produces) degenerates to the tail of the call alone.
            if parameter.len() == 0 {
                "), "@ + render_expr(proximity) + ")"@
            } else {
                "NEAR(("@ + exprs_joined(parameter) + "), "@ + render_expr(proximity) + ")"@
            }
        },
        StmtModel::Weighted { parameter } => {
            // As for `Near`: an empty pair list degenerates to the closing
            // parenthesis alone.
            if parameter.len() == 0 {
                ")"@
            } else {
                "ISABOUT("@ + pairs_joined(parameter) + ")"@
            }
        },
    }
}

/// The rendered statements, each followed by one space (the statement parts
/// and the closing template part are joined with single spaces).
pub open spec fn stmts_spaced(ss: Seq<StmtModel>) -> Seq<char>
    decreases ss.len(),
{
    if ss.len() == 0 {
        Seq::empty()
    } else {
        render_stmt(ss[0]) + " "@ + stmts_spaced(ss.drop_first())
    }
}

/// The leading template part, up to and including the opening quote of the
/// predicate literal.
pub open spec fn template_prefix(cfg: CfgModel) -> Seq<char> {
    "USE "@ + cfg.db + "; SELECT TOP "@ + dec_seq(cfg.top as nat)
        + " * FROM(SELECT FT_TBL."@ + cfg.attr + ", KEY_TBL.RANK FROM "@ + cfg.table
        + " AS FT_TBL INNER JOIN CONTAINSTABLE("@ + cfg.table + ", *, '"@
}

/// The trailing template part, from the closing quote of the predicate
/// literal on.
pub open spec fn template_suffix() -> Seq<char> {
    "') AS KEY_TBL ON FT_TBL.[ID] = KEY_TBL.[KEY] WHERE KEY_TBL.RANK > 5) AS FS_RESULT ORDER BY FS_RESULT.RANK DESC;"@
}

/// The whole query: the template prefix, the rendered statements and the
/// template suffix, joined with single spaces.
pub open spec fn render_program(cfg: CfgModel, ss: Seq<StmtModel>) -> Seq<char> {
    template_prefix(cfg) + " "@ + stmts_spaced(ss) + template_suffix()
}

/// The schema of the original deployment, used by [`generate`].
pub open spec fn default_config_model() -> CfgModel {
    CfgModel { db: "Wikipedia"@, table: "[dbo].[Real_Article]"@, attr: "Title"@, top: 5 }
}

impl QueryConfig {
    /// The schema of the original deployment: the `Wikipedia` database, its
    /// article table, the `Title` attribute, and the top five rows.
    pub fn default_wikipedia() -> (c: QueryConfig)
        ensures
            c@ == default_config_model(),
    {
        let c = QueryConfig {
            db_name: "Wikipedia".to_owned(),
            table_name: "[dbo].[Real_Article]".to_owned(),
            return_attribute: "Title".to_owned(),
            top_rows: 5,
        };
        c
    }
}

fn render_operator(op: Operator) -> (s: &'static str)
    ensures
        s@ == render_op(op),
{
    match op {
        Operator::And => "AND",
        Operator::Or => "OR",
        Operator::Not => "",
    }
}

fn prefix_operator(op: Operator) -> (s: &'static str)
    ensures
        s@ == prefix_op_text(op),
{
    match op {
        Operator::And => "AND",
        Operator::Or => "OR",
        Operator::Not => "NOT",
    }
}

/// Renders a fraction as decimal text.
fn fraction_to_string(f: Fraction) -> (s: String)
    ensures
        s@ == frac_seq(f),
{
    if f.scale == 0 {
        u64_to_string(f.num)
    } else {
        let digits = u64_to_string(f.num);
        let dlen = digits.as_str().unicode_len();
        let mut s = "0.".to_owned();
        let ghost base = "0."@;
        let pad: usize = if dlen <= f.scale as usize {
            f.scale as usize - dlen
        } else {
            0
        };
        let mut j: usize = 0;
        while j < pad
            invariant
                j <= pad,
                s@ == base + zeros(j as nat),
            decreases pad - j,
        {
            s.append("0");
            proof {
                reveal_strlit("0");
                assert(s@ =~= base + zeros((j + 1) as nat));
            }
            j = j + 1;
        }
        s.append(digits.as_str());
        proof {
            assert(s@ =~= frac_seq(f));
        }
        s
    }
}

/// Renders one expression.
fn render_expression(e: &Expression) -> (s: String)
    ensures
        s@ == render_expr(e@),
    decreases e,
{
    match e {
        Expression::WordOrPhrase(w) => w.clone(),
        Expression::Number(u) => u64_to_string(*u),
        Expression::ZeroToOne(f) => fraction_to_string(*f),
        Expression::Infix(a, op, b) => {
            let ra = render_expression(a);
            let mut s = "(".to_owned();
            s.append(" ");
            s.append(ra.as_str());
            s.append(" ");
            s.append(")");
            s.append(" ");
            s.append(render_operator(*op));
            s.append(" ");
            match &**b {
                Expression::Prefix(Operator::Not, negated) => {
                    let ri = render_expression(negated);
                    s.append("NOT (");
                    s.append(" ");
                    s.append(ri.as_str());
                },
                _ => {
                    let rb = render_expression(b);
                    s.append("(");
                    s.append(" ");
                    s.append(rb.as_str());
                },
            }
            s.append(" ");
            s.append(")");
            proof {
                assert(s@ =~= render_expr(e@));
            }
            s
        },
        Expression::Prefix(op, inner) => {
            let ri = render_expression(inner);
            let mut s = prefix_operator(*op).to_owned();
            s.append(" ");
            s.append("(");
            s.append(" ");
            s.append(ri.as_str());
            s.append(" ");
            s.append(")");
            proof {
                assert(s@ =~= render_expr(e@));
            }
            s
        },
    }
}

/// `exprs_joined` gains one element at the back.
proof fn lemma_exprs_joined_push(es: Seq<ExprModel>, x: ExprModel)
    ensures
        exprs_joined(es.push(x)) == if es.len() == 0 {
            render_expr(x)
        } else {
            exprs_joined(es) + ", "@ + render_expr(x)
        },
    decreases es.len(),
{
    let p = es.push(x);
    if es.len() == 0 {
        assert(p.len() == 1);
        assert(p[0] == x);
    } else {
        lemma_exprs_joined_push(es.drop_first(), x);
        assert(p.drop_first() =~= es.drop_first().push(x));
        assert(p[0] == es[0]);
        if es.len() == 1 {
            assert(es.drop_first().len() == 0);
            assert(exprs_joined(es) == render_expr(es[0]));
        }
    }
}

/// `pairs_joined` gains one element at the back.
proof fn lemma_pairs_joined_push(ps: Seq<(ExprModel, ExprModel)>, x: (ExprModel, ExprModel))
    ensures
        pairs_joined(ps.push(x)) == if ps.len() == 0 {
            render_expr(x.0) + " WEIGHT("@ + render_expr(x.1) + ")"@
        } else {
            pairs_joined(ps) + ", "@ + (render_expr(x.0) + " WEIGHT("@ + render_expr(x.1) + ")"@)
        },
    decreases ps.len(),
{
    let p = ps.push(x);
    if ps.len() == 0 {
        assert(p.len() == 1);
        assert(p[0] == x);
    } else {
        lemma_pairs_joined_push(ps.drop_first(), x);
        assert(p.drop_first() =~= ps.drop_first().push(x));
        assert(p[0] == ps[0]);
        if ps.len() == 1 {
            assert(ps.drop_first().len() == 0);
        }
    }
}

/// `stmts_spaced` gains one element at the back.
proof fn lemma_stmts_spaced_push(ss: Seq<StmtModel>, x: StmtModel)
    ensures
        stmts_spaced(ss.push(x)) == stmts_spaced(ss) + (render_stmt(x) + " "@),
    decreases ss.len(),
{
    let p = ss.push(x);
    if ss.len() == 0 {
        assert(p.len() == 1);
        assert(p[0] == x);
        assert(p.drop_first() =~= Seq::<StmtModel>::empty());
        assert(stmts_spaced(p.drop_first()) =~= Seq::<char>::empty());
        assert(stmts_spaced(p) == render_stmt(x) + " "@ + stmts_spaced(p.drop_first()));
        assert(stmts_spaced(ss) =~= Seq::<char>::empty());
        assert(stmts_spaced(ss.push(x)) =~= stmts_spaced(ss) + (render_stmt(x) + " "@));
    } else {
        lemma_stmts_spaced_push(ss.drop_first(), x);
        assert(p.drop_first() =~= ss.drop_first().push(x));
        assert(p[0] == ss[0]);
        assert(stmts_spaced(ss.push(x)) =~= stmts_spaced(ss) + (render_stmt(x) + " "@));
    }
}

/// Renders one statement.
fn render_statement(st: &Statement) -> (s: String)
    ensures
        s@ == render_stmt(st@),
    decreases st,
{
    match st {
        Statement::Infix { statement, operator, second_statement } => {
            let rl = render_statement(statement);
            let rr = render_statement(second_statement);
            let mut s = rl;
            s.append(" ");
            s.append(render_operator(*operator));
            s.append(" ");
            s.append(rr.as_str());
            proof {
                assert(s@ =~= render_stmt(st@));
            }
            s
        },
        Statement::Contains { expression } => render_expression(expression),
        Statement::Starts { expression } => {
            let w = render_expression(expression);
            let wn = w.as_str().unicode_len();
            if wn >= 1 && w.as_str().get_char(0) == '"' && w.as_str().get_char(wn - 1) == '"' {
                let mut s = w.as_str().substring_char(0, wn - 1).to_owned();
                s.append("*");
                let tail = w.as_str().substring_char(wn - 1, wn);
                s.append(tail);
                proof {
                    assert(s@ =~= render_stmt(st@));
                }
                s
            } else {
                let mut s = w;
                s.append("*");
                proof {
                    assert(s@ =~= render_stmt(st@));
                }
                s
            }
        },
        Statement::Inflection { expression } => {
            let w = render_expression(expression);
            let wn = w.as_str().unicode_len();
            let mut s = "FORMSOF(INFLECTIONAL,\"".to_owned();
            if wn >= 2 && w.as_str().get_char(0) == '"' && w.as_str().get_char(wn - 1) == '"' {
                let inner = w.as_str().substring_char(1, wn - 1);
                s.append(inner);
            } else {
                s.append(w.as_str());
            }
            s.append("\")");
            proof {
                assert(s@ =~= render_stmt(st@));
            }
            s
        },
        Statement::Thesaurus { expression } => {
            let w = render_expression(expression);
            let wn = w.as_str().unicode_len();
            let mut s = "FORMSOF(THESAURUS,\"".to_owned();
            if wn >= 2 && w.as_str().get_char(0) == '"' && w.as_str().get_char(wn - 1) == '"' {
                let inner = w.as_str().substring_char(1, wn - 1);
                s.append(inner);
            } else {
                s.append(w.as_str());
            }
            s.append("\")");
            proof {
                assert(s@ =~= render_stmt(st@));
            }
            s
        },
        Statement::Near { parameter, proximity } => {
            let rp = render_expression(proximity);
            if parameter.len() == 0 {
                let mut s = "), ".to_owned();
                s.append(rp.as_str());
                s.append(")");
                proof {
                    assert(crate::ast::expr_models(parameter@).len() == 0);
                    assert(s@ =~= render_stmt(st@));
                }
                s
            } else {
                let mut s = "NEAR((".to_owned();
                let ghost ems = crate::ast::expr_models(parameter@);
                let ghost open = "NEAR(("@;
                let mut i: usize = 0;
                while i < parameter.len()
                    invariant
                        i <= parameter@.len(),
                        ems == crate::ast::expr_models(parameter@),
                        s@ == open + exprs_joined(ems.take(i as int)),
                    decreases parameter@.len() - i,
                {
                    if i > 0 {
                        s.append(", ");
                    }
                    let re = render_expression(&parameter[i]);
                    s.append(re.as_str());
                    proof {
                        assert(ems.take((i + 1) as int) =~= ems.take(i as int).push(
                            ems[i as int],
                        ));
                        lemma_exprs_joined_push(ems.take(i as int), ems[i as int]);
                        assert(ems[i as int] == parameter@[i as int]@);
                        assert(s@ =~= open + exprs_joined(ems.take((i + 1) as int)));
                    }
                    i = i + 1;
                }
                s.append("), ");
                s.append(rp.as_str());
                s.append(")");
                proof {
                    assert(ems.take(parameter@.len() as int) =~= ems);
                    assert(ems.len() > 0);
                    assert(s@ =~= render_stmt(st@));
                }
                s
            }
        },
        Statement::Weighted { parameter } => {
            if parameter.len() == 0 {
                let s = ")".to_owned();
                proof {
                    assert(crate::ast::pair_models(parameter@).len() == 0);
                    assert(s@ =~= render_stmt(st@));
                }
                s
            } else {
                let mut s = "ISABOUT(".to_owned();
                let ghost pms = crate::ast::pair_models(parameter@);
                let ghost open = "ISABOUT("@;
                let mut i: usize = 0;
                while i < parameter.len()
                    invariant
                        i <= parameter@.len(),
                        pms == crate::ast::pair_models(parameter@),
                        s@ == open + pairs_joined(pms.take(i as int)),
                    decreases parameter@.len() - i,
                {
                    if i > 0 {
                        s.append(", ");
                    }
                    let rt = render_expression(&parameter[i].0);
                    let rw = render_expression(&parameter[i].1);
                    s.append(rt.as_str());
                    s.append(" WEIGHT(");
                    s.append(rw.as_str());
                    s.append(")");
                    proof {
                        assert(pms.take((i + 1) as int) =~= pms.take(i as int).push(
                            pms[i as int],
                        ));
                        lemma_pairs_joined_push(pms.take(i as int), pms[i as int]);
                        assert(pms[i as int] == (parameter@[i as int].0@, parameter@[i as int].1@));
                        assert(s@ =~= open + pairs_joined(pms.take((i + 1) as int)));
                    }
                    i = i + 1;
                }
                s.append(")");
                proof {
                    assert(pms.take(parameter@.len() as int) =~= pms);
                    assert(pms.len() > 0);
                    assert(s@ =~= render_stmt(st@));
                }
                s
            }
        },
    }
}

/// Renders the whole query under an explicit configuration.
pub fn generate_with_config(config: &QueryConfig, ast: &Vec<Statement>) -> (s: String)
    ensures
        s@ == render_program(config@, stmt_models(ast@)),
{
    let mut s = "USE ".to_owned();
    s.append(config.db_name.as_str());
    s.append("; SELECT TOP ");
    let top = u64_to_string(config.top_rows);
    s.append(top.as_str());
    s.append(" * FROM(SELECT FT_TBL.");
    s.append(config.return_attribute.as_str());
    s.append(", KEY_TBL.RANK FROM ");
    s.append(config.table_name.as_str());
    s.append(" AS FT_TBL INNER JOIN CONTAINSTABLE(");
    s.append(config.table_name.as_str());
    s.append(", *, '");
    proof {
        assert(s@ =~= template_prefix(config@));
    }
    s.append(" ");
    let ghost sms = stmt_models(ast@);
    let ghost head = template_prefix(config@) + " "@;
    let mut i: usize = 0;
    while i < ast.len()
        invariant
            i <= ast@.len(),
            sms == stmt_models(ast@),
            s@ == head + stmts_spaced(sms.take(i as int)),
        decreases ast@.len() - i,
    {
        let rs = render_statement(&ast[i]);
        s.append(rs.as_str());
        s.append(" ");
        proof {
            assert(sms.take((i + 1) as int) =~= sms.take(i as int).push(sms[i as int]));
            lemma_stmts_spaced_push(sms.take(i as int), sms[i as int]);
            assert(sms[i as int] == ast@[i as int]@);
            assert(s@ =~= head + stmts_spaced(sms.take((i + 1) as int)));
        }
        i = i + 1;
    }
    s.append(
        "') AS KEY_TBL ON FT_TBL.[ID] = KEY_TBL.[KEY] WHERE KEY_TBL.RANK > 5) AS FS_RESULT ORDER BY FS_RESULT.RANK DESC;",
    );
    proof {
        assert(sms.take(ast@.len() as int) =~= sms);
        assert(s@ =~= render_program(config@, sms));
    }
    s
}

/// Renders the whole query under the default schema. With the closed
/// statement union every statement is renderable, so the result is always
/// `Ok`, and it is exactly [`render_program`] of the statement models.
pub fn generate(ast: Vec<Statement>) -> (r: Result<String, GenerateError>)
    ensures
        r matches Ok(s) && s@ == render_program(default_config_model(), stmt_models(ast@)),
{
    let config = QueryConfig::default_wikipedia();
    Ok(generate_with_config(&config, &ast))
}

} // verus!
