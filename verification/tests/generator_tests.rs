use fts_query::ast::{Expression, Operator, Statement};
use fts_query::compile as compile_whole;
use fts_query::generator::{generate, generate_with_config, QueryConfig};
use fts_query::lexer::lex;
use fts_query::parser::parse;

/// The fixed template around the predicate, under the default schema.
const PREFIX: &str = "USE Wikipedia; SELECT TOP 5 * FROM(SELECT FT_TBL.Title, \
KEY_TBL.RANK FROM [dbo].[Real_Article] AS FT_TBL INNER JOIN \
CONTAINSTABLE([dbo].[Real_Article], *, '";
const SUFFIX: &str = "') AS KEY_TBL ON FT_TBL.[ID] = KEY_TBL.[KEY] WHERE \
KEY_TBL.RANK > 5) AS FS_RESULT ORDER BY FS_RESULT.RANK DESC;";

fn compile(source: &str) -> String {
    generate(parse(lex(source)).unwrap()).unwrap()
}

/// The whole query for a single-statement predicate (the template parts and
/// each statement are joined with single spaces).
fn full(predicate: &str) -> String {
    format!("{} {} {}", PREFIX, predicate, SUFFIX)
}

#[test]
fn contains_renders_the_expression_as_is() {
    assert_eq!(compile("@contains: \"cat\":"), full("\"cat\""));
    assert_eq!(compile("@contains: cat:"), full("cat"));
}

#[test]
fn startswith_puts_the_wildcard_inside_the_quotes() {
    assert_eq!(compile("@startswith: \"run\":"), full("\"run*\""));
}

#[test]
fn startswith_appends_the_wildcard_to_a_bare_word() {
    assert_eq!(compile("@startswith: run:"), full("run*"));
}

#[test]
fn statement_infix_renders_as_and() {
    assert_eq!(
        compile("@contains: \"cat\": & @contains: \"dog\":"),
        full("\"cat\" AND \"dog\"")
    );
    assert_eq!(
        compile("@contains: \"cat\": | @contains: \"dog\":"),
        full("\"cat\" OR \"dog\"")
    );
}

#[test]
fn expression_infix_parenthesizes_both_sides() {
    assert_eq!(
        compile("@contains: \"cat\" & \"dog\":"),
        full("( \"cat\" ) AND ( \"dog\" )")
    );
    assert_eq!(
        compile("@contains: \"cat\" | \"dog\":"),
        full("( \"cat\" ) OR ( \"dog\" )")
    );
}

#[test]
fn juxtaposition_renders_as_the_explicit_and() {
    assert_eq!(
        compile("@contains: \"cat\" \"dog\":"),
        compile("@contains: \"cat\" & \"dog\":")
    );
}

#[test]
fn a_prefix_not_renders_the_keyword_before_the_parentheses() {
    assert_eq!(compile("@contains: !\"dog\":"), full("NOT ( \"dog\" )"));
    assert_eq!(
        compile("@contains: !(\"cat\" | \"dog\"):"),
        full("NOT ( ( \"cat\" ) OR ( \"dog\" ) )")
    );
}

#[test]
fn a_not_operand_keeps_the_keyword_before_the_parenthesis() {
    // The target grammar takes `... AND NOT ( ... )`, never a parenthesized
    // NOT, so the right operand's negated expression gets a single pair of
    // parentheses with the keyword in front.
    assert_eq!(
        compile("@contains: \"cat\" & !\"dog\":"),
        full("( \"cat\" ) AND NOT ( \"dog\" )")
    );
}

#[test]
fn near_renders_terms_and_proximity() {
    assert_eq!(
        compile("@near: \"cat\", \"dog\":"),
        full("NEAR((\"cat\", \"dog\"), 5)")
    );
    assert_eq!(
        compile("@near: \"cat\", \"dog\", 3:"),
        full("NEAR((\"cat\", \"dog\"), 3)")
    );
    assert_eq!(
        compile("@near: a, b, c, 12:"),
        full("NEAR((a, b, c), 12)")
    );
    assert_eq!(
        compile("@near: a, 18446744073709551615:"),
        full("NEAR((a), 18446744073709551615)")
    );
}

#[test]
fn weighted_renders_isabout_with_weights() {
    assert_eq!(
        compile("@weighted: \"cat\", 0.5, \"dog\", 0.5:"),
        full("ISABOUT(\"cat\" WEIGHT(0.5), \"dog\" WEIGHT(0.5))")
    );
    // Weights render canonically: 0.50 is 0.5, 0.25 keeps two digits.
    assert_eq!(
        compile("@weighted: a, 0.50, b, 0.25, c, 0.25:"),
        full("ISABOUT(a WEIGHT(0.5), b WEIGHT(0.25), c WEIGHT(0.25))")
    );
    assert_eq!(
        compile("@weighted: a, 0.05, b, 0.95:"),
        full("ISABOUT(a WEIGHT(0.05), b WEIGHT(0.95))")
    );
    assert_eq!(compile("@weighted: a, 1:"), full("ISABOUT(a WEIGHT(1))"));
}

#[test]
fn inflection_strips_quotes_and_wraps() {
    assert_eq!(
        compile("@inflection: \"cats\":"),
        full("FORMSOF(INFLECTIONAL,\"cats\")")
    );
    assert_eq!(
        compile("@inflection: cats:"),
        full("FORMSOF(INFLECTIONAL,\"cats\")")
    );
}

#[test]
fn thesaurus_strips_quotes_and_wraps() {
    assert_eq!(
        compile("@thesaurus: \"car\":"),
        full("FORMSOF(THESAURUS,\"car\")")
    );
    assert_eq!(
        compile("@thesaurus: car:"),
        full("FORMSOF(THESAURUS,\"car\")")
    );
}

#[test]
fn two_statements_are_space_joined() {
    assert_eq!(
        compile("@contains: \"a\": @contains: \"b\":"),
        format!("{} {} {} {}", PREFIX, "\"a\"", "\"b\"", SUFFIX)
    );
}

#[test]
fn a_custom_configuration_fills_the_template() {
    let config = QueryConfig {
        db_name: "Library".to_string(),
        table_name: "[dbo].[Books]".to_string(),
        return_attribute: "Name".to_string(),
        top_rows: 12,
    };
    let ast = parse(lex("@contains: \"cat\":")).unwrap();
    let sql = generate_with_config(&config, &ast);
    assert_eq!(
        sql,
        "USE Library; SELECT TOP 12 * FROM(SELECT FT_TBL.Name, KEY_TBL.RANK \
FROM [dbo].[Books] AS FT_TBL INNER JOIN CONTAINSTABLE([dbo].[Books], *, \
' \"cat\" ') AS KEY_TBL ON FT_TBL.[ID] = KEY_TBL.[KEY] WHERE KEY_TBL.RANK > 5) \
AS FS_RESULT ORDER BY FS_RESULT.RANK DESC;"
    );
}

#[test]
fn generate_accepts_a_hand_built_tree() {
    let ast = vec![Statement::Infix {
        statement: Box::new(Statement::Contains {
            expression: Expression::WordOrPhrase("\"cat\"".to_string()),
        }),
        operator: Operator::Or,
        second_statement: Box::new(Statement::Starts {
            expression: Expression::WordOrPhrase("run".to_string()),
        }),
    }];
    assert_eq!(generate(ast).unwrap(), full("\"cat\" OR run*"));
}

#[test]
fn an_empty_program_renders_the_bare_template() {
    assert_eq!(
        generate(Vec::new()).unwrap(),
        format!("{} {}", PREFIX, SUFFIX)
    );
}

#[test]
fn compile_runs_the_whole_pipeline() {
    assert_eq!(
        compile_whole("@near: \"cat\", \"dog\", 3: | @inflection: run:").unwrap(),
        full("NEAR((\"cat\", \"dog\"), 3) OR FORMSOF(INFLECTIONAL,\"run\")")
    );
    assert!(compile_whole("@weighted: a, 0.4:").is_err());
}
