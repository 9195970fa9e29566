//! A compiler for a small boolean full-text query language.
//!
//! The pipeline has three stages: [`lexer::lex`] turns raw query text into a
//! sequence of tokens, [`parser::parse`] turns the tokens into a sequence of
//! [`ast::Statement`] values by precedence-climbing recursive descent, and
//! [`generator::generate`] renders the statements as the predicate text of a
//! full-text `CONTAINSTABLE` query, spliced into a fixed SQL template.
//!
//! Each stage is verified against a spec-level mirror: the result of `lex` is
//! exactly [`lexer::spec_lex`] of the input, the result of `parse` is exactly
//! [`parser::spec_parse_program`] of the token sequence, and the result of
//! `generate` is exactly [`generator::render_program`] of the statement
//! sequence, so the whole pipeline is a pure, deterministic function of the
//! input text.

pub mod ast;
pub mod generator;
pub mod lexer;
pub mod numeral;
pub mod parser;

use vstd::prelude::*;

verus! {

/// Compiles a whole query: lexes the text, parses the tokens, and renders
/// the statements under the default schema. The result is pinned end to
/// end: on success it is exactly the rendering of the spec parse of the
/// spec lexing of the input, and on failure it is exactly the error the
/// spec parse assigns.
pub fn compile(input: &str) -> (r: Result<String, parser::ParseError>)
    ensures
        ({
            let toks = lexer::spec_lex(input@);
            match parser::spec_parse_program(toks) {
                Ok(ms) => r matches Ok(s) && s@ == generator::render_program(
                    generator::default_config_model(),
                    ms,
                ),
                Err(e) => r matches Err(m) && m@ == e,
            }
        }),
{
    let tokens = lexer::lex(input);
    match parser::parse(tokens) {
        Ok(ast) => match generator::generate(ast) {
            Ok(sql) => Ok(sql),
            Err(_) => vstd::pervasive::unreached(),
        },
        Err(e) => Err(e),
    }
}

} // verus!
