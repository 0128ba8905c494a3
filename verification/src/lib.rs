//! A small parser-combinator toolkit together with an arithmetic-expression
//! evaluator built in the same recursive-descent style.
//!
//! The crate has three layers:
//! - [`parsec`] holds the combinator engine: a [`parsec::Parser`] trait whose
//!   implementors are parsing strategies over a sequence of characters, each
//!   one specified by a mathematical model (`spec_run`), plus the primitive
//!   and composite combinators.
//! - [`kombi`] packages the same strategies behind an opaque [`kombi::Parser`]
//!   value with `map`, `satisfies`, `sequence`, `either`, `many`, `many1` and
//!   friends, mirroring a closure-style combinator interface.
//! - [`math`] is the grammar layer: a verified recursive-descent evaluator for
//!   arithmetic expressions with precedence, associativity, parentheses,
//!   unary minus and right-associative exponentiation, folding to an `i64`
//!   while parsing.
//!
//! [`lexer`] is an independent hand-rolled tokenizer for the same operator
//! alphabet, kept as a standalone scanning utility.

use vstd::prelude::*;

pub mod kombi;
pub mod lexer;
pub mod math;
pub mod parsec;

verus! {

/// Turns a string slice into the vector of its characters, the form the
/// parsers below work over.
pub fn chars_of(text: &str) -> (r: Vec<char>)
    ensures
        r@ == text@,
{
    let n: usize = text.unicode_len();
    let mut r: Vec<char> = Vec::new();
    let mut i: usize = 0;
    while i < n
        invariant
            n == text@.len(),
            i <= n,
            r@ == text@.subrange(0, i as int),
        decreases n - i,
    {
        r.push(text.get_char(i));
        i += 1;
    }
    proof {
        assert(r@ =~= text@);
    }
    r
}

/// Evaluates `text` as an arithmetic expression, requiring the whole input
/// to be consumed: a successful parse with trailing characters is an
/// [`parsec::ParseError::IncompleteParse`].  The result is exactly what the
/// model [`math::spec_evaluate`] gives for the text, value and error alike.
pub fn evaluate(text: &str) -> (r: Result<i64, parsec::ParseError>)
    ensures
        r == math::spec_evaluate(text@),
{
    let input = chars_of(text);
    match math::p_expr(&input, 0) {
        Ok((v, p)) => {
            if p == input.len() {
                Ok(v)
            } else {
                Err(parsec::ParseError::IncompleteParse)
            }
        },
        Err(e) => Err(e),
    }
}

/// Evaluation is deterministic: two outcomes of evaluating the same text,
/// each as [`evaluate`]'s contract describes one, are the same outcome,
/// value and error alike.
pub proof fn lemma_evaluate_deterministic(
    s: Seq<char>,
    r1: Result<i64, parsec::ParseError>,
    r2: Result<i64, parsec::ParseError>,
)
    requires
        r1 == math::spec_evaluate(s),
        r2 == math::spec_evaluate(s),
    ensures
        r1 == r2,
{
}

} // verus!
