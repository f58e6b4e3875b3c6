//! The three stages in a row: source text to tokens, tokens to a tree, the
//! tree to a store of bindings.

use vstd::prelude::*;
use crate::lexer::{tokenize, tokens_of, LexError, LexErrorView, MathToken};
use crate::memories::{run, Context, EvalError};
use crate::parser::{parse_tokens, ParseError, ParseErrorView, Parser};
use crate::semantics::{
    callable, numerics_of, result, runs_program, statements_of, EvalErrorView, Numerics,
    StoreView,
};

verus! {

/// Why a program did not run to its end: the error of the stage that
/// stopped.
#[derive(Debug, PartialEq, Eq)]
pub enum Failure {
    /// The text is no sequence of tokens.
    Lexical(LexError),
    /// The tokens are no program.
    Syntactic(ParseError),
    /// A statement could not be executed.
    Semantic(EvalError),
}

/// The mathematical value of a `Failure`.
pub enum FailureView {
    Lexical(LexErrorView),
    Syntactic(ParseErrorView),
    Semantic(EvalErrorView),
}

impl View for Failure {
    type V = FailureView;

    open spec fn view(&self) -> FailureView {
        match self {
            Failure::Lexical(e) => FailureView::Lexical(e@),
            Failure::Syntactic(e) => FailureView::Syntactic(e@),
            Failure::Semantic(e) => FailureView::Semantic(e@),
        }
    }
}

/// The value of what `interpret` returns.
pub open spec fn interpreted(r: Result<Context, Failure>) -> Result<StoreView, FailureView> {
    match r {
        Ok(context) => Ok(context@),
        Err(e) => Err(e@),
    }
}

/// Whether interpreting `source` may yield `out`. The first stage that
/// fails gives the error, and no later stage is entered; a text that
/// tokenizes and parses is run from the empty store.
pub open spec fn interprets(
    source: Seq<char>,
    numerics: Numerics,
    out: Result<StoreView, FailureView>,
) -> bool {
    match tokens_of(source) {
        Err(e) => out == Err::<StoreView, FailureView>(FailureView::Lexical(e)),
        Ok(tokens) => match parse_tokens(tokens) {
            Err(e) => out == Err::<StoreView, FailureView>(FailureView::Syntactic(e)),
            Ok(program) => match out {
                Ok(store) => runs_program(program, numerics, Ok(store)),
                Err(FailureView::Semantic(e)) => runs_program(program, numerics, Err(e)),
                Err(_) => false,
            },
        },
    }
}

/// Tokenizes, parses and runs `source`, and gives back the store of its
/// bindings, or the first error.
pub fn interpret<P: Fn(&str) -> Option<u64>, A: Fn(MathToken, u64, u64) -> u64>(
    source: String,
    literal: &P,
    arith: &A,
) -> (outcome: Result<Context, Failure>)
    requires
        callable(*literal, *arith),
    ensures
        interprets(source@, numerics_of(*literal, *arith), interpreted(outcome)),
{
    let tokens = match tokenize(source) {
        Ok(tokens) => tokens,
        Err(e) => {
            return Err(Failure::Lexical(e));
        },
    };
    let mut parser = Parser::new(tokens);
    let program = match parser.parse() {
        Ok(program) => program,
        Err(e) => {
            return Err(Failure::Syntactic(e));
        },
    };
    match run(&program, literal, arith) {
        Ok(context) => Ok(context),
        Err(e) => Err(Failure::Semantic(e)),
    }
}

/// What `source` means when numerals are read by `read` and arithmetic is
/// done by `compute`: the store that its statements leave, or the first
/// error.
pub open spec fn meaning(
    source: Seq<char>,
    read: spec_fn(Seq<char>) -> Option<u64>,
    compute: spec_fn(MathToken, u64, u64) -> u64,
) -> Result<StoreView, FailureView> {
    match tokens_of(source) {
        Err(e) => Err(FailureView::Lexical(e)),
        Ok(tokens) => match parse_tokens(tokens) {
            Err(e) => Err(FailureView::Syntactic(e)),
            Ok(program) => match result(statements_of(program), Map::empty(), read, compute) {
                Ok(store) => Ok(store),
                Err(e) => Err(FailureView::Semantic(e)),
            },
        },
    }
}

} // verus!
