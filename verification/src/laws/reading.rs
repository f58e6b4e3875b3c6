//! The front end as a whole: what a text means, and that a program is read
//! back from its text.

use vstd::prelude::*;
use crate::interpreter::{interprets, meaning, FailureView};
use crate::laws::evaluation::lemma_result_is_the_outcome;
use crate::laws::grammar::{is_statement, lemma_parse_inverts_spelling, spelled_all};
use crate::laws::spelling::{lemma_spaced_round_trip, spaced, stands_alone};
use crate::lexer::{tokens_of, LexErrorView, MathToken, TokenView};
use crate::parser::{parse_tokens, NodeView, ParseErrorView};
use crate::semantics::{follows, result, statements_of, Numerics, StoreView};

verus! {

/// With an arithmetic that follows two functions, interpreting a text
/// yields nothing but its meaning under them.
pub proof fn lemma_meaning_is_the_outcome(
    source: Seq<char>,
    numerics: Numerics,
    read: spec_fn(Seq<char>) -> Option<u64>,
    compute: spec_fn(MathToken, u64, u64) -> u64,
    out: Result<StoreView, FailureView>,
)
    requires
        follows(numerics, read, compute),
        interprets(source, numerics, out),
    ensures
        out == meaning(source, read, compute),
{
    match tokens_of(source) {
        Ok(tokens) => match parse_tokens(tokens) {
            Ok(program) => {
                let statements = statements_of(program);
                match out {
                    Ok(store) => {
                        lemma_result_is_the_outcome(
                            statements,
                            Map::empty(),
                            numerics,
                            read,
                            compute,
                            Ok(store),
                        );
                    },
                    Err(FailureView::Semantic(e)) => {
                        lemma_result_is_the_outcome(
                            statements,
                            Map::empty(),
                            numerics,
                            read,
                            compute,
                            Err(e),
                        );
                    },
                    Err(_) => {},
                }
            },
            _ => {},
        },
        _ => {},
    }
}

/// Whether statements can be written down and read back: each has the shape
/// of a statement, and each token that spells them can stand alone.
pub open spec fn writable(statements: Seq<NodeView>) -> bool {
    &&& forall|i: int| 0 <= i < statements.len() ==> is_statement(#[trigger] statements[i])
    &&& forall|k: int|
        0 <= k < spelled_all(statements).len() ==> stands_alone(
            #[trigger] spelled_all(statements)[k],
        )
}

/// The text of a program: the tokens that spell its statements, each with a
/// space behind it.
pub open spec fn written(statements: Seq<NodeView>) -> Seq<char> {
    spaced(spelled_all(statements))
}

/// The front end reads back what was written: the text of a program
/// tokenizes to the tokens that spell its statements, and these parse to the
/// program.
pub proof fn lemma_written_is_read(statements: Seq<NodeView>)
    requires
        writable(statements),
    ensures
        tokens_of(written(statements)) == Ok::<Seq<TokenView>, LexErrorView>(
            spelled_all(statements),
        ),
        parse_tokens(spelled_all(statements)) == Ok::<NodeView, ParseErrorView>(
            NodeView::Program(statements),
        ),
{
    lemma_spaced_round_trip(spelled_all(statements));
    lemma_parse_inverts_spelling(statements);
}

/// The meaning of the text of a program is the result of its statements,
/// run from the empty store.
pub proof fn lemma_meaning_of_written(
    statements: Seq<NodeView>,
    read: spec_fn(Seq<char>) -> Option<u64>,
    compute: spec_fn(MathToken, u64, u64) -> u64,
)
    requires
        writable(statements),
    ensures
        meaning(written(statements), read, compute) == match result(
            statements,
            Map::empty(),
            read,
            compute,
        ) {
            Ok(store) => Ok::<StoreView, FailureView>(store),
            Err(e) => Err::<StoreView, FailureView>(FailureView::Semantic(e)),
        },
{
    lemma_written_is_read(statements);
}

} // verus!
