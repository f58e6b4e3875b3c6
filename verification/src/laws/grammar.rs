//! Parsing and spelling: a tree that parses spells the tokens that were
//! read for it, and the tokens that spell a tree parse to it.

use vstd::prelude::*;
use crate::lexer::{MathToken, TokenView};
use crate::parser::{
    is_compound, parse_expression, parse_operations, parse_program, parse_statement, parse_term,
    parse_tokens, token_at, NodeView, ParseErrorView, Parsed,
};

verus! {

/// Whether a token is a term: a number, an identifier or a string.
pub open spec fn is_term(token: TokenView) -> bool {
    token is Number || token is Identifier || token is String
}

/// The node of a term.
pub open spec fn term_node(token: TokenView) -> NodeView {
    match token {
        TokenView::Number(numeral) => NodeView::Number(numeral),
        TokenView::Identifier(name) => NodeView::Identifier(name),
        TokenView::String(text) => NodeView::String(text),
        _ => arbitrary(),
    }
}

/// The tree of `left op term op term ...`: each operator takes everything
/// to its left as its left operand.
pub open spec fn fold_left(left: NodeView, operations: Seq<(MathToken, TokenView)>) -> NodeView
    decreases operations.len(),
{
    if operations.len() == 0 {
        left
    } else {
        fold_left(
            NodeView::BinaryOp {
                left: Box::new(left),
                op: TokenView::Arithmetic(operations[0].0),
                right: Box::new(term_node(operations[0].1)),
            },
            operations.drop_first(),
        )
    }
}

/// Whether `tokens` holds, from `pos` on, the operators and terms of
/// `operations`, one pair after the other.
pub open spec fn spells_operations(
    tokens: Seq<TokenView>,
    pos: int,
    operations: Seq<(MathToken, TokenView)>,
) -> bool {
    &&& 0 <= pos
    &&& pos + 2 * operations.len() <= tokens.len()
    &&& forall|i: int|
        0 <= i < operations.len() ==> {
            &&& tokens[pos + 2 * i] == TokenView::Arithmetic((#[trigger] operations[i]).0)
            &&& tokens[pos + 2 * i + 1] == operations[i].1
            &&& is_term(operations[i].1)
        }
}

/// Operators and terms behind an operand fold to the left, up to the first
/// token that is no operator.
pub proof fn lemma_operations_fold_left(
    tokens: Seq<TokenView>,
    pos: int,
    left: NodeView,
    operations: Seq<(MathToken, TokenView)>,
)
    requires
        spells_operations(tokens, pos, operations),
        !(token_at(tokens, pos + 2 * operations.len()) is Arithmetic),
    ensures
        parse_operations(tokens, pos, left) == (Parsed {
            outcome: Ok(fold_left(left, operations)),
            next: pos + 2 * operations.len(),
        }),
    decreases operations.len(),
{
    if operations.len() > 0 {
        let first = operations[0];
        let rest = operations.drop_first();
        assert(tokens[pos + 2 * 0] == TokenView::Arithmetic(first.0));
        assert(tokens[pos + 2 * 0 + 1] == first.1);
        assert forall|i: int| 0 <= i < rest.len() implies {
            &&& tokens[pos + 2 + 2 * i] == TokenView::Arithmetic((#[trigger] rest[i]).0)
            &&& tokens[pos + 2 + 2 * i + 1] == rest[i].1
            &&& is_term(rest[i].1)
        } by {
            assert(rest[i] == operations[i + 1]);
            assert(pos + 2 * (i + 1) == pos + 2 + 2 * i);
        }
        lemma_operations_fold_left(
            tokens,
            pos + 2,
            NodeView::BinaryOp {
                left: Box::new(left),
                op: TokenView::Arithmetic(first.0),
                right: Box::new(term_node(first.1)),
            },
            rest,
        );
    }
}

/// Expressions associate to the left: a term followed by operators and
/// terms parses to the tree in which each operator, whatever its kind, has
/// all that stands before it as its left operand.
pub proof fn lemma_expression_folds_left(
    tokens: Seq<TokenView>,
    pos: int,
    first: TokenView,
    operations: Seq<(MathToken, TokenView)>,
)
    requires
        0 <= pos < tokens.len(),
        tokens[pos] == first,
        is_term(first),
        spells_operations(tokens, pos + 1, operations),
        !(token_at(tokens, pos + 1 + 2 * operations.len()) is Arithmetic),
    ensures
        parse_expression(tokens, pos) == (Parsed {
            outcome: Ok(fold_left(term_node(first), operations)),
            next: pos + 1 + 2 * operations.len(),
        }),
{
    lemma_operations_fold_left(tokens, pos + 1, term_node(first), operations);
}

/// The tokens that spell an expression or a statement, in order. A program
/// or a call, which no statement holds, spells nothing.
pub open spec fn spelled(node: NodeView) -> Seq<TokenView>
    decreases node,
{
    match node {
        NodeView::Number(numeral) => seq![TokenView::Number(numeral)],
        NodeView::Identifier(name) => seq![TokenView::Identifier(name)],
        NodeView::String(text) => seq![TokenView::String(text)],
        NodeView::BinaryOp { left, op, right } => spelled(*left) + seq![op] + spelled(*right),
        NodeView::Let(name, value) => seq![
            TokenView::Let,
            TokenView::Identifier(name),
            TokenView::Equals,
        ] + spelled(*value) + seq![TokenView::Semicolon],
        NodeView::Final(name, value) => seq![
            TokenView::Final,
            TokenView::Identifier(name),
            TokenView::Equals,
        ] + spelled(*value) + seq![TokenView::Semicolon],
        NodeView::CompoundAssign { ident, op, value } => seq![TokenView::Identifier(ident), op]
            + spelled(*value) + seq![TokenView::Semicolon],
        _ => Seq::empty(),
    }
}

/// The tokens that spell a sequence of statements, one after the other.
pub open spec fn spelled_all(statements: Seq<NodeView>) -> Seq<TokenView>
    decreases statements.len(),
{
    if statements.len() == 0 {
        Seq::empty()
    } else {
        spelled(statements[0]) + spelled_all(statements.drop_first())
    }
}

/// Operators and terms that parse behind an operand extend what the
/// operand spells by exactly the tokens that were read.
proof fn lemma_operations_spelled(tokens: Seq<TokenView>, start: int, pos: int, left: NodeView)
    requires
        0 <= start <= pos <= tokens.len(),
        spelled(left) == tokens.subrange(start, pos),
        parse_operations(tokens, pos, left).outcome is Ok,
    ensures
        spelled(parse_operations(tokens, pos, left).outcome->Ok_0) == tokens.subrange(
            start,
            parse_operations(tokens, pos, left).next,
        ),
        pos <= parse_operations(tokens, pos, left).next <= tokens.len(),
    decreases tokens.len() - pos,
{
    match token_at(tokens, pos) {
        TokenView::Arithmetic(m) => {
            let right = parse_term(tokens, pos + 1);
            match right.outcome {
                Ok(operand) => {
                    let node = NodeView::BinaryOp {
                        left: Box::new(left),
                        op: TokenView::Arithmetic(m),
                        right: Box::new(operand),
                    };
                    assert(spelled(operand) == seq![tokens[pos + 1]]);
                    assert(spelled(node) == tokens.subrange(start, pos + 2)) by {
                        assert(tokens.subrange(start, pos + 2) == tokens.subrange(start, pos)
                            + seq![tokens[pos]] + seq![tokens[pos + 1]]);
                    }
                    lemma_operations_spelled(tokens, start, pos + 2, node);
                },
                Err(_) => {},
            }
        },
        _ => {},
    }
}

/// An expression that parses spells exactly the tokens that were read for
/// it.
pub proof fn lemma_expression_spelled(tokens: Seq<TokenView>, pos: int)
    requires
        0 <= pos <= tokens.len(),
        parse_expression(tokens, pos).outcome is Ok,
    ensures
        spelled(parse_expression(tokens, pos).outcome->Ok_0) == tokens.subrange(
            pos,
            parse_expression(tokens, pos).next,
        ),
        pos < parse_expression(tokens, pos).next <= tokens.len(),
{
    let first = parse_term(tokens, pos);
    let left = first.outcome->Ok_0;
    assert(spelled(left) == tokens.subrange(pos, pos + 1)) by {
        assert(tokens.subrange(pos, pos + 1) == seq![tokens[pos]]);
    }
    lemma_operations_spelled(tokens, pos, pos + 1, left);
}

/// A statement that parses spells exactly the tokens that were read for
/// it.
pub proof fn lemma_statement_spelled(tokens: Seq<TokenView>, pos: int)
    requires
        0 <= pos <= tokens.len(),
        parse_statement(tokens, pos).outcome is Ok,
    ensures
        spelled(parse_statement(tokens, pos).outcome->Ok_0) == tokens.subrange(
            pos,
            parse_statement(tokens, pos).next,
        ),
        pos < parse_statement(tokens, pos).next <= tokens.len(),
{
    let node = parse_statement(tokens, pos).outcome->Ok_0;
    let next = parse_statement(tokens, pos).next;
    match token_at(tokens, pos) {
        TokenView::Let | TokenView::Final => {
            lemma_expression_spelled(tokens, pos + 3);
            let value = parse_expression(tokens, pos + 3);
            assert(tokens.subrange(pos, next) == seq![tokens[pos], tokens[pos + 1], tokens[pos + 2]]
                + tokens.subrange(pos + 3, value.next) + seq![tokens[value.next]]);
        },
        _ => {
            lemma_expression_spelled(tokens, pos);
            let expression = parse_expression(tokens, pos);
            match expression.outcome {
                Ok(NodeView::BinaryOp { left, op: TokenView::Arithmetic(m), right }) => {
                    if is_compound(m) {
                        let whole = tokens.subrange(pos, expression.next);
                        let ident = spelled(*left);
                        assert(ident.len() == 1);
                        assert(whole == ident + seq![TokenView::Arithmetic(m)] + spelled(*right));
                        assert(tokens.subrange(pos, next) == whole + seq![tokens[expression.next]]);
                        assert(spelled(node) == ident + seq![TokenView::Arithmetic(m)] + spelled(
                            *right,
                        ) + seq![TokenView::Semicolon]) by {
                            assert(seq![ident[0], TokenView::Arithmetic(m)] == ident
                                + seq![TokenView::Arithmetic(m)]);
                        }
                    }
                },
                _ => {},
            }
        },
    }
}

/// A program that parses spells exactly the tokens from the cursor to the
/// end of the tokens, which is the first `EOF` or the end of the sequence:
/// nothing is skipped, added or reordered.
pub proof fn lemma_program_spelled(tokens: Seq<TokenView>, pos: int)
    requires
        0 <= pos <= tokens.len(),
        parse_program(tokens, pos).outcome is Ok,
    ensures
        parse_program(tokens, pos).outcome->Ok_0 is Program,
        spelled_all(parse_program(tokens, pos).outcome->Ok_0->Program_0) == tokens.subrange(
            pos,
            parse_program(tokens, pos).next,
        ),
        pos <= parse_program(tokens, pos).next <= tokens.len(),
        token_at(tokens, parse_program(tokens, pos).next) == TokenView::EOF,
    decreases tokens.len() - pos,
{
    if token_at(tokens, pos) == TokenView::EOF {
        assert(tokens.subrange(pos, pos) == Seq::<TokenView>::empty());
    } else {
        let statement = parse_statement(tokens, pos);
        lemma_statement_spelled(tokens, pos);
        lemma_program_spelled(tokens, statement.next);
        let rest = parse_program(tokens, statement.next);
        let node = statement.outcome->Ok_0;
        let statements = seq![node] + rest.outcome->Ok_0->Program_0;
        assert(statements[0] == node);
        assert(statements.drop_first() == rest.outcome->Ok_0->Program_0);
        assert(tokens.subrange(pos, rest.next) == tokens.subrange(pos, statement.next)
            + tokens.subrange(statement.next, rest.next));
    }
}

/// Whether a node is a term: a number, an identifier or a string.
pub open spec fn is_term_node(node: NodeView) -> bool {
    node is Number || node is Identifier || node is String
}

/// Whether a node has the shape of an expression as it is written: a term,
/// or an operation with an arithmetic operator whose right operand is a term
/// and whose left operand is such an expression.
pub open spec fn is_expression(node: NodeView) -> bool
    decreases node,
{
    match node {
        NodeView::BinaryOp { left, op, right } => {
            &&& op is Arithmetic
            &&& is_term_node(*right)
            &&& is_expression(*left)
        },
        _ => is_term_node(node),
    }
}

/// Whether a node has the shape of a statement as it is written: a
/// declaration of an expression; a compound assignment of a term; or an
/// expression whose last operator is no compound assignment.
pub open spec fn is_statement(node: NodeView) -> bool {
    match node {
        NodeView::Let(_, value) => is_expression(*value),
        NodeView::Final(_, value) => is_expression(*value),
        NodeView::CompoundAssign { ident, op, value } => {
            &&& op matches TokenView::Arithmetic(m) && is_compound(m)
            &&& is_term_node(*value)
        },
        NodeView::BinaryOp { left, op, right } => {
            &&& is_expression(node)
            &&& op matches TokenView::Arithmetic(m) && !is_compound(m)
        },
        _ => is_term_node(node),
    }
}

/// An expression spells at least one token, none of them `EOF`, and starts
/// with a term.
proof fn lemma_expression_tokens(node: NodeView)
    requires
        is_expression(node),
    ensures
        spelled(node).len() > 0,
        is_term(spelled(node)[0]),
        forall|i: int| 0 <= i < spelled(node).len() ==> spelled(node)[i] != TokenView::EOF,
    decreases node,
{
    match node {
        NodeView::BinaryOp { left, op, right } => {
            lemma_expression_tokens(*left);
            let before = spelled(*left);
            assert forall|i: int| 0 <= i < spelled(node).len() implies spelled(node)[i]
                != TokenView::EOF by {
                if i < before.len() {
                    assert(spelled(node)[i] == before[i]);
                } else if i == before.len() {
                    assert(spelled(node)[i] == op);
                } else {
                    assert(spelled(node)[i] == spelled(*right)[0]);
                }
            }
        },
        _ => {},
    }
}

/// Where the tokens behind an operand that was read spell the rest of an
/// expression, and no operator follows them, reading operators and terms
/// completes that expression.
proof fn lemma_operations_complete(
    tokens: Seq<TokenView>,
    start: int,
    pos: int,
    left: NodeView,
    node: NodeView,
)
    requires
        0 <= start <= pos <= tokens.len(),
        is_expression(node),
        start + spelled(node).len() <= tokens.len(),
        tokens.subrange(start, start + spelled(node).len()) == spelled(node),
        !(token_at(tokens, start + spelled(node).len()) is Arithmetic),
        reaches(left, pos - start, node),
    ensures
        parse_operations(tokens, pos, left) == (Parsed {
            outcome: Ok(node),
            next: start + spelled(node).len(),
        }),
    decreases spelled(node).len() - (pos - start),
{
    let whole = spelled(node);
    lemma_reaches(left, pos - start, node);
    if pos - start < whole.len() {
        let grown = grow(left, pos - start, node);
        assert(tokens[pos] == whole[pos - start]) by {
            assert(tokens.subrange(start, start + whole.len())[pos - start] == tokens[pos]);
        }
        assert(tokens[pos + 1] == whole[pos - start + 1]) by {
            assert(tokens.subrange(start, start + whole.len())[pos - start + 1] == tokens[pos + 1]);
        }
        lemma_operations_complete(tokens, start, pos + 2, grown, node);
    }
}

/// Whether `left` is the part of the expression `node` that its first
/// `length` tokens spell.
spec fn reaches(left: NodeView, length: int, node: NodeView) -> bool
    decreases node,
{
    if left == node {
        length == spelled(node).len()
    } else {
        match node {
            NodeView::BinaryOp { left: inner, op, right } => reaches(left, length, *inner),
            _ => false,
        }
    }
}

/// The part of `node` that is one operator and one term longer than `left`.
spec fn grow(left: NodeView, length: int, node: NodeView) -> NodeView
    decreases node,
{
    match node {
        NodeView::BinaryOp { left: inner, op, right } => if *inner == left {
            node
        } else {
            grow(left, length, *inner)
        },
        _ => node,
    }
}

/// A part of an expression spells a prefix of what the expression spells;
/// where it is not the whole, an operator and a term follow it, and with
/// them it is again a part.
proof fn lemma_reaches(left: NodeView, length: int, node: NodeView)
    requires
        is_expression(node),
        reaches(left, length, node),
    ensures
        length == spelled(left).len(),
        length <= spelled(node).len(),
        length == spelled(node).len() ==> left == node,
        length < spelled(node).len() ==> {
            &&& length + 2 <= spelled(node).len()
            &&& spelled(node)[length] is Arithmetic
            &&& is_term(spelled(node)[length + 1])
            &&& grow(left, length, node) == (NodeView::BinaryOp {
                left: Box::new(left),
                op: spelled(node)[length],
                right: Box::new(term_node(spelled(node)[length + 1])),
            })
            &&& reaches(grow(left, length, node), length + 2, node)
        },
    decreases node,
{
    if left != node {
        match node {
            NodeView::BinaryOp { left: inner, op, right } => {
                lemma_reaches(left, length, *inner);
                lemma_expression_tokens(*inner);
                let before = spelled(*inner);
                assert(spelled(node) == before + seq![op] + spelled(*right));
                if *inner == left {
                    assert(spelled(node)[length] == op);
                    assert(spelled(node)[length + 1] == spelled(*right)[0]);
                    assert(term_node(spelled(*right)[0]) == *right);
                } else {
                    assert(spelled(node)[length] == before[length]);
                    assert(spelled(node)[length + 1] == before[length + 1]);
                }
            },
            _ => {},
        }
    }
}

/// The first term of an expression.
spec fn first_term(node: NodeView) -> NodeView
    decreases node,
{
    match node {
        NodeView::BinaryOp { left, op, right } => first_term(*left),
        _ => node,
    }
}

/// The first term of an expression is the part that its first token spells.
proof fn lemma_first_term(node: NodeView)
    requires
        is_expression(node),
    ensures
        is_term_node(first_term(node)),
        reaches(first_term(node), 1, node),
        spelled(node)[0] == spelled(first_term(node))[0],
        term_node(spelled(node)[0]) == first_term(node),
    decreases node,
{
    match node {
        NodeView::BinaryOp { left, op, right } => {
            lemma_first_term(*left);
            lemma_expression_tokens(*left);
        },
        _ => {},
    }
}

/// Where tokens spell an expression and no operator follows them, they
/// parse to that expression: the parser reads back what was written.
pub proof fn lemma_expression_complete(tokens: Seq<TokenView>, pos: int, node: NodeView)
    requires
        0 <= pos,
        is_expression(node),
        pos + spelled(node).len() <= tokens.len(),
        tokens.subrange(pos, pos + spelled(node).len()) == spelled(node),
        !(token_at(tokens, pos + spelled(node).len()) is Arithmetic),
    ensures
        parse_expression(tokens, pos) == (Parsed {
            outcome: Ok(node),
            next: pos + spelled(node).len(),
        }),
{
    lemma_first_term(node);
    lemma_expression_tokens(node);
    assert(tokens[pos] == spelled(node)[0]) by {
        assert(tokens.subrange(pos, pos + spelled(node).len())[0] == tokens[pos]);
    }
    lemma_operations_complete(tokens, pos, pos + 1, first_term(node), node);
}

/// A statement spells at least one token and starts with a keyword or a
/// term, so with no operator and not with `EOF`.
proof fn lemma_statement_tokens(node: NodeView)
    requires
        is_statement(node),
    ensures
        spelled(node).len() > 0,
        !(spelled(node)[0] is Arithmetic),
        spelled(node)[0] != TokenView::EOF,
{
    match node {
        NodeView::BinaryOp { left, op, right } => {
            lemma_expression_tokens(node);
        },
        _ => {},
    }
}

/// Where tokens spell a statement and no operator follows them, they parse
/// to that statement.
pub proof fn lemma_statement_complete(tokens: Seq<TokenView>, pos: int, node: NodeView)
    requires
        0 <= pos,
        is_statement(node),
        pos + spelled(node).len() <= tokens.len(),
        tokens.subrange(pos, pos + spelled(node).len()) == spelled(node),
        !(token_at(tokens, pos + spelled(node).len()) is Arithmetic),
    ensures
        parse_statement(tokens, pos) == (Parsed {
            outcome: Ok(node),
            next: pos + spelled(node).len(),
        }),
{
    let whole = spelled(node);
    let end = pos + whole.len();
    assert forall|i: int| 0 <= i < whole.len() implies tokens[pos + i] == #[trigger] whole[i] by {
        assert(tokens.subrange(pos, end)[i] == tokens[pos + i]);
    }
    match node {
        NodeView::Let(name, value) => {
            let inner = spelled(*value);
            assert(whole.len() == inner.len() + 4);
            assert(tokens[pos] == whole[0]);
            assert(tokens[pos + 1] == whole[1]);
            assert(tokens[pos + 2] == whole[2]);
            assert(tokens[pos + (whole.len() - 1)] == whole[whole.len() - 1]);
            assert(tokens.subrange(pos + 3, pos + 3 + inner.len()) == inner) by {
                assert forall|i: int| 0 <= i < inner.len() implies tokens[pos + 3 + i]
                    == #[trigger] inner[i] by {
                    assert(tokens[pos + (3 + i)] == whole[3 + i]);
                }
            }
            lemma_declaration_complete(tokens, pos, name, *value, true);
        },
        NodeView::Final(name, value) => {
            let inner = spelled(*value);
            assert(whole.len() == inner.len() + 4);
            assert(tokens[pos] == whole[0]);
            assert(tokens[pos + 1] == whole[1]);
            assert(tokens[pos + 2] == whole[2]);
            assert(tokens[pos + (whole.len() - 1)] == whole[whole.len() - 1]);
            assert(tokens.subrange(pos + 3, pos + 3 + inner.len()) == inner) by {
                assert forall|i: int| 0 <= i < inner.len() implies tokens[pos + 3 + i]
                    == #[trigger] inner[i] by {
                    assert(tokens[pos + (3 + i)] == whole[3 + i]);
                }
            }
            lemma_declaration_complete(tokens, pos, name, *value, false);
        },
        NodeView::CompoundAssign { ident, op, value } => {
            let expression = NodeView::BinaryOp {
                left: Box::new(NodeView::Identifier(ident)),
                op,
                right: value,
            };
            let target = NodeView::Identifier(ident);
            assert(spelled(target) == seq![TokenView::Identifier(ident)]);
            assert(is_expression(target));
            assert(spelled(*value).len() == 1);
            assert(whole.len() == 4);
            assert(tokens[pos] == whole[0]);
            assert(tokens[pos + 1] == whole[1]);
            assert(tokens[pos + 2] == whole[2]);
            assert(tokens[pos + 3] == whole[3]);
            assert(tokens.subrange(pos, pos + 3) == spelled(expression));
            lemma_expression_complete(tokens, pos, expression);
        },
        _ => {
            lemma_expression_tokens(node);
            assert(tokens[pos] == whole[0]);
            lemma_expression_complete(tokens, pos, node);
        },
    }
}

/// Where tokens spell a declaration, they parse to it.
proof fn lemma_declaration_complete(
    tokens: Seq<TokenView>,
    pos: int,
    name: Seq<char>,
    value: NodeView,
    mutable: bool,
)
    requires
        0 <= pos,
        is_expression(value),
        pos + spelled(value).len() + 4 <= tokens.len(),
        tokens[pos] == if mutable {
            TokenView::Let
        } else {
            TokenView::Final
        },
        tokens[pos + 1] == TokenView::Identifier(name),
        tokens[pos + 2] == TokenView::Equals,
        tokens.subrange(pos + 3, pos + 3 + spelled(value).len()) == spelled(value),
        tokens[pos + 3 + spelled(value).len()] == TokenView::Semicolon,
    ensures
        parse_statement(tokens, pos) == (Parsed {
            outcome: Ok(
                if mutable {
                    NodeView::Let(name, Box::new(value))
                } else {
                    NodeView::Final(name, Box::new(value))
                },
            ),
            next: pos + spelled(value).len() + 4,
        }),
{
    lemma_expression_complete(tokens, pos + 3, value);
}

/// Where tokens spell statements, one after the other and nothing else,
/// they parse to the program of those statements: the parser reads back
/// every program as it was written.
pub proof fn lemma_program_complete(tokens: Seq<TokenView>, pos: int, statements: Seq<NodeView>)
    requires
        0 <= pos <= tokens.len(),
        forall|i: int| 0 <= i < statements.len() ==> is_statement(#[trigger] statements[i]),
        tokens.subrange(pos, tokens.len() as int) == spelled_all(statements),
    ensures
        parse_program(tokens, pos) == (Parsed {
            outcome: Ok(NodeView::Program(statements)),
            next: tokens.len() as int,
        }),
    decreases statements.len(),
{
    let rest = tokens.subrange(pos, tokens.len() as int);
    if statements.len() == 0 {
        assert(rest.len() == 0);
        assert(statements == Seq::<NodeView>::empty());
    } else {
        let first = statements[0];
        let others = statements.drop_first();
        let whole = spelled(first);
        let end = pos + whole.len();
        lemma_statement_tokens(first);
        assert(rest == whole + spelled_all(others));
        assert(rest.len() == whole.len() + spelled_all(others).len());
        assert(tokens.subrange(pos, end) == whole) by {
            assert(tokens.subrange(pos, end) == rest.subrange(0, whole.len() as int));
        }
        assert(tokens[pos] == whole[0]) by {
            assert(rest[0] == tokens[pos]);
        }
        assert(tokens.subrange(end, tokens.len() as int) == spelled_all(others)) by {
            assert(tokens.subrange(end, tokens.len() as int) == rest.subrange(
                end - pos,
                rest.len() as int,
            ));
        }
        assert forall|i: int| 0 <= i < others.len() implies is_statement(#[trigger] others[i]) by {
            assert(others[i] == statements[i + 1]);
        }
        if others.len() > 0 {
            lemma_statement_tokens(others[0]);
            assert(spelled_all(others)[0] == spelled(others[0])[0]);
            assert(tokens[end] == spelled_all(others)[0]) by {
                assert(tokens.subrange(end, tokens.len() as int)[0] == tokens[end]);
            }
        } else {
            assert(spelled_all(others).len() == 0);
        }
        lemma_statement_complete(tokens, pos, first);
        lemma_program_complete(tokens, end, others);
        assert(seq![first] + others == statements);
    }
}

/// A sequence of statements is read back from what it spells: parsing is
/// the inverse of spelling on every program of statements.
pub proof fn lemma_parse_inverts_spelling(statements: Seq<NodeView>)
    requires
        forall|i: int| 0 <= i < statements.len() ==> is_statement(#[trigger] statements[i]),
    ensures
        parse_tokens(spelled_all(statements)) == Ok::<NodeView, ParseErrorView>(
            NodeView::Program(statements),
        ),
{
    let tokens = spelled_all(statements);
    assert(tokens.subrange(0, tokens.len() as int) == tokens);
    lemma_program_complete(tokens, 0, statements);
}

/// What operators and terms behind an expression parse to is an
/// expression.
proof fn lemma_operations_shape(tokens: Seq<TokenView>, pos: int, left: NodeView)
    requires
        is_expression(left),
        parse_operations(tokens, pos, left).outcome is Ok,
    ensures
        is_expression(parse_operations(tokens, pos, left).outcome->Ok_0),
    decreases tokens.len() - pos,
{
    match token_at(tokens, pos) {
        TokenView::Arithmetic(m) => {
            let right = parse_term(tokens, pos + 1);
            match right.outcome {
                Ok(operand) => {
                    if pos < right.next <= tokens.len() {
                        lemma_operations_shape(
                            tokens,
                            right.next,
                            NodeView::BinaryOp {
                                left: Box::new(left),
                                op: TokenView::Arithmetic(m),
                                right: Box::new(operand),
                            },
                        );
                    }
                },
                Err(_) => {},
            }
        },
        _ => {},
    }
}

/// What parses as an expression has the shape of one.
pub proof fn lemma_expression_shape(tokens: Seq<TokenView>, pos: int)
    requires
        parse_expression(tokens, pos).outcome is Ok,
    ensures
        is_expression(parse_expression(tokens, pos).outcome->Ok_0),
{
    let first = parse_term(tokens, pos);
    lemma_operations_shape(tokens, first.next, first.outcome->Ok_0);
}

/// What parses as a statement has the shape of one.
pub proof fn lemma_statement_shape(tokens: Seq<TokenView>, pos: int)
    requires
        parse_statement(tokens, pos).outcome is Ok,
    ensures
        is_statement(parse_statement(tokens, pos).outcome->Ok_0),
{
    match token_at(tokens, pos) {
        TokenView::Let | TokenView::Final => {
            lemma_expression_shape(tokens, pos + 3);
        },
        _ => {
            lemma_expression_shape(tokens, pos);
        },
    }
}

/// What parses as a program is a program of statements.
pub proof fn lemma_program_shape(tokens: Seq<TokenView>, pos: int)
    requires
        0 <= pos <= tokens.len(),
        parse_program(tokens, pos).outcome is Ok,
    ensures
        parse_program(tokens, pos).outcome->Ok_0 is Program,
        forall|i: int|
            0 <= i < parse_program(tokens, pos).outcome->Ok_0->Program_0.len() ==> is_statement(
                #[trigger] parse_program(tokens, pos).outcome->Ok_0->Program_0[i],
            ),
    decreases tokens.len() - pos,
{
    if token_at(tokens, pos) != TokenView::EOF {
        let statement = parse_statement(tokens, pos);
        lemma_statement_shape(tokens, pos);
        lemma_statement_spelled(tokens, pos);
        lemma_program_shape(tokens, statement.next);
    }
}

/// The parser, said in one sentence: tokens without `EOF` among them parse
/// to a program if and only if its statements have the shape of statements
/// and spell exactly those tokens.
pub proof fn lemma_parse_is_the_inverse_of_spelling(
    tokens: Seq<TokenView>,
    statements: Seq<NodeView>,
)
    requires
        forall|k: int| 0 <= k < tokens.len() ==> tokens[k] != TokenView::EOF,
    ensures
        parse_tokens(tokens) == Ok::<NodeView, ParseErrorView>(NodeView::Program(statements)) <==> {
            &&& forall|i: int| 0 <= i < statements.len() ==> is_statement(#[trigger] statements[i])
            &&& spelled_all(statements) == tokens
        },
{
    if parse_tokens(tokens) == Ok::<NodeView, ParseErrorView>(NodeView::Program(statements)) {
        lemma_program_shape(tokens, 0);
        lemma_program_spelled(tokens, 0);
        let next = parse_program(tokens, 0).next;
        assert(next == tokens.len());
        assert(tokens.subrange(0, tokens.len() as int) == tokens);
    }
    if (forall|i: int| 0 <= i < statements.len() ==> is_statement(#[trigger] statements[i]))
        && spelled_all(statements) == tokens {
        lemma_parse_inverts_spelling(statements);
    }
}

} // verus!
