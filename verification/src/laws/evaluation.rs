//! Evaluation under a fixed arithmetic, and what no statement changes.

use vstd::prelude::*;
use crate::lexer::{MathToken, TokenView};
use crate::parser::NodeView;
use crate::semantics::{
    as_memory, as_number, assigned_operator, binary_outcome, binds, discards, effect, evaluates,
    evaluates_to_memory, evaluates_to_number, exact, executes, follows, numerics_of, result,
    runs, stops, updates, value, value_of, EvalErrorView, MemoryView, Numerics, StoreView,
    ValueView,
};

verus! {

/// With an arithmetic that follows two functions, an expression evaluates
/// to nothing but its value under them.
pub proof fn lemma_value_is_the_outcome(
    node: NodeView,
    store: StoreView,
    numerics: Numerics,
    read: spec_fn(Seq<char>) -> Option<u64>,
    compute: spec_fn(MathToken, u64, u64) -> u64,
    out: Result<ValueView, EvalErrorView>,
)
    requires
        follows(numerics, read, compute),
        evaluates(node, store, numerics, out),
    ensures
        out == value(node, store, read, compute),
    decreases node,
{
    match node {
        NodeView::BinaryOp { left, op, right } => {
            let (l, r) = choose|
                l: Result<ValueView, EvalErrorView>,
                r: Result<ValueView, EvalErrorView>,
            |
                #![trigger binary_outcome(numerics.computes, op, l, r, out)]
                {
                    &&& evaluates(*left, store, numerics, l)
                    &&& l is Ok ==> evaluates(*right, store, numerics, r)
                    &&& binary_outcome(numerics.computes, op, l, r, out)
                };
            lemma_value_is_the_outcome(*left, store, numerics, read, compute, l);
            if l is Ok {
                lemma_value_is_the_outcome(*right, store, numerics, read, compute, r);
            }
        },
        _ => {},
    }
}

/// With the arithmetic that answers exactly what two functions give, an
/// expression does evaluate to its value under them.
pub proof fn lemma_value_is_an_outcome(
    node: NodeView,
    store: StoreView,
    read: spec_fn(Seq<char>) -> Option<u64>,
    compute: spec_fn(MathToken, u64, u64) -> u64,
)
    ensures
        evaluates(node, store, exact(read, compute), value(node, store, read, compute)),
    decreases node,
{
    let numerics = exact(read, compute);
    match node {
        NodeView::BinaryOp { left, op, right } => {
            lemma_value_is_an_outcome(*left, store, read, compute);
            lemma_value_is_an_outcome(*right, store, read, compute);
            let l = value(*left, store, read, compute);
            let r = value(*right, store, read, compute);
            assert(binary_outcome(numerics.computes, op, l, r, value(node, store, read, compute)));
        },
        _ => {},
    }
}

/// With an arithmetic that follows two functions, a statement yields
/// nothing but its effect under them.
pub proof fn lemma_effect_is_the_outcome(
    statement: NodeView,
    store: StoreView,
    numerics: Numerics,
    read: spec_fn(Seq<char>) -> Option<u64>,
    compute: spec_fn(MathToken, u64, u64) -> u64,
    out: Result<StoreView, EvalErrorView>,
)
    requires
        follows(numerics, read, compute),
        executes(statement, store, numerics, out),
    ensures
        out == effect(statement, store, read, compute),
{
    assert forall|node: NodeView, v: Result<ValueView, EvalErrorView>| #[trigger]
        evaluates(node, store, numerics, v) implies v == value(node, store, read, compute) by {
        lemma_value_is_the_outcome(node, store, numerics, read, compute, v);
    }
}

/// With an arithmetic that follows two functions, a run yields nothing but
/// its result under them.
pub proof fn lemma_result_is_the_outcome(
    statements: Seq<NodeView>,
    store: StoreView,
    numerics: Numerics,
    read: spec_fn(Seq<char>) -> Option<u64>,
    compute: spec_fn(MathToken, u64, u64) -> u64,
    out: Result<StoreView, EvalErrorView>,
)
    requires
        follows(numerics, read, compute),
        runs(statements, store, numerics, out),
    ensures
        out == result(statements, store, read, compute),
    decreases statements.len(),
{
    if statements.len() > 0 {
        let first = choose|first: Result<StoreView, EvalErrorView>|
            #![trigger executes(statements[0], store, numerics, first)]
            {
                &&& executes(statements[0], store, numerics, first)
                &&& match first {
                    Ok(next) => runs(statements.drop_first(), next, numerics, out),
                    Err(e) => out == Err::<StoreView, EvalErrorView>(e),
                }
            };
        lemma_effect_is_the_outcome(statements[0], store, numerics, read, compute, first);
        match first {
            Ok(next) => {
                lemma_result_is_the_outcome(
                    statements.drop_first(),
                    next,
                    numerics,
                    read,
                    compute,
                    out,
                );
            },
            Err(_) => {},
        }
    }
}

/// With the arithmetic that answers exactly what two functions give, a
/// statement does yield its effect under them.
pub proof fn lemma_effect_is_an_outcome(
    statement: NodeView,
    store: StoreView,
    read: spec_fn(Seq<char>) -> Option<u64>,
    compute: spec_fn(MathToken, u64, u64) -> u64,
)
    ensures
        executes(statement, store, exact(read, compute), effect(statement, store, read, compute)),
{
    let numerics = exact(read, compute);
    let out = effect(statement, store, read, compute);
    match statement {
        NodeView::Let(name, expression) => {
            lemma_value_is_an_outcome(*expression, store, read, compute);
            let v = value(*expression, store, read, compute);
            assert(binds(store, name, as_memory(v, true)) == out);
        },
        NodeView::Final(name, expression) => {
            lemma_value_is_an_outcome(*expression, store, read, compute);
            let v = value(*expression, store, read, compute);
            assert(binds(store, name, as_memory(v, false)) == out);
        },
        NodeView::CompoundAssign { ident, op, value: operand } => {
            lemma_value_is_an_outcome(*operand, store, read, compute);
            let v = value(*operand, store, read, compute);
            if store.contains_key(ident) && store[ident].is_mutable() {
                match store[ident] {
                    MemoryView::Number(current, _) => match assigned_operator(op) {
                        Some(m) => {
                            assert(updates(
                                numerics.computes,
                                store,
                                ident,
                                current,
                                m,
                                as_number(v),
                                out,
                            ));
                        },
                        None => {},
                    },
                    _ => {},
                }
            }
        },
        _ => {
            lemma_value_is_an_outcome(statement, store, read, compute);
            let v = value(statement, store, read, compute);
            assert(discards(store, v) == out);
        },
    }
}

/// With the arithmetic that answers exactly what two functions give, a run
/// does yield its result under them.
pub proof fn lemma_result_is_an_outcome(
    statements: Seq<NodeView>,
    store: StoreView,
    read: spec_fn(Seq<char>) -> Option<u64>,
    compute: spec_fn(MathToken, u64, u64) -> u64,
)
    ensures
        runs(statements, store, exact(read, compute), result(statements, store, read, compute)),
    decreases statements.len(),
{
    if statements.len() > 0 {
        lemma_effect_is_an_outcome(statements[0], store, read, compute);
        match effect(statements[0], store, read, compute) {
            Ok(next) => {
                lemma_result_is_an_outcome(statements.drop_first(), next, read, compute);
            },
            Err(_) => {},
        }
    }
}

/// Two executable functions whose contracts fix their answers give an
/// arithmetic that follows the functions of those answers.
pub proof fn lemma_contracts_follow<P: Fn(&str) -> Option<u64>, A: Fn(MathToken, u64, u64) -> u64>(
    literal: P,
    arith: A,
    read: spec_fn(Seq<char>) -> Option<u64>,
    compute: spec_fn(MathToken, u64, u64) -> u64,
)
    requires
        forall|text: &str, answer: Option<u64>| #[trigger]
            call_ensures(literal, (text,), answer) ==> answer == read(text@),
        forall|m: MathToken, a: u64, b: u64, c: u64| #[trigger]
            call_ensures(arith, (m, a, b), c) ==> c == compute(m, a, b),
    ensures
        follows(numerics_of(literal, arith), read, compute),
{
}

/// Whether `statement` declares `name`.
pub open spec fn declares(statement: NodeView, name: Seq<char>) -> bool {
    match statement {
        NodeView::Let(declared, _) => declared == name,
        NodeView::Final(declared, _) => declared == name,
        _ => false,
    }
}

/// A statement removes no binding, and it changes the mutability of none
/// but the one that it declares.
pub proof fn lemma_flags_are_kept(
    statement: NodeView,
    store: StoreView,
    numerics: Numerics,
    next: StoreView,
    name: Seq<char>,
)
    requires
        executes(statement, store, numerics, Ok(next)),
        store.contains_key(name),
        !declares(statement, name),
    ensures
        next.contains_key(name),
        next[name].is_mutable() == store[name].is_mutable(),
{
    lemma_executes_changes(statement, store, numerics, next, name);
}

/// An immutable binding holds its value until its name is declared again:
/// no other statement changes it.
pub proof fn lemma_final_is_kept(
    statement: NodeView,
    store: StoreView,
    numerics: Numerics,
    next: StoreView,
    name: Seq<char>,
)
    requires
        executes(statement, store, numerics, Ok(next)),
        store.contains_key(name),
        !store[name].is_mutable(),
        !declares(statement, name),
    ensures
        next.contains_key(name),
        next[name] == store[name],
{
    lemma_executes_changes(statement, store, numerics, next, name);
}

/// What a statement may change of a binding that it does not declare: the
/// number of a mutable one, by a compound assignment to it, and nothing
/// else.
proof fn lemma_executes_changes(
    statement: NodeView,
    store: StoreView,
    numerics: Numerics,
    next: StoreView,
    name: Seq<char>,
)
    requires
        executes(statement, store, numerics, Ok(next)),
        store.contains_key(name),
        !declares(statement, name),
    ensures
        next.contains_key(name),
        next[name] == store[name] || (store[name].is_mutable() && next[name].is_mutable()),
{
    let out = Ok::<StoreView, EvalErrorView>(next);
    match statement {
        NodeView::Let(declared, expression) => {
            let memory = choose|memory: Result<MemoryView, EvalErrorView>|
                #![trigger binds(store, declared, memory)]
                evaluates_to_memory(*expression, true, store, numerics, memory) && binds(
                    store,
                    declared,
                    memory,
                ) == out;
        },
        NodeView::Final(declared, expression) => {
            let memory = choose|memory: Result<MemoryView, EvalErrorView>|
                #![trigger binds(store, declared, memory)]
                evaluates_to_memory(*expression, false, store, numerics, memory) && binds(
                    store,
                    declared,
                    memory,
                ) == out;
        },
        NodeView::CompoundAssign { ident, op, value: operand } => {
            match store[ident] {
                MemoryView::Number(current, _) => match assigned_operator(op) {
                    Some(m) => {
                        let v = choose|v: Result<u64, EvalErrorView>|
                            #![trigger updates(numerics.computes, store, ident, current, m, v, out)]
                            {
                                &&& evaluates_to_number(*operand, store, numerics, v)
                                &&& updates(numerics.computes, store, ident, current, m, v, out)
                            };
                    },
                    None => {},
                },
                _ => {},
            }
        },
        _ => {
            let v = choose|v: Result<ValueView, EvalErrorView>|
                #![trigger discards(store, v)]
                evaluates(statement, store, numerics, v) && discards(store, v) == out;
        },
    }
}

/// An immutable binding outlives every run that does not declare its name
/// again: at the end it holds what it held at the start.
pub proof fn lemma_final_outlives_run(
    statements: Seq<NodeView>,
    store: StoreView,
    numerics: Numerics,
    last: StoreView,
    name: Seq<char>,
)
    requires
        runs(statements, store, numerics, Ok(last)),
        store.contains_key(name),
        !store[name].is_mutable(),
        forall|i: int| 0 <= i < statements.len() ==> !declares(#[trigger] statements[i], name),
    ensures
        last.contains_key(name),
        last[name] == store[name],
    decreases statements.len(),
{
    if statements.len() > 0 {
        let out = Ok::<StoreView, EvalErrorView>(last);
        let first = choose|first: Result<StoreView, EvalErrorView>|
            #![trigger executes(statements[0], store, numerics, first)]
            {
                &&& executes(statements[0], store, numerics, first)
                &&& match first {
                    Ok(next) => runs(statements.drop_first(), next, numerics, out),
                    Err(e) => out == Err::<StoreView, EvalErrorView>(e),
                }
            };
        let next = first->Ok_0;
        lemma_final_is_kept(statements[0], store, numerics, next, name);
        let rest = statements.drop_first();
        assert forall|i: int| 0 <= i < rest.len() implies !declares(#[trigger] rest[i], name) by {
            assert(rest[i] == statements[i + 1]);
        }
        lemma_final_outlives_run(rest, next, numerics, last, name);
    }
}

/// A run that stops with an error yields that error.
pub proof fn lemma_stop_is_an_outcome(
    statements: Seq<NodeView>,
    store: StoreView,
    numerics: Numerics,
    reached: StoreView,
    e: EvalErrorView,
)
    requires
        stops(statements, store, numerics, reached, e),
    ensures
        runs(statements, store, numerics, Err(e)),
    decreases statements.len(),
{
    let first = choose|first: Result<StoreView, EvalErrorView>|
        #![trigger executes(statements[0], store, numerics, first)]
        {
            &&& executes(statements[0], store, numerics, first)
            &&& match first {
                Ok(next) => stops(statements.drop_first(), next, numerics, reached, e),
                Err(stop) => stop == e && reached == store,
            }
        };
    match first {
        Ok(next) => {
            lemma_stop_is_an_outcome(statements.drop_first(), next, numerics, reached, e);
        },
        Err(_) => {},
    }
}

/// A declaration that succeeds binds its name, mutable for `let` and
/// immutable for `final`, to a value of its expression, and leaves every
/// other binding as it was.
pub proof fn lemma_declaration_binds(
    name: Seq<char>,
    expression: NodeView,
    mutable: bool,
    store: StoreView,
    numerics: Numerics,
    next: StoreView,
)
    requires
        executes(
            if mutable {
                NodeView::Let(name, Box::new(expression))
            } else {
                NodeView::Final(name, Box::new(expression))
            },
            store,
            numerics,
            Ok(next),
        ),
    ensures
        next.contains_key(name),
        next[name].is_mutable() == mutable,
        evaluates(expression, store, numerics, Ok(value_of(next[name]))),
        next == store.insert(name, next[name]),
{
    let out = Ok::<StoreView, EvalErrorView>(next);
    let memory = choose|memory: Result<MemoryView, EvalErrorView>|
        #![trigger binds(store, name, memory)]
        evaluates_to_memory(expression, mutable, store, numerics, memory) && binds(
            store,
            name,
            memory,
        ) == out;
    let value = choose|value: Result<ValueView, EvalErrorView>|
        #![trigger as_memory(value, mutable)]
        evaluates(expression, store, numerics, value) && as_memory(value, mutable) == memory;
}

/// A compound assignment to an immutable binding fails, whatever its
/// operator and its expression are, and says so.
pub proof fn lemma_assignment_to_final_fails(
    ident: Seq<char>,
    op: TokenView,
    operand: NodeView,
    store: StoreView,
    numerics: Numerics,
    out: Result<StoreView, EvalErrorView>,
)
    requires
        store.contains_key(ident),
        !store[ident].is_mutable(),
        executes(
            NodeView::CompoundAssign { ident, op, value: Box::new(operand) },
            store,
            numerics,
            out,
        ),
    ensures
        out == Err::<StoreView, EvalErrorView>(EvalErrorView::ImmutableBinding(ident)),
{
}

/// A compound assignment to a name that is not bound fails, and binds
/// nothing.
pub proof fn lemma_assignment_to_unbound_fails(
    ident: Seq<char>,
    op: TokenView,
    operand: NodeView,
    store: StoreView,
    numerics: Numerics,
    out: Result<StoreView, EvalErrorView>,
)
    requires
        !store.contains_key(ident),
        executes(
            NodeView::CompoundAssign { ident, op, value: Box::new(operand) },
            store,
            numerics,
            out,
        ),
    ensures
        out == Err::<StoreView, EvalErrorView>(EvalErrorView::BindingNotFound(ident)),
{
}

/// A compound assignment that succeeds changes the number of the binding
/// that it names to what the arithmetic answers, with the operator without
/// its `=`, on the number before and a number of the expression; the
/// binding stays mutable and every other binding as it was.
pub proof fn lemma_assignment_updates(
    ident: Seq<char>,
    op: TokenView,
    operand: NodeView,
    store: StoreView,
    numerics: Numerics,
    next: StoreView,
)
    requires
        executes(
            NodeView::CompoundAssign { ident, op, value: Box::new(operand) },
            store,
            numerics,
            Ok(next),
        ),
    ensures
        store.contains_key(ident),
        store[ident] matches MemoryView::Number(before, true),
        next.contains_key(ident),
        next[ident] matches MemoryView::Number(after, true),
        assigned_operator(op) is Some,
        exists|b: u64|
            evaluates(operand, store, numerics, Ok(ValueView::Number(b))) && #[trigger]
            (numerics.computes)(
                assigned_operator(op)->0,
                store[ident]->Number_0,
                b,
                next[ident]->Number_0,
            ),
        next == store.insert(ident, next[ident]),
{
    let out = Ok::<StoreView, EvalErrorView>(next);
    let current = store[ident]->Number_0;
    let m = assigned_operator(op)->0;
    let v = choose|v: Result<u64, EvalErrorView>|
        #![trigger updates(numerics.computes, store, ident, current, m, v, out)]
        {
            &&& evaluates_to_number(operand, store, numerics, v)
            &&& updates(numerics.computes, store, ident, current, m, v, out)
        };
    let value = choose|value: Result<ValueView, EvalErrorView>|
        #![trigger as_number(value)]
        evaluates(operand, store, numerics, value) && as_number(value) == v;
    let b = v->Ok_0;
    assert(value == Ok::<ValueView, EvalErrorView>(ValueView::Number(b)));
    assert((numerics.computes)(m, current, b, next[ident]->Number_0));
}

} // verus!
