//! What evaluation means: the values of expressions and the effect of
//! statements on the store.
//!
//! The meaning is stated twice. The relations (`evaluates`, `executes`,
//! `runs`) say what may come out for an arithmetic that is given as two
//! relations, so for any two functions that a caller hands in, whatever they
//! answer. The functions (`value`, `effect`, `result`) say what does come out
//! when numerals are read and numbers computed by two fixed functions. The
//! two agree wherever the arithmetic follows such functions
//! (`laws::evaluation`).

use vstd::prelude::*;
use crate::lexer::{MathToken, TokenView};
use crate::parser::{is_compound, NodeView};

verus! {

/// The mathematical value of a binding: a number or a string, and whether
/// it may change.
pub enum MemoryView {
    Number(u64, bool),
    String(Seq<char>, bool),
}

impl MemoryView {
    /// Whether the binding may change.
    pub open spec fn is_mutable(self) -> bool {
        match self {
            MemoryView::Number(_, mutable) => mutable,
            MemoryView::String(_, mutable) => mutable,
        }
    }
}

/// The bindings of a store, by name.
pub type StoreView = Map<Seq<char>, MemoryView>;

/// The mathematical value of what an expression evaluates to.
pub enum ValueView {
    Number(u64),
    String(Seq<char>),
}

/// The mathematical value of an evaluation error.
pub enum EvalErrorView {
    UnknownIdentifier(Seq<char>),
    BindingNotFound(Seq<char>),
    ImmutableBinding(Seq<char>),
    TypeMismatch(Seq<char>),
    InvalidOperator(TokenView),
    MalformedNumber(Seq<char>),
    Unsupported,
}

/// What the caller's arithmetic may answer, as two relations.
pub struct Numerics {
    /// `reads(numeral, answer)`: reading `numeral` may answer `answer`, a
    /// number or none.
    pub reads: spec_fn(Seq<char>, Option<u64>) -> bool,
    /// `computes(m, a, b, c)`: the plain operator `m` on `a` and `b` may
    /// answer `c`.
    pub computes: spec_fn(MathToken, u64, u64, u64) -> bool,
}

/// The arithmetic of two executable functions: what their contracts let
/// them answer.
pub open spec fn numerics_of<P: Fn(&str) -> Option<u64>, A: Fn(MathToken, u64, u64) -> u64>(
    literal: P,
    arith: A,
) -> Numerics {
    Numerics { reads: reads_of(literal), computes: computes_of(arith) }
}

/// What the contract of `literal` lets it answer on a numeral.
pub open spec fn reads_of<P: Fn(&str) -> Option<u64>>(literal: P) -> spec_fn(
    Seq<char>,
    Option<u64>,
) -> bool {
    |numeral: Seq<char>, answer: Option<u64>|
        exists|text: &str| text@ == numeral && #[trigger] call_ensures(literal, (text,), answer)
}

/// What the contract of `arith` lets it answer on an operator and two
/// numbers.
pub open spec fn computes_of<A: Fn(MathToken, u64, u64) -> u64>(arith: A) -> spec_fn(
    MathToken,
    u64,
    u64,
    u64,
) -> bool {
    |m: MathToken, a: u64, b: u64, c: u64| call_ensures(arith, (m, a, b), c)
}

/// Whether the caller's functions can be called on everything that the
/// evaluator hands them: any numeral, and any two numbers with a plain
/// operator.
pub open spec fn callable<P: Fn(&str) -> Option<u64>, A: Fn(MathToken, u64, u64) -> u64>(
    literal: P,
    arith: A,
) -> bool {
    &&& forall|numeral: &str| call_requires(literal, (numeral,))
    &&& forall|m: MathToken, a: u64, b: u64| !is_compound(m) ==> call_requires(arith, (m, a, b))
}

/// The value that a binding holds.
pub open spec fn value_of(memory: MemoryView) -> ValueView {
    match memory {
        MemoryView::Number(bits, _) => ValueView::Number(bits),
        MemoryView::String(text, _) => ValueView::String(text),
    }
}

/// The binding that holds `value`.
pub open spec fn memory_of(value: ValueView, mutable: bool) -> MemoryView {
    match value {
        ValueView::Number(bits) => MemoryView::Number(bits, mutable),
        ValueView::String(text) => MemoryView::String(text, mutable),
    }
}

/// What an identifier evaluates to: the value of its binding.
pub open spec fn lookup(store: StoreView, name: Seq<char>) -> Result<ValueView, EvalErrorView> {
    if store.contains_key(name) {
        Ok(value_of(store[name]))
    } else {
        Err(EvalErrorView::UnknownIdentifier(name))
    }
}

/// The plain operator that a token stands for in an expression.
pub open spec fn plain_operator(op: TokenView) -> Option<MathToken> {
    match op {
        TokenView::Arithmetic(m) => if is_compound(m) {
            None
        } else {
            Some(m)
        },
        _ => None,
    }
}

/// The plain operator that a compound assignment applies: the operator
/// without its `=`.
pub open spec fn assigned_operator(op: TokenView) -> Option<MathToken> {
    match op {
        TokenView::Arithmetic(MathToken::PlusEq) => Some(MathToken::Plus),
        TokenView::Arithmetic(MathToken::MinusEq) => Some(MathToken::Minus),
        TokenView::Arithmetic(MathToken::MultiplyEq) => Some(MathToken::Multiply),
        TokenView::Arithmetic(MathToken::DivideEq) => Some(MathToken::Divide),
        _ => None,
    }
}

/// Whether a number node may evaluate to `out`: to the number that reading
/// its numeral answers, or to an error where reading answers none.
pub open spec fn reads(
    reading: spec_fn(Seq<char>, Option<u64>) -> bool,
    numeral: Seq<char>,
    out: Result<ValueView, EvalErrorView>,
) -> bool {
    match out {
        Ok(ValueView::Number(bits)) => reading(numeral, Some(bits)),
        Err(e) => e == EvalErrorView::MalformedNumber(numeral) && reading(numeral, None::<u64>),
        _ => false,
    }
}

/// Whether an operation on two values may yield `out`. Both must be
/// numbers, the left one first, and the token a plain operator; then the
/// arithmetic decides.
pub open spec fn combines(
    computes: spec_fn(MathToken, u64, u64, u64) -> bool,
    op: TokenView,
    left: ValueView,
    right: ValueView,
    out: Result<ValueView, EvalErrorView>,
) -> bool {
    match (left, right) {
        (ValueView::String(text), _) => out == Err::<ValueView, EvalErrorView>(
            EvalErrorView::TypeMismatch(text),
        ),
        (ValueView::Number(_), ValueView::String(text)) => out == Err::<ValueView, EvalErrorView>(
            EvalErrorView::TypeMismatch(text),
        ),
        (ValueView::Number(a), ValueView::Number(b)) => match plain_operator(op) {
            Some(m) => out matches Ok(ValueView::Number(c)) && computes(m, a, b, c),
            None => out == Err::<ValueView, EvalErrorView>(EvalErrorView::InvalidOperator(op)),
        },
    }
}

/// Whether an operation whose operands evaluated to `left` and `right` may
/// yield `out`. The first error among the operands, from the left, is the
/// outcome; the right operand counts only where the left one has a value.
pub open spec fn binary_outcome(
    computes: spec_fn(MathToken, u64, u64, u64) -> bool,
    op: TokenView,
    left: Result<ValueView, EvalErrorView>,
    right: Result<ValueView, EvalErrorView>,
    out: Result<ValueView, EvalErrorView>,
) -> bool {
    match left {
        Err(e) => out == Err::<ValueView, EvalErrorView>(e),
        Ok(a) => match right {
            Err(e) => out == Err::<ValueView, EvalErrorView>(e),
            Ok(b) => combines(computes, op, a, b, out),
        },
    }
}

/// Whether the expression `node` may evaluate to `out` in `store`.
///
/// Everything but the numbers that the arithmetic answers is fixed: a string
/// evaluates to itself, an identifier to the value of its binding, an
/// operation to what the arithmetic makes of its operands, left before
/// right, and any other node to no value.
pub open spec fn evaluates(
    node: NodeView,
    store: StoreView,
    numerics: Numerics,
    out: Result<ValueView, EvalErrorView>,
) -> bool
    decreases node,
{
    match node {
        NodeView::Number(numeral) => reads(numerics.reads, numeral, out),
        NodeView::String(text) => out == Ok::<ValueView, EvalErrorView>(ValueView::String(text)),
        NodeView::Identifier(name) => out == lookup(store, name),
        NodeView::BinaryOp { left, op, right } => exists|
            l: Result<ValueView, EvalErrorView>,
            r: Result<ValueView, EvalErrorView>,
        |
            #![trigger binary_outcome(numerics.computes, op, l, r, out)]
            {
                &&& evaluates(*left, store, numerics, l)
                &&& l is Ok ==> evaluates(*right, store, numerics, r)
                &&& binary_outcome(numerics.computes, op, l, r, out)
            },
        _ => out == Err::<ValueView, EvalErrorView>(EvalErrorView::Unsupported),
    }
}

/// The number that a value is, or the type error that a string gives.
pub open spec fn as_number(value: Result<ValueView, EvalErrorView>) -> Result<u64, EvalErrorView> {
    match value {
        Ok(ValueView::Number(bits)) => Ok(bits),
        Ok(ValueView::String(text)) => Err(EvalErrorView::TypeMismatch(text)),
        Err(e) => Err(e),
    }
}

/// The binding that holds a value, with the given flag.
pub open spec fn as_memory(value: Result<ValueView, EvalErrorView>, mutable: bool) -> Result<
    MemoryView,
    EvalErrorView,
> {
    match value {
        Ok(v) => Ok(memory_of(v, mutable)),
        Err(e) => Err(e),
    }
}

/// Whether `node` may evaluate to the number in `out`; a string is a type
/// error.
pub open spec fn evaluates_to_number(
    node: NodeView,
    store: StoreView,
    numerics: Numerics,
    out: Result<u64, EvalErrorView>,
) -> bool {
    exists|value: Result<ValueView, EvalErrorView>|
        #![trigger as_number(value)]
        evaluates(node, store, numerics, value) && as_number(value) == out
}

/// Whether `node` may evaluate to what the binding in `out` holds.
pub open spec fn evaluates_to_memory(
    node: NodeView,
    mutable: bool,
    store: StoreView,
    numerics: Numerics,
    out: Result<MemoryView, EvalErrorView>,
) -> bool {
    exists|value: Result<ValueView, EvalErrorView>|
        #![trigger as_memory(value, mutable)]
        evaluates(node, store, numerics, value) && as_memory(value, mutable) == out
}

/// The store after a declaration whose expression evaluated to `memory`.
pub open spec fn binds(
    store: StoreView,
    name: Seq<char>,
    memory: Result<MemoryView, EvalErrorView>,
) -> Result<StoreView, EvalErrorView> {
    match memory {
        Ok(m) => Ok(store.insert(name, m)),
        Err(e) => Err(e),
    }
}

/// Whether a compound assignment to the mutable number `current`, bound to
/// `name`, may yield `out` when its expression evaluated to `value`: the
/// binding then holds what the arithmetic answers on `current` and the
/// value, and stays mutable.
pub open spec fn updates(
    computes: spec_fn(MathToken, u64, u64, u64) -> bool,
    store: StoreView,
    name: Seq<char>,
    current: u64,
    m: MathToken,
    value: Result<u64, EvalErrorView>,
    out: Result<StoreView, EvalErrorView>,
) -> bool {
    match value {
        Err(e) => out == Err::<StoreView, EvalErrorView>(e),
        Ok(operand) => {
            &&& out matches Ok(next)
            &&& next.contains_key(name)
            &&& next[name] matches MemoryView::Number(bits, true)
            &&& computes(m, current, operand, bits)
            &&& next == store.insert(name, MemoryView::Number(bits, true))
        },
    }
}

/// Whether the compound assignment `ident op value` may yield `out`. The
/// name must be bound, then mutable, then to a number, and the token must be
/// a compound operator; only then is the expression evaluated.
pub open spec fn assigns(
    ident: Seq<char>,
    op: TokenView,
    value: NodeView,
    store: StoreView,
    numerics: Numerics,
    out: Result<StoreView, EvalErrorView>,
) -> bool {
    if !store.contains_key(ident) {
        out == Err::<StoreView, EvalErrorView>(EvalErrorView::BindingNotFound(ident))
    } else if !store[ident].is_mutable() {
        out == Err::<StoreView, EvalErrorView>(EvalErrorView::ImmutableBinding(ident))
    } else {
        match store[ident] {
            MemoryView::String(text, _) => out == Err::<StoreView, EvalErrorView>(
                EvalErrorView::TypeMismatch(text),
            ),
            MemoryView::Number(current, _) => match assigned_operator(op) {
                None => out == Err::<StoreView, EvalErrorView>(EvalErrorView::InvalidOperator(op)),
                Some(m) => exists|operand: Result<u64, EvalErrorView>|
                    #![trigger updates(numerics.computes, store, ident, current, m, operand, out)]
                    {
                        &&& evaluates_to_number(value, store, numerics, operand)
                        &&& updates(numerics.computes, store, ident, current, m, operand, out)
                    },
            },
        }
    }
}

/// The store after an expression statement: unchanged, the value is
/// dropped.
pub open spec fn discards(store: StoreView, value: Result<ValueView, EvalErrorView>) -> Result<
    StoreView,
    EvalErrorView,
> {
    match value {
        Ok(_) => Ok(store),
        Err(e) => Err(e),
    }
}

/// Whether executing `statement` in `store` may yield `out`: the next store,
/// or the error that stopped it.
///
/// A declaration binds its name to the value of its expression and replaces
/// what the name was bound to; a compound assignment changes the number of a
/// mutable binding; an expression is evaluated and its value dropped; any
/// other node is not supported.
pub open spec fn executes(
    statement: NodeView,
    store: StoreView,
    numerics: Numerics,
    out: Result<StoreView, EvalErrorView>,
) -> bool {
    match statement {
        NodeView::Let(name, value) => exists|memory: Result<MemoryView, EvalErrorView>|
            #![trigger binds(store, name, memory)]
            evaluates_to_memory(*value, true, store, numerics, memory) && binds(store, name, memory)
                == out,
        NodeView::Final(name, value) => exists|memory: Result<MemoryView, EvalErrorView>|
            #![trigger binds(store, name, memory)]
            evaluates_to_memory(*value, false, store, numerics, memory) && binds(
                store,
                name,
                memory,
            ) == out,
        NodeView::CompoundAssign { ident, op, value } => assigns(
            ident,
            op,
            *value,
            store,
            numerics,
            out,
        ),
        _ => exists|value: Result<ValueView, EvalErrorView>|
            #![trigger discards(store, value)]
            evaluates(statement, store, numerics, value) && discards(store, value) == out,
    }
}

/// Whether executing `statements` in order, from `store` on, may yield
/// `out`: the store after the last of them, or the first error, which ends
/// the run.
pub open spec fn runs(
    statements: Seq<NodeView>,
    store: StoreView,
    numerics: Numerics,
    out: Result<StoreView, EvalErrorView>,
) -> bool
    decreases statements.len(),
{
    if statements.len() == 0 {
        out == Ok::<StoreView, EvalErrorView>(store)
    } else {
        exists|first: Result<StoreView, EvalErrorView>|
            #![trigger executes(statements[0], store, numerics, first)]
            {
                &&& executes(statements[0], store, numerics, first)
                &&& match first {
                    Ok(next) => runs(statements.drop_first(), next, numerics, out),
                    Err(e) => out == Err::<StoreView, EvalErrorView>(e),
                }
            }
    }
}

/// Whether executing `statements` in order, from `store` on, may stop with
/// the error `e` at a statement before which the store was `reached`: what
/// a run leaves behind when it fails.
pub open spec fn stops(
    statements: Seq<NodeView>,
    store: StoreView,
    numerics: Numerics,
    reached: StoreView,
    e: EvalErrorView,
) -> bool
    decreases statements.len(),
{
    &&& statements.len() > 0
    &&& exists|first: Result<StoreView, EvalErrorView>|
        #![trigger executes(statements[0], store, numerics, first)]
        {
            &&& executes(statements[0], store, numerics, first)
            &&& match first {
                Ok(next) => stops(statements.drop_first(), next, numerics, reached, e),
                Err(stop) => stop == e && reached == store,
            }
        }
}

/// The statements of a tree: those of a program, and none of any other
/// tree.
pub open spec fn statements_of(program: NodeView) -> Seq<NodeView> {
    match program {
        NodeView::Program(statements) => statements,
        _ => Seq::empty(),
    }
}

/// Whether running the tree `program` from the empty store may yield `out`.
/// A tree that is no program has no statements to run.
pub open spec fn runs_program(
    program: NodeView,
    numerics: Numerics,
    out: Result<StoreView, EvalErrorView>,
) -> bool {
    runs(statements_of(program), Map::empty(), numerics, out)
}

/// Whether `numerics` answers only what the functions `read` and `compute`
/// give: it may answer less, never anything else.
pub open spec fn follows(
    numerics: Numerics,
    read: spec_fn(Seq<char>) -> Option<u64>,
    compute: spec_fn(MathToken, u64, u64) -> u64,
) -> bool {
    &&& forall|numeral: Seq<char>, answer: Option<u64>| #[trigger]
        (numerics.reads)(numeral, answer) ==> answer == read(numeral)
    &&& forall|m: MathToken, a: u64, b: u64, c: u64| #[trigger]
        (numerics.computes)(m, a, b, c) ==> c == compute(m, a, b)
}

/// The arithmetic that answers exactly what `read` and `compute` give.
pub open spec fn exact(
    read: spec_fn(Seq<char>) -> Option<u64>,
    compute: spec_fn(MathToken, u64, u64) -> u64,
) -> Numerics {
    Numerics {
        reads: |numeral: Seq<char>, answer: Option<u64>| answer == read(numeral),
        computes: |m: MathToken, a: u64, b: u64, c: u64| c == compute(m, a, b),
    }
}

/// What an operation on two values yields under `compute`.
pub open spec fn applied(
    compute: spec_fn(MathToken, u64, u64) -> u64,
    op: TokenView,
    left: ValueView,
    right: ValueView,
) -> Result<ValueView, EvalErrorView> {
    match (left, right) {
        (ValueView::String(text), _) => Err(EvalErrorView::TypeMismatch(text)),
        (ValueView::Number(_), ValueView::String(text)) => Err(EvalErrorView::TypeMismatch(text)),
        (ValueView::Number(a), ValueView::Number(b)) => match plain_operator(op) {
            Some(m) => Ok(ValueView::Number(compute(m, a, b))),
            None => Err(EvalErrorView::InvalidOperator(op)),
        },
    }
}

/// What the expression `node` evaluates to in `store` when numerals are
/// read by `read` and arithmetic is done by `compute`.
pub open spec fn value(
    node: NodeView,
    store: StoreView,
    read: spec_fn(Seq<char>) -> Option<u64>,
    compute: spec_fn(MathToken, u64, u64) -> u64,
) -> Result<ValueView, EvalErrorView>
    decreases node,
{
    match node {
        NodeView::Number(numeral) => match read(numeral) {
            Some(bits) => Ok(ValueView::Number(bits)),
            None => Err(EvalErrorView::MalformedNumber(numeral)),
        },
        NodeView::String(text) => Ok(ValueView::String(text)),
        NodeView::Identifier(name) => lookup(store, name),
        NodeView::BinaryOp { left, op, right } => match value(*left, store, read, compute) {
            Err(e) => Err(e),
            Ok(a) => match value(*right, store, read, compute) {
                Err(e) => Err(e),
                Ok(b) => applied(compute, op, a, b),
            },
        },
        _ => Err(EvalErrorView::Unsupported),
    }
}

/// What a compound assignment yields under `read` and `compute`.
pub open spec fn reassigned(
    ident: Seq<char>,
    op: TokenView,
    operand: NodeView,
    store: StoreView,
    read: spec_fn(Seq<char>) -> Option<u64>,
    compute: spec_fn(MathToken, u64, u64) -> u64,
) -> Result<StoreView, EvalErrorView> {
    if !store.contains_key(ident) {
        Err(EvalErrorView::BindingNotFound(ident))
    } else if !store[ident].is_mutable() {
        Err(EvalErrorView::ImmutableBinding(ident))
    } else {
        match store[ident] {
            MemoryView::String(text, _) => Err(EvalErrorView::TypeMismatch(text)),
            MemoryView::Number(current, _) => match assigned_operator(op) {
                None => Err(EvalErrorView::InvalidOperator(op)),
                Some(m) => match as_number(value(operand, store, read, compute)) {
                    Err(e) => Err(e),
                    Ok(b) => Ok(
                        store.insert(ident, MemoryView::Number(compute(m, current, b), true)),
                    ),
                },
            },
        }
    }
}

/// The store after `statement`, or the error that stops it, under `read`
/// and `compute`.
pub open spec fn effect(
    statement: NodeView,
    store: StoreView,
    read: spec_fn(Seq<char>) -> Option<u64>,
    compute: spec_fn(MathToken, u64, u64) -> u64,
) -> Result<StoreView, EvalErrorView> {
    match statement {
        NodeView::Let(name, expression) => binds(
            store,
            name,
            as_memory(value(*expression, store, read, compute), true),
        ),
        NodeView::Final(name, expression) => binds(
            store,
            name,
            as_memory(value(*expression, store, read, compute), false),
        ),
        NodeView::CompoundAssign { ident, op, value: operand } => reassigned(
            ident,
            op,
            *operand,
            store,
            read,
            compute,
        ),
        _ => discards(store, value(statement, store, read, compute)),
    }
}

/// The store after `statements`, executed in order from `store` on, or the
/// first error, under `read` and `compute`.
pub open spec fn result(
    statements: Seq<NodeView>,
    store: StoreView,
    read: spec_fn(Seq<char>) -> Option<u64>,
    compute: spec_fn(MathToken, u64, u64) -> u64,
) -> Result<StoreView, EvalErrorView>
    decreases statements.len(),
{
    if statements.len() == 0 {
        Ok(store)
    } else {
        match effect(statements[0], store, read, compute) {
            Ok(next) => result(statements.drop_first(), next, read, compute),
            Err(e) => Err(e),
        }
    }
}

} // verus!
