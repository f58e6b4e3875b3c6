//! The evaluator: values, the store of named bindings, and the walk over the
//! syntax tree that fills it.
//!
//! Numbers are carried as the bit patterns of IEEE 754 binary64 values. The
//! library never computes with them: reading a numeral and the four
//! arithmetic operations are done by two functions that the caller hands in,
//! and every contract says what is returned whatever these functions answer.
//! Division by zero is therefore no error here: it yields what the caller's
//! division yields.

use vstd::prelude::*;
use crate::lexer::{MathToken, Token};
use crate::laws::evaluation::lemma_stop_is_an_outcome;
use crate::parser::{compound, is_compound, ASTNode};
use crate::semantics::{
    as_memory, as_number, assigned_operator, assigns, binary_outcome, binds, callable, combines,
    computes_of, discards, evaluates, evaluates_to_memory, evaluates_to_number, executes,
    numerics_of, plain_operator, reads_of, runs, runs_program, statements_of, stops, updates,
    EvalErrorView, MemoryView, StoreView, ValueView,
};

verus! {

/// What a binding holds: a number or a string, and whether it may change.
/// The flag is fixed when the binding is made.
#[derive(Debug, PartialEq, Eq)]
pub enum Memory {
    /// A number, as the bits of a binary64 value, and the flag.
    Number(u64, bool),
    /// A string, and the flag.
    String(String, bool),
}

impl View for Memory {
    type V = MemoryView;

    open spec fn view(&self) -> MemoryView {
        match self {
            Memory::Number(bits, mutable) => MemoryView::Number(*bits, *mutable),
            Memory::String(text, mutable) => MemoryView::String(text@, *mutable),
        }
    }
}

impl Clone for Memory {
    fn clone(&self) -> (copy: Memory)
        ensures
            copy@ == self@,
    {
        match self {
            Memory::Number(bits, mutable) => Memory::Number(*bits, *mutable),
            Memory::String(text, mutable) => Memory::String(text.clone(), *mutable),
        }
    }
}

impl Memory {
    /// Whether the binding may change.
    pub fn is_mutable(&self) -> (mutable: bool)
        ensures
            mutable == self@.is_mutable(),
    {
        match self {
            Memory::Number(_, mutable) => *mutable,
            Memory::String(_, mutable) => *mutable,
        }
    }
}

/// The store of bindings: at most one binding for a name.
#[derive(Debug)]
pub struct Context {
    names: Vec<String>,
    cells: Vec<Memory>,
}

impl View for Context {
    type V = StoreView;

    closed spec fn view(&self) -> StoreView {
        Map::new(
            |name: Seq<char>| self.index_of(name) is Some,
            |name: Seq<char>| self.cells[self.index_of(name)->0]@,
        )
    }
}

impl Context {
    #[verifier::type_invariant]
    spec fn no_name_twice(&self) -> bool {
        &&& self.names.len() == self.cells.len()
        &&& forall|i: int, j: int|
            0 <= i < j < self.names.len() ==> self.names[i]@ != self.names[j]@
    }

    /// Where the binding of `name` is kept, if there is one.
    spec fn index_of(&self, name: Seq<char>) -> Option<int> {
        if exists|i: int| 0 <= i < self.names.len() && self.names[i]@ == name {
            Some(choose|i: int| 0 <= i < self.names.len() && self.names[i]@ == name)
        } else {
            None
        }
    }

    /// A store without bindings.
    pub fn new() -> (context: Context)
        ensures
            context@ == Map::<Seq<char>, MemoryView>::empty(),
    {
        let context = Context { names: Vec::new(), cells: Vec::new() };
        assert(context@ =~= Map::<Seq<char>, MemoryView>::empty());
        context
    }

    /// How many bindings the store holds.
    pub fn len(&self) -> (count: usize)
        ensures
            self@.dom().finite(),
            count == self@.dom().len(),
    {
        proof {
            use_type_invariant(self);
            self.lemma_domain(self.names.len() as int);
            assert(self@.dom() =~= self.domain_below(self.names.len() as int));
        }
        self.names.len()
    }

    /// The names of the first `n` bindings.
    spec fn domain_below(&self, n: int) -> Set<Seq<char>> {
        Set::new(|name: Seq<char>| exists|i: int| 0 <= i < n && self.names[i]@ == name)
    }

    proof fn lemma_domain(&self, n: int)
        requires
            self.no_name_twice(),
            0 <= n <= self.names.len(),
        ensures
            self.domain_below(n).finite(),
            self.domain_below(n).len() == n,
        decreases n,
    {
        if n == 0 {
            assert(self.domain_below(0) =~= Set::<Seq<char>>::empty());
        } else {
            self.lemma_domain(n - 1);
            assert(self.domain_below(n) =~= self.domain_below(n - 1).insert(self.names[n - 1]@));
        }
    }

    /// The bindings of the store: every bound name once, with what it is
    /// bound to.
    pub fn bindings(&self) -> (all: Vec<(String, Memory)>)
        ensures
            forall|i: int|
                0 <= i < all.len() ==> {
                    &&& self@.contains_key((#[trigger] all[i]).0@)
                    &&& self@[all[i].0@] == all[i].1@
                },
            forall|i: int, j: int| 0 <= i < j < all.len() ==> all[i].0@ != all[j].0@,
            forall|name: Seq<char>|
                self@.contains_key(name) ==> exists|i: int|
                    0 <= i < all.len() && (#[trigger] all[i]).0@ == name,
    {
        proof {
            use_type_invariant(self);
        }
        let mut all: Vec<(String, Memory)> = Vec::new();
        let mut i: usize = 0;
        while i < self.names.len()
            invariant
                self.no_name_twice(),
                i <= self.names.len(),
                all.len() == i,
                forall|k: int|
                    0 <= k < i ==> (#[trigger] all[k]).0@ == self.names[k]@ && all[k].1@
                        == self.cells[k]@,
            decreases self.names.len() - i,
        {
            all.push((self.names[i].clone(), self.cells[i].clone()));
            i = i + 1;
        }
        proof {
            assert forall|k: int| 0 <= k < all.len() implies self@.contains_key(
                (#[trigger] all[k]).0@,
            ) && self@[all[k].0@] == all[k].1@ by {
                self.lemma_index_of(k);
            }
            assert forall|name: Seq<char>| self@.contains_key(name) implies exists|k: int|
                0 <= k < all.len() && (#[trigger] all[k]).0@ == name by {
                let k = self.index_of(name)->0;
                assert(all[k].0@ == name);
            }
        }
        all
    }

    /// The position of the binding of `name`, or the number of bindings if
    /// there is none.
    fn find(&self, name: &String) -> (at: usize)
        ensures
            at <= self.names.len(),
            at < self.names.len() ==> self.names[at as int]@ == name@,
            at == self.names.len() ==> forall|i: int|
                0 <= i < self.names.len() ==> self.names[i]@ != name@,
    {
        let mut i: usize = 0;
        while i < self.names.len()
            invariant
                i <= self.names.len(),
                forall|k: int| 0 <= k < i ==> self.names[k]@ != name@,
            decreases self.names.len() - i,
        {
            if self.names[i] == *name {
                return i;
            }
            i = i + 1;
        }
        i
    }

    /// The binding of `name`, if there is one.
    pub fn get(&self, name: &String) -> (found: Option<&Memory>)
        ensures
            match found {
                Some(memory) => self@.contains_key(name@) && self@[name@] == memory@,
                None => !self@.contains_key(name@),
            },
    {
        proof {
            use_type_invariant(self);
        }
        let at = self.find(name);
        if at < self.names.len() {
            proof {
                self.lemma_index_of(at as int);
            }
            Some(&self.cells[at])
        } else {
            None
        }
    }

    proof fn lemma_index_of(&self, at: int)
        requires
            self.no_name_twice(),
            0 <= at < self.names.len(),
        ensures
            self.index_of(self.names[at]@) == Some(at),
    {
        let name = self.names[at]@;
        let chosen = choose|i: int| 0 <= i < self.names.len() && self.names[i]@ == name;
        if chosen < at {
            assert(self.names[chosen]@ != self.names[at]@);
        } else if at < chosen {
            assert(self.names[at]@ != self.names[chosen]@);
        }
    }

    /// Binds `name` to `memory`. A binding that the name had before is
    /// replaced.
    pub fn insert(&mut self, name: String, memory: Memory)
        ensures
            final(self)@ == old(self)@.insert(name@, memory@),
    {
        proof {
            use_type_invariant(&*self);
        }
        let at = self.find(&name);
        let ghost before = *self;
        let ghost key = name@;
        let ghost value = memory@;
        let mut taken = Context { names: Vec::new(), cells: Vec::new() };
        core::mem::swap(self, &mut taken);
        let Context { mut names, mut cells } = taken;
        if at < names.len() {
            cells.set(at, memory);
        } else {
            names.push(name);
            cells.push(memory);
        }
        *self = Context { names, cells };
        proof {
            if at < before.names.len() {
                assert(self.names@ == before.names@);
                assert forall|other: Seq<char>| #[trigger]
                    self.index_of(other) == before.index_of(other) by {}
                before.lemma_index_of(at as int);
            } else {
                let last = before.names.len() as int;
                self.lemma_index_of(last);
                assert forall|other: Seq<char>| other != key implies #[trigger] self.index_of(other)
                    == before.index_of(other) by {
                    if before.index_of(other) is Some {
                        let k = before.index_of(other)->0;
                        assert(self.names[k]@ == other);
                        self.lemma_index_of(k);
                    } else if self.index_of(other) is Some {
                        let k = self.index_of(other)->0;
                        assert(k < last);
                        assert(before.names[k]@ == other);
                    }
                }
            }
            assert(self@ =~= before@.insert(key, value));
        }
    }
}

/// What an expression evaluates to.
#[derive(Debug, PartialEq, Eq)]
pub enum Value {
    /// A number, as the bits of a binary64 value.
    Number(u64),
    /// A string.
    String(String),
}

impl View for Value {
    type V = ValueView;

    open spec fn view(&self) -> ValueView {
        match self {
            Value::Number(bits) => ValueView::Number(*bits),
            Value::String(text) => ValueView::String(text@),
        }
    }
}

impl Clone for Value {
    fn clone(&self) -> (copy: Value)
        ensures
            copy@ == self@,
    {
        match self {
            Value::Number(bits) => Value::Number(*bits),
            Value::String(text) => Value::String(text.clone()),
        }
    }
}

/// Why evaluation stopped.
#[derive(Debug, PartialEq, Eq)]
pub enum EvalError {
    /// An identifier in an expression that names no binding.
    UnknownIdentifier(String),
    /// A compound assignment to a name that names no binding.
    BindingNotFound(String),
    /// A compound assignment to an immutable binding.
    ImmutableBinding(String),
    /// A string where arithmetic needs a number; it carries the string.
    TypeMismatch(String),
    /// A token that is no operator of the kind that the node needs.
    InvalidOperator(Token),
    /// A numeral that the caller's reader takes for no number.
    MalformedNumber(String),
    /// A node that cannot be evaluated where it stands, such as a call.
    Unsupported,
}

impl View for EvalError {
    type V = EvalErrorView;

    open spec fn view(&self) -> EvalErrorView {
        match self {
            EvalError::UnknownIdentifier(name) => EvalErrorView::UnknownIdentifier(name@),
            EvalError::BindingNotFound(name) => EvalErrorView::BindingNotFound(name@),
            EvalError::ImmutableBinding(name) => EvalErrorView::ImmutableBinding(name@),
            EvalError::TypeMismatch(text) => EvalErrorView::TypeMismatch(text@),
            EvalError::InvalidOperator(token) => EvalErrorView::InvalidOperator(token@),
            EvalError::MalformedNumber(numeral) => EvalErrorView::MalformedNumber(numeral@),
            EvalError::Unsupported => EvalErrorView::Unsupported,
        }
    }
}

impl Clone for EvalError {
    fn clone(&self) -> (copy: EvalError)
        ensures
            copy@ == self@,
    {
        match self {
            EvalError::UnknownIdentifier(name) => EvalError::UnknownIdentifier(name.clone()),
            EvalError::BindingNotFound(name) => EvalError::BindingNotFound(name.clone()),
            EvalError::ImmutableBinding(name) => EvalError::ImmutableBinding(name.clone()),
            EvalError::TypeMismatch(text) => EvalError::TypeMismatch(text.clone()),
            EvalError::InvalidOperator(token) => EvalError::InvalidOperator(token.clone()),
            EvalError::MalformedNumber(numeral) => EvalError::MalformedNumber(numeral.clone()),
            EvalError::Unsupported => EvalError::Unsupported,
        }
    }
}

/// The value of what evaluating an expression returns.
pub open spec fn value_outcome(r: Result<Value, EvalError>) -> Result<ValueView, EvalErrorView> {
    match r {
        Ok(value) => Ok(value@),
        Err(e) => Err(e@),
    }
}

/// Evaluates an expression in `context`. Numerals go to `literal` and
/// arithmetic to `arith`; the rest is decided here.
pub fn evaluate<P: Fn(&str) -> Option<u64>, A: Fn(MathToken, u64, u64) -> u64>(
    node: &ASTNode,
    context: &Context,
    literal: &P,
    arith: &A,
) -> (outcome: Result<Value, EvalError>)
    requires
        callable(*literal, *arith),
    ensures
        evaluates(node@, context@, numerics_of(*literal, *arith), value_outcome(outcome)),
    decreases node,
{
    let ghost computes = numerics_of(*literal, *arith).computes;
    match node {
        ASTNode::Number(numeral) => {
            let text = numeral.as_str();
            let answer = literal(text);
            assert(reads_of(*literal)(numeral@, answer)) by {
                assert(text@ == numeral@ && call_ensures(*literal, (text,), answer));
            }
            match answer {
                Some(bits) => Ok(Value::Number(bits)),
                None => Err(EvalError::MalformedNumber(numeral.clone())),
            }
        },
        ASTNode::String(text) => Ok(Value::String(text.clone())),
        ASTNode::Identifier(name) => {
            match context.get(name) {
                Some(Memory::Number(bits, _)) => Ok(Value::Number(*bits)),
                Some(Memory::String(text, _)) => Ok(Value::String(text.clone())),
                None => Err(EvalError::UnknownIdentifier(name.clone())),
            }
        },
        ASTNode::BinaryOp { left, op, right } => {
            let l = evaluate(left, context, literal, arith);
            let ghost lv = value_outcome(l);
            let a = match l {
                Ok(value) => value,
                Err(e) => {
                    assert(binary_outcome(computes, op@, lv, lv, lv));
                    return Err(e);
                },
            };
            let r = evaluate(right, context, literal, arith);
            let ghost rv = value_outcome(r);
            let b = match r {
                Ok(value) => value,
                Err(e) => {
                    assert(binary_outcome(computes, op@, lv, rv, rv));
                    return Err(e);
                },
            };
            let outcome = combine(op, a, b, arith);
            assert(binary_outcome(computes, op@, lv, rv, value_outcome(outcome)));
            outcome
        },
        _ => Err(EvalError::Unsupported),
    }
}

/// Applies the operator `op` to two values: a type error where one of them
/// is a string, the left one first; an operator error where `op` is no plain
/// operator; and else what `arith` answers.
pub fn combine<A: Fn(MathToken, u64, u64) -> u64>(
    op: &Token,
    left: Value,
    right: Value,
    arith: &A,
) -> (outcome: Result<Value, EvalError>)
    requires
        forall|m: MathToken, a: u64, b: u64| !is_compound(m) ==> call_requires(*arith, (m, a, b)),
    ensures
        combines(computes_of(*arith), op@, left@, right@, value_outcome(outcome)),
{
    let a = match left {
        Value::Number(bits) => bits,
        Value::String(text) => {
            return Err(EvalError::TypeMismatch(text));
        },
    };
    let b = match right {
        Value::Number(bits) => bits,
        Value::String(text) => {
            return Err(EvalError::TypeMismatch(text));
        },
    };
    match plain(op) {
        Some(m) => Ok(Value::Number(arith(m, a, b))),
        None => Err(EvalError::InvalidOperator(op.clone())),
    }
}

/// The plain operator that a token stands for in an expression.
pub fn plain(op: &Token) -> (operator: Option<MathToken>)
    ensures
        operator == plain_operator(op@),
{
    match op {
        Token::Arithmetic(m) => {
            if compound(*m) {
                None
            } else {
                Some(*m)
            }
        },
        _ => None,
    }
}

/// The plain operator that a compound assignment applies.
pub fn assigned(op: &Token) -> (operator: Option<MathToken>)
    ensures
        operator == assigned_operator(op@),
{
    match op {
        Token::Arithmetic(MathToken::PlusEq) => Some(MathToken::Plus),
        Token::Arithmetic(MathToken::MinusEq) => Some(MathToken::Minus),
        Token::Arithmetic(MathToken::MultiplyEq) => Some(MathToken::Multiply),
        Token::Arithmetic(MathToken::DivideEq) => Some(MathToken::Divide),
        _ => None,
    }
}

/// The value of what `binary_op` returns.
pub open spec fn number_outcome(r: Result<u64, EvalError>) -> Result<u64, EvalErrorView> {
    match r {
        Ok(bits) => Ok(bits),
        Err(e) => Err(e@),
    }
}

/// The value of what `ast_to_memory` returns.
pub open spec fn memory_outcome(r: Result<Memory, EvalError>) -> Result<MemoryView, EvalErrorView> {
    match r {
        Ok(memory) => Ok(memory@),
        Err(e) => Err(e@),
    }
}

/// Evaluates an arithmetic expression to its number; an expression that
/// evaluates to a string is a type error.
pub fn binary_op<P: Fn(&str) -> Option<u64>, A: Fn(MathToken, u64, u64) -> u64>(
    bop: &ASTNode,
    context: &Context,
    literal: &P,
    arith: &A,
) -> (outcome: Result<u64, EvalError>)
    requires
        callable(*literal, *arith),
    ensures
        evaluates_to_number(
            bop@,
            context@,
            numerics_of(*literal, *arith),
            number_outcome(outcome),
        ),
{
    let value = evaluate(bop, context, literal, arith);
    let ghost v = value_outcome(value);
    let outcome = match value {
        Ok(Value::Number(bits)) => Ok(bits),
        Ok(Value::String(text)) => Err(EvalError::TypeMismatch(text)),
        Err(e) => Err(e),
    };
    assert(as_number(v) == number_outcome(outcome));
    outcome
}

/// Evaluates an expression to the binding that holds its value, mutable or
/// not as `is_mut` says.
pub fn ast_to_memory<P: Fn(&str) -> Option<u64>, A: Fn(MathToken, u64, u64) -> u64>(
    node: &ASTNode,
    is_mut: bool,
    context: &Context,
    literal: &P,
    arith: &A,
) -> (outcome: Result<Memory, EvalError>)
    requires
        callable(*literal, *arith),
    ensures
        evaluates_to_memory(
            node@,
            is_mut,
            context@,
            numerics_of(*literal, *arith),
            memory_outcome(outcome),
        ),
{
    let value = evaluate(node, context, literal, arith);
    let ghost v = value_outcome(value);
    let outcome = match value {
        Ok(Value::Number(bits)) => Ok(Memory::Number(bits, is_mut)),
        Ok(Value::String(text)) => Ok(Memory::String(text, is_mut)),
        Err(e) => Err(e),
    };
    assert(as_memory(v, is_mut) == memory_outcome(outcome));
    outcome
}

/// The value of what executing leaves: the store on success.
pub open spec fn store_outcome(r: Result<(), EvalError>, store: StoreView) -> Result<
    StoreView,
    EvalErrorView,
> {
    match r {
        Ok(_) => Ok(store),
        Err(e) => Err(e@),
    }
}

/// Executes a declaration of `name`: binds it to the value of `value`,
/// mutable or not as `is_mut` says.
fn declare<P: Fn(&str) -> Option<u64>, A: Fn(MathToken, u64, u64) -> u64>(
    name: &String,
    value: &ASTNode,
    is_mut: bool,
    context: &mut Context,
    literal: &P,
    arith: &A,
) -> (outcome: Result<(), EvalError>)
    requires
        callable(*literal, *arith),
    ensures
        exists|memory: Result<MemoryView, EvalErrorView>|
            #![trigger binds(old(context)@, name@, memory)]
            {
                &&& evaluates_to_memory(
                    value@,
                    is_mut,
                    old(context)@,
                    numerics_of(*literal, *arith),
                    memory,
                )
                &&& binds(old(context)@, name@, memory) == store_outcome(outcome, final(context)@)
            },
        outcome is Err ==> final(context)@ == old(context)@,
{
    let ghost store = context@;
    let memory = ast_to_memory(value, is_mut, context, literal, arith);
    let ghost m = memory_outcome(memory);
    match memory {
        Ok(cell) => {
            context.insert(name.clone(), cell);
            assert(binds(store, name@, m) == Ok::<StoreView, EvalErrorView>(context@));
            Ok(())
        },
        Err(e) => {
            assert(binds(store, name@, m) == Err::<StoreView, EvalErrorView>(e@));
            Err(e)
        },
    }
}

/// Executes the compound assignment `ident op value`.
fn assign<P: Fn(&str) -> Option<u64>, A: Fn(MathToken, u64, u64) -> u64>(
    ident: &String,
    op: &Token,
    value: &ASTNode,
    context: &mut Context,
    literal: &P,
    arith: &A,
) -> (outcome: Result<(), EvalError>)
    requires
        callable(*literal, *arith),
    ensures
        assigns(
            ident@,
            op@,
            value@,
            old(context)@,
            numerics_of(*literal, *arith),
            store_outcome(outcome, final(context)@),
        ),
        outcome is Err ==> final(context)@ == old(context)@,
{
    let ghost store = context@;
    let ghost computes = numerics_of(*literal, *arith).computes;
    let current = match context.get(ident) {
        None => {
            return Err(EvalError::BindingNotFound(ident.clone()));
        },
        Some(memory) => {
            if !memory.is_mutable() {
                return Err(EvalError::ImmutableBinding(ident.clone()));
            }
            match memory {
                Memory::Number(bits, _) => *bits,
                Memory::String(text, _) => {
                    return Err(EvalError::TypeMismatch(text.clone()));
                },
            }
        },
    };
    let m = match assigned(op) {
        Some(m) => m,
        None => {
            return Err(EvalError::InvalidOperator(op.clone()));
        },
    };
    let operand = binary_op(value, context, literal, arith);
    let ghost o = number_outcome(operand);
    assert(store[ident@] matches MemoryView::Number(c, _) && c == current);
    match operand {
        Ok(bits) => {
            let result = arith(m, current, bits);
            context.insert(ident.clone(), Memory::Number(result, true));
            assert(updates(
                computes,
                store,
                ident@,
                current,
                m,
                o,
                Ok::<StoreView, EvalErrorView>(context@),
            ));
            Ok(())
        },
        Err(e) => {
            assert(updates(
                computes,
                store,
                ident@,
                current,
                m,
                o,
                Err::<StoreView, EvalErrorView>(e@),
            ));
            Err(e)
        },
    }
}

/// Executes one statement on `context`. After an error the store is as it
/// was.
pub fn execute<P: Fn(&str) -> Option<u64>, A: Fn(MathToken, u64, u64) -> u64>(
    statement: &ASTNode,
    context: &mut Context,
    literal: &P,
    arith: &A,
) -> (outcome: Result<(), EvalError>)
    requires
        callable(*literal, *arith),
    ensures
        executes(
            statement@,
            old(context)@,
            numerics_of(*literal, *arith),
            store_outcome(outcome, final(context)@),
        ),
        outcome is Err ==> final(context)@ == old(context)@,
{
    let ghost store = context@;
    match statement {
        ASTNode::Let(name, value) => declare(name, value, true, context, literal, arith),
        ASTNode::Final(name, value) => declare(name, value, false, context, literal, arith),
        ASTNode::CompoundAssign { ident, op, value } => assign(
            ident,
            op,
            value,
            context,
            literal,
            arith,
        ),
        _ => {
            let value = evaluate(statement, context, literal, arith);
            let ghost v = value_outcome(value);
            match value {
                Ok(_) => {
                    assert(discards(store, v) == Ok::<StoreView, EvalErrorView>(store));
                    Ok(())
                },
                Err(e) => {
                    assert(discards(store, v) == Err::<StoreView, EvalErrorView>(e@));
                    Err(e)
                },
            }
        },
    }
}

/// The value of what `run` returns.
pub open spec fn context_outcome(r: Result<Context, EvalError>) -> Result<
    StoreView,
    EvalErrorView,
> {
    match r {
        Ok(context) => Ok(context@),
        Err(e) => Err(e@),
    }
}

/// Runs a program on `context`: executes its statements in order, up to the
/// last one or to the first error. After an error the store is as the
/// statements before the failing one left it. A tree that is no program has
/// no statements.
pub fn run_from<P: Fn(&str) -> Option<u64>, A: Fn(MathToken, u64, u64) -> u64>(
    program: &ASTNode,
    context: &mut Context,
    literal: &P,
    arith: &A,
) -> (outcome: Result<(), EvalError>)
    requires
        callable(*literal, *arith),
    ensures
        match outcome {
            Ok(_) => runs(
                statements_of(program@),
                old(context)@,
                numerics_of(*literal, *arith),
                Ok(final(context)@),
            ),
            Err(e) => stops(
                statements_of(program@),
                old(context)@,
                numerics_of(*literal, *arith),
                final(context)@,
                e@,
            ),
        },
{
    let statements = match program {
        ASTNode::Program(statements) => statements,
        _ => {
            return Ok(());
        },
    };
    let ghost numerics = numerics_of(*literal, *arith);
    let ghost all = statements_of(program@);
    let ghost start = context@;
    let mut i: usize = 0;
    assert(all.skip(0) == all);
    while i < statements.len()
        invariant
            callable(*literal, *arith),
            numerics == numerics_of(*literal, *arith),
            all == statements_of(program@),
            start == old(context)@,
            i <= statements.len(),
            all.len() == statements.len(),
            forall|k: int| 0 <= k < statements.len() ==> all[k] == statements[k]@,
            forall|out: Result<StoreView, EvalErrorView>|
                runs(all.skip(i as int), context@, numerics, out) ==> #[trigger] runs(
                    all,
                    start,
                    numerics,
                    out,
                ),
            forall|reached: StoreView, e: EvalErrorView|
                stops(all.skip(i as int), context@, numerics, reached, e) ==> #[trigger] stops(
                    all,
                    start,
                    numerics,
                    reached,
                    e,
                ),
        decreases statements.len() - i,
    {
        let ghost store = context@;
        let ghost rest = all.skip(i as int);
        assert(rest[0] == statements[i as int]@);
        assert(rest.drop_first() == all.skip(i + 1));
        match execute(&statements[i], context, literal, arith) {
            Ok(()) => {
                let ghost next = Ok::<StoreView, EvalErrorView>(context@);
                assert(executes(rest[0], store, numerics, next));
                assert forall|out: Result<StoreView, EvalErrorView>|
                    runs(all.skip(i + 1), context@, numerics, out) implies #[trigger] runs(
                    all,
                    start,
                    numerics,
                    out,
                ) by {
                    assert(runs(rest, store, numerics, out));
                }
                assert forall|reached: StoreView, e: EvalErrorView|
                    stops(all.skip(i + 1), context@, numerics, reached, e) implies #[trigger] stops(
                    all,
                    start,
                    numerics,
                    reached,
                    e,
                ) by {
                    assert(stops(rest, store, numerics, reached, e));
                }
            },
            Err(e) => {
                let ghost stop = Err::<StoreView, EvalErrorView>(e@);
                assert(executes(rest[0], store, numerics, stop));
                assert(stops(rest, store, numerics, store, e@));
                return Err(e);
            },
        }
        i = i + 1;
    }
    assert(all.skip(i as int).len() == 0);
    assert(runs(all.skip(i as int), context@, numerics, Ok::<StoreView, EvalErrorView>(context@)));
    Ok(())
}

/// Runs a program: executes its statements in order on a store that starts
/// empty, and gives back the store, or the first error. A tree that is no
/// program has no statements, and leaves the store empty.
pub fn run<P: Fn(&str) -> Option<u64>, A: Fn(MathToken, u64, u64) -> u64>(
    program: &ASTNode,
    literal: &P,
    arith: &A,
) -> (outcome: Result<Context, EvalError>)
    requires
        callable(*literal, *arith),
    ensures
        runs_program(program@, numerics_of(*literal, *arith), context_outcome(outcome)),
{
    let mut context = Context::new();
    match run_from(program, &mut context, literal, arith) {
        Ok(()) => Ok(context),
        Err(e) => {
            proof {
                lemma_stop_is_an_outcome(
                    statements_of(program@),
                    Map::empty(),
                    numerics_of(*literal, *arith),
                    context@,
                    e@,
                );
            }
            Err(e)
        },
    }
}

} // verus!
