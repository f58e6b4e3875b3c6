use crystal::lexer::{tokenize, MathToken, Token};
use crystal::memories::{
    assigned, ast_to_memory, binary_op, combine, evaluate, execute, plain, run, run_from,
    Context, EvalError, Memory, Value,
};
use crystal::parser::{ASTNode, Parser};

fn read(numeral: &str) -> Option<u64> {
    numeral.parse::<f64>().ok().map(f64::to_bits)
}

fn compute(op: MathToken, a: u64, b: u64) -> u64 {
    let (x, y) = (f64::from_bits(a), f64::from_bits(b));
    let z = match op {
        MathToken::Plus => x + y,
        MathToken::Minus => x - y,
        MathToken::Multiply => x * y,
        MathToken::Divide => x / y,
        _ => unreachable!(),
    };
    z.to_bits()
}

fn program(source: &str) -> ASTNode {
    Parser::new(tokenize(source.to_string()).unwrap())
        .parse()
        .unwrap()
}

fn expression(source: &str) -> ASTNode {
    Parser::new(tokenize(source.to_string()).unwrap())
        .expression()
        .unwrap()
}

fn store(source: &str) -> Context {
    run(&program(source), &read, &compute).unwrap()
}

fn failure(source: &str) -> EvalError {
    run(&program(source), &read, &compute).unwrap_err()
}

fn bound(store: &Context, name: &str) -> Memory {
    store.get(&name.to_string()).unwrap().clone()
}

fn num(x: f64, mutable: bool) -> Memory {
    Memory::Number(x.to_bits(), mutable)
}

fn text(s: &str, mutable: bool) -> Memory {
    Memory::String(s.to_string(), mutable)
}

fn value(source: &str, context: &Context) -> Result<Value, EvalError> {
    evaluate(&expression(source), context, &read, &compute)
}

fn float(x: f64) -> Result<Value, EvalError> {
    Ok(Value::Number(x.to_bits()))
}

#[test]
fn let_yields_a_mutable_number() {
    let s = store("let x = 5;");
    assert_eq!(bound(&s, "x"), num(5.0, true));
    assert_eq!(s.len(), 1);
}

#[test]
fn final_yields_an_immutable_string() {
    let s = store("final y = \"hi\";");
    assert_eq!(bound(&s, "y"), text("hi", false));
}

#[test]
fn assignment_to_a_final_fails() {
    assert_eq!(
        failure("final y = \"hi\"; y += 1;"),
        EvalError::ImmutableBinding("y".to_string())
    );
    assert_eq!(
        failure("final n = 1; n *= 2;"),
        EvalError::ImmutableBinding("n".to_string())
    );
}

#[test]
fn identifiers_resolve_inside_an_expression() {
    let s = store("let a = 1; let b = 2; let c = a + b;");
    assert_eq!(bound(&s, "c"), num(3.0, true));
    assert_eq!(bound(&s, "a"), num(1.0, true));
    assert_eq!(bound(&s, "b"), num(2.0, true));
    assert_eq!(s.len(), 3);
}

#[test]
fn compound_assignments_chain() {
    assert_eq!(bound(&store("let n = 10; n += 5;"), "n"), num(15.0, true));
    assert_eq!(
        bound(&store("let n = 10; n += 5; n -= 3;"), "n"),
        num(12.0, true)
    );
    assert_eq!(
        bound(&store("let n = 10; n += 5; n -= 3; n *= 2; n /= 8;"), "n"),
        num(3.0, true)
    );
}

#[test]
fn assignment_to_an_undeclared_name_fails() {
    let tree = program("m += 1;");
    assert_eq!(
        run(&tree, &read, &compute).unwrap_err(),
        EvalError::BindingNotFound("m".to_string())
    );
    let mut context = Context::new();
    let statement = match tree {
        ASTNode::Program(mut statements) => statements.remove(0),
        _ => unreachable!(),
    };
    assert_eq!(
        execute(&statement, &mut context, &read, &compute),
        Err(EvalError::BindingNotFound("m".to_string()))
    );
    assert_eq!(context.len(), 0);
    assert_eq!(context.get(&"m".to_string()), None);
}

#[test]
fn subtraction_associates_to_the_left() {
    assert_eq!(value("10 - 2 - 3", &Context::new()), float(5.0));
    assert_eq!(bound(&store("let r = 10 - 2 - 3;"), "r"), num(5.0, true));
}

#[test]
fn operators_are_applied_in_the_order_written() {
    // ((1 + 2) * 3) / 4 - 5
    assert_eq!(value("1 + 2 * 3 / 4 - 5", &Context::new()), float(-2.75));
    assert_eq!(value("2 * 3 + 4", &Context::new()), float(10.0));
    assert_eq!(value("2 + 3 * 4", &Context::new()), float(20.0));
}

#[test]
fn each_operator_is_the_float_operation() {
    let context = Context::new();
    assert_eq!(value("6 * 7", &context), float(42.0));
    assert_eq!(value("7 / 2", &context), float(3.5));
    assert_eq!(value("0.1 + 0.2", &context), float(0.1 + 0.2));
    assert_eq!(value("0.1 + 0.2", &context), float(0.30000000000000004));
    assert_eq!(value("1 - 2.5", &context), float(-1.5));
}

#[test]
fn division_by_zero_is_no_error() {
    let context = Context::new();
    assert_eq!(value("1 / 0", &context), float(f64::INFINITY));
    match value("0 / 0", &context) {
        Ok(Value::Number(bits)) => assert!(f64::from_bits(bits).is_nan()),
        other => panic!("no number: {:?}", other),
    }
    let s = store("let n = 1; n /= 0;");
    assert_eq!(bound(&s, "n"), num(f64::INFINITY, true));
}

#[test]
fn literals_evaluate_to_themselves() {
    let context = Context::new();
    assert_eq!(value("2.5", &context), float(2.5));
    assert_eq!(value("5.", &context), float(5.0));
    assert_eq!(
        value("\"text\"", &context),
        Ok(Value::String("text".to_string()))
    );
}

#[test]
fn identifier_evaluates_to_what_it_is_bound_to() {
    let mut context = Context::new();
    context.insert("n".to_string(), num(4.0, false));
    context.insert("s".to_string(), text("four", true));
    assert_eq!(value("n", &context), float(4.0));
    assert_eq!(value("s", &context), Ok(Value::String("four".to_string())));
    assert_eq!(
        value("t", &context),
        Err(EvalError::UnknownIdentifier("t".to_string()))
    );
}

#[test]
fn unknown_identifier_fails() {
    assert_eq!(
        failure("let a = b;"),
        EvalError::UnknownIdentifier("b".to_string())
    );
    assert_eq!(
        failure("let a = 1; let c = a + b;"),
        EvalError::UnknownIdentifier("b".to_string())
    );
    assert_eq!(
        failure("let a = 1; a += z;"),
        EvalError::UnknownIdentifier("z".to_string())
    );
}

#[test]
fn declaration_does_not_see_its_own_name() {
    assert_eq!(
        failure("let a = a;"),
        EvalError::UnknownIdentifier("a".to_string())
    );
}

#[test]
fn string_in_arithmetic_is_a_type_error() {
    assert_eq!(
        failure("let s = \"a\"; let t = s + 1;"),
        EvalError::TypeMismatch("a".to_string())
    );
    assert_eq!(
        failure("let t = 1 + \"b\";"),
        EvalError::TypeMismatch("b".to_string())
    );
    assert_eq!(
        failure("let t = \"l\" + \"r\";"),
        EvalError::TypeMismatch("l".to_string())
    );
}

#[test]
fn assignment_of_a_string_is_a_type_error() {
    assert_eq!(
        failure("let n = 1; n += \"x\";"),
        EvalError::TypeMismatch("x".to_string())
    );
}

#[test]
fn assignment_to_a_string_is_a_type_error() {
    assert_eq!(
        failure("let s = \"a\"; s += 1;"),
        EvalError::TypeMismatch("a".to_string())
    );
}

#[test]
fn left_operand_fails_before_the_right_one() {
    assert_eq!(
        failure("let t = x + y;"),
        EvalError::UnknownIdentifier("x".to_string())
    );
    assert_eq!(
        failure("let s = \"a\"; let t = s + y;"),
        EvalError::UnknownIdentifier("y".to_string())
    );
}

#[test]
fn redeclaration_replaces_the_binding() {
    let s = store("let x = 1; final x = \"s\";");
    assert_eq!(bound(&s, "x"), text("s", false));
    assert_eq!(s.len(), 1);
    let t = store("final x = 1; let x = 2; x += 1;");
    assert_eq!(bound(&t, "x"), num(3.0, true));
    let u = store("let x = 1; let x = x + 1;");
    assert_eq!(bound(&u, "x"), num(2.0, true));
}

#[test]
fn assignment_keeps_the_other_bindings() {
    let s = store("final a = 1; let b = 2; final c = \"c\"; b *= 10;");
    assert_eq!(bound(&s, "a"), num(1.0, false));
    assert_eq!(bound(&s, "b"), num(20.0, true));
    assert_eq!(bound(&s, "c"), text("c", false));
    assert_eq!(s.len(), 3);
}

#[test]
fn expression_statement_changes_nothing() {
    let s = store("let a = 1; a + 1 a * 2");
    assert_eq!(bound(&s, "a"), num(1.0, true));
    assert_eq!(s.len(), 1);
    assert_eq!(store("1 + 2").len(), 0);
}

#[test]
fn expression_statement_is_evaluated() {
    assert_eq!(failure("foo"), EvalError::UnknownIdentifier("foo".to_string()));
    assert_eq!(
        failure("1 + \"s\""),
        EvalError::TypeMismatch("s".to_string())
    );
}

#[test]
fn first_evaluation_error_ends_the_run() {
    assert_eq!(
        failure("let a = 1; b += 1; final c = d;"),
        EvalError::BindingNotFound("b".to_string())
    );
}

#[test]
fn failed_run_leaves_what_ran_before_the_error() {
    let mut context = Context::new();
    let tree = program("let a = 1; let b = 2; b += c; let d = 4; a += 1;");
    assert_eq!(
        run_from(&tree, &mut context, &read, &compute),
        Err(EvalError::UnknownIdentifier("c".to_string()))
    );
    assert_eq!(context.len(), 2);
    assert_eq!(bound(&context, "a"), num(1.0, true));
    assert_eq!(bound(&context, "b"), num(2.0, true));
}

#[test]
fn run_from_goes_on_from_the_store_it_is_given() {
    let mut context = Context::new();
    context.insert("k".to_string(), num(10.0, false));
    context.insert("n".to_string(), num(1.0, true));
    assert_eq!(
        run_from(&program("n += k; let m = n * k;"), &mut context, &read, &compute),
        Ok(())
    );
    assert_eq!(bound(&context, "k"), num(10.0, false));
    assert_eq!(bound(&context, "n"), num(11.0, true));
    assert_eq!(bound(&context, "m"), num(110.0, true));
    assert_eq!(run_from(&program(""), &mut context, &read, &compute), Ok(()));
    assert_eq!(context.len(), 3);
    let no_program = ASTNode::Number("1".to_string());
    assert_eq!(run_from(&no_program, &mut context, &read, &compute), Ok(()));
    assert_eq!(context.len(), 3);
}

#[test]
fn execute_leaves_the_store_as_it_was_after_an_error() {
    let mut context = Context::new();
    context.insert("n".to_string(), num(1.0, true));
    context.insert("f".to_string(), num(2.0, false));
    let bad = [
        program("n += q;"),
        program("f += 1;"),
        program("let z = q;"),
        program("q"),
    ];
    for tree in bad {
        let statement = match tree {
            ASTNode::Program(mut statements) => statements.remove(0),
            _ => unreachable!(),
        };
        assert!(execute(&statement, &mut context, &read, &compute).is_err());
        assert_eq!(context.len(), 2);
        assert_eq!(bound(&context, "n"), num(1.0, true));
        assert_eq!(bound(&context, "f"), num(2.0, false));
    }
}

#[test]
fn execute_applies_one_statement() {
    let mut context = Context::new();
    let tree = program("let n = 2; n *= 8; final s = \"t\";");
    let statements = match tree {
        ASTNode::Program(statements) => statements,
        _ => unreachable!(),
    };
    assert_eq!(execute(&statements[0], &mut context, &read, &compute), Ok(()));
    assert_eq!(bound(&context, "n"), num(2.0, true));
    assert_eq!(execute(&statements[1], &mut context, &read, &compute), Ok(()));
    assert_eq!(bound(&context, "n"), num(16.0, true));
    assert_eq!(execute(&statements[2], &mut context, &read, &compute), Ok(()));
    assert_eq!(bound(&context, "s"), text("t", false));
    assert_eq!(context.len(), 2);
}

#[test]
fn operator_that_is_none_is_refused() {
    let context = Context::new();
    let one = || Box::new(ASTNode::Number("1".to_string()));
    let equals = ASTNode::BinaryOp { left: one(), op: Token::Equals, right: one() };
    assert_eq!(
        evaluate(&equals, &context, &read, &compute),
        Err(EvalError::InvalidOperator(Token::Equals))
    );
    let assigning = ASTNode::BinaryOp {
        left: one(),
        op: Token::Arithmetic(MathToken::PlusEq),
        right: one(),
    };
    assert_eq!(
        evaluate(&assigning, &context, &read, &compute),
        Err(EvalError::InvalidOperator(Token::Arithmetic(MathToken::PlusEq)))
    );
}

#[test]
fn assignment_with_a_plain_operator_is_refused() {
    let mut context = Context::new();
    context.insert("n".to_string(), num(1.0, true));
    let statement = ASTNode::CompoundAssign {
        ident: "n".to_string(),
        op: Token::Arithmetic(MathToken::Plus),
        value: Box::new(ASTNode::Number("1".to_string())),
    };
    assert_eq!(
        execute(&statement, &mut context, &read, &compute),
        Err(EvalError::InvalidOperator(Token::Arithmetic(MathToken::Plus)))
    );
    assert_eq!(bound(&context, "n"), num(1.0, true));
}

#[test]
fn right_operand_may_be_an_operation() {
    let tree = ASTNode::BinaryOp {
        left: Box::new(ASTNode::Number("10".to_string())),
        op: Token::Arithmetic(MathToken::Minus),
        right: Box::new(expression("2 - 3")),
    };
    assert_eq!(evaluate(&tree, &Context::new(), &read, &compute), float(11.0));
}

#[test]
fn nodes_that_are_no_expressions_are_not_supported() {
    let context = Context::new();
    let call = ASTNode::FunCall(
        "f".to_string(),
        Box::new(ASTNode::Number("1".to_string())),
    );
    assert_eq!(
        evaluate(&call, &context, &read, &compute),
        Err(EvalError::Unsupported)
    );
    let declaration = ASTNode::Let(
        "x".to_string(),
        Box::new(ASTNode::Number("1".to_string())),
    );
    assert_eq!(
        evaluate(&declaration, &context, &read, &compute),
        Err(EvalError::Unsupported)
    );
    let nested = ASTNode::Program(vec![ASTNode::Program(vec![])]);
    assert_eq!(run(&nested, &read, &compute).unwrap_err(), EvalError::Unsupported);
    let calling = ASTNode::Program(vec![call]);
    assert_eq!(run(&calling, &read, &compute).unwrap_err(), EvalError::Unsupported);
}

#[test]
fn numeral_that_the_reader_refuses_is_malformed() {
    let node = ASTNode::Number("abc".to_string());
    assert_eq!(
        evaluate(&node, &Context::new(), &read, &compute),
        Err(EvalError::MalformedNumber("abc".to_string()))
    );
}

#[test]
fn run_of_a_tree_that_is_no_program_binds_nothing() {
    let tree = ASTNode::Let("x".to_string(), Box::new(ASTNode::Number("1".to_string())));
    assert_eq!(run(&tree, &read, &compute).unwrap().len(), 0);
}

#[test]
fn arithmetic_is_the_callers() {
    // With another arithmetic the same program gives other numbers.
    let count = |_: &str| Some(1u64);
    let sum = |_: MathToken, a: u64, b: u64| a.wrapping_add(b);
    let s = run(&program("let a = 7; let b = a - a - a; b *= b;"), &count, &sum).unwrap();
    assert_eq!(bound(&s, "a"), Memory::Number(1, true));
    assert_eq!(bound(&s, "b"), Memory::Number(6, true));
}

#[test]
fn binary_op_gives_the_number() {
    let mut context = Context::new();
    context.insert("n".to_string(), num(4.0, true));
    context.insert("s".to_string(), text("x", true));
    assert_eq!(
        binary_op(&expression("n * n - 1"), &context, &read, &compute),
        Ok(15.0f64.to_bits())
    );
    assert_eq!(
        binary_op(&expression("3"), &context, &read, &compute),
        Ok(3.0f64.to_bits())
    );
    assert_eq!(
        binary_op(&expression("s"), &context, &read, &compute),
        Err(EvalError::TypeMismatch("x".to_string()))
    );
    assert_eq!(
        binary_op(&expression("q + 1"), &context, &read, &compute),
        Err(EvalError::UnknownIdentifier("q".to_string()))
    );
}

#[test]
fn ast_to_memory_sets_the_flag() {
    let context = Context::new();
    assert_eq!(
        ast_to_memory(&expression("1 + 1"), true, &context, &read, &compute),
        Ok(num(2.0, true))
    );
    assert_eq!(
        ast_to_memory(&expression("1 + 1"), false, &context, &read, &compute),
        Ok(num(2.0, false))
    );
    assert_eq!(
        ast_to_memory(&expression("\"s\""), false, &context, &read, &compute),
        Ok(text("s", false))
    );
    assert_eq!(
        ast_to_memory(&expression("x"), true, &context, &read, &compute),
        Err(EvalError::UnknownIdentifier("x".to_string()))
    );
}

#[test]
fn combine_checks_types_then_the_operator() {
    let two = || Value::Number(2.0f64.to_bits());
    let s = |t: &str| Value::String(t.to_string());
    let minus = Token::Arithmetic(MathToken::Minus);
    assert_eq!(combine(&minus, two(), two(), &compute), float(0.0));
    assert_eq!(
        combine(&minus, s("l"), two(), &compute),
        Err(EvalError::TypeMismatch("l".to_string()))
    );
    assert_eq!(
        combine(&minus, two(), s("r"), &compute),
        Err(EvalError::TypeMismatch("r".to_string()))
    );
    assert_eq!(
        combine(&Token::Semicolon, s("l"), two(), &compute),
        Err(EvalError::TypeMismatch("l".to_string()))
    );
    assert_eq!(
        combine(&Token::Semicolon, two(), two(), &compute),
        Err(EvalError::InvalidOperator(Token::Semicolon))
    );
}

#[test]
fn plain_and_assigned_tell_the_operators() {
    let all = [
        (MathToken::Plus, MathToken::PlusEq),
        (MathToken::Minus, MathToken::MinusEq),
        (MathToken::Multiply, MathToken::MultiplyEq),
        (MathToken::Divide, MathToken::DivideEq),
    ];
    for (simple, assigning) in all {
        assert_eq!(plain(&Token::Arithmetic(simple)), Some(simple));
        assert_eq!(plain(&Token::Arithmetic(assigning)), None);
        assert_eq!(assigned(&Token::Arithmetic(assigning)), Some(simple));
        assert_eq!(assigned(&Token::Arithmetic(simple)), None);
    }
    assert_eq!(plain(&Token::Equals), None);
    assert_eq!(assigned(&Token::Equals), None);
}

#[test]
fn store_holds_one_binding_for_a_name() {
    let mut context = Context::new();
    assert_eq!(context.len(), 0);
    assert_eq!(context.bindings(), vec![]);
    context.insert("a".to_string(), num(1.0, true));
    context.insert("b".to_string(), text("x", false));
    context.insert("a".to_string(), num(2.0, false));
    assert_eq!(context.len(), 2);
    assert_eq!(context.get(&"a".to_string()), Some(&num(2.0, false)));
    assert_eq!(context.get(&"b".to_string()), Some(&text("x", false)));
    assert_eq!(context.get(&"c".to_string()), None);
    assert_eq!(context.get(&"".to_string()), None);
    let mut all = context.bindings();
    all.sort_by(|x, y| x.0.cmp(&y.0));
    assert_eq!(
        all,
        vec![
            ("a".to_string(), num(2.0, false)),
            ("b".to_string(), text("x", false))
        ]
    );
}

#[test]
fn memory_knows_its_flag() {
    assert!(num(1.0, true).is_mutable());
    assert!(!num(1.0, false).is_mutable());
    assert!(text("s", true).is_mutable());
    assert!(!text("s", false).is_mutable());
}

#[test]
fn clones_of_values_are_equal() {
    let m = text("s", true);
    assert_eq!(m.clone(), m);
    let v = Value::String("s".to_string());
    assert_eq!(v.clone(), v);
    let w = Value::Number(1);
    assert_eq!(w.clone(), w);
    let e = EvalError::InvalidOperator(Token::Let);
    assert_eq!(e.clone(), e);
}
