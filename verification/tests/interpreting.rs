use crystal::interpreter::{interpret, Failure};
use crystal::lexer::{LexError, MathToken, Token};
use crystal::memories::{EvalError, Memory};
use crystal::parser::ParseError;

fn read(numeral: &str) -> Option<u64> {
    numeral.parse::<f64>().ok().map(f64::to_bits)
}

fn compute(op: MathToken, a: u64, b: u64) -> u64 {
    let (x, y) = (f64::from_bits(a), f64::from_bits(b));
    let z = match op {
        MathToken::Plus => x + y,
        MathToken::Minus => x - y,
        MathToken::Multiply => x * y,
        MathToken::Divide => x / y,
        _ => unreachable!(),
    };
    z.to_bits()
}

fn bindings(source: &str) -> Vec<(String, Memory)> {
    let mut all = interpret(source.to_string(), &read, &compute)
        .unwrap()
        .bindings();
    all.sort_by(|x, y| x.0.cmp(&y.0));
    all
}

fn failure(source: &str) -> Failure {
    match interpret(source.to_string(), &read, &compute) {
        Ok(store) => panic!("no failure: {:?}", store.bindings()),
        Err(e) => e,
    }
}

#[test]
fn program_runs_from_text_to_store() {
    assert_eq!(
        bindings("let a = 1;\nlet b = 2;\nlet c = a + b;\nfinal s = \"done\";\nc /= 4;\n"),
        vec![
            ("a".to_string(), Memory::Number(1.0f64.to_bits(), true)),
            ("b".to_string(), Memory::Number(2.0f64.to_bits(), true)),
            ("c".to_string(), Memory::Number(0.75f64.to_bits(), true)),
            ("s".to_string(), Memory::String("done".to_string(), false)),
        ]
    );
}

#[test]
fn empty_text_leaves_the_empty_store() {
    assert_eq!(bindings(""), vec![]);
    assert_eq!(bindings(" \n\t"), vec![]);
}

#[test]
fn lexical_error_comes_first() {
    assert_eq!(
        failure("let = \"open"),
        Failure::Lexical(LexError::UnterminatedString)
    );
    assert_eq!(
        failure("q += 1; let x = 1.2.3;"),
        Failure::Lexical(LexError::MalformedNumber("1.2.3".to_string()))
    );
    assert_eq!(
        failure("let x = 5 ?"),
        Failure::Lexical(LexError::UnexpectedCharacter('?'))
    );
}

#[test]
fn syntax_error_comes_before_evaluation() {
    assert_eq!(
        failure("q += 1; let x 5;"),
        Failure::Syntactic(ParseError::ExpectedEquals(Token::Number("5".to_string())))
    );
    assert_eq!(
        failure("let x = (1);"),
        Failure::Syntactic(ParseError::UnexpectedToken(Token::LParen))
    );
}

#[test]
fn evaluation_error_is_semantic() {
    assert_eq!(
        failure("m += 1;"),
        Failure::Semantic(EvalError::BindingNotFound("m".to_string()))
    );
    assert_eq!(
        failure("final y = \"hi\"; y += 1;"),
        Failure::Semantic(EvalError::ImmutableBinding("y".to_string()))
    );
}
