use crystal::lexer::{tokenize, MathToken, Token};
use crystal::parser::{compound, ASTNode, ParseError, Parser};

fn parser(source: &str) -> Parser {
    Parser::new(tokenize(source.to_string()).unwrap())
}

fn parse(source: &str) -> Result<ASTNode, ParseError> {
    parser(source).parse()
}

fn statements(source: &str) -> Vec<ASTNode> {
    match parse(source) {
        Ok(ASTNode::Program(statements)) => statements,
        other => panic!("no program: {:?}", other),
    }
}

fn number(numeral: &str) -> ASTNode {
    ASTNode::Number(numeral.to_string())
}

fn name(text: &str) -> ASTNode {
    ASTNode::Identifier(text.to_string())
}

fn binary(left: ASTNode, op: MathToken, right: ASTNode) -> ASTNode {
    ASTNode::BinaryOp {
        left: Box::new(left),
        op: Token::Arithmetic(op),
        right: Box::new(right),
    }
}

#[test]
fn empty_text_is_the_empty_program() {
    assert_eq!(parse(""), Ok(ASTNode::Program(vec![])));
}

#[test]
fn let_statement_declares() {
    assert_eq!(
        statements("let x = 5;"),
        vec![ASTNode::Let("x".to_string(), Box::new(number("5")))]
    );
}

#[test]
fn final_statement_declares() {
    assert_eq!(
        statements("final y = \"hi\";"),
        vec![ASTNode::Final(
            "y".to_string(),
            Box::new(ASTNode::String("hi".to_string()))
        )]
    );
}

#[test]
fn statements_come_in_order() {
    assert_eq!(
        statements("let a = 1; final b = a; a -= b;"),
        vec![
            ASTNode::Let("a".to_string(), Box::new(number("1"))),
            ASTNode::Final("b".to_string(), Box::new(name("a"))),
            ASTNode::CompoundAssign {
                ident: "a".to_string(),
                op: Token::Arithmetic(MathToken::MinusEq),
                value: Box::new(name("b")),
            },
        ]
    );
}

#[test]
fn expression_associates_to_the_left() {
    assert_eq!(
        statements("10 - 2 - 3"),
        vec![binary(
            binary(number("10"), MathToken::Minus, number("2")),
            MathToken::Minus,
            number("3")
        )]
    );
}

#[test]
fn all_operators_have_one_precedence() {
    assert_eq!(
        statements("let r = 1 + 2 * 3 / 4 - 5;"),
        vec![ASTNode::Let(
            "r".to_string(),
            Box::new(binary(
                binary(
                    binary(
                        binary(number("1"), MathToken::Plus, number("2")),
                        MathToken::Multiply,
                        number("3")
                    ),
                    MathToken::Divide,
                    number("4")
                ),
                MathToken::Minus,
                number("5")
            ))
        )]
    );
}

#[test]
fn compound_assignment_takes_each_operator() {
    for (text, op) in [
        ("n += 5;", MathToken::PlusEq),
        ("n -= 5;", MathToken::MinusEq),
        ("n *= 5;", MathToken::MultiplyEq),
        ("n /= 5;", MathToken::DivideEq),
    ] {
        assert_eq!(
            statements(text),
            vec![ASTNode::CompoundAssign {
                ident: "n".to_string(),
                op: Token::Arithmetic(op),
                value: Box::new(number("5")),
            }]
        );
    }
}

#[test]
fn compound_operator_inside_an_expression_is_an_infix_operator() {
    // The last operator decides: `+` here, so this is an expression, and the
    // `;` behind it starts no statement.
    assert_eq!(
        parse("x += 1 + 2;"),
        Err(ParseError::UnexpectedToken(Token::Semicolon))
    );
    assert_eq!(
        statements("x += 1 + 2"),
        vec![binary(
            binary(name("x"), MathToken::PlusEq, number("1")),
            MathToken::Plus,
            number("2")
        )]
    );
}

#[test]
fn bare_expression_takes_no_semicolon() {
    assert_eq!(statements("a"), vec![name("a")]);
    assert_eq!(statements("a b"), vec![name("a"), name("b")]);
    assert_eq!(
        statements("1 + 2 let x = 3;"),
        vec![
            binary(number("1"), MathToken::Plus, number("2")),
            ASTNode::Let("x".to_string(), Box::new(number("3")))
        ]
    );
    assert_eq!(
        parse("1 + 2;"),
        Err(ParseError::UnexpectedToken(Token::Semicolon))
    );
}

#[test]
fn declaration_needs_an_identifier() {
    assert_eq!(
        parse("let 5 = 3;"),
        Err(ParseError::ExpectedIdentifier(Token::Number("5".to_string())))
    );
    assert_eq!(parse("final"), Err(ParseError::ExpectedIdentifier(Token::EOF)));
    assert_eq!(
        parse("let let = 1;"),
        Err(ParseError::ExpectedIdentifier(Token::Let))
    );
}

#[test]
fn declaration_needs_an_equals_sign() {
    assert_eq!(
        parse("let x 5;"),
        Err(ParseError::ExpectedEquals(Token::Number("5".to_string())))
    );
    assert_eq!(
        parse("final x += 5;"),
        Err(ParseError::ExpectedEquals(Token::Arithmetic(MathToken::PlusEq)))
    );
    assert_eq!(parse("let x"), Err(ParseError::ExpectedEquals(Token::EOF)));
}

#[test]
fn declaration_needs_a_semicolon() {
    assert_eq!(parse("let x = 5"), Err(ParseError::ExpectedSemicolon(Token::EOF)));
    assert_eq!(
        parse("let x = 5 let y = 6;"),
        Err(ParseError::ExpectedSemicolon(Token::Let))
    );
}

#[test]
fn compound_assignment_needs_a_semicolon() {
    assert_eq!(parse("n += 1"), Err(ParseError::ExpectedSemicolon(Token::EOF)));
}

#[test]
fn compound_assignment_needs_an_identifier_to_its_left() {
    assert_eq!(parse("1 += 2;"), Err(ParseError::InvalidAssignmentTarget));
    assert_eq!(parse("\"s\" *= 2;"), Err(ParseError::InvalidAssignmentTarget));
    assert_eq!(parse("a += 1 -= 2;"), Err(ParseError::InvalidAssignmentTarget));
}

#[test]
fn term_must_be_a_number_an_identifier_or_a_string() {
    assert_eq!(
        parse("let x = ;"),
        Err(ParseError::UnexpectedToken(Token::Semicolon))
    );
    assert_eq!(parse("let x = 1 +"), Err(ParseError::UnexpectedToken(Token::EOF)));
    assert_eq!(parse("= 1"), Err(ParseError::UnexpectedToken(Token::Equals)));
}

#[test]
fn parenthesis_is_no_term() {
    assert_eq!(
        parse("let x = (1 + 2);"),
        Err(ParseError::UnexpectedToken(Token::LParen))
    );
    assert_eq!(parse(")"), Err(ParseError::UnexpectedToken(Token::RParen)));
}

#[test]
fn first_syntax_error_wins() {
    assert_eq!(
        parse("let x = 1; let = 2; let y 3;"),
        Err(ParseError::ExpectedIdentifier(Token::Equals))
    );
}

#[test]
fn eof_token_ends_the_program() {
    let tokens = vec![
        Token::Identifier("a".to_string()),
        Token::EOF,
        Token::Identifier("b".to_string()),
    ];
    assert_eq!(
        Parser::new(tokens).parse(),
        Ok(ASTNode::Program(vec![name("a")]))
    );
}

#[test]
fn current_token_and_advance_walk_the_tokens() {
    let mut p = parser("a ;");
    assert_eq!(p.current_token(), &Token::Identifier("a".to_string()));
    p.advance();
    assert_eq!(p.current_token(), &Token::Semicolon);
    p.advance();
    assert_eq!(p.current_token(), &Token::EOF);
    assert_eq!(p.position(), 2);
    p.advance();
    assert_eq!(p.current_token(), &Token::EOF);
    assert_eq!(p.position(), 3);
}

#[test]
fn behind_the_last_token_every_rule_sees_the_end() {
    let mut p = parser("a");
    p.advance();
    p.advance();
    assert_eq!(p.position(), 2);
    assert_eq!(p.term(), Err(ParseError::UnexpectedToken(Token::EOF)));
    assert_eq!(p.position(), 2);
    assert_eq!(p.statement(), Err(ParseError::UnexpectedToken(Token::EOF)));
    assert_eq!(p.parse(), Ok(ASTNode::Program(vec![])));
    assert_eq!(p.position(), 2);
    assert_eq!(p.let_statement(), Err(ParseError::ExpectedIdentifier(Token::EOF)));
    assert_eq!(p.position(), 3);
    assert_eq!(p.final_statement(), Err(ParseError::ExpectedIdentifier(Token::EOF)));
    assert_eq!(p.position(), 4);
}

#[test]
fn after_an_error_the_cursor_stands_on_the_offending_token() {
    let mut p = parser("let x = 1 + ; let y = 2;");
    assert_eq!(p.position(), 0);
    assert_eq!(p.parse(), Err(ParseError::UnexpectedToken(Token::Semicolon)));
    assert_eq!(p.position(), 5);
    let mut q = parser("let x 1;");
    assert_eq!(
        q.parse(),
        Err(ParseError::ExpectedEquals(Token::Number("1".to_string())))
    );
    assert_eq!(q.position(), 2);
    let mut r = parser("let a = 1; b c");
    assert!(r.parse().is_ok());
    assert_eq!(r.position(), 7);
}

#[test]
fn term_reads_one_token() {
    let mut p = parser("7 x \"s\" ;");
    assert_eq!(p.term(), Ok(number("7")));
    assert_eq!(p.term(), Ok(name("x")));
    assert_eq!(p.term(), Ok(ASTNode::String("s".to_string())));
    assert_eq!(p.term(), Err(ParseError::UnexpectedToken(Token::Semicolon)));
    assert_eq!(p.current_token(), &Token::Semicolon);
}

#[test]
fn expression_stops_before_what_is_no_operator() {
    let mut p = parser("a * 2 ; b");
    assert_eq!(
        p.expression(),
        Ok(binary(name("a"), MathToken::Multiply, number("2")))
    );
    assert_eq!(p.current_token(), &Token::Semicolon);
}

#[test]
fn statement_picks_the_rule_by_the_first_token() {
    let mut p = parser("let a = 1; final b = 2; a /= b; a");
    assert_eq!(
        p.statement(),
        Ok(ASTNode::Let("a".to_string(), Box::new(number("1"))))
    );
    assert_eq!(
        p.statement(),
        Ok(ASTNode::Final("b".to_string(), Box::new(number("2"))))
    );
    assert_eq!(
        p.statement(),
        Ok(ASTNode::CompoundAssign {
            ident: "a".to_string(),
            op: Token::Arithmetic(MathToken::DivideEq),
            value: Box::new(name("b")),
        })
    );
    assert_eq!(p.statement(), Ok(name("a")));
    assert_eq!(p.current_token(), &Token::EOF);
}

#[test]
fn let_and_final_statement_skip_the_token_under_the_cursor() {
    let mut p = parser("let a = 1; final b = 2;");
    assert_eq!(
        p.let_statement(),
        Ok(ASTNode::Let("a".to_string(), Box::new(number("1"))))
    );
    assert_eq!(
        p.final_statement(),
        Ok(ASTNode::Final("b".to_string(), Box::new(number("2"))))
    );
    let mut q = parser("final a = 1;");
    assert_eq!(
        q.let_statement(),
        Ok(ASTNode::Let("a".to_string(), Box::new(number("1"))))
    );
}

#[test]
fn assignment_or_expression_reads_either() {
    let mut p = parser("n *= 2; n * 2");
    assert_eq!(
        p.assignment_or_expression(),
        Ok(ASTNode::CompoundAssign {
            ident: "n".to_string(),
            op: Token::Arithmetic(MathToken::MultiplyEq),
            value: Box::new(number("2")),
        })
    );
    assert_eq!(
        p.assignment_or_expression(),
        Ok(binary(name("n"), MathToken::Multiply, number("2")))
    );
}

#[test]
fn parse_goes_on_from_the_cursor() {
    let mut p = parser("a b c");
    p.advance();
    assert_eq!(p.parse(), Ok(ASTNode::Program(vec![name("b"), name("c")])));
    assert_eq!(p.parse(), Ok(ASTNode::Program(vec![])));
}

#[test]
fn compound_tells_the_assignment_operators() {
    assert!(compound(MathToken::PlusEq));
    assert!(compound(MathToken::MinusEq));
    assert!(compound(MathToken::MultiplyEq));
    assert!(compound(MathToken::DivideEq));
    assert!(!compound(MathToken::Plus));
    assert!(!compound(MathToken::Minus));
    assert!(!compound(MathToken::Multiply));
    assert!(!compound(MathToken::Divide));
}

#[test]
fn clone_of_a_tree_is_equal() {
    let program = parse("let a = 1 + 2; final s = \"x\"; a *= a; a - 1").unwrap();
    assert_eq!(program.clone(), program);
    let e = parse("let").unwrap_err();
    assert_eq!(e.clone(), e);
}
