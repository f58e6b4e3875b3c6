use crystal::lexer::{tokenize, LexError, Lexer, MathToken, Token};

fn tokens(source: &str) -> Vec<Token> {
    tokenize(source.to_string()).unwrap()
}

fn error(source: &str) -> LexError {
    tokenize(source.to_string()).unwrap_err()
}

fn ident(name: &str) -> Token {
    Token::Identifier(name.to_string())
}

fn num(numeral: &str) -> Token {
    Token::Number(numeral.to_string())
}

#[test]
fn punctuation_tokenizes_to_itself() {
    assert_eq!(tokens("="), vec![Token::Equals]);
    assert_eq!(tokens("("), vec![Token::LParen]);
    assert_eq!(tokens(")"), vec![Token::RParen]);
    assert_eq!(tokens(";"), vec![Token::Semicolon]);
}

#[test]
fn operators_tokenize_to_themselves() {
    let spelled = [
        ("+", MathToken::Plus),
        ("-", MathToken::Minus),
        ("*", MathToken::Multiply),
        ("/", MathToken::Divide),
        ("+=", MathToken::PlusEq),
        ("-=", MathToken::MinusEq),
        ("*=", MathToken::MultiplyEq),
        ("/=", MathToken::DivideEq),
    ];
    for (text, operator) in spelled {
        assert_eq!(tokens(text), vec![Token::Arithmetic(operator)]);
    }
}

#[test]
fn keywords_tokenize_to_themselves() {
    assert_eq!(tokens("let"), vec![Token::Let]);
    assert_eq!(tokens("final"), vec![Token::Final]);
}

#[test]
fn compound_operator_is_greedy() {
    assert_eq!(
        tokens("+=="),
        vec![Token::Arithmetic(MathToken::PlusEq), Token::Equals]
    );
    assert_eq!(
        tokens("+ ="),
        vec![Token::Arithmetic(MathToken::Plus), Token::Equals]
    );
    assert_eq!(
        tokens("*/="),
        vec![
            Token::Arithmetic(MathToken::Multiply),
            Token::Arithmetic(MathToken::DivideEq)
        ]
    );
}

#[test]
fn words_that_only_start_like_keywords_are_identifiers() {
    assert_eq!(tokens("letx"), vec![ident("letx")]);
    assert_eq!(tokens("let_"), vec![ident("let_")]);
    assert_eq!(tokens("Let"), vec![ident("Let")]);
    assert_eq!(tokens("finally"), vec![ident("finally")]);
    assert_eq!(tokens("fina"), vec![ident("fina")]);
    assert_eq!(tokens("le"), vec![ident("le")]);
}

#[test]
fn identifier_takes_letters_and_underscores_only() {
    assert_eq!(tokens("a_b"), vec![ident("a_b")]);
    assert_eq!(tokens("x1"), vec![ident("x"), num("1")]);
    assert_eq!(tokens("ab cd"), vec![ident("ab"), ident("cd")]);
}

#[test]
fn identifier_cannot_start_with_underscore() {
    assert_eq!(error("_a"), LexError::UnexpectedCharacter('_'));
}

#[test]
fn letters_beyond_ascii_make_identifiers() {
    assert_eq!(tokens("\u{e9}t\u{e9}"), vec![ident("\u{e9}t\u{e9}")]);
    assert_eq!(tokens("\u{4eac}"), vec![ident("\u{4eac}")]);
}

#[test]
fn a_symbol_beyond_ascii_is_unexpected() {
    assert_eq!(error("\u{1f49d}"), LexError::UnexpectedCharacter('\u{1f49d}'));
}

#[test]
fn numerals_keep_their_text() {
    assert_eq!(tokens("5"), vec![num("5")]);
    assert_eq!(tokens("5.5"), vec![num("5.5")]);
    assert_eq!(tokens("5."), vec![num("5.")]);
    assert_eq!(tokens("007"), vec![num("007")]);
    assert_eq!(tokens("12abc"), vec![num("12"), ident("abc")]);
}

#[test]
fn numeral_with_two_dots_is_malformed() {
    assert_eq!(error("1.2.3"), LexError::MalformedNumber("1.2.3".to_string()));
    assert_eq!(error("let x = 1..2;"), LexError::MalformedNumber("1..2".to_string()));
}

#[test]
fn a_dot_alone_is_unexpected() {
    assert_eq!(error(".5"), LexError::UnexpectedCharacter('.'));
}

#[test]
fn string_literal_loses_its_quotes() {
    assert_eq!(tokens("\"hi\""), vec![Token::String("hi".to_string())]);
    assert_eq!(tokens("\"\""), vec![Token::String(String::new())]);
    assert_eq!(
        tokens("\"a b; let = 1\""),
        vec![Token::String("a b; let = 1".to_string())]
    );
    assert_eq!(
        tokens("\"a\"\"b\""),
        vec![Token::String("a".to_string()), Token::String("b".to_string())]
    );
}

#[test]
fn text_that_ends_inside_a_string_fails() {
    assert_eq!(error("\"unterminated"), LexError::UnterminatedString);
    assert_eq!(error("let s = \"abc;"), LexError::UnterminatedString);
    assert_eq!(error("\""), LexError::UnterminatedString);
}

#[test]
fn blanks_separate_tokens_and_are_dropped() {
    assert_eq!(tokens(""), vec![]);
    assert_eq!(tokens("   \t\r\n "), vec![]);
    assert_eq!(tokens(" \t\n\u{b}\u{c}\rlet"), vec![Token::Let]);
    assert_eq!(tokens("\u{a0}\u{2003}\u{3000}let\u{2028}"), vec![Token::Let]);
}

#[test]
fn unexpected_character_stops_tokenizing() {
    assert_eq!(error("@"), LexError::UnexpectedCharacter('@'));
    assert_eq!(error("let x = 5 # 6;"), LexError::UnexpectedCharacter('#'));
    assert_eq!(error("a , b"), LexError::UnexpectedCharacter(','));
}

#[test]
fn first_error_wins() {
    assert_eq!(error("1.2.3 @"), LexError::MalformedNumber("1.2.3".to_string()));
    assert_eq!(error("@ 1.2.3"), LexError::UnexpectedCharacter('@'));
}

#[test]
fn tokens_of_a_declaration() {
    assert_eq!(
        tokens("let x = 5;"),
        vec![Token::Let, ident("x"), Token::Equals, num("5"), Token::Semicolon]
    );
    assert_eq!(
        tokens("final y=\"hi\";"),
        vec![
            Token::Final,
            ident("y"),
            Token::Equals,
            Token::String("hi".to_string()),
            Token::Semicolon
        ]
    );
}

#[test]
fn tokens_of_an_assignment() {
    assert_eq!(
        tokens("n+=5;"),
        vec![
            ident("n"),
            Token::Arithmetic(MathToken::PlusEq),
            num("5"),
            Token::Semicolon
        ]
    );
}

#[test]
fn parentheses_are_tokens() {
    assert_eq!(
        tokens("(a)"),
        vec![Token::LParen, ident("a"), Token::RParen]
    );
}

#[test]
fn next_token_yields_eof_from_the_end_on() {
    let mut lexer = Lexer::new("x".to_string());
    assert_eq!(lexer.next_token(), Ok(ident("x")));
    assert_eq!(lexer.next_token(), Ok(Token::EOF));
    assert_eq!(lexer.next_token(), Ok(Token::EOF));
}

#[test]
fn advance_moves_one_character_on_in_every_state() {
    let mut lexer = Lexer::new("ab".to_string());
    assert_eq!(lexer.current_char(), Some('a'));
    assert_eq!(lexer.position(), 0);
    lexer.advance();
    assert_eq!(lexer.current_char(), Some('b'));
    assert_eq!(lexer.position(), 1);
    lexer.advance();
    assert_eq!(lexer.current_char(), None);
    assert_eq!(lexer.position(), 2);
    lexer.advance();
    assert_eq!(lexer.current_char(), None);
    assert_eq!(lexer.position(), 3);
    lexer.advance();
    assert_eq!(lexer.position(), 4);
}

#[test]
fn behind_the_end_every_step_yields_what_the_end_yields() {
    let mut lexer = Lexer::new("x".to_string());
    lexer.advance();
    lexer.advance();
    lexer.advance();
    assert_eq!(lexer.position(), 3);
    lexer.skip_whitespace();
    assert_eq!(lexer.position(), 3);
    assert_eq!(lexer.next_token(), Ok(Token::EOF));
    assert_eq!(lexer.position(), 3);
    assert_eq!(lexer.identifier(), ident(""));
    assert_eq!(lexer.position(), 3);
    assert_eq!(lexer.number(), Err(LexError::MalformedNumber(String::new())));
    assert_eq!(lexer.position(), 3);
    assert_eq!(lexer.string(), Err(LexError::UnterminatedString));
    assert_eq!(lexer.position(), 4);
}

#[test]
fn string_passes_over_what_stands_under_the_cursor() {
    let mut lexer = Lexer::new("xab\"c".to_string());
    assert_eq!(lexer.string(), Ok(Token::String("ab".to_string())));
    assert_eq!(lexer.position(), 4);
    let mut at_end = Lexer::new(String::new());
    assert_eq!(at_end.string(), Err(LexError::UnterminatedString));
    assert_eq!(at_end.position(), 1);
}

#[test]
fn skip_whitespace_stops_at_the_first_other_character() {
    let mut lexer = Lexer::new("  \n x y".to_string());
    lexer.skip_whitespace();
    assert_eq!(lexer.current_char(), Some('x'));
    lexer.skip_whitespace();
    assert_eq!(lexer.current_char(), Some('x'));
}

#[test]
fn number_reads_the_run_under_the_cursor() {
    let mut lexer = Lexer::new("3.25+1".to_string());
    assert_eq!(lexer.number(), Ok(num("3.25")));
    assert_eq!(lexer.current_char(), Some('+'));
    let mut dotted = Lexer::new(".5".to_string());
    assert_eq!(dotted.number(), Ok(num(".5")));
    let mut empty = Lexer::new("x".to_string());
    assert_eq!(empty.number(), Err(LexError::MalformedNumber(String::new())));
    let mut dot = Lexer::new(".".to_string());
    assert_eq!(dot.number(), Err(LexError::MalformedNumber(".".to_string())));
}

#[test]
fn identifier_reads_the_run_under_the_cursor() {
    let mut lexer = Lexer::new("foo_bar=1".to_string());
    assert_eq!(lexer.identifier(), ident("foo_bar"));
    assert_eq!(lexer.current_char(), Some('='));
    let mut keyword = Lexer::new("final x".to_string());
    assert_eq!(keyword.identifier(), Token::Final);
    let mut none = Lexer::new("1".to_string());
    assert_eq!(none.identifier(), ident(""));
}

#[test]
fn string_reads_up_to_the_closing_quote() {
    let mut lexer = Lexer::new("\"ab\"c".to_string());
    assert_eq!(lexer.string(), Ok(Token::String("ab".to_string())));
    assert_eq!(lexer.current_char(), Some('c'));
    let mut open = Lexer::new("\"ab".to_string());
    assert_eq!(open.string(), Err(LexError::UnterminatedString));
    assert_eq!(open.current_char(), None);
    assert_eq!(open.position(), 3);
}

#[test]
fn after_an_unexpected_character_the_cursor_stands_on_it() {
    let mut lexer = Lexer::new("  @x".to_string());
    assert_eq!(lexer.position(), 0);
    assert_eq!(lexer.next_token(), Err(LexError::UnexpectedCharacter('@')));
    assert_eq!(lexer.current_char(), Some('@'));
    assert_eq!(lexer.position(), 2);
}

#[test]
fn after_a_malformed_number_the_cursor_stands_behind_it() {
    let mut lexer = Lexer::new("1.2.3;".to_string());
    assert_eq!(
        lexer.next_token(),
        Err(LexError::MalformedNumber("1.2.3".to_string()))
    );
    assert_eq!(lexer.position(), 5);
}

#[test]
fn position_counts_characters_not_bytes() {
    let mut lexer = Lexer::new("\u{e9}\u{4eac} x".to_string());
    assert_eq!(lexer.next_token(), Ok(ident("\u{e9}\u{4eac}")));
    assert_eq!(lexer.position(), 2);
    assert_eq!(lexer.next_token(), Ok(ident("x")));
    assert_eq!(lexer.position(), 4);
    assert_eq!(lexer.next_token(), Ok(Token::EOF));
    assert_eq!(lexer.position(), 4);
}

#[test]
fn clones_of_tokens_and_errors_are_equal() {
    let token = Token::String("s".to_string());
    assert_eq!(token.clone(), token);
    let operator = Token::Arithmetic(MathToken::DivideEq);
    assert_eq!(operator.clone(), operator);
    let e = LexError::MalformedNumber("1..".to_string());
    assert_eq!(e.clone(), e);
}
