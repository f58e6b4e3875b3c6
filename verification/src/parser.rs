//! The parser: from a sequence of tokens to one syntax tree, by recursive
//! descent with one token of lookahead.

use vstd::prelude::*;
use crate::lexer::{token_views, MathToken, Token, TokenView};

verus! {

/// A node of the syntax tree. Every node owns its subtrees.
#[derive(Debug, PartialEq, Eq)]
pub enum ASTNode {
    /// The whole program: its statements in order.
    Program(Vec<ASTNode>),
    /// `let name = value;`: declares a mutable binding.
    Let(String, Box<ASTNode>),
    /// `final name = value;`: declares an immutable binding.
    Final(String, Box<ASTNode>),
    /// A number, as its numeral.
    Number(String),
    /// A name used as an expression.
    Identifier(String),
    /// A string literal, without its quotes.
    String(String),
    /// Reserved for calls; the parser never builds it.
    FunCall(String, Box<ASTNode>),
    /// An infix operation.
    BinaryOp { left: Box<ASTNode>, op: Token, right: Box<ASTNode> },
    /// `ident op= value;`.
    CompoundAssign { ident: String, op: Token, value: Box<ASTNode> },
}

/// The mathematical value of an `ASTNode`.
pub enum NodeView {
    Program(Seq<NodeView>),
    Let(Seq<char>, Box<NodeView>),
    Final(Seq<char>, Box<NodeView>),
    Number(Seq<char>),
    Identifier(Seq<char>),
    String(Seq<char>),
    FunCall(Seq<char>, Box<NodeView>),
    BinaryOp { left: Box<NodeView>, op: TokenView, right: Box<NodeView> },
    CompoundAssign { ident: Seq<char>, op: TokenView, value: Box<NodeView> },
}

/// The value of a node: the same tree over texts.
pub open spec fn node_view(node: ASTNode) -> NodeView
    decreases node,
{
    match node {
        ASTNode::Program(statements) => NodeView::Program(
            Seq::new(
                statements.len() as nat,
                |i: int|
                    if 0 <= i < statements.len() {
                        node_view(statements[i])
                    } else {
                        arbitrary()
                    },
            ),
        ),
        ASTNode::Let(name, value) => NodeView::Let(name@, Box::new(node_view(*value))),
        ASTNode::Final(name, value) => NodeView::Final(name@, Box::new(node_view(*value))),
        ASTNode::Number(numeral) => NodeView::Number(numeral@),
        ASTNode::Identifier(name) => NodeView::Identifier(name@),
        ASTNode::String(text) => NodeView::String(text@),
        ASTNode::FunCall(name, argument) => NodeView::FunCall(
            name@,
            Box::new(node_view(*argument)),
        ),
        ASTNode::BinaryOp { left, op, right } => NodeView::BinaryOp {
            left: Box::new(node_view(*left)),
            op: op@,
            right: Box::new(node_view(*right)),
        },
        ASTNode::CompoundAssign { ident, op, value } => NodeView::CompoundAssign {
            ident: ident@,
            op: op@,
            value: Box::new(node_view(*value)),
        },
    }
}

impl View for ASTNode {
    type V = NodeView;

    open spec fn view(&self) -> NodeView {
        node_view(*self)
    }
}

/// The values of a sequence of nodes.
pub open spec fn node_views(nodes: Seq<ASTNode>) -> Seq<NodeView> {
    Seq::new(nodes.len(), |i: int| node_view(nodes[i]))
}

/// Why parsing stopped. Each error but the fourth carries the token that
/// stood where something else was expected.
#[derive(Debug, PartialEq, Eq)]
pub enum ParseError {
    /// No identifier after `let` or `final`.
    ExpectedIdentifier(Token),
    /// No `=` after the identifier of a declaration.
    ExpectedEquals(Token),
    /// No `;` after the expression of a declaration or of a compound
    /// assignment.
    ExpectedSemicolon(Token),
    /// A compound assignment to something that is no identifier.
    InvalidAssignmentTarget,
    /// A token that starts no term.
    UnexpectedToken(Token),
}

/// The mathematical value of a `ParseError`.
pub enum ParseErrorView {
    ExpectedIdentifier(TokenView),
    ExpectedEquals(TokenView),
    ExpectedSemicolon(TokenView),
    InvalidAssignmentTarget,
    UnexpectedToken(TokenView),
}

impl View for ParseError {
    type V = ParseErrorView;

    open spec fn view(&self) -> ParseErrorView {
        match self {
            ParseError::ExpectedIdentifier(t) => ParseErrorView::ExpectedIdentifier(t@),
            ParseError::ExpectedEquals(t) => ParseErrorView::ExpectedEquals(t@),
            ParseError::ExpectedSemicolon(t) => ParseErrorView::ExpectedSemicolon(t@),
            ParseError::InvalidAssignmentTarget => ParseErrorView::InvalidAssignmentTarget,
            ParseError::UnexpectedToken(t) => ParseErrorView::UnexpectedToken(t@),
        }
    }
}

impl Clone for ASTNode {
    fn clone(&self) -> (copy: ASTNode)
        ensures
            copy@ == self@,
        decreases self,
    {
        match self {
            ASTNode::Program(statements) => {
                let mut copies: Vec<ASTNode> = Vec::new();
                let mut i: usize = 0;
                while i < statements.len()
                    invariant
                        i <= statements.len(),
                        copies.len() == i,
                        *self is Program,
                        self->Program_0 == *statements,
                        forall|k: int| 0 <= k < i ==> copies[k]@ == statements[k]@,
                    decreases statements.len() - i,
                {
                    proof {
                        vstd::std_specs::vec::axiom_vec_index_decreases(*statements, i as int);
                    }
                    copies.push(statements[i].clone());
                    i = i + 1;
                }
                proof {
                    lemma_program_view(copies);
                    lemma_program_view(*statements);
                    assert(node_views(copies@) == node_views(statements@));
                }
                ASTNode::Program(copies)
            },
            ASTNode::Let(name, value) => ASTNode::Let(name.clone(), Box::new((**value).clone())),
            ASTNode::Final(name, value) => ASTNode::Final(
                name.clone(),
                Box::new((**value).clone()),
            ),
            ASTNode::Number(numeral) => ASTNode::Number(numeral.clone()),
            ASTNode::Identifier(name) => ASTNode::Identifier(name.clone()),
            ASTNode::String(text) => ASTNode::String(text.clone()),
            ASTNode::FunCall(name, argument) => ASTNode::FunCall(
                name.clone(),
                Box::new((**argument).clone()),
            ),
            ASTNode::BinaryOp { left, op, right } => ASTNode::BinaryOp {
                left: Box::new((**left).clone()),
                op: op.clone(),
                right: Box::new((**right).clone()),
            },
            ASTNode::CompoundAssign { ident, op, value } => ASTNode::CompoundAssign {
                ident: ident.clone(),
                op: op.clone(),
                value: Box::new((**value).clone()),
            },
        }
    }
}

impl Clone for ParseError {
    fn clone(&self) -> (copy: ParseError)
        ensures
            copy@ == self@,
    {
        match self {
            ParseError::ExpectedIdentifier(t) => ParseError::ExpectedIdentifier(t.clone()),
            ParseError::ExpectedEquals(t) => ParseError::ExpectedEquals(t.clone()),
            ParseError::ExpectedSemicolon(t) => ParseError::ExpectedSemicolon(t.clone()),
            ParseError::InvalidAssignmentTarget => ParseError::InvalidAssignmentTarget,
            ParseError::UnexpectedToken(t) => ParseError::UnexpectedToken(t.clone()),
        }
    }
}

/// The value of what the parsing methods return.
pub open spec fn parse_view(r: Result<ASTNode, ParseError>) -> Result<NodeView, ParseErrorView> {
    match r {
        Ok(node) => Ok(node@),
        Err(e) => Err(e@),
    }
}

/// What one parsing step yields: a tree or an error, and where the cursor
/// stands afterwards. After an error it stands on the offending token.
pub struct Parsed {
    pub outcome: Result<NodeView, ParseErrorView>,
    pub next: int,
}

/// The token at `pos`; `EOF` outside the sequence.
pub open spec fn token_at(tokens: Seq<TokenView>, pos: int) -> TokenView {
    if 0 <= pos < tokens.len() {
        tokens[pos]
    } else {
        TokenView::EOF
    }
}

/// Whether an operator is a compound assignment.
pub open spec fn is_compound(m: MathToken) -> bool {
    m == MathToken::PlusEq || m == MathToken::MinusEq || m == MathToken::MultiplyEq || m
        == MathToken::DivideEq
}

/// `term := NUMBER | IDENT | STRING`.
pub open spec fn parse_term(tokens: Seq<TokenView>, pos: int) -> Parsed {
    match token_at(tokens, pos) {
        TokenView::Number(numeral) => Parsed {
            outcome: Ok(NodeView::Number(numeral)),
            next: pos + 1,
        },
        TokenView::Identifier(name) => Parsed {
            outcome: Ok(NodeView::Identifier(name)),
            next: pos + 1,
        },
        TokenView::String(text) => Parsed { outcome: Ok(NodeView::String(text)), next: pos + 1 },
        other => Parsed { outcome: Err(ParseErrorView::UnexpectedToken(other)), next: pos },
    }
}

/// `(ARITH_OP term)*` behind an operand that was already read: each
/// operator, plain or compound, takes what stands to its left as its left
/// operand.
pub open spec fn parse_operations(tokens: Seq<TokenView>, pos: int, left: NodeView) -> Parsed
    decreases tokens.len() - pos,
{
    match token_at(tokens, pos) {
        TokenView::Arithmetic(m) => {
            let right = parse_term(tokens, pos + 1);
            match right.outcome {
                Ok(operand) => {
                    if pos < right.next <= tokens.len() {
                        parse_operations(
                            tokens,
                            right.next,
                            NodeView::BinaryOp {
                                left: Box::new(left),
                                op: TokenView::Arithmetic(m),
                                right: Box::new(operand),
                            },
                        )
                    } else {
                        right
                    }
                },
                Err(_) => right,
            }
        },
        _ => Parsed { outcome: Ok(left), next: pos },
    }
}

/// `expression := term (ARITH_OP term)*`, folded to the left.
pub open spec fn parse_expression(tokens: Seq<TokenView>, pos: int) -> Parsed {
    let first = parse_term(tokens, pos);
    match first.outcome {
        Ok(left) => parse_operations(tokens, first.next, left),
        Err(_) => first,
    }
}

/// A declaration whose keyword stands at `pos`:
/// `keyword IDENT '=' expression ';'`.
pub open spec fn parse_binding(tokens: Seq<TokenView>, pos: int, mutable: bool) -> Parsed {
    let at_name = pos + 1;
    match token_at(tokens, at_name) {
        TokenView::Identifier(name) => {
            let at_equals = at_name + 1;
            if token_at(tokens, at_equals) != TokenView::Equals {
                Parsed {
                    outcome: Err(ParseErrorView::ExpectedEquals(token_at(tokens, at_equals))),
                    next: at_equals,
                }
            } else {
                let value = parse_expression(tokens, at_equals + 1);
                match value.outcome {
                    Ok(node) => {
                        if token_at(tokens, value.next) != TokenView::Semicolon {
                            Parsed {
                                outcome: Err(
                                    ParseErrorView::ExpectedSemicolon(token_at(tokens, value.next)),
                                ),
                                next: value.next,
                            }
                        } else if mutable {
                            Parsed {
                                outcome: Ok(NodeView::Let(name, Box::new(node))),
                                next: value.next + 1,
                            }
                        } else {
                            Parsed {
                                outcome: Ok(NodeView::Final(name, Box::new(node))),
                                next: value.next + 1,
                            }
                        }
                    },
                    Err(_) => value,
                }
            }
        },
        other => Parsed { outcome: Err(ParseErrorView::ExpectedIdentifier(other)), next: at_name },
    }
}

/// A statement that starts with no keyword: an expression. One whose last
/// operator is a compound assignment must have an identifier to the left of
/// it and `;` behind it, and becomes a compound assignment; any other
/// expression stands as it is.
pub open spec fn parse_assignment_or_expression(tokens: Seq<TokenView>, pos: int) -> Parsed {
    let expression = parse_expression(tokens, pos);
    match expression.outcome {
        Ok(NodeView::BinaryOp { left, op: TokenView::Arithmetic(m), right }) => {
            if is_compound(m) {
                match *left {
                    NodeView::Identifier(ident) => {
                        if token_at(tokens, expression.next) != TokenView::Semicolon {
                            Parsed {
                                outcome: Err(
                                    ParseErrorView::ExpectedSemicolon(
                                        token_at(tokens, expression.next),
                                    ),
                                ),
                                next: expression.next,
                            }
                        } else {
                            Parsed {
                                outcome: Ok(
                                    NodeView::CompoundAssign {
                                        ident,
                                        op: TokenView::Arithmetic(m),
                                        value: right,
                                    },
                                ),
                                next: expression.next + 1,
                            }
                        }
                    },
                    _ => Parsed {
                        outcome: Err(ParseErrorView::InvalidAssignmentTarget),
                        next: expression.next,
                    },
                }
            } else {
                expression
            }
        },
        _ => expression,
    }
}

/// `statement := let_stmt | final_stmt | assign_or_expr`.
pub open spec fn parse_statement(tokens: Seq<TokenView>, pos: int) -> Parsed {
    match token_at(tokens, pos) {
        TokenView::Let => parse_binding(tokens, pos, true),
        TokenView::Final => parse_binding(tokens, pos, false),
        _ => parse_assignment_or_expression(tokens, pos),
    }
}

/// Puts `first` before the statements of a parsed program.
pub open spec fn prepend(first: Seq<NodeView>, rest: Parsed) -> Parsed {
    match rest.outcome {
        Ok(NodeView::Program(statements)) => Parsed {
            outcome: Ok(NodeView::Program(first + statements)),
            next: rest.next,
        },
        _ => rest,
    }
}

/// `program := statement* EOF`, from `pos` on. A statement that parses
/// takes at least one token (`lemma_statement_bounds`), so the branch that
/// ends the program early is never taken from a position in the tokens.
pub open spec fn parse_program(tokens: Seq<TokenView>, pos: int) -> Parsed
    decreases tokens.len() - pos,
{
    if token_at(tokens, pos) == TokenView::EOF {
        Parsed { outcome: Ok(NodeView::Program(Seq::empty())), next: pos }
    } else {
        let statement = parse_statement(tokens, pos);
        match statement.outcome {
            Ok(node) => {
                if pos < statement.next <= tokens.len() {
                    prepend(seq![node], parse_program(tokens, statement.next))
                } else {
                    statement
                }
            },
            Err(_) => statement,
        }
    }
}

/// The tree of a whole sequence of tokens.
pub open spec fn parse_tokens(tokens: Seq<TokenView>) -> Result<NodeView, ParseErrorView> {
    parse_program(tokens, 0).outcome
}

/// Reading operators and terms never moves the cursor back, nor out of the
/// tokens.
pub proof fn lemma_operations_bounds(tokens: Seq<TokenView>, pos: int, left: NodeView)
    requires
        0 <= pos <= tokens.len(),
    ensures
        pos <= parse_operations(tokens, pos, left).next <= tokens.len(),
    decreases tokens.len() - pos,
{
    match token_at(tokens, pos) {
        TokenView::Arithmetic(m) => {
            let right = parse_term(tokens, pos + 1);
            match right.outcome {
                Ok(operand) => {
                    lemma_operations_bounds(
                        tokens,
                        right.next,
                        NodeView::BinaryOp {
                            left: Box::new(left),
                            op: TokenView::Arithmetic(m),
                            right: Box::new(operand),
                        },
                    );
                },
                Err(_) => {},
            }
        },
        _ => {},
    }
}

/// An expression that parses takes at least one token, and no expression
/// moves the cursor out of the tokens.
pub proof fn lemma_expression_bounds(tokens: Seq<TokenView>, pos: int)
    requires
        0 <= pos <= tokens.len(),
    ensures
        pos <= parse_expression(tokens, pos).next <= tokens.len(),
        parse_expression(tokens, pos).outcome is Ok ==> pos < parse_expression(tokens, pos).next,
{
    let first = parse_term(tokens, pos);
    match first.outcome {
        Ok(left) => {
            lemma_operations_bounds(tokens, first.next, left);
        },
        Err(_) => {},
    }
}

/// A statement that parses takes at least one token, and no statement moves
/// the cursor out of the tokens.
pub proof fn lemma_statement_bounds(tokens: Seq<TokenView>, pos: int)
    requires
        0 <= pos <= tokens.len(),
    ensures
        pos <= parse_statement(tokens, pos).next <= tokens.len(),
        parse_statement(tokens, pos).outcome is Ok ==> pos < parse_statement(tokens, pos).next,
{
    lemma_expression_bounds(tokens, pos);
    if pos + 3 <= tokens.len() {
        lemma_expression_bounds(tokens, pos + 3);
    }
}

/// A cursor over a sequence of tokens.
#[derive(Debug)]
pub struct Parser {
    tokens: Vec<Token>,
    position: usize,
}

impl Parser {
    /// The tokens to parse.
    pub closed spec fn stream(&self) -> Seq<TokenView> {
        token_views(self.tokens@)
    }

    /// The index of the token under the cursor. It is one more after each
    /// step of the cursor, also behind the last token.
    pub closed spec fn cursor(&self) -> int {
        self.position as int
    }

    /// A parser at the first of `tokens`.
    pub fn new(tokens: Vec<Token>) -> (parser: Parser)
        ensures
            parser.stream() == token_views(tokens@),
            parser.cursor() == 0,
    {
        Parser { tokens, position: 0 }
    }

    /// Where the cursor stands: how many steps it has made from the first
    /// token.
    pub fn position(&self) -> (at: usize)
        ensures
            at == self.cursor(),
    {
        self.position
    }

    /// The token under the cursor; `EOF` behind the last token.
    pub fn current_token(&self) -> (token: &Token)
        ensures
            0 <= self.cursor() <= usize::MAX,
            self.stream().len() <= usize::MAX,
            token@ == token_at(self.stream(), self.cursor()),
    {
        if self.position < self.tokens.len() {
            &self.tokens[self.position]
        } else {
            &Token::EOF
        }
    }

    /// Moves the cursor one token on, in every state: behind the last token
    /// too. The cursor must not stand at the largest index that the machine
    /// has.
    pub fn advance(&mut self)
        requires
            old(self).cursor() < usize::MAX,
        ensures
            final(self).stream() == old(self).stream(),
            final(self).cursor() == old(self).cursor() + 1,
    {
        self.position = self.position + 1;
    }

    /// Parses one term: a number, an identifier or a string.
    pub fn term(&mut self) -> (outcome: Result<ASTNode, ParseError>)
        ensures
            final(self).stream() == old(self).stream(),
            parse_term(old(self).stream(), old(self).cursor()) == (Parsed {
                outcome: parse_view(outcome),
                next: final(self).cursor(),
            }),
    {
        let token = self.current_token().clone();
        match token {
            Token::Number(numeral) => {
                self.advance();
                Ok(ASTNode::Number(numeral))
            },
            Token::Identifier(name) => {
                self.advance();
                Ok(ASTNode::Identifier(name))
            },
            Token::String(text) => {
                self.advance();
                Ok(ASTNode::String(text))
            },
            other => Err(ParseError::UnexpectedToken(other)),
        }
    }

    /// The arithmetic operator under the cursor, if one stands there.
    fn current_operator(&self) -> (operator: Option<MathToken>)
        ensures
            0 <= self.cursor() <= usize::MAX,
            self.stream().len() <= usize::MAX,
            match operator {
                Some(m) => token_at(self.stream(), self.cursor()) == TokenView::Arithmetic(m),
                None => !(token_at(self.stream(), self.cursor()) is Arithmetic),
            },
    {
        match self.current_token() {
            Token::Arithmetic(m) => Some(*m),
            _ => None,
        }
    }

    /// Parses an expression: a term, then operators and terms for as long as
    /// an arithmetic operator follows, folded to the left.
    pub fn expression(&mut self) -> (outcome: Result<ASTNode, ParseError>)
        ensures
            final(self).stream() == old(self).stream(),
            parse_expression(old(self).stream(), old(self).cursor()) == (Parsed {
                outcome: parse_view(outcome),
                next: final(self).cursor(),
            }),
    {
        let mut left = match self.term() {
            Ok(node) => node,
            Err(e) => {
                return Err(e);
            },
        };
        loop
            invariant
                self.stream() == old(self).stream(),
                parse_expression(old(self).stream(), old(self).cursor()) == parse_operations(
                    self.stream(),
                    self.cursor(),
                    left@,
                ),
            decreases self.stream().len() - self.cursor(),
        {
            match self.current_operator() {
                Some(m) => {
                    self.advance();
                    match self.term() {
                        Ok(right) => {
                            left =
                            ASTNode::BinaryOp {
                                left: Box::new(left),
                                op: Token::Arithmetic(m),
                                right: Box::new(right),
                            };
                        },
                        Err(e) => {
                            return Err(e);
                        },
                    }
                },
                None => {
                    return Ok(left);
                },
            }
        }
    }

    /// Parses what follows the keyword of a declaration, which stands under
    /// the cursor: an identifier, `=`, an expression and `;`.
    fn binding(&mut self, mutable: bool) -> (outcome: Result<ASTNode, ParseError>)
        requires
            old(self).cursor() < usize::MAX,
        ensures
            final(self).stream() == old(self).stream(),
            parse_binding(old(self).stream(), old(self).cursor(), mutable) == (Parsed {
                outcome: parse_view(outcome),
                next: final(self).cursor(),
            }),
    {
        self.advance();
        let name = match self.current_token() {
            Token::Identifier(name) => name.clone(),
            other => {
                return Err(ParseError::ExpectedIdentifier(other.clone()));
            },
        };
        self.advance();
        match self.current_token() {
            Token::Equals => {},
            other => {
                return Err(ParseError::ExpectedEquals(other.clone()));
            },
        }
        self.advance();
        let value = match self.expression() {
            Ok(node) => node,
            Err(e) => {
                return Err(e);
            },
        };
        match self.current_token() {
            Token::Semicolon => {},
            other => {
                return Err(ParseError::ExpectedSemicolon(other.clone()));
            },
        }
        self.advance();
        if mutable {
            Ok(ASTNode::Let(name, Box::new(value)))
        } else {
            Ok(ASTNode::Final(name, Box::new(value)))
        }
    }

    /// Parses `let IDENT = expression ;` with `let` under the cursor. The
    /// first step passes over what stands under the cursor, so the cursor
    /// must not stand at the largest index that the machine has.
    pub fn let_statement(&mut self) -> (outcome: Result<ASTNode, ParseError>)
        requires
            old(self).cursor() < usize::MAX,
        ensures
            final(self).stream() == old(self).stream(),
            parse_binding(old(self).stream(), old(self).cursor(), true) == (Parsed {
                outcome: parse_view(outcome),
                next: final(self).cursor(),
            }),
    {
        self.binding(true)
    }

    /// Parses `final IDENT = expression ;` with `final` under the cursor.
    /// The first step passes over what stands under the cursor, so the
    /// cursor must not stand at the largest index that the machine has.
    pub fn final_statement(&mut self) -> (outcome: Result<ASTNode, ParseError>)
        requires
            old(self).cursor() < usize::MAX,
        ensures
            final(self).stream() == old(self).stream(),
            parse_binding(old(self).stream(), old(self).cursor(), false) == (Parsed {
                outcome: parse_view(outcome),
                next: final(self).cursor(),
            }),
    {
        self.binding(false)
    }

    /// Parses a statement that starts with no keyword: a compound assignment
    /// with its `;`, or an expression.
    pub fn assignment_or_expression(&mut self) -> (outcome: Result<ASTNode, ParseError>)
        ensures
            final(self).stream() == old(self).stream(),
            parse_assignment_or_expression(old(self).stream(), old(self).cursor()) == (Parsed {
                outcome: parse_view(outcome),
                next: final(self).cursor(),
            }),
    {
        let expression = match self.expression() {
            Ok(node) => node,
            Err(e) => {
                return Err(e);
            },
        };
        let assigns = match &expression {
            ASTNode::BinaryOp { left: _, op: Token::Arithmetic(m), right: _ } => compound(*m),
            _ => false,
        };
        if !assigns {
            return Ok(expression);
        }
        let ghost whole = expression@;
        match expression {
            ASTNode::BinaryOp { left, op, right } => {
                assert(whole == NodeView::BinaryOp {
                    left: Box::new(node_view(*left)),
                    op: op@,
                    right: Box::new(node_view(*right)),
                });
                match *left {
                    ASTNode::Identifier(ident) => {
                        match self.current_token() {
                            Token::Semicolon => {},
                            other => {
                                return Err(ParseError::ExpectedSemicolon(other.clone()));
                            },
                        }
                        self.advance();
                        Ok(ASTNode::CompoundAssign { ident, op, value: right })
                    },
                    _ => Err(ParseError::InvalidAssignmentTarget),
                }
            },
            other => Ok(other),
        }
    }

    /// Parses one statement: a declaration where a keyword stands under the
    /// cursor, a compound assignment or an expression elsewhere.
    pub fn statement(&mut self) -> (outcome: Result<ASTNode, ParseError>)
        ensures
            final(self).stream() == old(self).stream(),
            parse_statement(old(self).stream(), old(self).cursor()) == (Parsed {
                outcome: parse_view(outcome),
                next: final(self).cursor(),
            }),
    {
        let keyword: u8 = match self.current_token() {
            Token::Let => 1,
            Token::Final => 2,
            _ => 0,
        };
        if keyword == 1 {
            self.let_statement()
        } else if keyword == 2 {
            self.final_statement()
        } else {
            self.assignment_or_expression()
        }
    }

    /// Parses statements up to the end of the tokens and gives back the
    /// program, or the first error.
    pub fn parse(&mut self) -> (outcome: Result<ASTNode, ParseError>)
        ensures
            final(self).stream() == old(self).stream(),
            parse_program(old(self).stream(), old(self).cursor()) == (Parsed {
                outcome: parse_view(outcome),
                next: final(self).cursor(),
            }),
    {
        let mut program: Vec<ASTNode> = Vec::new();
        loop
            invariant
                self.stream() == old(self).stream(),
                parse_program(old(self).stream(), old(self).cursor()) == prepend(
                    node_views(program@),
                    parse_program(self.stream(), self.cursor()),
                ),
            decreases self.stream().len() - self.cursor(),
        {
            let at_end = match self.current_token() {
                Token::EOF => true,
                _ => false,
            };
            if at_end {
                proof {
                    assert(node_views(program@) + Seq::<NodeView>::empty() == node_views(program@));
                    lemma_program_view(program);
                }
                return Ok(ASTNode::Program(program));
            }
            let ghost before = node_views(program@);
            proof {
                lemma_statement_bounds(self.stream(), self.cursor());
            }
            match self.statement() {
                Ok(node) => {
                    let ghost view = node@;
                    program.push(node);
                    proof {
                        assert(node_views(program@) == before.push(view));
                        let tail = parse_program(self.stream(), self.cursor());
                        match tail.outcome {
                            Ok(NodeView::Program(statements)) => {
                                assert(before + (seq![view] + statements) == before.push(view)
                                    + statements);
                            },
                            _ => {},
                        }
                    }
                },
                Err(e) => {
                    return Err(e);
                },
            }
        }
    }
}

/// Whether an operator is a compound assignment.
pub fn compound(m: MathToken) -> (yes: bool)
    ensures
        yes == is_compound(m),
{
    match m {
        MathToken::PlusEq => true,
        MathToken::MinusEq => true,
        MathToken::MultiplyEq => true,
        MathToken::DivideEq => true,
        _ => false,
    }
}

/// The value of a program node is the program of the values of its
/// statements.
proof fn lemma_program_view(statements: Vec<ASTNode>)
    ensures
        ASTNode::Program(statements)@ == NodeView::Program(node_views(statements@)),
{
    assert(node_view(ASTNode::Program(statements))->Program_0 =~= node_views(statements@));
}

} // verus!
