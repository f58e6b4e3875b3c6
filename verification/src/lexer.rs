//! The tokenizer: from source text to lexical tokens, strictly left to right.

use vstd::prelude::*;
use crate::chars::{
    char_is_alphabetic, char_is_digit, char_is_whitespace, chars_of, in_class, is_digit,
    is_letter, lemma_run_end, part, run_end, CharClass,
};

verus! {

/// An arithmetic operator, plain or compound (followed by `=`).
#[derive(Debug, PartialEq, Eq, Clone, Copy, Structural)]
pub enum MathToken {
    Plus,
    Minus,
    Divide,
    Multiply,
    PlusEq,
    MinusEq,
    MultiplyEq,
    DivideEq,
}

/// One lexical unit.
#[derive(Debug, PartialEq, Eq)]
pub enum Token {
    /// A name: letters and underscores, the first a letter.
    Identifier(String),
    /// A number, as its numeral: digits with at most one dot among or
    /// behind them. What number the numeral stands for is settled when it is
    /// evaluated.
    Number(String),
    /// `=`.
    Equals,
    /// A string literal, without its quotes.
    String(String),
    /// `(`. Tokenized, but no rule of the grammar takes it.
    LParen,
    /// `)`. Tokenized, but no rule of the grammar takes it.
    RParen,
    /// `;`.
    Semicolon,
    /// The end of the text.
    EOF,
    /// An arithmetic operator.
    Arithmetic(MathToken),
    /// The keyword `let`.
    Let,
    /// The keyword `final`.
    Final,
}

/// The mathematical value of a `Token`: texts are sequences of characters.
pub enum TokenView {
    Identifier(Seq<char>),
    Number(Seq<char>),
    Equals,
    String(Seq<char>),
    LParen,
    RParen,
    Semicolon,
    EOF,
    Arithmetic(MathToken),
    Let,
    Final,
}

impl View for Token {
    type V = TokenView;

    open spec fn view(&self) -> TokenView {
        match self {
            Token::Identifier(s) => TokenView::Identifier(s@),
            Token::Number(s) => TokenView::Number(s@),
            Token::Equals => TokenView::Equals,
            Token::String(s) => TokenView::String(s@),
            Token::LParen => TokenView::LParen,
            Token::RParen => TokenView::RParen,
            Token::Semicolon => TokenView::Semicolon,
            Token::EOF => TokenView::EOF,
            Token::Arithmetic(m) => TokenView::Arithmetic(*m),
            Token::Let => TokenView::Let,
            Token::Final => TokenView::Final,
        }
    }
}

impl Clone for Token {
    fn clone(&self) -> (copy: Token)
        ensures
            copy@ == self@,
    {
        match self {
            Token::Identifier(s) => Token::Identifier(s.clone()),
            Token::Number(s) => Token::Number(s.clone()),
            Token::Equals => Token::Equals,
            Token::String(s) => Token::String(s.clone()),
            Token::LParen => Token::LParen,
            Token::RParen => Token::RParen,
            Token::Semicolon => Token::Semicolon,
            Token::EOF => Token::EOF,
            Token::Arithmetic(m) => Token::Arithmetic(*m),
            Token::Let => Token::Let,
            Token::Final => Token::Final,
        }
    }
}

/// Why tokenizing stopped.
#[derive(Debug, PartialEq, Eq)]
pub enum LexError {
    /// A character that starts no token.
    UnexpectedCharacter(char),
    /// The text ended inside a string literal.
    UnterminatedString,
    /// A numeral that is no number, such as one with two dots.
    MalformedNumber(String),
}

/// The mathematical value of a `LexError`.
pub enum LexErrorView {
    UnexpectedCharacter(char),
    UnterminatedString,
    MalformedNumber(Seq<char>),
}

impl View for LexError {
    type V = LexErrorView;

    open spec fn view(&self) -> LexErrorView {
        match self {
            LexError::UnexpectedCharacter(c) => LexErrorView::UnexpectedCharacter(*c),
            LexError::UnterminatedString => LexErrorView::UnterminatedString,
            LexError::MalformedNumber(s) => LexErrorView::MalformedNumber(s@),
        }
    }
}

impl Clone for LexError {
    fn clone(&self) -> (copy: LexError)
        ensures
            copy@ == self@,
    {
        match self {
            LexError::UnexpectedCharacter(c) => LexError::UnexpectedCharacter(*c),
            LexError::UnterminatedString => LexError::UnterminatedString,
            LexError::MalformedNumber(s) => LexError::MalformedNumber(s.clone()),
        }
    }
}

/// The value of what `next_token` and its helpers return.
pub open spec fn outcome_view(r: Result<Token, LexError>) -> Result<TokenView, LexErrorView> {
    match r {
        Ok(t) => Ok(t@),
        Err(e) => Err(e@),
    }
}

/// What one step of the tokenizer yields: a token or an error, and where the
/// cursor stands afterwards.
pub struct Scan {
    pub outcome: Result<TokenView, LexErrorView>,
    pub next: int,
}

/// The token that a word stands for: a keyword if it is `let` or `final`, an
/// identifier otherwise.
pub open spec fn word_token(word: Seq<char>) -> TokenView {
    if word == seq!['l', 'e', 't'] {
        TokenView::Let
    } else if word == seq!['f', 'i', 'n', 'a', 'l'] {
        TokenView::Final
    } else {
        TokenView::Identifier(word)
    }
}

/// How many dots `text` holds.
pub open spec fn count_dots(text: Seq<char>) -> nat
    decreases text.len(),
{
    if text.len() == 0 {
        0
    } else {
        count_dots(text.drop_last()) + if text.last() == '.' {
            1nat
        } else {
            0nat
        }
    }
}

/// Whether a run of digits and dots is a number: at least one digit, and at
/// most one dot.
pub open spec fn is_numeral(text: Seq<char>) -> bool {
    &&& forall|i: int| 0 <= i < text.len() ==> in_class(CharClass::Numeral, #[trigger] text[i])
    &&& count_dots(text) <= 1
    &&& count_dots(text) < text.len()
}

/// Reading a word at `pos`: the maximal run of letters and underscores.
/// Behind the end of the text the run is empty.
pub open spec fn scan_word(s: Seq<char>, pos: int) -> Scan {
    let end = run_end(s, pos, CharClass::Word);
    Scan { outcome: Ok(word_token(part(s, pos, end))), next: end }
}

/// Reading a number at `pos`: the maximal run of digits and dots, which must
/// be a numeral.
pub open spec fn scan_number(s: Seq<char>, pos: int) -> Scan {
    let end = run_end(s, pos, CharClass::Numeral);
    let text = part(s, pos, end);
    if is_numeral(text) {
        Scan { outcome: Ok(TokenView::Number(text)), next: end }
    } else {
        Scan { outcome: Err(LexErrorView::MalformedNumber(text)), next: end }
    }
}

/// Reading a string whose opening quote is at `pos`: the character at
/// `pos` is passed over, then everything up to the next quote is read, and
/// that quote is consumed too. Without a closing quote the text ends inside
/// the string.
pub open spec fn scan_string(s: Seq<char>, pos: int) -> Scan {
    let start = pos + 1;
    let end = run_end(s, start, CharClass::Quoted);
    if end < s.len() {
        Scan { outcome: Ok(TokenView::String(s.subrange(start, end))), next: end + 1 }
    } else {
        Scan { outcome: Err(LexErrorView::UnterminatedString), next: end }
    }
}

/// Reading an arithmetic symbol at `pos`: with `=` right behind it, the
/// compound operator and two characters; else the plain one.
pub open spec fn scan_operator(
    s: Seq<char>,
    pos: int,
    plain: MathToken,
    compound: MathToken,
) -> Scan {
    if pos + 1 < s.len() && s[pos + 1] == '=' {
        Scan { outcome: Ok(TokenView::Arithmetic(compound)), next: pos + 2 }
    } else {
        Scan { outcome: Ok(TokenView::Arithmetic(plain)), next: pos + 1 }
    }
}

/// Reading the token that starts at `pos`, which holds no blank.
pub open spec fn scan_token(s: Seq<char>, pos: int) -> Scan {
    if !(0 <= pos < s.len()) {
        Scan { outcome: Ok(TokenView::EOF), next: pos }
    } else {
        let c = s[pos];
        if c == '=' {
            Scan { outcome: Ok(TokenView::Equals), next: pos + 1 }
        } else if c == '(' {
            Scan { outcome: Ok(TokenView::LParen), next: pos + 1 }
        } else if c == ')' {
            Scan { outcome: Ok(TokenView::RParen), next: pos + 1 }
        } else if c == ';' {
            Scan { outcome: Ok(TokenView::Semicolon), next: pos + 1 }
        } else if c == '+' {
            scan_operator(s, pos, MathToken::Plus, MathToken::PlusEq)
        } else if c == '-' {
            scan_operator(s, pos, MathToken::Minus, MathToken::MinusEq)
        } else if c == '*' {
            scan_operator(s, pos, MathToken::Multiply, MathToken::MultiplyEq)
        } else if c == '/' {
            scan_operator(s, pos, MathToken::Divide, MathToken::DivideEq)
        } else if is_letter(c) {
            scan_word(s, pos)
        } else if c == '"' {
            scan_string(s, pos)
        } else if is_digit(c) {
            scan_number(s, pos)
        } else {
            Scan { outcome: Err(LexErrorView::UnexpectedCharacter(c)), next: pos }
        }
    }
}

/// One step of the tokenizer from `pos`: blanks are skipped, then one token
/// is read.
pub open spec fn next_scan(s: Seq<char>, pos: int) -> Scan {
    scan_token(s, run_end(s, pos, CharClass::Space))
}

/// The tokens of `s` from `pos` on, without the closing `EOF`, or the first
/// error on the way. A step that yields a token moves forward
/// (`lemma_scan_progress`), so the branch that ends the sequence early is
/// never taken from a position in the text.
pub open spec fn tokens_from(s: Seq<char>, pos: int) -> Result<Seq<TokenView>, LexErrorView>
    decreases s.len() - pos,
{
    let step = next_scan(s, pos);
    match step.outcome {
        Err(e) => Err(e),
        Ok(TokenView::EOF) => Ok(Seq::empty()),
        Ok(token) => {
            if pos < step.next <= s.len() {
                match tokens_from(s, step.next) {
                    Ok(rest) => Ok(seq![token] + rest),
                    Err(e) => Err(e),
                }
            } else {
                Ok(Seq::empty())
            }
        },
    }
}

/// The tokens of a whole source text.
pub open spec fn tokens_of(s: Seq<char>) -> Result<Seq<TokenView>, LexErrorView> {
    tokens_from(s, 0)
}

/// A step that yields a token other than `EOF` moves the cursor forward, and
/// no step moves it out of the text.
pub proof fn lemma_scan_progress(s: Seq<char>, pos: int)
    requires
        0 <= pos <= s.len(),
    ensures
        pos <= next_scan(s, pos).next <= s.len(),
        next_scan(s, pos).outcome matches Ok(token) && token != TokenView::EOF ==> pos < next_scan(
            s,
            pos,
        ).next,
{
    let p = run_end(s, pos, CharClass::Space);
    lemma_run_end(s, pos, CharClass::Space);
    if p < s.len() {
        lemma_run_end(s, p, CharClass::Word);
        lemma_run_end(s, p, CharClass::Numeral);
        lemma_run_end(s, p + 1, CharClass::Quoted);
    }
}

/// A cursor over the characters of a source text.
#[derive(Debug)]
pub struct Lexer {
    input: Vec<char>,
    position: usize,
}

impl Lexer {
    /// The characters of the source text.
    pub closed spec fn text(&self) -> Seq<char> {
        self.input@
    }

    /// The index of the next character to read. It is one more after each
    /// step of the cursor, also behind the end of the text.
    pub closed spec fn cursor(&self) -> int {
        self.position as int
    }

    /// A tokenizer at the start of `input`.
    pub fn new(input: String) -> (lexer: Lexer)
        ensures
            lexer.text() == input@,
            lexer.cursor() == 0,
    {
        Lexer { input: chars_of(input.as_str()), position: 0 }
    }

    /// Where the cursor stands: how many steps it has made from the start
    /// of the text.
    pub fn position(&self) -> (at: usize)
        ensures
            at == self.cursor(),
    {
        self.position
    }

    /// The character under the cursor; none at the end of the text and
    /// behind it.
    pub fn current_char(&self) -> (c: Option<char>)
        ensures
            0 <= self.cursor() <= usize::MAX,
            self.text().len() <= usize::MAX,
            c == if self.cursor() < self.text().len() {
                Some(self.text()[self.cursor()])
            } else {
                None::<char>
            },
    {
        if self.position < self.input.len() {
            Some(self.input[self.position])
        } else {
            None
        }
    }

    /// Moves the cursor one character on, in every state: at the end of the
    /// text and behind it too. The cursor must not stand at the largest
    /// index that the machine has.
    pub fn advance(&mut self)
        requires
            old(self).cursor() < usize::MAX,
        ensures
            final(self).text() == old(self).text(),
            final(self).cursor() == old(self).cursor() + 1,
    {
        self.position = self.position + 1;
    }

    /// Moves the cursor past the blanks under it.
    pub fn skip_whitespace(&mut self)
        ensures
            final(self).text() == old(self).text(),
            final(self).cursor() == run_end(old(self).text(), old(self).cursor(), CharClass::Space),
    {
        loop
            invariant
                self.text() == old(self).text(),
                run_end(self.text(), self.cursor(), CharClass::Space) == run_end(
                    old(self).text(),
                    old(self).cursor(),
                    CharClass::Space,
                ),
            ensures
                self.text() == old(self).text(),
                self.cursor() == run_end(old(self).text(), old(self).cursor(), CharClass::Space),
            decreases self.text().len() - self.cursor(),
        {
            match self.current_char() {
                Some(c) => {
                    if char_is_whitespace(c) {
                        self.advance();
                    } else {
                        break;
                    }
                },
                None => {
                    break;
                },
            }
        }
    }

    /// Reads a word from the cursor on: the maximal run of letters and
    /// underscores, given back as a keyword or as an identifier.
    pub fn identifier(&mut self) -> (token: Token)
        ensures
            final(self).text() == old(self).text(),
            scan_word(old(self).text(), old(self).cursor()) == (Scan {
                outcome: Ok(token@),
                next: final(self).cursor(),
            }),
    {
        let start: usize = self.position;
        let mut ident = String::new();
        loop
            invariant
                self.text() == old(self).text(),
                start == old(self).cursor(),
                start <= self.cursor(),
                self.cursor() == start || self.cursor() <= self.text().len(),
                ident@ == part(self.text(), start as int, self.cursor()),
                run_end(self.text(), self.cursor(), CharClass::Word) == run_end(
                    self.text(),
                    start as int,
                    CharClass::Word,
                ),
            ensures
                self.text() == old(self).text(),
                start <= self.cursor(),
                self.cursor() == start || self.cursor() <= self.text().len(),
                ident@ == part(self.text(), start as int, self.cursor()),
                self.cursor() == run_end(self.text(), start as int, CharClass::Word),
            decreases self.text().len() - self.cursor(),
        {
            match self.current_char() {
                Some(c) => {
                    if char_is_alphabetic(c) || c == '_' {
                        ident.push(c);
                        self.advance();
                        assert(ident@ == part(self.text(), start as int, self.cursor()));
                    } else {
                        break;
                    }
                },
                None => {
                    break;
                },
            }
        }
        let end: usize = self.position;
        if end - start == 3 && self.input[start] == 'l' && self.input[start + 1] == 'e'
            && self.input[start + 2] == 't' {
            assert(ident@ == seq!['l', 'e', 't']);
            Token::Let
        } else if end - start == 5 && self.input[start] == 'f' && self.input[start + 1] == 'i'
            && self.input[start + 2] == 'n' && self.input[start + 3] == 'a' && self.input[start
            + 4] == 'l' {
            assert(ident@ == seq!['f', 'i', 'n', 'a', 'l']);
            Token::Final
        } else {
            assert(ident@ != seq!['l', 'e', 't']) by {
                if ident@ == seq!['l', 'e', 't'] {
                    assert(ident@.len() == 3);
                    assert(ident@[0] == 'l' && ident@[1] == 'e' && ident@[2] == 't');
                }
            }
            assert(ident@ != seq!['f', 'i', 'n', 'a', 'l']) by {
                if ident@ == seq!['f', 'i', 'n', 'a', 'l'] {
                    assert(ident@.len() == 5);
                    assert(ident@[0] == 'f' && ident@[1] == 'i' && ident@[2] == 'n' && ident@[3]
                        == 'a' && ident@[4] == 'l');
                }
            }
            Token::Identifier(ident)
        }
    }

    /// Reads a number from the cursor on: the maximal run of digits and
    /// dots. A run that is no numeral is an error that carries the run.
    pub fn number(&mut self) -> (outcome: Result<Token, LexError>)
        ensures
            final(self).text() == old(self).text(),
            scan_number(old(self).text(), old(self).cursor()) == (Scan {
                outcome: outcome_view(outcome),
                next: final(self).cursor(),
            }),
    {
        let start: usize = self.position;
        let mut number = String::new();
        let mut dots: usize = 0;
        loop
            invariant
                self.text() == old(self).text(),
                start == old(self).cursor(),
                start <= self.cursor(),
                self.cursor() == start || self.cursor() <= self.text().len(),
                number@ == part(self.text(), start as int, self.cursor()),
                forall|i: int|
                    0 <= i < number@.len() ==> in_class(CharClass::Numeral, #[trigger] number@[i]),
                dots == count_dots(number@),
                dots <= number@.len(),
                run_end(self.text(), self.cursor(), CharClass::Numeral) == run_end(
                    self.text(),
                    start as int,
                    CharClass::Numeral,
                ),
            ensures
                self.text() == old(self).text(),
                start <= self.cursor(),
                self.cursor() == start || self.cursor() <= self.text().len(),
                number@ == part(self.text(), start as int, self.cursor()),
                forall|i: int|
                    0 <= i < number@.len() ==> in_class(CharClass::Numeral, #[trigger] number@[i]),
                dots == count_dots(number@),
                self.cursor() == run_end(self.text(), start as int, CharClass::Numeral),
            decreases self.text().len() - self.cursor(),
        {
            match self.current_char() {
                Some(c) => {
                    if char_is_digit(c) || c == '.' {
                        proof {
                            assert(number@.push(c).drop_last() == number@);
                            assert(number@.len() == self.cursor() - start);
                            assert(self.cursor() < self.input.len());
                        }
                        number.push(c);
                        if c == '.' {
                            dots = dots + 1;
                        }
                        self.advance();
                        assert(number@ == part(self.text(), start as int, self.cursor()));
                    } else {
                        break;
                    }
                },
                None => {
                    break;
                },
            }
        }
        let length: usize = self.position - start;
        if dots <= 1 && dots < length {
            Ok(Token::Number(number))
        } else {
            Err(LexError::MalformedNumber(number))
        }
    }

    /// Reads a string literal whose opening quote is under the cursor: the
    /// characters up to the closing quote, without the quotes. A text that
    /// ends before the closing quote is an error. The first step passes
    /// over what stands under the cursor, so the cursor must not stand at
    /// the largest index that the machine has.
    pub fn string(&mut self) -> (outcome: Result<Token, LexError>)
        requires
            old(self).cursor() < usize::MAX,
        ensures
            final(self).text() == old(self).text(),
            scan_string(old(self).text(), old(self).cursor()) == (Scan {
                outcome: outcome_view(outcome),
                next: final(self).cursor(),
            }),
    {
        let mut value = String::new();
        self.advance();
        let ghost start = self.cursor();
        loop
            invariant
                self.text() == old(self).text(),
                0 <= start <= self.cursor(),
                self.cursor() == start || self.cursor() <= self.text().len(),
                value@ == part(self.text(), start, self.cursor()),
                run_end(self.text(), self.cursor(), CharClass::Quoted) == run_end(
                    self.text(),
                    start,
                    CharClass::Quoted,
                ),
            ensures
                self.text() == old(self).text(),
                0 <= start <= self.cursor(),
                self.cursor() == start || self.cursor() <= self.text().len(),
                value@ == part(self.text(), start, self.cursor()),
                self.cursor() == run_end(self.text(), start, CharClass::Quoted),
            decreases self.text().len() - self.cursor(),
        {
            match self.current_char() {
                Some(c) => {
                    if c != '"' {
                        value.push(c);
                        self.advance();
                        assert(value@ == part(self.text(), start, self.cursor()));
                    } else {
                        break;
                    }
                },
                None => {
                    break;
                },
            }
        }
        match self.current_char() {
            Some(_) => {
                self.advance();
                Ok(Token::String(value))
            },
            None => Err(LexError::UnterminatedString),
        }
    }

    /// Reads an arithmetic symbol under the cursor, and the `=` behind it if
    /// there is one.
    fn operator(&mut self, plain: MathToken, compound: MathToken) -> (token: Token)
        requires
            old(self).cursor() < old(self).text().len(),
        ensures
            final(self).text() == old(self).text(),
            scan_operator(old(self).text(), old(self).cursor(), plain, compound) == (Scan {
                outcome: Ok(token@),
                next: final(self).cursor(),
            }),
    {
        assert(self.cursor() < self.input.len());
        self.advance();
        match self.current_char() {
            Some(c) => {
                if c == '=' {
                    self.advance();
                    Token::Arithmetic(compound)
                } else {
                    Token::Arithmetic(plain)
                }
            },
            None => Token::Arithmetic(plain),
        }
    }

    /// Skips blanks and reads the next token; `EOF` once the text has ended.
    /// After an error the cursor stands where the step stopped.
    pub fn next_token(&mut self) -> (outcome: Result<Token, LexError>)
        ensures
            final(self).text() == old(self).text(),
            next_scan(old(self).text(), old(self).cursor()) == (Scan {
                outcome: outcome_view(outcome),
                next: final(self).cursor(),
            }),
    {
        self.skip_whitespace();
        match self.current_char() {
            None => Ok(Token::EOF),
            Some(c) => {
                if c == '=' {
                    self.advance();
                    Ok(Token::Equals)
                } else if c == '(' {
                    self.advance();
                    Ok(Token::LParen)
                } else if c == ')' {
                    self.advance();
                    Ok(Token::RParen)
                } else if c == ';' {
                    self.advance();
                    Ok(Token::Semicolon)
                } else if c == '+' {
                    Ok(self.operator(MathToken::Plus, MathToken::PlusEq))
                } else if c == '-' {
                    Ok(self.operator(MathToken::Minus, MathToken::MinusEq))
                } else if c == '*' {
                    Ok(self.operator(MathToken::Multiply, MathToken::MultiplyEq))
                } else if c == '/' {
                    Ok(self.operator(MathToken::Divide, MathToken::DivideEq))
                } else if char_is_alphabetic(c) {
                    Ok(self.identifier())
                } else if c == '"' {
                    self.string()
                } else if char_is_digit(c) {
                    self.number()
                } else {
                    Err(LexError::UnexpectedCharacter(c))
                }
            },
        }
    }
}

/// The values of a sequence of tokens.
pub open spec fn token_views(tokens: Seq<Token>) -> Seq<TokenView> {
    tokens.map_values(|t: Token| t@)
}

/// The value of what `tokenize` returns.
pub open spec fn tokens_view(r: Result<Vec<Token>, LexError>) -> Result<
    Seq<TokenView>,
    LexErrorView,
> {
    match r {
        Ok(tokens) => Ok(token_views(tokens@)),
        Err(e) => Err(e@),
    }
}

/// Tokenizes a whole source text: every token up to the end of the text,
/// without the closing `EOF`, or the first error.
pub fn tokenize(input: String) -> (outcome: Result<Vec<Token>, LexError>)
    ensures
        tokens_view(outcome) == tokens_of(input@),
{
    let mut lexer = Lexer::new(input);
    let mut tokens: Vec<Token> = Vec::new();
    loop
        invariant
            lexer.text() == input@,
            0 <= lexer.cursor() <= lexer.text().len(),
            tokens_of(input@) == match tokens_from(input@, lexer.cursor()) {
                Ok(rest) => Ok(token_views(tokens@) + rest),
                Err(e) => Err(e),
            },
        decreases lexer.text().len() - lexer.cursor(),
    {
        let ghost before = lexer.cursor();
        let ghost seen = token_views(tokens@);
        proof {
            lemma_scan_progress(input@, before);
        }
        match lexer.next_token() {
            Err(e) => {
                return Err(e);
            },
            Ok(Token::EOF) => {
                assert(token_views(tokens@) + Seq::<TokenView>::empty() == token_views(tokens@));
                return Ok(tokens);
            },
            Ok(token) => {
                let ghost view = token@;
                tokens.push(token);
                proof {
                    assert(token_views(tokens@) == seen.push(view));
                    match tokens_from(input@, lexer.cursor()) {
                        Ok(rest) => {
                            assert(seen + (seq![view] + rest) == seen.push(view) + rest);
                        },
                        Err(e) => {},
                    }
                }
            },
        }
    }
}

} // verus!
