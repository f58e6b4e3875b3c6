//! Tokenizing and spelling: the text that spells tokens tokenizes to them,
//! and a text that tokenizes is spelled by its tokens.

use vstd::prelude::*;
use crate::chars::{
    in_class, is_digit, is_letter, is_space, lemma_run_end_unique, run_end, CharClass,
};
use crate::lexer::{
    is_numeral, lemma_scan_progress, next_scan, scan_token, tokens_from, tokens_of, word_token,
    LexErrorView, MathToken, Scan, TokenView,
};

verus! {

/// How an arithmetic operator is written.
pub open spec fn operator_spelling(m: MathToken) -> Seq<char> {
    match m {
        MathToken::Plus => seq!['+'],
        MathToken::Minus => seq!['-'],
        MathToken::Divide => seq!['/'],
        MathToken::Multiply => seq!['*'],
        MathToken::PlusEq => seq!['+', '='],
        MathToken::MinusEq => seq!['-', '='],
        MathToken::MultiplyEq => seq!['*', '='],
        MathToken::DivideEq => seq!['/', '='],
    }
}

/// Whether a token is always written the same way: punctuation, the
/// arithmetic operators and the keywords.
pub open spec fn has_fixed_spelling(token: TokenView) -> bool {
    match token {
        TokenView::Equals | TokenView::LParen | TokenView::RParen | TokenView::Semicolon => true,
        TokenView::Arithmetic(_) => true,
        TokenView::Let | TokenView::Final => true,
        _ => false,
    }
}

/// How a token is written in source text. A string stands between double
/// quotes; `EOF` is the empty text.
pub open spec fn spelling(token: TokenView) -> Seq<char> {
    match token {
        TokenView::Identifier(name) => name,
        TokenView::Number(numeral) => numeral,
        TokenView::Equals => seq!['='],
        TokenView::String(text) => seq!['"'] + text + seq!['"'],
        TokenView::LParen => seq!['('],
        TokenView::RParen => seq![')'],
        TokenView::Semicolon => seq![';'],
        TokenView::EOF => Seq::empty(),
        TokenView::Arithmetic(m) => operator_spelling(m),
        TokenView::Let => seq!['l', 'e', 't'],
        TokenView::Final => seq!['f', 'i', 'n', 'a', 'l'],
    }
}

/// A text that holds one token from its first to its last character
/// tokenizes to that token alone.
proof fn lemma_single_token(s: Seq<char>, token: TokenView)
    requires
        s.len() > 0,
        !is_space(s[0]),
        token != TokenView::EOF,
        scan_token(s, 0) == (Scan { outcome: Ok(token), next: s.len() as int }),
    ensures
        tokens_of(s) == Ok::<Seq<TokenView>, LexErrorView>(seq![token]),
{
    reveal_with_fuel(tokens_from, 2);
    assert(run_end(s, 0, CharClass::Space) == 0);
    assert(run_end(s, s.len() as int, CharClass::Space) == s.len());
    assert(seq![token] + Seq::<TokenView>::empty() == seq![token]);
}

/// Tokenizing is the inverse of spelling on punctuation, operators and
/// keywords: the text that spells one such token yields exactly that token.
pub proof fn lemma_fixed_spelling_round_trip(token: TokenView)
    requires
        has_fixed_spelling(token),
    ensures
        tokens_of(spelling(token)) == Ok::<Seq<TokenView>, LexErrorView>(seq![token]),
{
    let s = spelling(token);
    match token {
        TokenView::Let | TokenView::Final => {
            lemma_run_end_unique(s, 0, s.len() as int, CharClass::Word);
            assert(s.subrange(0, s.len() as int) == s);
        },
        _ => {},
    }
    lemma_single_token(s, token);
}

/// Whether a token can stand alone in a text: a keyword, an operator or a
/// punctuation mark; an identifier that is a word other than a keyword and
/// starts with a letter that is no blank; a number that is a numeral and
/// starts with a digit; a string without a double quote in it.
pub open spec fn stands_alone(token: TokenView) -> bool {
    match token {
        TokenView::Identifier(name) => {
            &&& name.len() > 0
            &&& is_letter(name[0])
            &&& !is_space(name[0])
            &&& forall|i: int| 0 <= i < name.len() ==> in_class(CharClass::Word, #[trigger] name[i])
            &&& word_token(name) == token
        },
        TokenView::Number(numeral) => {
            &&& numeral.len() > 0
            &&& is_digit(numeral[0])
            &&& is_numeral(numeral)
        },
        TokenView::String(text) => forall|i: int| 0 <= i < text.len() ==> text[i] != '"',
        TokenView::EOF => false,
        _ => true,
    }
}

/// Tokenizing is the inverse of spelling: the text that spells one token
/// that can stand alone yields exactly that token.
pub proof fn lemma_spelling_round_trip(token: TokenView)
    requires
        stands_alone(token),
    ensures
        tokens_of(spelling(token)) == Ok::<Seq<TokenView>, LexErrorView>(seq![token]),
{
    let s = spelling(token);
    match token {
        TokenView::Identifier(name) => {
            lemma_run_end_unique(s, 0, s.len() as int, CharClass::Word);
            assert(s.subrange(0, s.len() as int) == s);
            lemma_single_token(s, token);
        },
        TokenView::Number(numeral) => {
            lemma_run_end_unique(s, 0, s.len() as int, CharClass::Numeral);
            assert(s.subrange(0, s.len() as int) == s);
            lemma_single_token(s, token);
        },
        TokenView::String(text) => {
            lemma_run_end_unique(s, 1, s.len() - 1, CharClass::Quoted);
            assert(s.subrange(1, s.len() - 1) == text);
            lemma_single_token(s, token);
        },
        _ => {
            lemma_fixed_spelling_round_trip(token);
        },
    }
}

/// The text that spells a sequence of tokens, with one space behind each.
pub open spec fn spaced(tokens: Seq<TokenView>) -> Seq<char>
    decreases tokens.len(),
{
    if tokens.len() == 0 {
        Seq::empty()
    } else {
        spelling(tokens[0]) + seq![' '] + spaced(tokens.drop_first())
    }
}

/// Where a text holds the spelling of a token that can stand alone, and a
/// space behind it, one step of the tokenizer reads that token and stops
/// before the space.
proof fn lemma_scan_spelled(s: Seq<char>, pos: int, token: TokenView)
    requires
        stands_alone(token),
        0 <= pos,
        pos + spelling(token).len() < s.len(),
        s.subrange(pos, pos + spelling(token).len()) == spelling(token),
        s[pos + spelling(token).len()] == ' ',
    ensures
        next_scan(s, pos) == (Scan { outcome: Ok(token), next: pos + spelling(token).len() }),
        spelling(token).len() > 0,
{
    let word = spelling(token);
    let end = pos + word.len();
    assert forall|i: int| 0 <= i < word.len() implies s[pos + i] == #[trigger] word[i] by {
        assert(s.subrange(pos, end)[i] == s[pos + i]);
    }
    match token {
        TokenView::Identifier(name) => {
            assert(s[pos] == word[0]);
            assert forall|i: int| pos <= i < end implies in_class(
                CharClass::Word,
                #[trigger] s[i],
            ) by {
                assert(s[i] == word[i - pos]);
            }
            lemma_run_end_unique(s, pos, end, CharClass::Word);
        },
        TokenView::Number(numeral) => {
            assert(s[pos] == word[0]);
            assert forall|i: int| pos <= i < end implies in_class(
                CharClass::Numeral,
                #[trigger] s[i],
            ) by {
                assert(s[i] == word[i - pos]);
            }
            lemma_run_end_unique(s, pos, end, CharClass::Numeral);
        },
        TokenView::String(text) => {
            assert(s[pos] == word[0]);
            assert(s[end - 1] == word[word.len() - 1]);
            assert forall|i: int| pos + 1 <= i < end - 1 implies in_class(
                CharClass::Quoted,
                #[trigger] s[i],
            ) by {
                assert(s[i] == word[i - pos]);
                assert(word[i - pos] == text[i - pos - 1]);
            }
            lemma_run_end_unique(s, pos + 1, end - 1, CharClass::Quoted);
            assert(s.subrange(pos + 1, end - 1) == text) by {
                assert(word.len() == text.len() + 2);
                assert forall|k: int| 0 <= k < text.len() implies s.subrange(pos + 1, end - 1)[k]
                    == #[trigger] text[k] by {
                    assert(s[pos + 1 + k] == word[k + 1]);
                }
            }
        },
        TokenView::Let | TokenView::Final => {
            assert(s[pos] == word[0]);
            assert forall|i: int| pos <= i < end implies in_class(
                CharClass::Word,
                #[trigger] s[i],
            ) by {
                assert(s[i] == word[i - pos]);
            }
            lemma_run_end_unique(s, pos, end, CharClass::Word);
        },
        TokenView::Arithmetic(m) => {
            assert(s[pos] == word[0]);
            if is_compound_spelling(m) {
                assert(s[pos + 1] == word[1]);
            }
        },
        _ => {
            assert(s[pos] == word[0]);
        },
    }
    assert(run_end(s, pos, CharClass::Space) == pos);
}

/// Whether an operator is spelled with two characters.
spec fn is_compound_spelling(m: MathToken) -> bool {
    operator_spelling(m).len() == 2
}

/// From a position on which the rest of a text spells tokens that can stand
/// alone, each with a space behind it, the tokenizer reads those tokens.
proof fn lemma_spaced_from(s: Seq<char>, pos: int, tokens: Seq<TokenView>)
    requires
        0 <= pos <= s.len(),
        s.subrange(pos, s.len() as int) == spaced(tokens),
        forall|i: int| 0 <= i < tokens.len() ==> stands_alone(#[trigger] tokens[i]),
    ensures
        tokens_from(s, pos) == Ok::<Seq<TokenView>, LexErrorView>(tokens),
    decreases tokens.len(),
{
    let rest = s.subrange(pos, s.len() as int);
    if tokens.len() == 0 {
        assert(rest.len() == 0);
        assert(run_end(s, pos, CharClass::Space) == pos);
        assert(tokens == Seq::<TokenView>::empty());
    } else {
        let token = tokens[0];
        let word = spelling(token);
        let end = pos + word.len();
        let tail = spaced(tokens.drop_first());
        assert(rest == word + seq![' '] + tail);
        assert(rest.len() == word.len() + 1 + tail.len());
        assert(s.subrange(pos, end) == word) by {
            assert(s.subrange(pos, end) == rest.subrange(0, word.len() as int));
        }
        assert(s[end] == ' ') by {
            assert(rest[word.len() as int] == ' ');
        }
        lemma_scan_spelled(s, pos, token);
        assert(s.subrange(end + 1, s.len() as int) == tail) by {
            assert(s.subrange(end + 1, s.len() as int) == rest.subrange(
                end + 1 - pos,
                rest.len() as int,
            ));
        }
        assert forall|i: int| 0 <= i < tokens.drop_first().len() implies stands_alone(
            #[trigger] tokens.drop_first()[i],
        ) by {
            assert(tokens.drop_first()[i] == tokens[i + 1]);
        }
        lemma_spaced_from(s, end + 1, tokens.drop_first());
        lemma_blank_is_skipped(s, end);
        assert(seq![token] + tokens.drop_first() == tokens);
    }
}

/// A blank under the cursor changes nothing: the tokens from it on are the
/// tokens from the next character on.
proof fn lemma_blank_is_skipped(s: Seq<char>, pos: int)
    requires
        0 <= pos < s.len(),
        is_space(s[pos]),
    ensures
        tokens_from(s, pos) == tokens_from(s, pos + 1),
{
    assert(next_scan(s, pos) == next_scan(s, pos + 1));
    lemma_scan_progress(s, pos + 1);
}

/// Tokenizing is the inverse of spelling on whole sequences: the text that
/// spells tokens that can stand alone, each with a space behind it, yields
/// exactly those tokens, in order.
pub proof fn lemma_spaced_round_trip(tokens: Seq<TokenView>)
    requires
        forall|i: int| 0 <= i < tokens.len() ==> stands_alone(#[trigger] tokens[i]),
    ensures
        tokens_of(spaced(tokens)) == Ok::<Seq<TokenView>, LexErrorView>(tokens),
{
    let s = spaced(tokens);
    assert(s.subrange(0, s.len() as int) == s);
    lemma_spaced_from(s, 0, tokens);
}

/// A text that opens a string and never closes it does not tokenize: the
/// error says that the string has no end.
pub proof fn lemma_open_string_fails(body: Seq<char>)
    requires
        forall|i: int| 0 <= i < body.len() ==> body[i] != '"',
    ensures
        tokens_of(seq!['"'] + body) == Err::<Seq<TokenView>, LexErrorView>(
            LexErrorView::UnterminatedString,
        ),
{
    let s = seq!['"'] + body;
    assert(run_end(s, 0, CharClass::Space) == 0);
    lemma_run_end_unique(s, 1, s.len() as int, CharClass::Quoted);
}

/// Whether every character of `gap` is a blank.
pub open spec fn is_blank(gap: Seq<char>) -> bool {
    forall|i: int| 0 <= i < gap.len() ==> is_space(#[trigger] gap[i])
}

/// The text that spells `tokens` with `gaps` around them: a gap, then each
/// token with a gap behind it.
pub open spec fn interleaved(gaps: Seq<Seq<char>>, tokens: Seq<TokenView>) -> Seq<char>
    decreases tokens.len(),
{
    if tokens.len() == 0 || gaps.len() == 0 {
        if gaps.len() == 0 {
            Seq::empty()
        } else {
            gaps[0]
        }
    } else {
        gaps[0] + spelling(tokens[0]) + interleaved(gaps.drop_first(), tokens.drop_first())
    }
}

/// What one step of the tokenizer reads, behind the blanks that it skips,
/// is the spelling of the token that it yields.
pub proof fn lemma_step_reads_spelling(s: Seq<char>, pos: int)
    requires
        0 <= pos <= s.len(),
        next_scan(s, pos).outcome is Ok,
    ensures
        pos <= run_end(s, pos, CharClass::Space) <= next_scan(s, pos).next <= s.len(),
        is_blank(s.subrange(pos, run_end(s, pos, CharClass::Space))),
        s.subrange(run_end(s, pos, CharClass::Space), next_scan(s, pos).next) == spelling(
            next_scan(s, pos).outcome->Ok_0,
        ),
{
    let p = run_end(s, pos, CharClass::Space);
    let step = next_scan(s, pos);
    crate::chars::lemma_run_end(s, pos, CharClass::Space);
    lemma_scan_progress(s, pos);
    assert(is_blank(s.subrange(pos, p))) by {
        assert forall|i: int| 0 <= i < p - pos implies is_space(
            #[trigger] s.subrange(pos, p)[i],
        ) by {
            assert(s.subrange(pos, p)[i] == s[pos + i]);
        }
    }
    if p < s.len() {
        let read = s.subrange(p, step.next);
        let c = s[p];
        if c == '"' {
            crate::chars::lemma_run_end(s, p + 1, CharClass::Quoted);
            let end = run_end(s, p + 1, CharClass::Quoted);
            assert(read == seq!['"'] + s.subrange(p + 1, end) + seq!['"']);
        } else if is_letter(c) {
            crate::chars::lemma_run_end(s, p, CharClass::Word);
        } else if is_digit(c) {
            crate::chars::lemma_run_end(s, p, CharClass::Numeral);
        } else if c == '+' || c == '-' || c == '*' || c == '/' {
            if p + 1 < s.len() && s[p + 1] == '=' {
                assert(read == seq![c, '=']);
            } else {
                assert(read == seq![c]);
            }
        } else {
            assert(read == seq![c]);
        }
    } else {
        assert(s.subrange(p, p) == Seq::<char>::empty());
    }
}

/// From `pos` on, a text that tokenizes is made of the spellings of its
/// tokens, in order, with blanks around them. The gaps are given back.
proof fn lemma_tokens_interleave(s: Seq<char>, pos: int, tokens: Seq<TokenView>) -> (gaps: Seq<
    Seq<char>,
>)
    requires
        0 <= pos <= s.len(),
        tokens_from(s, pos) == Ok::<Seq<TokenView>, LexErrorView>(tokens),
    ensures
        gaps.len() == tokens.len() + 1,
        forall|k: int| 0 <= k < gaps.len() ==> is_blank(#[trigger] gaps[k]),
        interleaved(gaps, tokens) == s.subrange(pos, s.len() as int),
    decreases s.len() - pos,
{
    let p = run_end(s, pos, CharClass::Space);
    let step = next_scan(s, pos);
    lemma_step_reads_spelling(s, pos);
    let gap = s.subrange(pos, p);
    let token = step.outcome->Ok_0;
    if token == TokenView::EOF {
        assert(gap == s.subrange(pos, s.len() as int));
        seq![gap]
    } else {
        lemma_scan_progress(s, pos);
        let rest = tokens_from(s, step.next)->Ok_0;
        assert(tokens == seq![token] + rest);
        let others = lemma_tokens_interleave(s, step.next, rest);
        let gaps = seq![gap] + others;
        assert(gaps[0] == gap);
        assert(gaps.drop_first() == others);
        assert(tokens[0] == token);
        assert(tokens.drop_first() == rest);
        assert(s.subrange(pos, s.len() as int) == gap + spelling(token) + s.subrange(
            step.next,
            s.len() as int,
        )) by {
            assert(s.subrange(pos, s.len() as int) == s.subrange(pos, p) + s.subrange(p, step.next)
                + s.subrange(step.next, s.len() as int));
        }
        assert forall|k: int| 0 <= k < gaps.len() implies is_blank(#[trigger] gaps[k]) by {
            if k > 0 {
                assert(gaps[k] == others[k - 1]);
            }
        }
        gaps
    }
}

/// The tokenizer drops blanks and nothing else: a text that tokenizes is
/// made of the spellings of its tokens, in order, with blanks around them.
pub proof fn lemma_text_is_spelled_by_its_tokens(s: Seq<char>, tokens: Seq<TokenView>)
    requires
        tokens_of(s) == Ok::<Seq<TokenView>, LexErrorView>(tokens),
    ensures
        exists|gaps: Seq<Seq<char>>|
            {
                &&& gaps.len() == tokens.len() + 1
                &&& forall|k: int| 0 <= k < gaps.len() ==> is_blank(#[trigger] gaps[k])
                &&& #[trigger] interleaved(gaps, tokens) == s
            },
{
    let gaps = lemma_tokens_interleave(s, 0, tokens);
    assert(s.subrange(0, s.len() as int) == s);
    assert(interleaved(gaps, tokens) == s);
}

} // verus!
