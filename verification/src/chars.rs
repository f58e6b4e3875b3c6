//! Character classes of the surface syntax, and the text primitives that the
//! tokenizer builds its tokens with.

use vstd::prelude::*;

verus! {

/// Whether a character has the Unicode property `White_Space`: what
/// `char::is_whitespace` answers.
pub uninterp spec fn white_space(c: char) -> bool;

/// Whether a character has the Unicode property `Alphabetic`: what
/// `char::is_alphabetic` answers.
pub uninterp spec fn alphabetic(c: char) -> bool;

/// Whether `c` separates tokens: the ASCII blanks (space, tab, line feed,
/// vertical tab, form feed, carriage return), the no-break space, and every
/// other character with the Unicode `White_Space` property.
pub open spec fn is_space(c: char) -> bool {
    if (c as u32) < 0x80 {
        c == ' ' || ('\t' <= c && c <= '\r')
    } else if c == '\u{a0}' {
        true
    } else {
        white_space(c)
    }
}

/// Whether `c` is a letter: the ASCII letters and every other character with
/// the Unicode `Alphabetic` property.
pub open spec fn is_letter(c: char) -> bool {
    if (c as u32) < 0x80 {
        ('a' <= c && c <= 'z') || ('A' <= c && c <= 'Z')
    } else {
        alphabetic(c)
    }
}

/// Whether `c` is one of the ten decimal digits.
pub open spec fn is_digit(c: char) -> bool {
    '0' <= c && c <= '9'
}

/// The classes of characters that the tokenizer reads in runs.
#[derive(Debug, PartialEq, Eq, Clone, Copy, Structural)]
pub enum CharClass {
    /// Blanks between tokens.
    Space,
    /// Letters and the underscore: the characters of a word.
    Word,
    /// Decimal digits and the dot: the characters of a numeral.
    Numeral,
    /// Everything but the double quote: the characters inside a string.
    Quoted,
}

/// Whether `c` belongs to `class`.
pub open spec fn in_class(class: CharClass, c: char) -> bool {
    match class {
        CharClass::Space => is_space(c),
        CharClass::Word => is_letter(c) || c == '_',
        CharClass::Numeral => is_digit(c) || c == '.',
        CharClass::Quoted => c != '"',
    }
}

/// The characters of `s` from `from` up to `to`; none where these bounds
/// mark no part of `s`.
pub open spec fn part(s: Seq<char>, from: int, to: int) -> Seq<char> {
    if 0 <= from <= to <= s.len() {
        s.subrange(from, to)
    } else {
        Seq::empty()
    }
}

/// Where the maximal run of characters of `class` that starts at `start`
/// ends: the first position from `start` on that holds a character outside
/// the class, or the length of `s`.
pub open spec fn run_end(s: Seq<char>, start: int, class: CharClass) -> int
    decreases s.len() - start,
{
    if 0 <= start < s.len() && in_class(class, s[start]) {
        run_end(s, start + 1, class)
    } else {
        start
    }
}

/// `run_end` stops inside the text, on the first character outside the
/// class, and everything before it belongs to the class.
pub proof fn lemma_run_end(s: Seq<char>, start: int, class: CharClass)
    requires
        0 <= start <= s.len(),
    ensures
        start <= run_end(s, start, class) <= s.len(),
        forall|i: int| start <= i < run_end(s, start, class) ==> in_class(class, #[trigger] s[i]),
        run_end(s, start, class) < s.len() ==> !in_class(class, s[run_end(s, start, class)]),
    decreases s.len() - start,
{
    if start < s.len() && in_class(class, s[start]) {
        lemma_run_end(s, start + 1, class);
    }
}

/// A position `end` that is reached from `start` through characters of the
/// class only, and that holds none of them, is where the run ends.
pub proof fn lemma_run_end_unique(s: Seq<char>, start: int, end: int, class: CharClass)
    requires
        0 <= start <= end <= s.len(),
        forall|i: int| start <= i < end ==> in_class(class, #[trigger] s[i]),
        end < s.len() ==> !in_class(class, s[end]),
    ensures
        run_end(s, start, class) == end,
    decreases end - start,
{
    if start < end {
        lemma_run_end_unique(s, start + 1, end, class);
    }
}

/// Calls `char::is_whitespace`. Trusted: the answer is the `White_Space`
/// property of the character, which on ASCII holds of the six blanks that
/// `is_space` lists and of nothing else, and which holds of the no-break
/// space, the example that the documentation of `char::is_whitespace` gives;
/// of any other character the property is only named here.
#[verifier::external_body]
pub(crate) fn char_is_whitespace(c: char) -> (b: bool)
    ensures
        b == white_space(c),
        b == is_space(c),
{
    c.is_whitespace()
}

/// Calls `char::is_alphabetic`. Trusted: the answer is the `Alphabetic`
/// property of the character, which on ASCII holds of the letters `a` to `z`
/// and `A` to `Z` and of nothing else; beyond ASCII the property is only
/// named here.
#[verifier::external_body]
pub(crate) fn char_is_alphabetic(c: char) -> (b: bool)
    ensures
        b == alphabetic(c),
        b == is_letter(c),
{
    c.is_alphabetic()
}

/// Decides `is_digit` by comparing code points.
pub fn char_is_digit(c: char) -> (b: bool)
    ensures
        b == is_digit(c),
{
    '0' <= c && c <= '9'
}

/// `String::push` appends one character to the end of the string.
pub assume_specification[ std::string::String::push ](s: &mut std::string::String, ch: char)
    ensures
        final(s)@ == old(s)@.push(ch),
;

/// Collects the characters of `s`, in order.
pub fn chars_of(s: &str) -> (v: Vec<char>)
    ensures
        v@ == s@,
{
    let mut v: Vec<char> = Vec::new();
    for c in it: s.chars()
        invariant
            v@ == it.seq().take(it.index()),
            it.seq() == s@,
    {
        v.push(c);
    }
    v
}

} // verus!
