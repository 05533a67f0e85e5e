//! What the lexer computes, stated over the bytes of the source text.
//!
//! A byte stands for the character with the same code point. The text ends
//! at its first zero byte, or where the bytes run out.

use vstd::prelude::*;
use crate::token::{Class, TokenView};

verus! {

/// Letters: those of ASCII and of Latin-1.
pub open spec fn is_letter(b: u8) -> bool {
    ||| 0x41 <= b <= 0x5A
    ||| 0x61 <= b <= 0x7A
    ||| b == 0xAA
    ||| b == 0xB5
    ||| b == 0xBA
    ||| 0xC0 <= b <= 0xD6
    ||| 0xD8 <= b <= 0xF6
    ||| 0xF8 <= b
}

/// Numerals: the digits, and the superscripts and fractions of Latin-1.
pub open spec fn is_numeral(b: u8) -> bool {
    ||| 0x30 <= b <= 0x39
    ||| b == 0xB2
    ||| b == 0xB3
    ||| b == 0xB9
    ||| 0xBC <= b <= 0xBE
}

/// What a word may hold after its first letter.
pub open spec fn is_word_byte(b: u8) -> bool {
    is_letter(b) || is_numeral(b)
}

/// What a number may hold after its first numeral.
pub open spec fn is_number_byte(b: u8) -> bool {
    is_numeral(b) || b == 0x2E
}

/// The byte at offset `i`, or zero where there is none.
pub open spec fn peek(s: Seq<u8>, i: int) -> u8 {
    if 0 <= i < s.len() {
        s[i]
    } else {
        0
    }
}

/// The characters that the bytes stand for.
pub open spec fn spelled(bytes: Seq<u8>) -> Seq<char> {
    Seq::new(bytes.len(), |k: int| bytes[k] as char)
}

/// The line of offset `i`, counted from 1: one more than the number of
/// line feeds before it.
pub open spec fn line_at(s: Seq<u8>, i: int) -> nat
    decreases i,
{
    if i <= 0 {
        1
    } else if peek(s, i - 1) == 0x0A {
        line_at(s, i - 1) + 1
    } else {
        line_at(s, i - 1)
    }
}

/// The column of offset `i`, counted from 1: one more than the number of
/// bytes between it and the start of its line.
pub open spec fn column_at(s: Seq<u8>, i: int) -> nat
    decreases i,
{
    if i <= 0 {
        1
    } else if peek(s, i - 1) == 0x0A {
        1
    } else {
        column_at(s, i - 1) + 1
    }
}

/// Line and column stay within one more than the offset.
pub proof fn lemma_place_bounds(s: Seq<u8>, i: int)
    requires
        0 <= i,
    ensures
        1 <= line_at(s, i) <= i + 1,
        1 <= column_at(s, i) <= i + 1,
    decreases i,
{
    if i > 0 {
        lemma_place_bounds(s, i - 1);
    }
}

/// The length of the longest run of word bytes that starts at `i`.
pub open spec fn word_run(s: Seq<u8>, i: int) -> nat
    decreases s.len() - i,
{
    if 0 <= i < s.len() && is_word_byte(s[i]) {
        1 + word_run(s, i + 1)
    } else {
        0
    }
}

/// The length of the longest run of numerals and dots that starts at `i`.
pub open spec fn number_run(s: Seq<u8>, i: int) -> nat
    decreases s.len() - i,
{
    if 0 <= i < s.len() && is_number_byte(s[i]) {
        1 + number_run(s, i + 1)
    } else {
        0
    }
}

/// The class of a word: a keyword, a boolean or an identifier. The whole
/// word is compared, never a prefix of it.
pub open spec fn word_class(text: Seq<char>) -> Class {
    if text == "fun"@ || text == "set"@ || text == "var"@ || text == "if"@ || text == "use"@
        || text == "pass"@ {
        Class::Keyword
    } else if text == "true"@ || text == "false"@ {
        Class::Boolean
    } else {
        Class::Identifier
    }
}

/// What can go wrong while scanning.
#[derive(PartialEq, Eq, Structural, Clone, Copy, Debug)]
pub enum FaultKind {
    /// A number holds a dot after its first one.
    ExtraDot,
    /// A backslash in a string is followed by a character that names no
    /// escape.
    BadEscape,
    /// A character starts no token.
    Unrecognized,
    /// The text ends inside a string.
    Unterminated,
}

/// A lexical error: its kind and the offset of the byte it is about.
pub struct Fault {
    pub kind: FaultKind,
    pub at: int,
}

/// The errors of the number bytes from `i` on: one for each dot but the
/// first. `seen` says whether a dot came before `i`.
pub open spec fn extra_dots(s: Seq<u8>, i: int, seen: bool) -> Seq<Fault>
    decreases s.len() - i,
{
    if 0 <= i < s.len() && is_number_byte(s[i]) {
        if s[i] == 0x2E {
            if seen {
                seq![Fault { kind: FaultKind::ExtraDot, at: i }] + extra_dots(s, i + 1, true)
            } else {
                extra_dots(s, i + 1, true)
            }
        } else {
            extra_dots(s, i + 1, seen)
        }
    } else {
        Seq::empty()
    }
}

/// The character that a backslash and `b` stand for in a string, if any.
pub open spec fn escape(b: u8) -> Option<char> {
    if b == 0x6E {
        Some('\n')
    } else if b == 0x74 {
        Some('\t')
    } else if b == 0x5C {
        Some('\\')
    } else if b == 0x22 {
        Some('"')
    } else {
        None
    }
}

/// The rest of a string literal: its characters with the escapes resolved,
/// the errors met, the number of bytes it takes (the closing quote
/// included), and whether a closing quote was found.
pub struct Quoted {
    pub value: Seq<char>,
    pub faults: Seq<Fault>,
    pub len: nat,
    pub closed: bool,
}

/// Scans a string literal from `i`, the offset after its opening quote or
/// any later offset inside it.
pub open spec fn quoted(s: Seq<u8>, i: int) -> Quoted
    decreases s.len() - i,
{
    let c = peek(s, i);
    if c == 0 {
        Quoted {
            value: Seq::empty(),
            faults: seq![Fault { kind: FaultKind::Unterminated, at: i }],
            len: 0,
            closed: false,
        }
    } else if c == 0x22 {
        Quoted { value: Seq::empty(), faults: Seq::empty(), len: 1, closed: true }
    } else if c == 0x5C {
        let e = peek(s, i + 1);
        if e == 0 {
            Quoted {
                value: Seq::empty(),
                faults: seq![Fault { kind: FaultKind::Unterminated, at: i + 1 }],
                len: 1,
                closed: false,
            }
        } else {
            let rest = quoted(s, i + 2);
            match escape(e) {
                Some(ch) => Quoted {
                    value: seq![ch] + rest.value,
                    faults: rest.faults,
                    len: 2 + rest.len,
                    closed: rest.closed,
                },
                None => Quoted {
                    value: rest.value,
                    faults: seq![Fault { kind: FaultKind::BadEscape, at: i + 1 }] + rest.faults,
                    len: 2 + rest.len,
                    closed: rest.closed,
                },
            }
        }
    } else {
        let rest = quoted(s, i + 1);
        Quoted {
            value: seq![c as char] + rest.value,
            faults: rest.faults,
            len: 1 + rest.len,
            closed: rest.closed,
        }
    }
}

/// The class and length of the punctuation mark or operator that starts
/// with the byte `c`, where `d` is the byte after it.
pub open spec fn symbol(c: u8, d: u8) -> Option<(Class, nat)> {
    if c == 0x5B {
        Some((Class::LeftBracket, 1nat))
    } else if c == 0x5D {
        Some((Class::RightBracket, 1nat))
    } else if c == 0x7B {
        Some((Class::LeftBrace, 1nat))
    } else if c == 0x7D {
        Some((Class::RightBrace, 1nat))
    } else if c == 0x28 {
        Some((Class::LeftParen, 1nat))
    } else if c == 0x29 {
        Some((Class::RightParen, 1nat))
    } else if c == 0x2E {
        Some((Class::Dot, 1nat))
    } else if c == 0x2C {
        Some((Class::Comma, 1nat))
    } else if c == 0x3A {
        Some((Class::Colon, 1nat))
    } else if c == 0x3B {
        Some((Class::Semicolon, 1nat))
    } else if c == 0x2B || c == 0x2A || c == 0x2F {
        Some((Class::ArithmeticOperator, 1nat))
    } else if c == 0x3C || c == 0x3E {
        if d == 0x3D {
            Some((Class::ComparisonOperator, 2nat))
        } else {
            Some((Class::ComparisonOperator, 1nat))
        }
    } else if c == 0x2D {
        if d == 0x3E {
            Some((Class::Arrow, 2nat))
        } else {
            Some((Class::ArithmeticOperator, 1nat))
        }
    } else if c == 0x26 || c == 0x7C {
        Some((Class::Logic, 1nat))
    } else if c == 0x21 {
        if d == 0x3D {
            Some((Class::ComparisonOperator, 2nat))
        } else {
            Some((Class::Bang, 1nat))
        }
    } else if c == 0x3D {
        if d == 0x3D {
            Some((Class::ComparisonOperator, 2nat))
        } else {
            Some((Class::Assign, 1nat))
        }
    } else {
        None
    }
}

/// The token of class `class` and text `value` that starts at offset `i`.
pub open spec fn token_at(s: Seq<u8>, i: int, class: Class, value: Seq<char>) -> TokenView {
    TokenView { class, value, line: line_at(s, i), column: column_at(s, i) }
}

/// The token of class `class` that starts at offset `i` and is spelled by
/// the next `len` bytes.
pub open spec fn plain_token(s: Seq<u8>, i: int, class: Class, len: nat) -> TokenView {
    token_at(s, i, class, spelled(s.subrange(i, i + len)))
}

/// One step of the scan: the token it yields, if any, the errors it
/// records, the number of bytes it takes, and whether it ends the scan for
/// good.
pub struct Step {
    pub token: Option<TokenView>,
    pub faults: Seq<Fault>,
    pub len: nat,
    pub fatal: bool,
}

/// The step that the scan takes at offset `i`, where a byte other than
/// zero stands.
pub open spec fn step(s: Seq<u8>, i: int) -> Step {
    let c = peek(s, i);
    if is_letter(c) {
        let len = 1 + word_run(s, i + 1);
        Step {
            token: Some(plain_token(s, i, word_class(spelled(s.subrange(i, i + len))), len)),
            faults: Seq::empty(),
            len,
            fatal: false,
        }
    } else if is_numeral(c) {
        let len = 1 + number_run(s, i + 1);
        Step {
            token: Some(plain_token(s, i, Class::Number, len)),
            faults: extra_dots(s, i + 1, false),
            len,
            fatal: false,
        }
    } else if c == 0x22 {
        let q = quoted(s, i + 1);
        Step {
            token: if q.closed {
                Some(token_at(s, i, Class::String, q.value))
            } else {
                None
            },
            faults: q.faults,
            len: 1 + q.len,
            fatal: !q.closed,
        }
    } else if c == 0x20 || c == 0x0A {
        Step { token: None, faults: Seq::empty(), len: 1, fatal: false }
    } else {
        match symbol(c, peek(s, i + 1)) {
            Some((class, len)) => Step {
                token: Some(plain_token(s, i, class, len)),
                faults: Seq::empty(),
                len,
                fatal: false,
            },
            None => Step {
                token: None,
                faults: seq![Fault { kind: FaultKind::Unrecognized, at: i }],
                len: 1,
                fatal: false,
            },
        }
    }
}

/// The token that closes every scan: its text is one zero character.
pub open spec fn end_token(s: Seq<u8>, i: int) -> TokenView {
    token_at(s, i, Class::EndOfFile, seq!['\0'])
}

/// The outcome of a scan: the tokens, the errors, and whether the scan
/// broke off inside a string.
pub struct Lexed {
    pub tokens: Seq<TokenView>,
    pub faults: Seq<Fault>,
    pub fatal: bool,
}

/// The zero or one tokens of a step.
pub open spec fn yielded(token: Option<TokenView>) -> Seq<TokenView> {
    match token {
        Some(t) => seq![t],
        None => Seq::empty(),
    }
}

/// A run of word bytes ends within the text.
pub proof fn lemma_word_run_fits(s: Seq<u8>, i: int)
    requires
        0 <= i <= s.len(),
    ensures
        i + word_run(s, i) <= s.len(),
    decreases s.len() - i,
{
    if i < s.len() && is_word_byte(s[i]) {
        lemma_word_run_fits(s, i + 1);
    }
}

/// A run of number bytes ends within the text.
pub proof fn lemma_number_run_fits(s: Seq<u8>, i: int)
    requires
        0 <= i <= s.len(),
    ensures
        i + number_run(s, i) <= s.len(),
    decreases s.len() - i,
{
    if i < s.len() && is_number_byte(s[i]) {
        lemma_number_run_fits(s, i + 1);
    }
}

/// A string literal ends within the text.
pub proof fn lemma_quoted_fits(s: Seq<u8>, i: int)
    requires
        0 <= i <= s.len(),
    ensures
        i + quoted(s, i).len <= s.len(),
    decreases s.len() - i,
{
    let c = peek(s, i);
    if c == 0 || c == 0x22 {
    } else if c == 0x5C {
        if peek(s, i + 1) != 0 {
            lemma_quoted_fits(s, i + 2);
        }
    } else {
        lemma_quoted_fits(s, i + 1);
    }
}

/// A step takes at least one byte and ends within the text.
pub proof fn lemma_step_fits(s: Seq<u8>, i: int)
    requires
        peek(s, i) != 0,
    ensures
        1 <= step(s, i).len,
        i + step(s, i).len <= s.len(),
{
    let c = peek(s, i);
    if is_letter(c) {
        lemma_word_run_fits(s, i + 1);
    } else if is_numeral(c) {
        lemma_number_run_fits(s, i + 1);
    } else if c == 0x22 {
        lemma_quoted_fits(s, i + 1);
    }
}

/// The scan from offset `i` on. Where the text ends, the closing token is
/// all that is left; where a string is not closed, the scan breaks off
/// without it.
pub open spec fn lex_from(s: Seq<u8>, i: int) -> Lexed
    decreases s.len() - i,
    via lex_from_terminates
{
    if peek(s, i) == 0 {
        Lexed { tokens: seq![end_token(s, i)], faults: Seq::empty(), fatal: false }
    } else {
        let st = step(s, i);
        if st.fatal {
            Lexed { tokens: Seq::empty(), faults: st.faults, fatal: true }
        } else {
            let rest = lex_from(s, i + st.len);
            Lexed {
                tokens: yielded(st.token) + rest.tokens,
                faults: st.faults + rest.faults,
                fatal: rest.fatal,
            }
        }
    }
}

#[via_fn]
proof fn lex_from_terminates(s: Seq<u8>, i: int) {
    if peek(s, i) != 0 {
        lemma_step_fits(s, i);
    }
}

/// The offset at which the scan from `i` on ends: where the text ends, or
/// where the scan breaks off.
pub open spec fn stop_from(s: Seq<u8>, i: int) -> int
    decreases s.len() - i,
    via stop_from_terminates
{
    if peek(s, i) == 0 {
        i
    } else {
        let st = step(s, i);
        if st.fatal {
            i + st.len
        } else {
            stop_from(s, i + st.len)
        }
    }
}

#[via_fn]
proof fn stop_from_terminates(s: Seq<u8>, i: int) {
    if peek(s, i) != 0 {
        lemma_step_fits(s, i);
    }
}

/// The scan of a whole text.
pub open spec fn lex(s: Seq<u8>) -> Lexed {
    lex_from(s, 0)
}

} // verus!
