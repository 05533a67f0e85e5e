//! Text helpers shared by the lexer and the parser: decimal numbers,
//! padding, terminal colours and splitting at a separator.

use vstd::prelude::*;

verus! {

/// `String::push` of the standard library, which appends one character to
/// the end of the string. This contract is taken on trust from its
/// documentation: afterwards the string holds what it held, followed by `ch`.
pub assume_specification[ std::string::String::push ](s: &mut std::string::String, ch: char)
    ensures
        final(s)@ == old(s)@.push(ch),
;

/// The text that the standard library's `Debug` formatting gives for a
/// string: the string in double quotes, with the characters escaped that
/// Rust would escape in a literal.
pub uninterp spec fn debug_text(text: Seq<char>) -> Seq<char>;

/// The text that the standard library's `Debug` formatting gives for a
/// character: the character in single quotes, escaped where Rust would
/// escape it in a literal.
pub uninterp spec fn char_debug_text(c: char) -> Seq<char>;

/// Formats a string with `Debug` of the standard library (`{:?}`). Taken on
/// trust: the result depends on the text alone.
#[verifier::external_body]
pub(crate) fn debug_str(text: &str) -> (r: String)
    ensures
        r@ == debug_text(text@),
{
    format!("{:?}", text)
}

/// Formats a character with `Debug` of the standard library (`{:?}`). Taken
/// on trust: the result depends on the character alone.
#[verifier::external_body]
pub(crate) fn debug_char(c: char) -> (r: String)
    ensures
        r@ == char_debug_text(c),
{
    format!("{:?}", c)
}

/// The character of the decimal digit `d`.
pub open spec fn digit_char(d: nat) -> char {
    (0x30 + d) as char
}

/// The decimal spelling of `n`, without a sign or leading zeros.
pub open spec fn decimal_text(n: nat) -> Seq<char>
    decreases n,
{
    if n < 10 {
        seq![digit_char(n)]
    } else {
        decimal_text(n / 10).push(digit_char(n % 10))
    }
}

/// `c`, `n` times.
pub open spec fn repeated(c: char, n: nat) -> Seq<char> {
    Seq::new(n, |i: int| c)
}

/// `text` between the escape sequences that switch a terminal to the
/// colour `num` and back.
pub open spec fn colorized(text: Seq<char>, num: nat) -> Seq<char> {
    seq!['\x1b', '['] + decimal_text(num) + seq!['m'] + text + seq!['\x1b', '[', '0', 'm']
}

/// The pieces that `s` falls into at each occurrence of `sep`: one more
/// piece than there are separators, none of which holds a separator.
pub open spec fn pieces<T>(s: Seq<T>, sep: T) -> Seq<Seq<T>>
    decreases s.len(),
{
    if s.len() == 0 {
        seq![Seq::empty()]
    } else {
        let before = pieces(s.drop_last(), sep);
        if s.last() == sep {
            before.push(Seq::empty())
        } else {
            before.update(before.len() - 1, before.last().push(s.last()))
        }
    }
}

/// The number of times `sep` occurs in `s`.
pub open spec fn occurrences<T>(s: Seq<T>, sep: T) -> nat
    decreases s.len(),
{
    if s.len() == 0 {
        0
    } else {
        occurrences(s.drop_last(), sep) + if s.last() == sep {
            1nat
        } else {
            0nat
        }
    }
}

/// The pieces put together again, with `sep` between neighbours.
pub open spec fn joined<T>(parts: Seq<Seq<T>>, sep: T) -> Seq<T>
    decreases parts.len(),
{
    if parts.len() == 0 {
        Seq::empty()
    } else if parts.len() == 1 {
        parts[0]
    } else {
        joined(parts.drop_last(), sep).push(sep) + parts.last()
    }
}

/// The texts of a list of strings.
pub open spec fn texts(v: Seq<String>) -> Seq<Seq<char>> {
    Seq::new(v.len(), |i: int| v[i]@)
}

/// Splitting never yields an empty list, and yields one piece more than
/// there are separators.
pub proof fn lemma_pieces_count<T>(s: Seq<T>, sep: T)
    ensures
        pieces(s, sep).len() == occurrences(s, sep) + 1,
    decreases s.len(),
{
    if s.len() > 0 {
        lemma_pieces_count(s.drop_last(), sep);
    }
}

/// No piece holds the separator.
pub proof fn lemma_pieces_hold_no_separator<T>(s: Seq<T>, sep: T, k: int, i: int)
    requires
        0 <= k < pieces(s, sep).len(),
        0 <= i < pieces(s, sep)[k].len(),
    ensures
        pieces(s, sep)[k][i] != sep,
    decreases s.len(),
{
    if s.len() > 0 {
        let before = pieces(s.drop_last(), sep);
        lemma_pieces_count(s.drop_last(), sep);
        if s.last() == sep {
            if k < before.len() {
                lemma_pieces_hold_no_separator(s.drop_last(), sep, k, i);
            }
        } else {
            if k < before.len() - 1 {
                lemma_pieces_hold_no_separator(s.drop_last(), sep, k, i);
            } else if i < before.last().len() {
                lemma_pieces_hold_no_separator(s.drop_last(), sep, k, i);
            }
        }
    }
}

/// Joining the pieces with the separator gives the text back.
pub proof fn lemma_joined_pieces<T>(s: Seq<T>, sep: T)
    ensures
        joined(pieces(s, sep), sep) == s,
    decreases s.len(),
{
    if s.len() == 0 {
        assert(joined(pieces(s, sep), sep) =~= s);
    } else {
        let init = s.drop_last();
        let before = pieces(init, sep);
        lemma_pieces_count(init, sep);
        lemma_joined_pieces(init, sep);
        let now = pieces(s, sep);
        if s.last() == sep {
            assert(now.drop_last() =~= before);
            assert(joined(now, sep) =~= s);
        } else if before.len() == 1 {
            assert(joined(now, sep) =~= s);
        } else {
            assert(now.drop_last() =~= before.drop_last());
            assert(now.last() == before.last().push(s.last()));
            let head = joined(before.drop_last(), sep).push(sep);
            assert(joined(before, sep) == head + before.last());
            assert(joined(now, sep) == head + now.last());
            assert(head + before.last().push(s.last()) =~= (head + before.last()).push(s.last()));
            assert(init.push(s.last()) =~= s);
        }
    }
}

/// The character of a decimal digit.
fn digit(d: u8) -> (c: char)
    requires
        d < 10,
    ensures
        c == digit_char(d as nat),
{
    (0x30u8 + d) as char
}

/// Spells `n` in decimal.
pub fn decimal(n: usize) -> (r: String)
    ensures
        r@ == decimal_text(n as nat),
    decreases n,
{
    if n < 10 {
        let mut out = String::new();
        out.push(digit(n as u8));
        assert(out@ =~= decimal_text(n as nat));
        out
    } else {
        let mut out = decimal(n / 10);
        out.push(digit((n % 10) as u8));
        out
    }
}

/// Appends `c` to `out`, `n` times.
pub fn pad(out: &mut String, c: char, n: usize)
    ensures
        final(out)@ == old(out)@ + repeated(c, n as nat),
{
    let mut i: usize = 0;
    while i < n
        invariant
            i <= n,
            out@ == old(out)@ + repeated(c, i as nat),
        decreases n - i,
    {
        out.push(c);
        i += 1;
        assert(out@ =~= old(out)@ + repeated(c, i as nat));
    }
}

/// The lines of `lines`, joined by line feeds.
pub fn join_lines(lines: &Vec<String>) -> (r: String)
    ensures
        r@ == joined(texts(lines@), '\n'),
{
    let mut out = String::new();
    let mut i: usize = 0;
    while i < lines.len()
        invariant
            i <= lines.len(),
            out@ == joined(texts(lines@).take(i as int), '\n'),
        decreases lines.len() - i,
    {
        let ghost before = texts(lines@).take(i as int);
        let ghost now = texts(lines@).take(i + 1);
        assert(now.drop_last() =~= before);
        assert(now.last() == lines@[i as int]@);
        if i > 0 {
            out.push('\n');
        }
        out.append(lines[i].as_str());
        i += 1;
    }
    assert(texts(lines@).take(lines.len() as int) =~= texts(lines@));
    out
}

/// Whether `word` reads `text`.
pub fn reads(word: &String, text: &str) -> (r: bool)
    ensures
        r == (word@ == text@),
{
    let other = String::from_str(text);
    *word == other
}

/// Text that can be wrapped in a terminal colour.
pub trait Colorize: View<V = Seq<char>> {
    /// The text between the escape sequences for the colour `num`.
    fn colorize(&self, num: usize) -> (r: String)
        ensures
            r@ == colorized(self@, num as nat),
    ;
}

impl Colorize for str {
    fn colorize(&self, num: usize) -> (r: String) {
        let mut out = String::new();
        out.push('\x1b');
        out.push('[');
        let number = decimal(num);
        out.append(number.as_str());
        out.push('m');
        out.append(self);
        out.push('\x1b');
        out.push('[');
        out.push('0');
        out.push('m');
        assert(out@ =~= colorized(self@, num as nat));
        out
    }
}

impl Colorize for String {
    fn colorize(&self, num: usize) -> (r: String) {
        Colorize::colorize(self.as_str(), num)
    }
}

/// Text that can be split at a separator.
pub trait Split: View<V = Seq<char>> {
    /// The pieces between the occurrences of `seq`, in order.
    fn split(&self, seq: char) -> (r: Vec<String>)
        ensures
            texts(r@) == pieces(self@, seq),
    ;
}

impl Split for str {
    fn split(&self, seq: char) -> (r: Vec<String>) {
        let mut array: Vec<String> = Vec::new();
        let mut buffer = String::new();
        assert(texts(array@).push(buffer@) =~= pieces(self@.take(0), seq));
        for ch in it: self.chars()
            invariant
                it.seq() == self@,
                texts(array@).push(buffer@) == pieces(self@.take(it.index() as int), seq),
        {
            let ghost done = self@.take(it.index() as int);
            let ghost grown = self@.take(it.index() + 1);
            assert(grown.drop_last() =~= done);
            assert(grown.last() == ch);
            if ch == seq {
                array.push(buffer);
                buffer = String::new();
                assert(texts(array@).push(buffer@) =~= pieces(grown, seq));
            } else {
                buffer.push(ch);
                assert(texts(array@).push(buffer@) =~= pieces(grown, seq));
            }
        }
        assert(self@.take(self@.len() as int) =~= self@);
        array.push(buffer);
        assert(texts(array@) =~= pieces(self@, seq));
        array
    }
}

impl Split for String {
    fn split(&self, seq: char) -> (r: Vec<String>) {
        Split::split(self.as_str(), seq)
    }
}

/// A value that can be turned into a result by attaching an error text.
pub trait WithError {
    type Output;

    fn with_error(self, value: String) -> Self::Output;
}

} // verus!
