//! What always holds of a scan.

use vstd::prelude::*;
use vstd::utf8::{
    encode_utf8, is_ascii_chars, is_ascii_chars_encode_utf8, is_ascii_chars_nat_bound,
};
use crate::scanning::{
    column_at, end_token, extra_dots, is_letter, is_number_byte, is_numeral, is_word_byte,
    lemma_place_bounds, lemma_step_fits, lex, lex_from, line_at, number_run, peek, plain_token,
    quoted, spelled, step, word_run, yielded, Fault, FaultKind,
};
use crate::token::{Class, TokenView};
use crate::util::{lemma_pieces_count, pieces};

verus! {

/// Blank text yields no token before its end.
proof fn lemma_blank_from(s: Seq<u8>, i: int)
    requires
        0 <= i <= s.len(),
        forall|k: int| 0 <= k < s.len() ==> s[k] == 0x20 || s[k] == 0x0A,
    ensures
        lex_from(s, i).tokens == seq![end_token(s, s.len() as int)],
        lex_from(s, i).faults == Seq::<Fault>::empty(),
        !lex_from(s, i).fatal,
    decreases s.len() - i,
{
    if i < s.len() {
        lemma_blank_from(s, i + 1);
        assert(step(s, i).len == 1);
        assert(lex_from(s, i).tokens =~= lex_from(s, i + 1).tokens);
        assert(lex_from(s, i).faults =~= lex_from(s, i + 1).faults);
    }
}

/// A text of spaces and line feeds alone scans to the closing token and
/// nothing else, without an error.
pub proof fn lemma_blank_text(s: Seq<u8>)
    requires
        forall|k: int| 0 <= k < s.len() ==> s[k] == 0x20 || s[k] == 0x0A,
    ensures
        lex(s).tokens == seq![end_token(s, s.len() as int)],
        lex(s).faults == Seq::<Fault>::empty(),
        !lex(s).fatal,
{
    lemma_blank_from(s, 0);
}

/// A scan that does not break off yields at least one token, and its last
/// token is the closing token, which stands nowhere else.
pub proof fn lemma_closing_token(s: Seq<u8>, i: int)
    requires
        0 <= i,
        !lex_from(s, i).fatal,
    ensures
        lex_from(s, i).tokens.len() >= 1,
        lex_from(s, i).tokens.last().class == Class::EndOfFile,
        forall|k: int|
            0 <= k < lex_from(s, i).tokens.len() - 1 ==> (#[trigger] lex_from(s, i).tokens[k]).class
                != Class::EndOfFile,
    decreases s.len() - i,
{
    if peek(s, i) != 0 {
        lemma_step_fits(s, i);
        let st = step(s, i);
        lemma_closing_token(s, i + st.len);
        let rest = lex_from(s, i + st.len).tokens;
        let all = lex_from(s, i).tokens;
        assert(all == yielded(st.token) + rest);
        assert forall|k: int| 0 <= k < all.len() - 1 implies (#[trigger] all[k]).class
            != Class::EndOfFile by {
            if st.token.is_some() && k > 0 {
                assert(all[k] == rest[k - 1]);
            }
        }
    }
}

/// The class of the operator that the two bytes `c` and `d` spell
/// together: `->`, `<=`, `>=`, `!=` or `==`.
pub open spec fn paired(c: u8, d: u8) -> Option<Class> {
    if c == 0x2D && d == 0x3E {
        Some(Class::Arrow)
    } else if (c == 0x3C || c == 0x3E || c == 0x21 || c == 0x3D) && d == 0x3D {
        Some(Class::ComparisonOperator)
    } else {
        None
    }
}

/// The class that the first byte of such an operator has by itself: `-`,
/// `<`, `>`, `!` or `=`.
pub open spec fn unpaired(c: u8) -> Option<Class> {
    if c == 0x2D {
        Some(Class::ArithmeticOperator)
    } else if c == 0x3C || c == 0x3E {
        Some(Class::ComparisonOperator)
    } else if c == 0x21 {
        Some(Class::Bang)
    } else if c == 0x3D {
        Some(Class::Assign)
    } else {
        None
    }
}

/// Where the scan meets the two bytes of `->`, `<=`, `>=`, `!=` or `==`, it
/// yields one token of the class of the two together, spelled by both, and
/// goes on behind them: never two tokens of one byte.
pub proof fn lemma_two_byte_operator(s: Seq<u8>, i: int)
    requires
        0 <= i,
        i + 1 < s.len(),
        paired(s[i], s[i + 1]).is_some(),
    ensures
        step(s, i).token == Some(plain_token(s, i, paired(s[i], s[i + 1]).unwrap(), 2)),
        plain_token(s, i, paired(s[i], s[i + 1]).unwrap(), 2).value == seq![
            s[i] as char,
            s[i + 1] as char,
        ],
        step(s, i).faults == Seq::<Fault>::empty(),
        step(s, i).len == 2,
        !step(s, i).fatal,
        lex_from(s, i).tokens == seq![
            plain_token(s, i, paired(s[i], s[i + 1]).unwrap(), 2),
        ] + lex_from(s, i + 2).tokens,
        lex_from(s, i).faults == lex_from(s, i + 2).faults,
{
    let class = paired(s[i], s[i + 1]).unwrap();
    assert(plain_token(s, i, class, 2).value =~= seq![s[i] as char, s[i + 1] as char]);
    assert(yielded(step(s, i).token) =~= seq![plain_token(s, i, class, 2)]);
    assert(lex_from(s, i).faults =~= lex_from(s, i + 2).faults);
}

/// Where the scan meets `-`, `<`, `>`, `!` or `=` and the byte behind it
/// does not make a longer operator of it, it yields one token of that one
/// byte, of the class that the byte has by itself.
pub proof fn lemma_one_byte_operator(s: Seq<u8>, i: int)
    requires
        0 <= i < s.len(),
        unpaired(s[i]).is_some(),
        paired(s[i], peek(s, i + 1)).is_none(),
    ensures
        step(s, i).token == Some(plain_token(s, i, unpaired(s[i]).unwrap(), 1)),
        plain_token(s, i, unpaired(s[i]).unwrap(), 1).value == seq![s[i] as char],
        step(s, i).faults == Seq::<Fault>::empty(),
        step(s, i).len == 1,
        !step(s, i).fatal,
        lex_from(s, i).tokens == seq![plain_token(s, i, unpaired(s[i]).unwrap(), 1)] + lex_from(
            s,
            i + 1,
        ).tokens,
        lex_from(s, i).faults == lex_from(s, i + 1).faults,
{
    let class = unpaired(s[i]).unwrap();
    assert(plain_token(s, i, class, 1).value =~= seq![s[i] as char]);
    assert(yielded(step(s, i).token) =~= seq![plain_token(s, i, class, 1)]);
    assert(lex_from(s, i).faults =~= lex_from(s, i + 1).faults);
}

/// The number of dots in the run of numerals and dots that starts at `i`.
pub open spec fn dots(s: Seq<u8>, i: int) -> nat
    decreases s.len() - i,
{
    if 0 <= i < s.len() && is_number_byte(s[i]) {
        dots(s, i + 1) + if s[i] == 0x2E {
            1nat
        } else {
            0nat
        }
    } else {
        0
    }
}

/// A run of numerals and dots has one error for each dot that is not its
/// first, and no other.
proof fn lemma_extra_dots(s: Seq<u8>, i: int, seen: bool)
    requires
        0 <= i,
    ensures
        extra_dots(s, i, seen).len() == if seen || dots(s, i) == 0 {
            dots(s, i)
        } else {
            (dots(s, i) - 1) as nat
        },
        forall|k: int|
            0 <= k < extra_dots(s, i, seen).len() ==> {
                &&& (#[trigger] extra_dots(s, i, seen)[k]).kind == FaultKind::ExtraDot
                &&& i <= extra_dots(s, i, seen)[k].at < i + number_run(s, i)
                &&& s[extra_dots(s, i, seen)[k].at] == 0x2E
            },
    decreases s.len() - i,
{
    if i < s.len() && is_number_byte(s[i]) {
        lemma_extra_dots(s, i + 1, true);
        lemma_extra_dots(s, i + 1, seen);
    }
}

/// A number is one token however many dots it holds: the run of numerals
/// and dots that starts with its first numeral, all of it. The first dot
/// is in order; each further dot is recorded as one error, so that a
/// number with two dots has exactly one.
pub proof fn lemma_number_with_dots(s: Seq<u8>, i: int)
    requires
        0 <= i < s.len(),
        is_numeral(s[i]),
    ensures
        step(s, i).token == Some(plain_token(s, i, Class::Number, number_run(s, i))),
        step(s, i).len == number_run(s, i),
        !step(s, i).fatal,
        step(s, i).faults.len() == if dots(s, i) == 0 {
            0
        } else {
            dots(s, i) - 1
        },
        forall|k: int|
            0 <= k < step(s, i).faults.len() ==> {
                &&& (#[trigger] step(s, i).faults[k]).kind == FaultKind::ExtraDot
                &&& s[step(s, i).faults[k].at] == 0x2E
            },
        lex_from(s, i).tokens == seq![
            plain_token(s, i, Class::Number, number_run(s, i)),
        ] + lex_from(s, i + number_run(s, i)).tokens,
{
    lemma_extra_dots(s, i + 1, false);
    assert(yielded(step(s, i).token) =~= seq![
        plain_token(s, i, Class::Number, number_run(s, i)),
    ]);
}

/// A string with no quote behind `i` is not closed.
proof fn lemma_quoted_open(s: Seq<u8>, i: int)
    requires
        0 <= i,
        forall|k: int| i <= k < s.len() ==> s[k] != 0x22,
    ensures
        !quoted(s, i).closed,
        quoted(s, i).faults.len() > 0,
        quoted(s, i).faults.last().kind == FaultKind::Unterminated,
    decreases s.len() - i,
{
    let c = peek(s, i);
    if c == 0 {
    } else if c == 0x5C {
        if peek(s, i + 1) != 0 {
            lemma_quoted_open(s, i + 2);
        }
    } else {
        lemma_quoted_open(s, i + 1);
    }
}

/// Where a string literal opens and no quote follows, the scan breaks off:
/// it yields no token for the string and none behind it, not even the
/// closing token, and its last error is that the text ended.
pub proof fn lemma_unclosed_string(s: Seq<u8>, i: int)
    requires
        0 <= i < s.len(),
        s[i] == 0x22,
        forall|k: int| i < k < s.len() ==> s[k] != 0x22,
    ensures
        step(s, i).fatal,
        step(s, i).token.is_none(),
        lex_from(s, i).fatal,
        lex_from(s, i).tokens == Seq::<TokenView>::empty(),
        lex_from(s, i).faults.len() > 0,
        lex_from(s, i).faults.last().kind == FaultKind::Unterminated,
{
    lemma_quoted_open(s, i + 1);
}

/// The offset at which the token of index `k` of the scan from `i` starts.
pub open spec fn origin(s: Seq<u8>, i: int, k: int) -> int
    decreases s.len() - i,
    via origin_terminates
{
    if peek(s, i) == 0 {
        i
    } else {
        let st = step(s, i);
        if st.fatal {
            i
        } else if st.token.is_none() {
            origin(s, i + st.len, k)
        } else if k == 0 {
            i
        } else {
            origin(s, i + st.len, k - 1)
        }
    }
}

#[via_fn]
proof fn origin_terminates(s: Seq<u8>, i: int, k: int) {
    if peek(s, i) != 0 {
        lemma_step_fits(s, i);
    }
}

/// The bytes of a run of word bytes are word bytes.
proof fn lemma_word_run_bytes(s: Seq<u8>, i: int, j: int)
    requires
        0 <= i <= j < i + word_run(s, i),
    ensures
        j < s.len(),
        is_word_byte(s[j]),
    decreases j - i,
{
    if i < j {
        lemma_word_run_bytes(s, i + 1, j);
    }
}

/// The bytes of a run of numerals and dots are numerals and dots.
proof fn lemma_number_run_bytes(s: Seq<u8>, i: int, j: int)
    requires
        0 <= i <= j < i + number_run(s, i),
    ensures
        j < s.len(),
        is_number_byte(s[j]),
    decreases j - i,
{
    if i < j {
        lemma_number_run_bytes(s, i + 1, j);
    }
}

/// A token that is neither a string nor the closing token is spelled by
/// the bytes of its step, none of which is a line feed.
proof fn lemma_step_spells(s: Seq<u8>, i: int)
    requires
        0 <= i,
        peek(s, i) != 0,
        step(s, i).token.is_some(),
        step(s, i).token.unwrap().class != Class::String,
    ensures
        step(s, i).token.unwrap() == plain_token(
            s,
            i,
            step(s, i).token.unwrap().class,
            step(s, i).len,
        ),
        step(s, i).token.unwrap().class != Class::EndOfFile,
        step(s, i).token.unwrap().value.len() == step(s, i).len,
        1 <= step(s, i).len,
        i + step(s, i).len <= s.len(),
        forall|j: int| i <= j < i + step(s, i).len ==> s[j] != 0x0A,
{
    lemma_step_fits(s, i);
    let c = peek(s, i);
    let n = step(s, i).len;
    if is_letter(c) {
        assert forall|j: int| i <= j < i + n implies s[j] != 0x0A by {
            lemma_word_run_bytes(s, i, j);
        }
    } else if is_numeral(c) {
        assert forall|j: int| i <= j < i + n implies s[j] != 0x0A by {
            lemma_number_run_bytes(s, i, j);
        }
    }
}

/// Each token of a scan stands at the line and column of the offset at
/// which it starts; one that is neither a string nor the closing token is
/// spelled by the bytes from there on, which lie on one line.
proof fn lemma_token_origin(s: Seq<u8>, i: int, k: int)
    requires
        0 <= i <= s.len(),
        0 <= k < lex_from(s, i).tokens.len(),
    ensures
        i <= origin(s, i, k) <= s.len(),
        lex_from(s, i).tokens[k].line == line_at(s, origin(s, i, k)),
        lex_from(s, i).tokens[k].column == column_at(s, origin(s, i, k)),
        lex_from(s, i).tokens[k].class != Class::String && lex_from(s, i).tokens[k].class
            != Class::EndOfFile ==> {
            &&& 1 <= lex_from(s, i).tokens[k].value.len()
            &&& origin(s, i, k) + lex_from(s, i).tokens[k].value.len() <= s.len()
            &&& lex_from(s, i).tokens[k].value == spelled(
                s.subrange(
                    origin(s, i, k),
                    origin(s, i, k) + lex_from(s, i).tokens[k].value.len(),
                ),
            )
            &&& forall|j: int|
                origin(s, i, k) <= j < origin(s, i, k) + lex_from(s, i).tokens[k].value.len()
                    ==> s[j] != 0x0A
        },
    decreases s.len() - i,
{
    if peek(s, i) != 0 {
        let st = step(s, i);
        lemma_step_fits(s, i);
        if !st.fatal {
            let rest = lex_from(s, i + st.len);
            if st.token.is_none() {
                assert(lex_from(s, i).tokens =~= rest.tokens);
                lemma_token_origin(s, i + st.len, k);
            } else if k == 0 {
                if st.token.unwrap().class != Class::String {
                    lemma_step_spells(s, i);
                }
            } else {
                assert(lex_from(s, i).tokens[k] == rest.tokens[k - 1]);
                lemma_token_origin(s, i + st.len, k - 1);
            }
        }
    }
}

/// Over bytes that hold no line feed the line stays and the column counts
/// up.
proof fn lemma_along_a_line(s: Seq<u8>, o: int, n: int)
    requires
        0 <= o,
        0 <= n,
        o + n <= s.len(),
        forall|j: int| o <= j < o + n ==> s[j] != 0x0A,
    ensures
        line_at(s, o + n) == line_at(s, o),
        column_at(s, o + n) == column_at(s, o) + n,
    decreases n,
{
    if n > 0 {
        lemma_along_a_line(s, o, n - 1);
    }
}

/// The first `m` bytes fall into as many lines as the line of offset `m`
/// says, and the last of them holds the bytes from the start of that line
/// to `m`.
proof fn lemma_last_line(s: Seq<u8>, m: int)
    requires
        0 <= m <= s.len(),
    ensures
        pieces(s.take(m), 0x0Au8).len() == line_at(s, m),
        column_at(s, m) <= m + 1,
        pieces(s.take(m), 0x0Au8).last() == s.subrange(m + 1 - column_at(s, m), m),
    decreases m,
{
    lemma_place_bounds(s, m);
    if m == 0 {
        assert(pieces(s.take(m), 0x0Au8).last() =~= s.subrange(0, 0));
    } else {
        lemma_last_line(s, m - 1);
        lemma_place_bounds(s, m - 1);
        assert(s.take(m).drop_last() =~= s.take(m - 1));
        let before = pieces(s.take(m - 1), 0x0Au8);
        if s[m - 1] == 0x0A {
            assert(pieces(s.take(m), 0x0Au8).last() =~= s.subrange(m, m));
        } else {
            assert(before.last().push(s[m - 1]) =~= s.subrange(m + 1 - column_at(s, m), m));
        }
    }
}

/// A line of a shorter text is the start of the same line of a longer one.
proof fn lemma_lines_grow(s: Seq<u8>, m: int, n: int, r: int)
    requires
        0 <= m <= n <= s.len(),
        0 <= r < pieces(s.take(m), 0x0Au8).len(),
    ensures
        r < pieces(s.take(n), 0x0Au8).len(),
        pieces(s.take(m), 0x0Au8)[r].is_prefix_of(pieces(s.take(n), 0x0Au8)[r]),
    decreases n - m,
{
    if m < n {
        lemma_lines_grow(s, m, n - 1, r);
        assert(s.take(n).drop_last() =~= s.take(n - 1));
        let shorter = pieces(s.take(m), 0x0Au8)[r];
        let before = pieces(s.take(n - 1), 0x0Au8);
        let after = pieces(s.take(n), 0x0Au8);
        assert(shorter =~= before[r].subrange(0, shorter.len() as int));
        assert(shorter =~= after[r].subrange(0, shorter.len() as int));
    } else {
        let line = pieces(s.take(m), 0x0Au8)[r];
        assert(line =~= line.subrange(0, line.len() as int));
    }
}

/// Bytes that hold no line feed are found again in the line of their first
/// byte, at its column.
pub proof fn lemma_span_in_line(s: Seq<u8>, o: int, n: int)
    requires
        0 <= o,
        0 <= n,
        o + n <= s.len(),
        forall|j: int| o <= j < o + n ==> s[j] != 0x0A,
    ensures
        1 <= line_at(s, o) <= pieces(s, 0x0Au8).len(),
        1 <= column_at(s, o),
        column_at(s, o) - 1 + n <= pieces(s, 0x0Au8)[line_at(s, o) - 1].len(),
        pieces(s, 0x0Au8)[line_at(s, o) - 1].subrange(
            column_at(s, o) - 1,
            column_at(s, o) - 1 + n,
        ) == s.subrange(o, o + n),
{
    let m = o + n;
    let l = line_at(s, o);
    let c = column_at(s, o);
    lemma_place_bounds(s, o);
    lemma_along_a_line(s, o, n);
    lemma_last_line(s, m);
    lemma_lines_grow(s, m, s.len() as int, l - 1);
    assert(s.take(s.len() as int) =~= s);
    let short = pieces(s.take(m), 0x0Au8)[l - 1];
    let whole = pieces(s, 0x0Au8)[l - 1];
    assert(short == s.subrange(o + 1 - c, m));
    assert(short =~= whole.subrange(0, short.len() as int));
    assert(short.len() == c - 1 + n);
    assert(short.len() <= whole.len());
    let found = whole.subrange(c - 1, c - 1 + n);
    let sought = s.subrange(o, o + n);
    assert forall|j: int| 0 <= j < n implies found[j] == sought[j] by {
        assert(whole.subrange(0, short.len() as int)[c - 1 + j] == whole[c - 1 + j]);
        assert(short[c - 1 + j] == s[o + 1 - c + (c - 1 + j)]);
    }
    assert(found =~= sought);
}

/// A token of a scan that is neither a string nor the closing token can be
/// read again from the text: take the line that the token names, and in it
/// as many bytes as the token has characters, from the column that the
/// token names. They spell the token.
pub proof fn lemma_token_in_its_line(s: Seq<u8>, k: int)
    requires
        0 <= k < lex(s).tokens.len(),
        lex(s).tokens[k].class != Class::String,
        lex(s).tokens[k].class != Class::EndOfFile,
    ensures
        1 <= lex(s).tokens[k].value.len(),
        1 <= lex(s).tokens[k].line <= pieces(s, 0x0Au8).len(),
        1 <= lex(s).tokens[k].column,
        lex(s).tokens[k].column - 1 + lex(s).tokens[k].value.len() <= pieces(
            s,
            0x0Au8,
        )[lex(s).tokens[k].line - 1].len(),
        spelled(
            pieces(s, 0x0Au8)[lex(s).tokens[k].line - 1].subrange(
                lex(s).tokens[k].column - 1,
                lex(s).tokens[k].column - 1 + lex(s).tokens[k].value.len(),
            ),
        ) == lex(s).tokens[k].value,
{
    lemma_token_origin(s, 0, k);
    lemma_span_in_line(s, origin(s, 0, k), lex(s).tokens[k].value.len() as int);
}

/// Whether the bytes `s` stand one for one for the characters `text`.
pub open spec fn mirrors(s: Seq<u8>, text: Seq<char>) -> bool {
    &&& s.len() == text.len()
    &&& forall|i: int| 0 <= i < text.len() ==> s[i] as char == #[trigger] text[i]
}

/// Bytes that stand one for one for characters fall into the same lines
/// as the characters.
proof fn lemma_mirrored_lines(s: Seq<u8>, text: Seq<char>)
    requires
        mirrors(s, text),
    ensures
        pieces(s, 0x0Au8).len() == pieces(text, '\n').len(),
        forall|k: int|
            0 <= k < pieces(text, '\n').len() ==> spelled(#[trigger] pieces(s, 0x0Au8)[k])
                == pieces(text, '\n')[k],
    decreases s.len(),
{
    let bytes = pieces(s, 0x0Au8);
    let chars = pieces(text, '\n');
    if s.len() == 0 {
        assert(spelled(bytes[0]) =~= chars[0]);
    } else {
        let b = s.last();
        let c = text.last();
        assert(b as char == c);
        assert forall|i: int| 0 <= i < text.len() - 1 implies s.drop_last()[i] as char
            == #[trigger] text.drop_last()[i] by {
            assert(text[i] == text.drop_last()[i]);
        }
        assert(mirrors(s.drop_last(), text.drop_last()));
        lemma_mirrored_lines(s.drop_last(), text.drop_last());
        let before = pieces(s.drop_last(), 0x0Au8);
        let above = pieces(text.drop_last(), '\n');
        lemma_pieces_count(s.drop_last(), 0x0Au8);
        assert forall|k: int| 0 <= k < chars.len() implies spelled(#[trigger] bytes[k])
            == chars[k] by {
            if k < before.len() - 1 {
                assert(bytes[k] == before[k]);
                assert(chars[k] == above[k]);
            } else if b == 0x0A {
                if k == before.len() - 1 {
                    assert(bytes[k] == before[k]);
                    assert(chars[k] == above[k]);
                } else {
                    assert(spelled(bytes[k]) =~= chars[k]);
                }
            } else {
                assert(spelled(before[k]) == above[k]);
                assert(spelled(before[k].push(b)) =~= above[k].push(c));
            }
        }
    }
}

/// Behind the end of the text the line stays what it is at the end.
proof fn lemma_line_behind_the_end(s: Seq<u8>, i: int)
    requires
        s.len() <= i,
    ensures
        line_at(s, i) == line_at(s, s.len() as int),
    decreases i,
{
    if s.len() < i {
        lemma_line_behind_the_end(s, i - 1);
    }
}

/// Every offset lies in one of the lines of the text.
pub proof fn lemma_line_is_there(s: Seq<u8>, i: int)
    requires
        0 <= i,
    ensures
        1 <= line_at(s, i) <= pieces(s, 0x0Au8).len(),
{
    let end = s.len() as int;
    let at = if i <= end {
        i
    } else {
        end
    };
    if i > end {
        lemma_line_behind_the_end(s, i);
    }
    lemma_place_bounds(s, at);
    lemma_last_line(s, at);
    lemma_lines_grow(s, at, end, line_at(s, at) - 1);
    assert(s.take(end) =~= s);
}

/// For a text of ASCII characters, the lines of the bytes are the lines of
/// the characters: there are as many, each line of bytes spells the line
/// of characters of the same number, and the line of every offset is one
/// of them.
pub proof fn lemma_ascii_lines(text: Seq<char>)
    requires
        is_ascii_chars(text),
    ensures
        encode_utf8(text).len() == text.len(),
        pieces(encode_utf8(text), 0x0Au8).len() == pieces(text, '\n').len(),
        forall|k: int|
            0 <= k < pieces(text, '\n').len() ==> spelled(
                #[trigger] pieces(encode_utf8(text), 0x0Au8)[k],
            ) == pieces(text, '\n')[k],
        forall|i: int|
            0 <= i ==> 1 <= #[trigger] line_at(encode_utf8(text), i) <= pieces(text, '\n').len(),
{
    let s = encode_utf8(text);
    is_ascii_chars_encode_utf8(text);
    is_ascii_chars_nat_bound(text);
    assert forall|i: int| 0 <= i < text.len() implies s[i] as char == #[trigger] text[i] by {
        assert(text[i] as u8 == s[i]);
        assert((text[i] as nat) < 128);
    }
    assert(mirrors(s, text));
    lemma_mirrored_lines(s, text);
    assert forall|i: int| 0 <= i implies 1 <= #[trigger] line_at(s, i) <= pieces(
        text,
        '\n',
    ).len() by {
        lemma_line_is_there(s, i);
    }
}

} // verus!
