//! How an error is shown: a header with file, line and column, the source
//! line, a line that underlines the offending text, and one line for each
//! grammar rule that the reader may have meant.

use vstd::prelude::*;
use vstd::utf8::{encode_utf8, is_ascii_chars};
use crate::scanning::{lex, spelled};
use crate::scanning_facts::{lemma_ascii_lines, lemma_token_in_its_line};
use crate::token::{Class, Token, TokenView};
use crate::tree::{production, words, ShapeRef};
use crate::util::{
    colorized, decimal, decimal_text, join_lines, joined, pad, pieces, repeated, texts, Colorize,
};

verus! {

/// One less than `n`, or zero.
pub open spec fn less_one(n: nat) -> nat {
    if n > 0 {
        (n - 1) as nat
    } else {
        0
    }
}

/// The blank margin before each line but the header: as wide as the line
/// number, then a bar.
pub open spec fn margin(line: nat) -> Seq<char> {
    repeated(' ', decimal_text(line).len()) + " | "@
}

/// The line that underlines a token of `len` characters at `column`: a
/// caret under its first character and tildes under the others.
pub open spec fn underline(column: nat, len: nat) -> Seq<char> {
    repeated(' ', less_one(column)) + seq!['^'] + repeated('~', less_one(len))
}

/// The elements of a grammar rule, the chosen one in colour.
pub open spec fn marked(elements: Seq<Seq<char>>, chosen: int) -> Seq<Seq<char>> {
    Seq::new(
        elements.len(),
        |i: int|
            if i == chosen {
                colorized(elements[i], 33)
            } else {
                elements[i]
            },
    )
}

/// A grammar rule on one line, with the element in colour that the hint
/// points at.
pub open spec fn hint_text(hint: ShapeRef) -> Seq<char> {
    joined(marked(production(hint.shape), hint.element as int), ' ')
}

/// The first line of a diagnostic.
pub open spec fn header(path: Seq<char>, line: nat, column: nat, complaint: Seq<char>) -> Seq<
    char,
> {
    path + "["@ + decimal_text(line) + ", "@ + decimal_text(column) + "]:"@ + colorized(
        "error"@,
        31,
    ) + " --> "@ + complaint
}

/// The line of hint number `k` for an error at `line` and `column`: the
/// first is introduced as information, each further one as an
/// alternative, and all start under the caret.
pub open spec fn hint_line(line: nat, column: nat, k: int, hint: ShapeRef) -> Seq<char> {
    margin(line) + repeated(' ', less_one(column)) + (if k == 0 {
        "info: "@
    } else {
        "  or: "@
    }) + hint_text(hint)
}

/// The lines of a diagnostic about the `width` characters that start at
/// `line` and `column`: the header, which ends with the complaint, the
/// source line, the underline with the note behind it, and the hints.
pub open spec fn diagnostic_lines(
    path: Seq<char>,
    line: nat,
    column: nat,
    width: nat,
    complaint: Seq<char>,
    source_line: Seq<char>,
    note: Seq<char>,
    hints: Seq<ShapeRef>,
) -> Seq<Seq<char>> {
    seq![
        header(path, line, column, complaint),
        margin(line) + source_line,
        margin(line) + underline(column, width) + note,
    ] + Seq::new(hints.len(), |k: int| hint_line(line, column, k, hints[k]))
}

/// A diagnostic about the `width` characters that start at `line` and
/// `column`: its lines, joined by line feeds.
pub open spec fn diagnostic_at(
    path: Seq<char>,
    line: nat,
    column: nat,
    width: nat,
    complaint: Seq<char>,
    source_line: Seq<char>,
    note: Seq<char>,
    hints: Seq<ShapeRef>,
) -> Seq<char> {
    joined(
        diagnostic_lines(path, line, column, width, complaint, source_line, note, hints),
        '\n',
    )
}

/// A diagnostic about a token: one about its characters, at its line and
/// column.
pub open spec fn diagnostic_text(
    path: Seq<char>,
    token: TokenView,
    complaint: Seq<char>,
    source_line: Seq<char>,
    note: Seq<char>,
    hints: Seq<ShapeRef>,
) -> Seq<char> {
    diagnostic_at(
        path,
        token.line,
        token.column,
        token.value.len(),
        complaint,
        source_line,
        note,
        hints,
    )
}

/// The source line of number `line`, counted from 1, or the empty line
/// where the source has no such line.
pub open spec fn line_of(code: Seq<Seq<char>>, line: nat) -> Seq<char> {
    if 1 <= line <= code.len() {
        code[line - 1]
    } else {
        Seq::empty()
    }
}

/// The note behind the underline of a syntax error: the class that was
/// expected and the class that was found.
pub open spec fn expectation_text(expected: Seq<char>, found: Seq<char>) -> Seq<char> {
    "expected "@ + expected + ", not "@ + found
}

/// The underline is as long as the columns before the token and the token
/// together; it is blank before the token's column, has its caret there
/// and tildes under the rest of the token.
pub proof fn lemma_underline_marks(column: nat, len: nat)
    requires
        1 <= column,
        1 <= len,
    ensures
        underline(column, len).len() == column - 1 + len,
        forall|j: int| 0 <= j < column - 1 ==> underline(column, len)[j] == ' ',
        underline(column, len)[column - 1] == '^',
        forall|j: int| column <= j < column - 1 + len ==> underline(column, len)[j] == '~',
{
}

/// The underline of a token of a scan covers the token and nothing else:
/// the characters of the source line above the caret and the tildes are
/// the characters of the token, in order. This holds of every token but
/// strings, whose text is not what the source spells, and the closing
/// token, which stands behind the text.
pub proof fn lemma_underline_covers_token(s: Seq<u8>, k: int)
    requires
        0 <= k < lex(s).tokens.len(),
        lex(s).tokens[k].class != Class::String,
        lex(s).tokens[k].class != Class::EndOfFile,
    ensures
        1 <= lex(s).tokens[k].line <= pieces(s, 0x0Au8).len(),
        underline(lex(s).tokens[k].column, lex(s).tokens[k].value.len()).len() <= pieces(
            s,
            0x0Au8,
        )[lex(s).tokens[k].line - 1].len(),
        forall|j: int|
            0 <= j < underline(lex(s).tokens[k].column, lex(s).tokens[k].value.len()).len() ==> (
            underline(lex(s).tokens[k].column, lex(s).tokens[k].value.len())[j] != ' ' <==> j
                >= lex(s).tokens[k].column - 1),
        forall|j: int|
            0 <= j < lex(s).tokens[k].value.len() ==> pieces(
                s,
                0x0Au8,
            )[lex(s).tokens[k].line - 1][lex(s).tokens[k].column - 1 + j] as char == lex(
                s,
            ).tokens[k].value[j],
{
    let t = lex(s).tokens[k];
    let line = pieces(s, 0x0Au8)[t.line - 1];
    lemma_token_in_its_line(s, k);
    lemma_underline_marks(t.column, t.value.len());
    let found = line.subrange(t.column - 1, t.column - 1 + t.value.len());
    assert forall|j: int| 0 <= j < t.value.len() implies line[t.column - 1 + j] as char
        == t.value[j] by {
        assert(spelled(found)[j] == found[j] as char);
    }
}

/// For a text of ASCII characters, the source line that a diagnostic shows
/// for a token of the scan holds the token where the underline marks it:
/// the line of the token's number is there, and its characters from the
/// token's column on, as many as the token has, are the token's. This
/// holds of every token but strings and the closing token.
pub proof fn lemma_shown_line_holds_token(text: Seq<char>, k: int)
    requires
        is_ascii_chars(text),
        0 <= k < lex(encode_utf8(text)).tokens.len(),
        lex(encode_utf8(text)).tokens[k].class != Class::String,
        lex(encode_utf8(text)).tokens[k].class != Class::EndOfFile,
    ensures
        1 <= lex(encode_utf8(text)).tokens[k].line <= pieces(text, '\n').len(),
        1 <= lex(encode_utf8(text)).tokens[k].column,
        lex(encode_utf8(text)).tokens[k].column - 1 + lex(
            encode_utf8(text),
        ).tokens[k].value.len() <= line_of(
            pieces(text, '\n'),
            lex(encode_utf8(text)).tokens[k].line,
        ).len(),
        line_of(pieces(text, '\n'), lex(encode_utf8(text)).tokens[k].line).subrange(
            lex(encode_utf8(text)).tokens[k].column - 1,
            lex(encode_utf8(text)).tokens[k].column - 1 + lex(
                encode_utf8(text),
            ).tokens[k].value.len(),
        ) == lex(encode_utf8(text)).tokens[k].value,
{
    let s = encode_utf8(text);
    let t = lex(s).tokens[k];
    lemma_token_in_its_line(s, k);
    lemma_ascii_lines(text);
    let bytes = pieces(s, 0x0Au8)[t.line - 1];
    let shown = pieces(text, '\n')[t.line - 1];
    assert(spelled(bytes) == shown);
    let from = t.column - 1;
    let to = t.column - 1 + t.value.len();
    assert(shown.subrange(from, to) =~= spelled(bytes.subrange(from, to)));
}

/// Writes the elements of the grammar rule that `hint` points at on one
/// line, with the chosen element in colour.
pub fn render_hint(hint: ShapeRef) -> (r: String)
    ensures
        r@ == hint_text(hint),
{
    let elements = hint.shape.production();
    let ghost all = marked(production(hint.shape), hint.element as int);
    let mut out = String::new();
    let mut i: usize = 0;
    while i < elements.len()
        invariant
            i <= elements.len(),
            words(elements@) == production(hint.shape),
            all == marked(production(hint.shape), hint.element as int),
            out@ == joined(all.take(i as int), ' '),
        decreases elements.len() - i,
    {
        let ghost before = all.take(i as int);
        let ghost now = all.take(i + 1);
        assert(now.drop_last() =~= before);
        assert(words(elements@)[i as int] == elements@[i as int]@);
        if i > 0 {
            out.push(' ');
        }
        if i == hint.element {
            let shown = elements[i].colorize(33);
            out.append(shown.as_str());
        } else {
            out.append(elements[i]);
        }
        i += 1;
    }
    assert(all.take(elements.len() as int) =~= all);
    out
}

/// The note behind the underline of a syntax error.
pub fn mismatch(expected: &str, found: &str) -> (r: String)
    ensures
        r@ == expectation_text(expected@, found@),
{
    let mut out = String::from_str("expected ");
    out.append(expected);
    out.append(", not ");
    out.append(found);
    out
}

/// The margin of a diagnostic about a token at `line`.
fn margin_of(line: usize) -> (r: String)
    ensures
        r@ == margin(line as nat),
{
    let number = decimal(line);
    let mut out = String::new();
    pad(&mut out, ' ', number.as_str().unicode_len());
    out.append(" | ");
    out
}

/// Formats a diagnostic about the `width` characters that start at `line`
/// and `column`: the header with the place and the complaint, the source
/// line, the underline with the note behind it, and one line for each hint.
pub fn format_at(
    path: &str,
    line: usize,
    column: usize,
    width: usize,
    complaint: &str,
    source_line: &str,
    note: &str,
    hints: &Vec<ShapeRef>,
) -> (r: String)
    ensures
        r@ == diagnostic_at(
            path@,
            line as nat,
            column as nat,
            width as nat,
            complaint@,
            source_line@,
            note@,
            hints@,
        ),
{
    let ghost wanted = diagnostic_lines(
        path@,
        line as nat,
        column as nat,
        width as nat,
        complaint@,
        source_line@,
        note@,
        hints@,
    );
    let before = if column > 0 {
        column - 1
    } else {
        0
    };
    let tildes = if width > 0 {
        width - 1
    } else {
        0
    };
    let mut lines: Vec<String> = Vec::new();

    let mut first = String::from_str(path);
    first.append("[");
    first.append(decimal(line).as_str());
    first.append(", ");
    first.append(decimal(column).as_str());
    first.append("]:");
    first.append("error".colorize(31).as_str());
    first.append(" --> ");
    first.append(complaint);
    lines.push(first);

    let mut second = margin_of(line);
    second.append(source_line);
    lines.push(second);

    let mut third = margin_of(line);
    pad(&mut third, ' ', before);
    third.push('^');
    pad(&mut third, '~', tildes);
    third.append(note);
    assert(third@ =~= margin(line as nat) + underline(column as nat, width as nat) + note@);
    lines.push(third);
    assert(texts(lines@) =~= wanted.take(3));

    let mut k: usize = 0;
    while k < hints.len()
        invariant
            k <= hints.len(),
            lines@.len() == 3 + k,
            wanted == diagnostic_lines(
                path@,
                line as nat,
                column as nat,
                width as nat,
                complaint@,
                source_line@,
                note@,
                hints@,
            ),
            texts(lines@) == wanted.take(3 + k),
            before == less_one(column as nat),
        decreases hints.len() - k,
    {
        let mut next = margin_of(line);
        pad(&mut next, ' ', before);
        if k == 0 {
            next.append("info: ");
        } else {
            next.append("  or: ");
        }
        next.append(render_hint(hints[k]).as_str());
        assert(next@ =~= hint_line(line as nat, column as nat, k as int, hints@[k as int]));
        lines.push(next);
        k += 1;
        assert(texts(lines@) =~= wanted.take(3 + k));
    }
    assert(wanted.take(3 + hints.len()) =~= wanted);
    join_lines(&lines)
}

/// Formats a diagnostic about `token`, with the line of the source in
/// which it stands.
pub fn format_diagnostic(
    path: &str,
    token: &Token,
    complaint: &str,
    source_line: &str,
    note: &str,
    hints: &Vec<ShapeRef>,
) -> (r: String)
    ensures
        r@ == diagnostic_text(path@, token@, complaint@, source_line@, note@, hints@),
{
    format_at(
        path,
        token.index[0],
        token.index[1],
        token.value.as_str().unicode_len(),
        complaint,
        source_line,
        note,
        hints,
    )
}

/// The line of number `line` of `code`, counted from 1, or the empty line
/// where there is none.
pub fn line_at_number(code: &Vec<String>, line: usize) -> (r: &str)
    ensures
        r@ == line_of(texts(code@), line as nat),
{
    if 1 <= line && line <= code.len() {
        assert(texts(code@)[line - 1] == code@[line - 1]@);
        code[line - 1].as_str()
    } else {
        proof {
            reveal_strlit("");
        }
        assert(""@ =~= Seq::<char>::empty());
        ""
    }
}

} // verus!
