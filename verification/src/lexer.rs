//! The lexer: from source text to tokens with line and column.

use vstd::prelude::*;
use vstd::utf8::encode_utf8;
use crate::diagnostic::{diagnostic_at, format_at, line_at_number, line_of};
use crate::scanning::{
    column_at, escape, extra_dots, is_letter, is_numeral, lemma_place_bounds, lemma_step_fits,
    lex, lex_from, line_at, number_run, peek, plain_token, quoted, spelled, step, stop_from,
    symbol,
    token_at, word_class, word_run, yielded, Fault, FaultKind, Step,
};
use crate::token::{token_views, Class, Token};
use crate::tree::{ExpressionKind, Shape, ShapeRef};
use crate::util::{
    char_debug_text, debug_char, join_lines, joined, pieces, reads, texts, Split,
};

verus! {

/// Why a scan gave no tokens.
#[derive(Debug)]
pub enum LexError {
    /// The scan came to its end and recorded errors: their diagnostics,
    /// joined by line feeds.
    Lexical(String),
    /// The text ended inside a string literal, and the scan broke off: the
    /// diagnostic for it.
    UnterminatedString(String),
}

/// What an error of kind `kind` says of the character `c`.
pub open spec fn description(kind: FaultKind, c: char) -> Seq<char> {
    match kind {
        FaultKind::ExtraDot => "too many '.' found while looking for number"@,
        FaultKind::BadEscape => seq!['\\', c] + " is not a valid escape sequence"@,
        FaultKind::Unrecognized => "unrecognized char "@ + char_debug_text(c),
        FaultKind::Unterminated => "eof found before string deliminator '\"'"@,
    }
}

/// The hints of a lexical error: what fails to be a token fails to be a
/// literal.
pub open spec fn lexical_hints() -> Seq<ShapeRef> {
    seq![ShapeRef { shape: Shape::Expression(ExpressionKind::Literal), element: 0 }]
}

/// The diagnostic for a lexical error in the text `s` of the file `name`,
/// whose lines are `code`: it is about the one character at the offset of
/// the error, and complains of what the error says of that character.
pub open spec fn fault_message(
    name: Seq<char>,
    code: Seq<Seq<char>>,
    s: Seq<u8>,
    fault: Fault,
) -> Seq<char> {
    diagnostic_at(
        name,
        line_at(s, fault.at),
        column_at(s, fault.at),
        1,
        description(fault.kind, peek(s, fault.at) as char),
        line_of(code, line_at(s, fault.at)),
        Seq::empty(),
        lexical_hints(),
    )
}

/// The diagnostics for a list of lexical errors, in order.
pub open spec fn fault_messages(
    name: Seq<char>,
    code: Seq<Seq<char>>,
    s: Seq<u8>,
    faults: Seq<Fault>,
) -> Seq<Seq<char>> {
    Seq::new(faults.len(), |k: int| fault_message(name, code, s, faults[k]))
}

/// Whether `error` is what the scan of the text `s` of the file `name`,
/// whose lines are `code`, ends with: the diagnostics for all its errors,
/// joined by line feeds, if it came to its end and recorded some, and the
/// diagnostic for its last error, if it broke off.
pub open spec fn reports(
    error: LexError,
    name: Seq<char>,
    code: Seq<Seq<char>>,
    s: Seq<u8>,
) -> bool {
    match error {
        LexError::Lexical(lines) => {
            &&& !lex(s).fatal
            &&& lex(s).faults.len() > 0
            &&& lines@ == joined(fault_messages(name, code, s, lex(s).faults), '\n')
        },
        LexError::UnterminatedString(line) => {
            &&& lex(s).fatal
            &&& lex(s).faults.len() > 0
            &&& line@ == fault_message(name, code, s, lex(s).faults.last())
        },
    }
}

/// Whether `b` is a letter.
pub fn letter(b: u8) -> (r: bool)
    ensures
        r == is_letter(b),
{
    (0x41 <= b && b <= 0x5A) || (0x61 <= b && b <= 0x7A) || b == 0xAA || b == 0xB5 || b == 0xBA
        || (0xC0 <= b && b <= 0xD6) || (0xD8 <= b && b <= 0xF6) || 0xF8 <= b
}

/// Whether `b` is a numeral.
pub fn numeral(b: u8) -> (r: bool)
    ensures
        r == is_numeral(b),
{
    (0x30 <= b && b <= 0x39) || b == 0xB2 || b == 0xB3 || b == 0xB9 || (0xBC <= b && b <= 0xBE)
}

/// The class of a word.
pub fn classify(word: &String) -> (class: Class)
    ensures
        class == word_class(word@),
{
    if reads(word, "fun") || reads(word, "set") || reads(word, "var") || reads(word, "if") || reads(
        word,
        "use",
    ) || reads(word, "pass") {
        Class::Keyword
    } else if reads(word, "true") || reads(word, "false") {
        Class::Boolean
    } else {
        Class::Identifier
    }
}

/// The class and length of the punctuation mark or operator that starts
/// with `c`, where `d` is the byte after it.
pub fn symbol_of(c: u8, d: u8) -> (r: Option<(Class, usize)>)
    ensures
        match r {
            Some((class, len)) => symbol(c, d) == Some((class, len as nat)),
            None => symbol(c, d).is_none(),
        },
{
    if c == 0x5B {
        Some((Class::LeftBracket, 1))
    } else if c == 0x5D {
        Some((Class::RightBracket, 1))
    } else if c == 0x7B {
        Some((Class::LeftBrace, 1))
    } else if c == 0x7D {
        Some((Class::RightBrace, 1))
    } else if c == 0x28 {
        Some((Class::LeftParen, 1))
    } else if c == 0x29 {
        Some((Class::RightParen, 1))
    } else if c == 0x2E {
        Some((Class::Dot, 1))
    } else if c == 0x2C {
        Some((Class::Comma, 1))
    } else if c == 0x3A {
        Some((Class::Colon, 1))
    } else if c == 0x3B {
        Some((Class::Semicolon, 1))
    } else if c == 0x2B || c == 0x2A || c == 0x2F {
        Some((Class::ArithmeticOperator, 1))
    } else if c == 0x3C || c == 0x3E {
        if d == 0x3D {
            Some((Class::ComparisonOperator, 2))
        } else {
            Some((Class::ComparisonOperator, 1))
        }
    } else if c == 0x2D {
        if d == 0x3E {
            Some((Class::Arrow, 2))
        } else {
            Some((Class::ArithmeticOperator, 1))
        }
    } else if c == 0x26 || c == 0x7C {
        Some((Class::Logic, 1))
    } else if c == 0x21 {
        if d == 0x3D {
            Some((Class::ComparisonOperator, 2))
        } else {
            Some((Class::Bang, 1))
        }
    } else if c == 0x3D {
        if d == 0x3D {
            Some((Class::ComparisonOperator, 2))
        } else {
            Some((Class::Assign, 1))
        }
    } else {
        None
    }
}

/// The character that a backslash and `b` stand for in a string, if any.
pub fn resolve(b: u8) -> (r: Option<char>)
    ensures
        r == escape(b),
{
    if b == 0x6E {
        Some('\n')
    } else if b == 0x74 {
        Some('\t')
    } else if b == 0x5C {
        Some('\\')
    } else if b == 0x22 {
        Some('"')
    } else {
        None
    }
}

/// What an error of kind `kind` says of the byte `b`, given how the
/// character of `b` is quoted.
pub fn describe(kind: FaultKind, b: u8, quoted_char: &str) -> (r: String)
    ensures
        r@ == (match kind {
            FaultKind::ExtraDot => "too many '.' found while looking for number"@,
            FaultKind::BadEscape => seq!['\\', b as char] + " is not a valid escape sequence"@,
            FaultKind::Unrecognized => "unrecognized char "@ + quoted_char@,
            FaultKind::Unterminated => "eof found before string deliminator '\"'"@,
        }),
        quoted_char@ == char_debug_text(b as char) ==> r@ == description(kind, b as char),
{
    match kind {
        FaultKind::ExtraDot => String::from_str("too many '.' found while looking for number"),
        FaultKind::BadEscape => {
            let mut out = String::new();
            out.push('\\');
            out.push(b as char);
            out.append(" is not a valid escape sequence");
            assert(out@ =~= seq!['\\', b as char] + " is not a valid escape sequence"@);
            out
        },
        FaultKind::Unrecognized => {
            let mut out = String::from_str("unrecognized char ");
            out.append(quoted_char);
            out
        },
        FaultKind::Unterminated => String::from_str("eof found before string deliminator '\"'"),
    }
}

/// A copy of `tokens`.
pub fn copy_tokens(tokens: &Vec<Token>) -> (r: Vec<Token>)
    ensures
        r@ == tokens@,
{
    let mut out: Vec<Token> = Vec::new();
    let mut i: usize = 0;
    while i < tokens.len()
        invariant
            i <= tokens.len(),
            out@ == tokens@.take(i as int),
        decreases tokens.len() - i,
    {
        out.push(tokens[i].clone());
        i += 1;
        assert(out@ =~= tokens@.take(i as int));
    }
    assert(tokens@.take(tokens.len() as int) =~= tokens@);
    out
}

/// A lexer: the name and the text of a source file, a cursor into the
/// text, and the tokens and errors of the last scan.
pub struct Lexer {
    index: usize,
    coord: [usize; 2],
    pub filename: String,
    pub source: String,
    tokens: Vec<Token>,
    errors: Vec<String>,
}

impl Lexer {
    /// The name of the source file.
    pub closed spec fn name(&self) -> Seq<char> {
        self.filename@
    }

    /// The source text.
    pub closed spec fn text(&self) -> Seq<char> {
        self.source@
    }

    /// The bytes of the source text.
    pub open spec fn bytes(&self) -> Seq<u8> {
        encode_utf8(self.text())
    }

    /// The lines of the source text.
    pub open spec fn code(&self) -> Seq<Seq<char>> {
        pieces(self.text(), '\n')
    }

    /// The tokens of the last scan.
    pub closed spec fn token_list(&self) -> Seq<Token> {
        self.tokens@
    }

    /// The diagnostics of the last scan.
    pub closed spec fn error_list(&self) -> Seq<String> {
        self.errors@
    }

    /// The cursor lies in the text or one byte behind it, line and column
    /// are those of the cursor, and they can still be counted up.
    pub open spec fn placed(&self) -> bool {
        &&& self.cursor() <= self.bytes().len() + 1 < usize::MAX
        &&& self.place().0 == line_at(self.bytes(), self.cursor() as int)
        &&& self.place().1 == column_at(self.bytes(), self.cursor() as int)
    }

    /// `self` differs from `before` at most in the cursor.
    spec fn moved_from(&self, before: &Lexer) -> bool {
        &&& self.filename == before.filename
        &&& self.source == before.source
        &&& self.tokens == before.tokens
        &&& self.errors == before.errors
    }

    /// `self` has the name and the text of `before`.
    spec fn reads_as(&self, before: &Lexer) -> bool {
        &&& self.filename@ == before.filename@
        &&& self.source@ == before.source@
    }

    /// A lexer of the empty text, with its cursor at the start: before the
    /// first byte, at line 1 and column 1.
    pub fn new() -> (r: Self)
        ensures
            r.name() == Seq::<char>::empty(),
            r.text() == Seq::<char>::empty(),
            r.token_list() == Seq::<Token>::empty(),
            r.error_list() == Seq::<String>::empty(),
            r.cursor() == 0,
            r.place() == (1nat, 1nat),
    {
        Self {
            index: 0,
            coord: [1, 1],
            filename: String::new(),
            source: String::new(),
            tokens: Vec::new(),
            errors: Vec::new(),
        }
    }

    /// The number of bytes that the cursor has passed.
    pub closed spec fn cursor(&self) -> nat {
        self.index as nat
    }

    /// The line and the column of the cursor, both counted from 1.
    pub closed spec fn place(&self) -> (nat, nat) {
        (self.coord[0] as nat, self.coord[1] as nat)
    }

    /// The lexer with the name of a file and the text read from it. Cursor,
    /// tokens and diagnostics stay as they are.
    pub fn init(self, filename: String, source: String) -> (r: Self)
        ensures
            r.name() == filename@,
            r.text() == source@,
            r.token_list() == self.token_list(),
            r.error_list() == self.error_list(),
            r.cursor() == self.cursor(),
            r.place() == self.place(),
    {
        let mut lexer = self;
        lexer.filename = filename;
        lexer.source = source;
        lexer
    }

    /// The name of the source file.
    pub fn filename(&self) -> (r: &String)
        ensures
            r@ == self.name(),
    {
        &self.filename
    }

    /// The source text.
    pub fn source(&self) -> (r: &String)
        ensures
            r@ == self.text(),
    {
        &self.source
    }

    /// The number of bytes that the cursor has passed.
    pub fn offset(&self) -> (r: usize)
        ensures
            r == self.cursor(),
    {
        self.index
    }

    /// The line and the column of the cursor, both counted from 1.
    pub fn coordinate(&self) -> (r: [usize; 2])
        ensures
            r[0] == self.place().0,
            r[1] == self.place().1,
    {
        self.coord
    }

    /// The tokens of the last scan.
    pub fn tokens(&self) -> (r: &Vec<Token>)
        ensures
            r@ == self.token_list(),
    {
        &self.tokens
    }

    /// The diagnostics of the last scan.
    pub fn errors(&self) -> (r: &Vec<String>)
        ensures
            r@ == self.error_list(),
    {
        &self.errors
    }

    /// The byte under the cursor, or zero past the end.
    fn char(&self) -> (c: u8)
        ensures
            c == peek(self.bytes(), self.index as int),
    {
        let bytes = self.source.as_str().as_bytes();
        if self.index < bytes.len() {
            bytes[self.index]
        } else {
            0
        }
    }

    /// The byte after the one under the cursor, or zero past the end.
    fn ahead(&self) -> (c: u8)
        ensures
            c == peek(self.bytes(), self.index + 1),
    {
        let bytes = self.source.as_str().as_bytes();
        if self.index < bytes.len() && self.index + 1 < bytes.len() {
            bytes[self.index + 1]
        } else {
            0
        }
    }

    /// Moves the cursor on by one byte: to the next line where it stood on
    /// a line feed, and else to the next column. At the end of the text it
    /// moves on all the same, as over a byte that is no line feed.
    fn next(&mut self)
        requires
            old(self).placed(),
            old(self).index <= old(self).bytes().len(),
        ensures
            final(self).placed(),
            final(self).moved_from(old(self)),
            final(self).index == old(self).index + 1,
    {
        proof {
            lemma_place_bounds(self.bytes(), self.index as int);
        }
        if self.char() == 0x0A {
            self.coord = [self.coord[0] + 1, 1];
        } else {
            self.coord = [self.coord[0], self.coord[1] + 1];
        }
        self.index += 1;
    }

    /// Appends a token.
    fn push(&mut self, class: Class, value: String, index: [usize; 2])
        ensures
            final(self).tokens@ == old(self).tokens@.push(Token { class, value, index }),
            final(self).index == old(self).index,
            final(self).coord == old(self).coord,
            final(self).filename == old(self).filename,
            final(self).source == old(self).source,
            final(self).errors == old(self).errors,
    {
        self.tokens.push(Token::new(class, value, index));
    }

    /// Appends the token of one byte that starts under the cursor, and
    /// moves on.
    fn stack(&mut self, class: Class)
        requires
            old(self).placed(),
            old(self).index <= old(self).bytes().len(),
        ensures
            final(self).placed(),
            final(self).reads_as(old(self)),
            final(self).errors == old(self).errors,
            final(self).index == old(self).index + 1,
            token_views(final(self).tokens@) == token_views(old(self).tokens@).push(
                token_at(
                    old(self).bytes(),
                    old(self).index as int,
                    class,
                    seq![peek(old(self).bytes(), old(self).index as int) as char],
                ),
            ),
    {
        let mut value = String::new();
        value.push(self.char() as char);
        let at = self.coord;
        self.push(class, value, at);
        assert(token_views(self.tokens@) =~= token_views(old(self).tokens@).push(
            token_at(
                old(self).bytes(),
                old(self).index as int,
                class,
                seq![peek(old(self).bytes(), old(self).index as int) as char],
            ),
        ));
        self.next();
    }

    /// Records a diagnostic about the character under the cursor, with
    /// the lines of the source in `lines`.
    fn error(&mut self, description: &str, lines: &Vec<String>)
        ensures
            final(self).moved_from_but_errors(old(self)),
            final(self).errors@.len() == old(self).errors@.len() + 1,
            texts(final(self).errors@) == texts(old(self).errors@).push(
                diagnostic_at(
                    old(self).filename@,
                    old(self).coord[0] as nat,
                    old(self).coord[1] as nat,
                    1,
                    description@,
                    line_of(texts(lines@), old(self).coord[0] as nat),
                    Seq::empty(),
                    lexical_hints(),
                ),
            ),
    {
        let mut hints: Vec<ShapeRef> = Vec::new();
        hints.push(ShapeRef { shape: Shape::Expression(ExpressionKind::Literal), element: 0 });
        assert(hints@ =~= lexical_hints());
        proof {
            reveal_strlit("");
        }
        assert(""@ =~= Seq::<char>::empty());
        let message = format_at(
            self.filename.as_str(),
            self.coord[0],
            self.coord[1],
            1,
            description,
            line_at_number(lines, self.coord[0]),
            "",
            &hints,
        );
        self.errors.push(message);
        assert(texts(self.errors@) =~= texts(old(self).errors@).push(message@));
    }

    /// `self` differs from `before` at most in the errors.
    spec fn moved_from_but_errors(&self, before: &Lexer) -> bool {
        &&& self.filename == before.filename
        &&& self.source == before.source
        &&& self.tokens == before.tokens
        &&& self.index == before.index
        &&& self.coord == before.coord
    }

    /// Records an error of kind `kind` about the byte under the cursor,
    /// with the lines of the source in `lines`.
    fn fail(&mut self, kind: FaultKind, lines: &Vec<String>)
        requires
            old(self).placed(),
        ensures
            final(self).placed(),
            final(self).moved_from_but_errors(old(self)),
            final(self).errors@.len() == old(self).errors@.len() + 1,
            texts(final(self).errors@) == texts(old(self).errors@).push(
                fault_message(
                    old(self).filename@,
                    texts(lines@),
                    old(self).bytes(),
                    Fault { kind, at: old(self).index as int },
                ),
            ),
    {
        let b = self.char();
        let quoted_char = debug_char(b as char);
        let text = describe(kind, b, quoted_char.as_str());
        self.error(text.as_str(), lines);
    }

    /// The diagnostics of `self` are those of `before` and, behind them,
    /// those for `faults`.
    pub open spec fn told(&self, before: &Lexer, code: Seq<Seq<char>>, faults: Seq<Fault>) -> bool {
        texts(self.error_list()) =~= texts(before.error_list()) + fault_messages(
            before.name(),
            code,
            before.bytes(),
            faults,
        )
    }

    /// `self` is what the step `st` at the cursor of `before` makes of
    /// `before`, in a text with the lines `code`: name and text are the
    /// same, the token of the step is added to the tokens, the diagnostics
    /// for its faults to the diagnostics, and the cursor has moved over the
    /// bytes of the step, with line and column.
    pub open spec fn stepped(&self, before: &Lexer, st: Step, code: Seq<Seq<char>>) -> bool {
        &&& self.name() == before.name()
        &&& self.text() == before.text()
        &&& token_views(self.token_list()) == token_views(before.token_list()) + yielded(
            st.token,
        )
        &&& self.told(before, code, st.faults)
        &&& self.placed()
        &&& self.cursor() == before.cursor() + st.len
        &&& st.fatal ==> self.error_list().len() > 0
    }

    /// Scans the word that starts under the cursor.
    fn scan_word(&mut self)
        requires
            old(self).placed(),
            is_letter(peek(old(self).bytes(), old(self).index as int)),
        ensures
            forall|code: Seq<Seq<char>>|
                final(self).stepped(
                    old(self),
                    step(old(self).bytes(), old(self).index as int),
                    code,
                ),
    {
        let at = self.coord;
        let mut value = String::new();
        let ghost from = self.index as int;
        let ghost s = self.bytes();
        assert(value@ =~= spelled(s.subrange(from, from)));
        while letter(self.char()) || numeral(self.char())
            invariant
                self.placed(),
                self.moved_from(old(self)),
                s == self.bytes(),
                from <= self.index <= s.len(),
                value@ == spelled(s.subrange(from, self.index as int)),
                self.index + word_run(s, self.index as int) == from + word_run(s, from),
            decreases s.len() - self.index,
        {
            let ghost i = self.index as int;
            value.push(self.char() as char);
            self.next();
            assert(value@ =~= spelled(s.subrange(from, i + 1)));
        }
        let class = classify(&value);
        self.push(class, value, at);
        proof {
            let st = step(s, from);
            assert(word_run(s, self.index as int) == 0);
            assert(st.len == word_run(s, from));
            assert(token_views(self.tokens@) =~= token_views(old(self).tokens@) + yielded(
                st.token,
            ));
            assert forall|code: Seq<Seq<char>>| self.told(old(self), code, st.faults) by {}
        }
    }

    /// Scans the number that starts under the cursor.
    fn scan_number(&mut self, lines: &Vec<String>)
        requires
            old(self).placed(),
            is_numeral(peek(old(self).bytes(), old(self).index as int)),
        ensures
            final(self).stepped(
                old(self),
                step(old(self).bytes(), old(self).index as int),
                texts(lines@),
            ),
    {
        let at = self.coord;
        let mut value = String::new();
        let mut seen = false;
        let ghost from = self.index as int;
        let ghost s = self.bytes();
        let ghost code = texts(lines@);
        let ghost name = self.filename@;
        let ghost mut done: Seq<Fault> = Seq::empty();
        assert(value@ =~= spelled(s.subrange(from, from)));
        assert(self.told(old(self), code, done));
        assert(done + extra_dots(s, from, false) =~= extra_dots(s, from, false));
        while numeral(self.char()) || self.char() == 0x2E
            invariant
                self.placed(),
                self.reads_as(old(self)),
                self.tokens == old(self).tokens,
                s == self.bytes(),
                code == texts(lines@),
                name == self.filename@,
                from <= self.index <= s.len(),
                value@ == spelled(s.subrange(from, self.index as int)),
                self.index + number_run(s, self.index as int) == from + number_run(s, from),
                done + extra_dots(s, self.index as int, seen) == extra_dots(s, from, false),
                self.told(old(self), code, done),
            decreases s.len() - self.index,
        {
            let ghost i = self.index as int;
            let ghost before = done;
            let c = self.char();
            if c == 0x2E {
                if seen {
                    self.fail(FaultKind::ExtraDot, lines);
                    proof {
                        done = done.push(Fault { kind: FaultKind::ExtraDot, at: i });
                        assert(self.told(old(self), code, done));
                        assert(done + extra_dots(s, i + 1, true) =~= before + extra_dots(
                            s,
                            i,
                            seen,
                        ));
                    }
                }
                seen = true;
            }
            value.push(c as char);
            self.next();
            assert(value@ =~= spelled(s.subrange(from, i + 1)));
        }
        self.push(Class::Number, value, at);
        proof {
            let st = step(s, from);
            assert(number_run(s, self.index as int) == 0);
            assert(extra_dots(s, self.index as int, seen) =~= Seq::empty());
            assert(done =~= extra_dots(s, from, false));
            assert(st.faults == extra_dots(s, from, false));
            assert(token_views(self.tokens@) =~= token_views(old(self).tokens@) + yielded(
                st.token,
            ));
        }
    }

    /// Scans the string literal whose opening quote is under the cursor.
    /// Returns whether the text ended before the closing quote.
    fn scan_string(&mut self, lines: &Vec<String>) -> (fatal: bool)
        requires
            old(self).placed(),
            peek(old(self).bytes(), old(self).index as int) == 0x22,
        ensures
            fatal == step(old(self).bytes(), old(self).index as int).fatal,
            final(self).stepped(
                old(self),
                step(old(self).bytes(), old(self).index as int),
                texts(lines@),
            ),
    {
        let at = self.coord;
        let mut value = String::new();
        let ghost s = self.bytes();
        let ghost code = texts(lines@);
        let ghost name = self.filename@;
        let ghost open = self.index as int;
        self.next();
        let ghost from = self.index as int;
        let ghost mut done: Seq<Fault> = Seq::empty();
        assert(value@ + quoted(s, from).value =~= quoted(s, from).value);
        assert(done + quoted(s, from).faults =~= quoted(s, from).faults);
        assert(self.told(old(self), code, done));
        loop
            invariant
                self.placed(),
                self.reads_as(old(self)),
                self.tokens == old(self).tokens,
                s == self.bytes(),
                code == texts(lines@),
                name == self.filename@,
                from == open + 1,
                open == old(self).index,
                s == old(self).bytes(),
                peek(s, open) == 0x22,
                at[0] == line_at(s, open),
                at[1] == column_at(s, open),
                from <= self.index <= s.len(),
                value@ + quoted(s, self.index as int).value == quoted(s, from).value,
                done + quoted(s, self.index as int).faults == quoted(s, from).faults,
                self.index + quoted(s, self.index as int).len == from + quoted(s, from).len,
                quoted(s, self.index as int).closed == quoted(s, from).closed,
                self.told(old(self), code, done),
            decreases s.len() - self.index,
        {
            let ghost i = self.index as int;
            let ghost before = done;
            let ghost text = value@;
            let c = self.char();
            if c == 0 {
                self.fail(FaultKind::Unterminated, lines);
                proof {
                    done = done.push(Fault { kind: FaultKind::Unterminated, at: i });
                    assert(done =~= quoted(s, from).faults);
                    assert(self.told(old(self), code, done));
                    assert(token_views(self.tokens@) =~= token_views(old(self).tokens@)
                        + yielded(None));
                }
                return true;
            }
            if c == 0x22 {
                self.next();
                self.push(Class::String, value, at);
                proof {
                    assert(text =~= quoted(s, from).value);
                    assert(done =~= quoted(s, from).faults);
                    assert(token_views(self.tokens@) =~= token_views(old(self).tokens@)
                        + yielded(Some(token_at(s, open, Class::String, quoted(s, from).value))));
                }
                return false;
            }
            if c == 0x5C {
                self.next();
                let e = self.char();
                if e == 0 {
                    self.fail(FaultKind::Unterminated, lines);
                    proof {
                        done = done.push(Fault { kind: FaultKind::Unterminated, at: i + 1 });
                        assert(done =~= quoted(s, from).faults);
                        assert(self.told(old(self), code, done));
                        assert(token_views(self.tokens@) =~= token_views(old(self).tokens@)
                            + yielded(None));
                    }
                    return true;
                }
                match resolve(e) {
                    Some(ch) => {
                        value.push(ch);
                        proof {
                            assert(value@ + quoted(s, i + 2).value =~= text + quoted(s, i).value);
                        }
                    },
                    None => {
                        self.fail(FaultKind::BadEscape, lines);
                        proof {
                            done = done.push(Fault { kind: FaultKind::BadEscape, at: i + 1 });
                            assert(done + quoted(s, i + 2).faults =~= before + quoted(s, i).faults);
                            assert(self.told(old(self), code, done));
                        }
                    },
                }
                self.next();
            } else {
                value.push(c as char);
                self.next();
                proof {
                    assert(value@ + quoted(s, i + 1).value =~= text + quoted(s, i).value);
                }
            }
        }
    }

    /// Scans what starts under the cursor, where a byte other than zero
    /// stands: a token, blank space or a character that starts no token.
    /// Returns whether the text ended inside a string.
    pub fn scan(&mut self) -> (fatal: bool)
        requires
            old(self).placed(),
            peek(old(self).bytes(), old(self).cursor() as int) != 0,
        ensures
            fatal == step(old(self).bytes(), old(self).cursor() as int).fatal,
            final(self).stepped(
                old(self),
                step(old(self).bytes(), old(self).cursor() as int),
                old(self).code(),
            ),
    {
        let lines = Split::split(self.source.as_str(), '\n');
        self.scan_step(&lines)
    }

    /// Scans what starts under the cursor, with the lines of the source in
    /// `lines`.
    fn scan_step(&mut self, lines: &Vec<String>) -> (fatal: bool)
        requires
            old(self).placed(),
            peek(old(self).bytes(), old(self).index as int) != 0,
        ensures
            fatal == step(old(self).bytes(), old(self).index as int).fatal,
            final(self).stepped(
                old(self),
                step(old(self).bytes(), old(self).index as int),
                texts(lines@),
            ),
    {
        let ghost s = self.bytes();
        let ghost code = texts(lines@);
        let ghost i = self.index as int;
        let cur = self.char();
        if letter(cur) {
            self.scan_word();
            false
        } else if numeral(cur) {
            self.scan_number(lines);
            false
        } else if cur == 0x22 {
            self.scan_string(lines)
        } else if cur == 0x20 || cur == 0x0A {
            self.next();
            proof {
                assert(token_views(self.tokens@) =~= token_views(old(self).tokens@) + yielded(
                    None,
                ));
                assert(self.told(old(self), code, Seq::empty()));
            }
            false
        } else {
            match symbol_of(cur, self.ahead()) {
                Some((class, len)) => {
                    let at = self.coord;
                    let mut value = String::new();
                    value.push(cur as char);
                    self.next();
                    if len == 2 {
                        value.push(self.char() as char);
                        self.next();
                    }
                    self.push(class, value, at);
                    proof {
                        assert(value@ =~= spelled(s.subrange(i, i + len)));
                        assert(token_views(self.tokens@) =~= token_views(old(self).tokens@)
                            + yielded(Some(plain_token(s, i, class, len as nat))));
                        assert(self.told(old(self), code, Seq::empty()));
                    }
                    false
                },
                None => {
                    self.fail(FaultKind::Unrecognized, lines);
                    self.next();
                    proof {
                        assert(token_views(self.tokens@) =~= token_views(old(self).tokens@)
                            + yielded(None));
                        assert(self.told(
                            old(self),
                            code,
                            seq![Fault { kind: FaultKind::Unrecognized, at: i }],
                        ));
                    }
                    false
                },
            }
        }
    }

    /// Scans the source text from its start.
    ///
    /// Returns the tokens, the closing token last, if the scan recorded no
    /// error. Returns the diagnostics for the errors, joined by line feeds,
    /// if it recorded some and came to its end. Returns the diagnostic for
    /// the last error if the text ended inside a string literal: the scan
    /// then breaks off at once. Whatever is returned, the tokens and the
    /// diagnostics that the scan gathered stay with the lexer, and the
    /// cursor stands where the scan ended: behind the byte at which the
    /// closing token stands, or where the scan broke off.
    pub fn tokenize(&mut self) -> (r: Result<Vec<Token>, LexError>)
        requires
            old(self).bytes().len() + 1 < usize::MAX,
        ensures
            final(self).name() == old(self).name(),
            final(self).text() == old(self).text(),
            final(self).placed(),
            final(self).cursor() == stop_from(old(self).bytes(), 0) + if lex(
                old(self).bytes(),
            ).fatal {
                0int
            } else {
                1int
            },
            token_views(final(self).token_list()) == lex(old(self).bytes()).tokens,
            texts(final(self).error_list()) == fault_messages(
                old(self).name(),
                old(self).code(),
                old(self).bytes(),
                lex(old(self).bytes()).faults,
            ),
            match r {
                Ok(tokens) => {
                    &&& !lex(old(self).bytes()).fatal
                    &&& lex(old(self).bytes()).faults.len() == 0
                    &&& token_views(tokens@) == lex(old(self).bytes()).tokens
                },
                Err(error) => reports(
                    error,
                    old(self).name(),
                    old(self).code(),
                    old(self).bytes(),
                ),
            },
    {
        let lines = Split::split(self.source.as_str(), '\n');
        let ghost s = self.bytes();
        let ghost code = texts(lines@);
        let ghost name = self.filename@;
        self.index = 0;
        self.coord = [1, 1];
        self.tokens = Vec::new();
        self.errors = Vec::new();
        assert(token_views(self.tokens@) + lex_from(s, 0).tokens =~= lex(s).tokens);
        assert(texts(self.errors@) + fault_messages(name, code, s, lex_from(s, 0).faults)
            =~= fault_messages(name, code, s, lex(s).faults));
        while self.char() != 0
            invariant
                self.placed(),
                self.index <= s.len(),
                self.reads_as(old(self)),
                s == self.bytes(),
                code == texts(lines@),
                code == old(self).code(),
                name == self.filename@,
                token_views(self.tokens@) + lex_from(s, self.index as int).tokens == lex(s).tokens,
                texts(self.errors@) + fault_messages(
                    name,
                    code,
                    s,
                    lex_from(s, self.index as int).faults,
                ) == fault_messages(name, code, s, lex(s).faults),
                lex_from(s, self.index as int).fatal == lex(s).fatal,
                stop_from(s, self.index as int) == stop_from(s, 0),
            decreases s.len() - self.index,
        {
            let ghost i = self.index as int;
            let ghost st = step(s, i);
            let ghost seen = token_views(self.tokens@);
            let ghost told = texts(self.errors@);
            proof {
                lemma_step_fits(s, i);
            }
            let fatal = self.scan_step(&lines);
            if fatal {
                proof {
                    assert(token_views(self.tokens@) =~= lex(s).tokens);
                    assert(texts(self.errors@) =~= fault_messages(name, code, s, lex(s).faults));
                    assert(texts(self.errors@).len() == self.errors@.len());
                    assert(texts(self.errors@).last() == self.errors@.last()@);
                }
                let line = self.errors[self.errors.len() - 1].clone();
                return Err(LexError::UnterminatedString(line));
            }
            proof {
                let rest = lex_from(s, i + st.len);
                assert(token_views(self.tokens@) + rest.tokens =~= seen + lex_from(s, i).tokens);
                assert(texts(self.errors@) + fault_messages(name, code, s, rest.faults) =~= told
                    + fault_messages(name, code, s, lex_from(s, i).faults));
            }
        }
        self.stack(Class::EndOfFile);
        proof {
            assert(token_views(self.tokens@) =~= lex(s).tokens);
            assert(texts(self.errors@) =~= fault_messages(name, code, s, lex(s).faults));
        }
        if self.errors.len() >= 1 {
            Err(LexError::Lexical(join_lines(&self.errors)))
        } else {
            Ok(copy_tokens(&self.tokens))
        }
    }
}

} // verus!
