//! The parser: from tokens to an expression tree, by recursive descent
//! with one token of lookahead. What is amiss is recorded and the parser
//! goes on, so that one pass shows every error it can find.

use vstd::prelude::*;
use crate::diagnostic::{format_diagnostic, line_at_number, mismatch};
use crate::grammar::{
    array, call, expect, expression, hint_for, hints_of, items, left, lemma_expression_bound,
    lemma_primary_bound, list, primary, problem_text, seen, statement_start, syntax_message,
    syntax_messages, Problem, SyntaxFault,
};
use crate::lexer::{reports, LexError, Lexer};
use crate::scanning::lex;
use crate::scanning_facts::lemma_closing_token;
use crate::token::{token_views, Class, Token, TokenView};
use crate::tree::{
    expression_views, ExprView, Expression, ExpressionKind, Shape, ShapeRef, StatementKind,
};
use crate::util::{pieces, reads, texts, Split};

verus! {

/// The complaint about a problem.
pub fn problem_name(problem: Problem) -> (r: &'static str)
    ensures
        r@ == problem_text(problem),
{
    match problem {
        Problem::Name => "name not found",
        Problem::Opening => "open bracket not found",
        Problem::Closing => "close bracket not found",
        Problem::Unclosed => "eof found before close bracket",
        Problem::Misplaced => "expression found before comma",
    }
}

/// The hint for a class that was expected while a kind of expression was
/// read.
pub fn hint(kind: ExpressionKind, class: Class) -> (r: ShapeRef)
    ensures
        r == hint_for(kind, class),
{
    let element: usize = match (kind, class) {
        (ExpressionKind::Array, Class::Comma) => 2,
        (ExpressionKind::Array, Class::RightBracket) => 4,
        (ExpressionKind::Call, Class::LeftParen) => 1,
        (ExpressionKind::Call, Class::Comma) => 3,
        (ExpressionKind::Call, Class::RightParen) => 5,
        (ExpressionKind::Index, Class::LeftBracket) => 1,
        (ExpressionKind::Index, Class::RightBracket) => 3,
        _ => 0,
    };
    ShapeRef { shape: Shape::Expression(kind), element }
}

/// A parser: the tokens of a source file, a cursor into them, the name and
/// the lines of the file, and the diagnostics gathered so far.
pub struct Parser {
    tokens: Vec<Token>,
    index: usize,
    errors: Vec<String>,
    code: Vec<String>,
    path: String,
}

impl Parser {
    /// There is at least one token.
    pub closed spec fn wf(&self) -> bool {
        self.tokens@.len() > 0
    }

    /// The tokens.
    pub closed spec fn token_list(&self) -> Seq<Token> {
        self.tokens@
    }

    /// The tokens as the contracts speak of them.
    pub open spec fn views(&self) -> Seq<TokenView> {
        token_views(self.token_list())
    }

    /// The number of tokens that the cursor has passed. It may be more
    /// than there are tokens.
    pub closed spec fn cursor(&self) -> int {
        self.index as int
    }

    /// The diagnostics gathered so far.
    pub closed spec fn error_list(&self) -> Seq<String> {
        self.errors@
    }

    /// The lines of the source file.
    pub closed spec fn lines(&self) -> Seq<String> {
        self.code@
    }

    /// The name of the source file.
    pub closed spec fn file(&self) -> Seq<char> {
        self.path@
    }

    /// The cursor can be counted up by two for each token that is left,
    /// and by `spare` more.
    pub open spec fn room_for(&self, spare: nat) -> bool {
        self.cursor() + 2 * left(self.views(), self.cursor()) + spare <= usize::MAX
    }

    /// The cursor can be counted up as far as reading from here may take
    /// it: by two for each token that is left, and by three more.
    pub open spec fn room(&self) -> bool {
        self.room_for(3)
    }

    /// `self` is what `before` becomes by taking `used` tokens and
    /// finding `faults`: the cursor has moved on by as many tokens, the
    /// diagnostics for the faults are added behind those that were
    /// there, and nothing else has changed.
    pub open spec fn follows(&self, before: &Parser, used: nat, faults: Seq<SyntaxFault>) -> bool {
        &&& self.wf()
        &&& self.token_list() == before.token_list()
        &&& self.lines() == before.lines()
        &&& self.file() == before.file()
        &&& self.cursor() == before.cursor() + used
        &&& texts(self.error_list()) == texts(before.error_list()) + syntax_messages(
            before.file(),
            texts(before.lines()),
            faults,
        )
    }

    /// A parser without tokens, lines or diagnostics, for a file without
    /// a name. It gets its tokens from `init`.
    pub fn new() -> (r: Self)
        ensures
            r.token_list() == Seq::<Token>::empty(),
            r.cursor() == 0,
            r.error_list() == Seq::<String>::empty(),
            r.lines() == Seq::<String>::empty(),
            r.file() == Seq::<char>::empty(),
    {
        Self {
            tokens: Vec::new(),
            index: 0,
            errors: Vec::new(),
            code: Vec::new(),
            path: String::new(),
        }
    }

    /// A parser of the given tokens, or nothing where there is no token.
    pub fn from_tokens(tokens: Vec<Token>) -> (r: Option<Self>)
        ensures
            r.is_some() == (tokens@.len() > 0),
            match r {
                Some(parser) => {
                    &&& parser.wf()
                    &&& parser.token_list() == tokens@
                    &&& parser.cursor() == 0
                    &&& parser.error_list() == Seq::<String>::empty()
                    &&& parser.lines() == Seq::<String>::empty()
                    &&& parser.file() == Seq::<char>::empty()
                },
                None => true,
            },
    {
        if tokens.len() == 0 {
            None
        } else {
            Some(
                Self {
                    tokens,
                    index: 0,
                    errors: Vec::new(),
                    code: Vec::new(),
                    path: String::new(),
                },
            )
        }
    }

    /// Scans the text of `lexer` and, if that gives tokens, makes a parser
    /// of them that stands before the first, knows the name and the lines
    /// of the file, and keeps the diagnostics of `self`. If the scan gives
    /// an error, that error is returned.
    pub fn init(self, lexer: Lexer) -> (r: Result<Self, LexError>)
        requires
            lexer.bytes().len() + 1 < usize::MAX,
        ensures
            match r {
                Ok(parser) => {
                    &&& parser.wf()
                    &&& !lex(lexer.bytes()).fatal
                    &&& lex(lexer.bytes()).faults.len() == 0
                    &&& parser.views() == lex(lexer.bytes()).tokens
                    &&& parser.cursor() == 0
                    &&& parser.error_list() == self.error_list()
                    &&& texts(parser.lines()) == pieces(lexer.text(), '\n')
                    &&& parser.file() == lexer.name()
                },
                Err(error) => reports(error, lexer.name(), lexer.code(), lexer.bytes()),
            },
    {
        let mut lexer = lexer;
        let parser = self;
        let scanned = lexer.tokenize();
        match scanned {
            Err(error) => Err(error),
            Ok(tokens) => {
                proof {
                    lemma_closing_token(lexer.bytes(), 0);
                    assert(token_views(tokens@).len() == tokens@.len());
                }
                let path = lexer.filename().clone();
                let code = Split::split(lexer.source().as_str(), '\n');
                Ok(Self { tokens, index: 0, errors: parser.errors, code, path })
            },
        }
    }

    /// The diagnostics gathered so far.
    pub fn errors(&self) -> (r: &Vec<String>)
        ensures
            r@ == self.error_list(),
    {
        &self.errors
    }

    /// The tokens.
    pub fn tokens(&self) -> (r: &Vec<Token>)
        ensures
            r@ == self.token_list(),
    {
        &self.tokens
    }

    /// The number of tokens that the cursor has passed.
    pub fn position(&self) -> (r: usize)
        ensures
            r == self.cursor(),
    {
        self.index
    }

    /// The kind of statement that starts under the cursor, told by its
    /// first token.
    pub fn statement_kind(&self) -> (r: StatementKind)
        requires
            self.wf(),
        ensures
            r == statement_start(self.views(), self.cursor()),
    {
        let token = self.fetch(0);
        if token.class == Class::Keyword && reads(&token.value, "fun") {
            StatementKind::FunctionDefine
        } else if token.class == Class::Keyword && reads(&token.value, "set") {
            StatementKind::ConstAssign
        } else if token.class == Class::Keyword && reads(&token.value, "var") {
            StatementKind::VarAssign
        } else if token.class == Class::Keyword && reads(&token.value, "use") {
            StatementKind::Import
        } else if token.class == Class::Identifier && self.fetch(1).class == Class::Assign {
            StatementKind::Reassign
        } else {
            StatementKind::ExpressionStatement
        }
    }

    /// Moves the cursor on by one token, behind the last token too.
    fn next(&mut self)
        requires
            old(self).wf(),
            old(self).cursor() < usize::MAX,
        ensures
            final(self).follows(old(self), 1, Seq::empty()),
    {
        self.index += 1;
        assert(texts(self.errors@) =~= texts(old(self).errors@) + syntax_messages(
            old(self).path@,
            texts(old(self).code@),
            Seq::empty(),
        ));
    }

    /// A copy of the token that stands `offset` tokens from the cursor, or
    /// of the nearest token where there is none.
    pub fn fetch(&self, offset: isize) -> (r: Token)
        requires
            self.wf(),
        ensures
            r@ == seen(self.views(), self.cursor() + offset),
    {
        let len = self.tokens.len();
        if offset >= 0 {
            let forward = offset as usize;
            if self.index >= len || forward >= len - self.index {
                self.tokens[len - 1].clone()
            } else {
                self.tokens[self.index + forward].clone()
            }
        } else {
            let back = (-(offset + 1)) as usize;
            if back >= self.index {
                self.tokens[0].clone()
            } else if self.index - back - 1 >= len {
                self.tokens[len - 1].clone()
            } else {
                self.tokens[self.index - back - 1].clone()
            }
        }
    }

    /// Takes the token under the cursor, whatever it is: the cursor moves
    /// on by one in every case, as if the token had been the one expected.
    /// A diagnostic with the complaint `problem` is recorded unless the
    /// token is of class `class`. `kind` is the kind of expression that is
    /// being read.
    pub fn check(&mut self, class: Class, problem: &str, kind: ExpressionKind) -> (r: Token)
        requires
            old(self).wf(),
            old(self).cursor() < usize::MAX,
        ensures
            r@ == seen(old(self).views(), old(self).cursor()),
            final(self).follows(
                old(self),
                1,
                expect(old(self).views(), old(self).cursor(), class, problem@, kind),
            ),
    {
        let token = self.fetch(0);
        let ghost told = texts(self.errors@);
        if token.class != class {
            self.error(&token, class, problem, kind, None);
        }
        let ghost found = expect(old(self).views(), old(self).cursor(), class, problem@, kind);
        assert(texts(self.errors@) =~= told + syntax_messages(
            old(self).path@,
            texts(old(self).code@),
            found,
        ));
        self.next();
        assert(texts(self.errors@) =~= told + syntax_messages(
            old(self).path@,
            texts(old(self).code@),
            found,
        ));
        token
    }

    /// Records the diagnostic for a syntax error at `token`, where a token
    /// of class `class` was expected, or one of class `also`, while an
    /// expression of kind `kind` was being read. Its header ends with the
    /// complaint `problem`; behind the underline stand the class that was
    /// expected and the class of `token`.
    pub fn error(
        &mut self,
        token: &Token,
        class: Class,
        problem: &str,
        kind: ExpressionKind,
        also: Option<Class>,
    )
        requires
            old(self).wf(),
        ensures
            final(self).follows(
                old(self),
                0,
                seq![SyntaxFault { token: token@, expected: class, also, problem: problem@, kind }],
            ),
    {
        let ghost fault = SyntaxFault {
            token: token@,
            expected: class,
            also,
            problem: problem@,
            kind,
        };
        let expected = class.to_string();
        let found = token.class.to_string();
        let note = mismatch(expected.as_str(), found.as_str());
        let mut hints: Vec<ShapeRef> = Vec::new();
        hints.push(hint(kind, class));
        match also {
            Some(other) => {
                hints.push(hint(kind, other));
            },
            None => {},
        }
        assert(hints@ =~= hints_of(fault));
        let message = format_diagnostic(
            self.path.as_str(),
            token,
            problem,
            line_at_number(&self.code, token.index[0]),
            note.as_str(),
            &hints,
        );
        assert(message@ == syntax_message(self.path@, texts(self.code@), fault));
        self.errors.push(message);
        assert(texts(self.errors@) =~= texts(old(self).errors@) + syntax_messages(
            old(self).path@,
            texts(old(self).code@),
            seq![fault],
        ));
    }

    /// Taking tokens and finding faults adds up.
    proof fn lemma_chain(
        a: &Parser,
        b: &Parser,
        c: &Parser,
        first: nat,
        found: Seq<SyntaxFault>,
        then: nat,
        more: Seq<SyntaxFault>,
    )
        requires
            b.follows(a, first, found),
            c.follows(b, then, more),
        ensures
            c.follows(a, first + then, found + more),
    {
        let path = a.file();
        let code = texts(a.lines());
        assert(syntax_messages(path, code, found + more) =~= syntax_messages(path, code, found)
            + syntax_messages(path, code, more));
        assert(texts(c.error_list()) =~= texts(a.error_list()) + syntax_messages(
            path,
            code,
            found + more,
        ));
    }

    /// Reads a list: the token of class `open`, and the items up to the
    /// token of class `close`.
    fn collect_list(&mut self, open: Class, close: Class, kind: ExpressionKind) -> (r: Vec<
        Expression,
    >)
        requires
            old(self).wf(),
            old(self).room_for(2),
        ensures
            expression_views(r@) == list(
                old(self).views(),
                old(self).cursor(),
                open,
                close,
                kind,
            ).items,
            final(self).follows(
                old(self),
                list(old(self).views(), old(self).cursor(), open, close, kind).used,
                list(old(self).views(), old(self).cursor(), open, close, kind).faults,
            ),
        decreases left(old(self).views(), old(self).cursor()), 1int,
    {
        let ghost toks = self.views();
        let ghost start = self.cursor();
        let ghost opening = expect(toks, start, open, problem_text(Problem::Opening), kind);
        self.check(open, problem_name(Problem::Opening), kind);
        let ghost mid = *self;
        let ghost from = self.cursor();
        let ghost whole = items(toks, from, close, kind, true);
        let mut elements: Vec<Expression> = Vec::new();
        let mut due = true;
        let ghost mut done: Seq<SyntaxFault> = Seq::empty();
        proof {
            assert(expression_views(elements@) + whole.items =~= whole.items);
            assert(done + whole.faults =~= whole.faults);
            Self::lemma_chain(&mid, &mid, &*self, 0, Seq::empty(), 0, Seq::empty());
            assert(Seq::<SyntaxFault>::empty() + Seq::<SyntaxFault>::empty() =~= done);
        }
        loop
            invariant
                self.wf(),
                old(self).room_for(2),
                mid.follows(old(self), 1, opening),
                self.follows(&mid, (self.cursor() - from) as nat, done),
                toks == old(self).views(),
                start == old(self).cursor(),
                0 <= start,
                from == start + 1,
                from == mid.cursor(),
                from <= self.cursor(),
                opening == expect(toks, start, open, problem_text(Problem::Opening), kind),
                whole == items(toks, from, close, kind, true),
                expression_views(elements@) + items(toks, self.cursor(), close, kind, due).items
                    == whole.items,
                (self.cursor() - from) + items(toks, self.cursor(), close, kind, due).used
                    == whole.used,
                done + items(toks, self.cursor(), close, kind, due).faults == whole.faults,
            decreases left(toks, self.cursor()),
        {
            let ghost at = self.cursor();
            let ghost now = *self;
            let ghost here = items(toks, at, close, kind, due);
            let ghost read = expression_views(elements@);
            let token = self.fetch(0);
            if self.index >= self.tokens.len() || (token.class != Class::Comma && token.class
                != close && token.class == Class::EndOfFile) {
                self.error(&token, close, problem_name(Problem::Unclosed), kind, None);
                proof {
                    let last = seq![
                        SyntaxFault {
                            token: token@,
                            expected: close,
                            also: None,
                            problem: problem_text(Problem::Unclosed),
                            kind,
                        },
                    ];
                    assert(here.faults == last);
                    assert(read =~= whole.items);
                    assert(done + last =~= whole.faults);
                    Self::lemma_chain(&mid, &now, &*self, (at - from) as nat, done, 0, last);
                    Self::lemma_chain(
                        old(self),
                        &mid,
                        &*self,
                        1,
                        opening,
                        whole.used,
                        whole.faults,
                    );
                }
                return elements;
            }
            if token.class == Class::Comma {
                due = true;
                self.next();
                proof {
                    Self::lemma_chain(
                        &mid,
                        &now,
                        &*self,
                        (at - from) as nat,
                        done,
                        1,
                        Seq::empty(),
                    );
                    assert(done + Seq::<SyntaxFault>::empty() =~= done);
                }
            } else if token.class == close {
                self.next();
                proof {
                    assert(read =~= whole.items);
                    assert(done =~= whole.faults);
                    Self::lemma_chain(
                        &mid,
                        &now,
                        &*self,
                        (at - from) as nat,
                        done,
                        1,
                        Seq::empty(),
                    );
                    assert(done + Seq::<SyntaxFault>::empty() =~= done);
                    Self::lemma_chain(
                        old(self),
                        &mid,
                        &*self,
                        1,
                        opening,
                        whole.used,
                        whole.faults,
                    );
                }
                return elements;
            } else if due {
                proof {
                    lemma_expression_bound(toks, at);
                }
                let ghost item = expression(toks, at);
                let element = self.collect_expression();
                elements.push(element);
                due = false;
                proof {
                    let rest = items(toks, at + item.used, close, kind, false);
                    assert(expression_views(elements@) =~= read.push(item.expr));
                    assert(expression_views(elements@) + rest.items =~= read + here.items);
                    Self::lemma_chain(
                        &mid,
                        &now,
                        &*self,
                        (at - from) as nat,
                        done,
                        item.used,
                        item.faults,
                    );
                    assert((done + item.faults) + rest.faults =~= done + here.faults);
                    done = done + item.faults;
                }
            } else {
                self.error(
                    &token,
                    Class::Comma,
                    problem_name(Problem::Misplaced),
                    kind,
                    Some(close),
                );
                proof {
                    let last = seq![
                        SyntaxFault {
                            token: token@,
                            expected: Class::Comma,
                            also: Some(close),
                            problem: problem_text(Problem::Misplaced),
                            kind,
                        },
                    ];
                    assert(here.faults == last);
                    assert(read =~= whole.items);
                    assert(done + last =~= whole.faults);
                    Self::lemma_chain(&mid, &now, &*self, (at - from) as nat, done, 0, last);
                    Self::lemma_chain(
                        old(self),
                        &mid,
                        &*self,
                        1,
                        opening,
                        whole.used,
                        whole.faults,
                    );
                }
                return elements;
            }
        }
    }

    /// Reads the one token under the cursor as an expression.
    pub fn collect_literal(&mut self) -> (r: Expression)
        requires
            old(self).wf(),
            old(self).cursor() < usize::MAX,
        ensures
            r@ == (ExprView::Literal { value: seen(old(self).views(), old(self).cursor()) }),
            final(self).follows(old(self), 1, Seq::empty()),
    {
        let value = self.fetch(0);
        self.next();
        Expression::Literal { value }
    }

    /// Reads an array: a list in brackets. The token under the cursor is
    /// taken for the opening bracket; a diagnostic is recorded where it is
    /// none.
    pub fn collect_array(&mut self) -> (r: Expression)
        requires
            old(self).wf(),
            old(self).room(),
        ensures
            r@ == array(old(self).views(), old(self).cursor()).expr,
            final(self).follows(
                old(self),
                array(old(self).views(), old(self).cursor()).used,
                array(old(self).views(), old(self).cursor()).faults,
            ),
        decreases left(old(self).views(), old(self).cursor()), 2int,
    {
        let items = self.collect_list(
            Class::LeftBracket,
            Class::RightBracket,
            ExpressionKind::Array,
        );
        let r = Expression::Array { items };
        assert(r@ == array(old(self).views(), old(self).cursor()).expr) by {
            assert(r@->Array_items =~= expression_views(items@));
        }
        r
    }

    /// Reads a call: a name and a list in parentheses. The token under the
    /// cursor is taken for the name and the next one for the opening
    /// parenthesis; a diagnostic is recorded for each that is none.
    pub fn collect_function(&mut self) -> (r: Expression)
        requires
            old(self).wf(),
            old(self).room(),
        ensures
            r@ == call(old(self).views(), old(self).cursor()).expr,
            final(self).follows(
                old(self),
                call(old(self).views(), old(self).cursor()).used,
                call(old(self).views(), old(self).cursor()).faults,
            ),
        decreases left(old(self).views(), old(self).cursor()), 2int,
    {
        let ghost toks = self.views();
        let ghost i = self.cursor();
        let name = self.check(
            Class::Identifier,
            problem_name(Problem::Name),
            ExpressionKind::Call,
        );
        let ghost mid = *self;
        let args = self.collect_list(Class::LeftParen, Class::RightParen, ExpressionKind::Call);
        let r = Expression::Call { name, args };
        proof {
            let read = list(toks, i + 1, Class::LeftParen, Class::RightParen, ExpressionKind::Call);
            Self::lemma_chain(
                old(self),
                &mid,
                &*self,
                1,
                expect(
                    toks,
                    i,
                    Class::Identifier,
                    problem_text(Problem::Name),
                    ExpressionKind::Call,
                ),
                read.used,
                read.faults,
            );
            assert(r@->Call_args =~= expression_views(args@));
        }
        r
    }

    /// Reads the index behind `lhs`: the opening bracket, which is the
    /// token under the cursor, an expression and the closing bracket.
    fn collect_index(&mut self, lhs: Expression) -> (r: Expression)
        requires
            old(self).wf(),
            old(self).room(),
            0 <= old(self).cursor() < old(self).views().len(),
        ensures
            r@ == (ExprView::Index {
                array: Box::new(lhs@),
                index: Box::new(expression(old(self).views(), old(self).cursor() + 1).expr),
            }),
            final(self).follows(
                old(self),
                1 + expression(old(self).views(), old(self).cursor() + 1).used + 1,
                expect(
                    old(self).views(),
                    old(self).cursor(),
                    Class::LeftBracket,
                    problem_text(Problem::Opening),
                    ExpressionKind::Index,
                ) + expression(old(self).views(), old(self).cursor() + 1).faults + expect(
                    old(self).views(),
                    old(self).cursor() + 1 + expression(
                        old(self).views(),
                        old(self).cursor() + 1,
                    ).used,
                    Class::RightBracket,
                    problem_text(Problem::Closing),
                    ExpressionKind::Index,
                ),
            ),
        decreases left(old(self).views(), old(self).cursor()), 2int,
    {
        let ghost toks = self.views();
        let ghost j = self.cursor();
        let ghost inner = expression(toks, j + 1);
        let ghost opening = expect(
            toks,
            j,
            Class::LeftBracket,
            problem_text(Problem::Opening),
            ExpressionKind::Index,
        );
        proof {
            lemma_expression_bound(toks, j + 1);
        }
        self.check(Class::LeftBracket, problem_name(Problem::Opening), ExpressionKind::Index);
        let ghost opened = *self;
        let index = self.collect_expression();
        let ghost read = *self;
        self.check(Class::RightBracket, problem_name(Problem::Closing), ExpressionKind::Index);
        proof {
            let k = j + 1 + inner.used;
            let closing = expect(
                toks,
                k,
                Class::RightBracket,
                problem_text(Problem::Closing),
                ExpressionKind::Index,
            );
            Self::lemma_chain(old(self), &opened, &read, 1, opening, inner.used, inner.faults);
            Self::lemma_chain(
                old(self),
                &read,
                &*self,
                1 + inner.used,
                opening + inner.faults,
                1,
                closing,
            );
        }
        Expression::Index { array: Box::new(lhs), index: Box::new(index) }
    }

    /// Reads the right side of the arithmetic operator under the cursor,
    /// behind the left side `lhs`.
    fn collect_compound(&mut self, lhs: Expression) -> (r: Expression)
        requires
            old(self).wf(),
            old(self).room(),
            0 <= old(self).cursor() < old(self).views().len(),
        ensures
            r@ == (ExprView::Compound {
                lhs: Box::new(lhs@),
                rhs: Box::new(expression(old(self).views(), old(self).cursor() + 1).expr),
                operator: old(self).views()[old(self).cursor()],
            }),
            final(self).follows(
                old(self),
                1 + expression(old(self).views(), old(self).cursor() + 1).used,
                expression(old(self).views(), old(self).cursor() + 1).faults,
            ),
        decreases left(old(self).views(), old(self).cursor()), 2int,
    {
        let ghost toks = self.views();
        let ghost j = self.cursor();
        let ghost rest = expression(toks, j + 1);
        let operator = self.fetch(0);
        self.next();
        let ghost taken_one = *self;
        let rhs = self.collect_expression();
        proof {
            Self::lemma_chain(
                old(self),
                &taken_one,
                &*self,
                1,
                Seq::empty(),
                rest.used,
                rest.faults,
            );
            assert(Seq::<SyntaxFault>::empty() + rest.faults =~= rest.faults);
        }
        Expression::Compound { lhs: Box::new(lhs), rhs: Box::new(rhs), operator }
    }

    /// Reads the right side of the comparison operator under the cursor,
    /// behind the left side `lhs`.
    fn collect_boolean(&mut self, lhs: Expression) -> (r: Expression)
        requires
            old(self).wf(),
            old(self).room(),
            0 <= old(self).cursor() < old(self).views().len(),
        ensures
            r@ == (ExprView::Boolean {
                lhs: Box::new(lhs@),
                rhs: Box::new(expression(old(self).views(), old(self).cursor() + 1).expr),
                operator: old(self).views()[old(self).cursor()],
            }),
            final(self).follows(
                old(self),
                1 + expression(old(self).views(), old(self).cursor() + 1).used,
                expression(old(self).views(), old(self).cursor() + 1).faults,
            ),
        decreases left(old(self).views(), old(self).cursor()), 2int,
    {
        let ghost toks = self.views();
        let ghost j = self.cursor();
        let ghost rest = expression(toks, j + 1);
        let operator = self.fetch(0);
        self.next();
        let ghost taken_one = *self;
        let rhs = self.collect_expression();
        proof {
            Self::lemma_chain(
                old(self),
                &taken_one,
                &*self,
                1,
                Seq::empty(),
                rest.used,
                rest.faults,
            );
            assert(Seq::<SyntaxFault>::empty() + rest.faults =~= rest.faults);
        }
        Expression::Boolean { lhs: Box::new(lhs), rhs: Box::new(rhs), operator }
    }

    /// Reads the expression that starts under the cursor.
    ///
    /// An identifier before `(` starts a call, `[` starts an array, and any
    /// other token stands for itself. What follows is looked at once: `[`
    /// makes an index of what was read, an arithmetic or comparison
    /// operator makes it the left side of a compound or a boolean whose
    /// right side is the whole expression behind the operator. Diagnostics
    /// for what is amiss are added to those of the parser, and the parser
    /// goes on.
    pub fn collect_expression(&mut self) -> (r: Expression)
        requires
            old(self).wf(),
            old(self).room(),
        ensures
            r@ == expression(old(self).views(), old(self).cursor()).expr,
            final(self).follows(
                old(self),
                expression(old(self).views(), old(self).cursor()).used,
                expression(old(self).views(), old(self).cursor()).faults,
            ),
        decreases left(old(self).views(), old(self).cursor()), 3int,
    {
        let ghost toks = self.views();
        let ghost i = self.cursor();
        let ghost start = primary(toks, i);
        let current = self.fetch(0);
        let after = self.fetch(1);
        let there = self.index < self.tokens.len();
        let first = if there && current.class == Class::Identifier && after.class
            == Class::LeftParen {
            let made = self.collect_function();
            proof {
                let rest = items(toks, i + 2, Class::RightParen, ExpressionKind::Call, true);
                assert(call(toks, i).faults =~= rest.faults);
                assert(call(toks, i).expr == start.expr);
            }
            made
        } else if there && current.class == Class::LeftBracket {
            let made = self.collect_array();
            proof {
                let rest = items(toks, i + 1, Class::RightBracket, ExpressionKind::Array, true);
                assert(array(toks, i).faults =~= rest.faults);
            }
            made
        } else {
            self.collect_literal()
        };
        assert(first@ == start.expr);
        assert(self.follows(old(self), start.used, start.faults));
        let ghost mid = *self;
        let ghost j = i + start.used;
        proof {
            lemma_primary_bound(toks, i);
        }
        if self.index < self.tokens.len() {
            let follow = self.fetch(0);
            if follow.class == Class::LeftBracket {
                let ghost inner = expression(toks, j + 1);
                let made = self.collect_index(first);
                proof {
                    let k = j + 1 + inner.used;
                    let closing = expect(
                        toks,
                        k,
                        Class::RightBracket,
                        problem_text(Problem::Closing),
                        ExpressionKind::Index,
                    );
                    let opening = expect(
                        toks,
                        j,
                        Class::LeftBracket,
                        problem_text(Problem::Opening),
                        ExpressionKind::Index,
                    );
                    Self::lemma_chain(
                        old(self),
                        &mid,
                        &*self,
                        start.used,
                        start.faults,
                        1 + inner.used + 1,
                        opening + inner.faults + closing,
                    );
                    assert(start.faults + (opening + inner.faults + closing) =~= start.faults
                        + inner.faults + closing);
                }
                made
            } else if follow.class == Class::ArithmeticOperator {
                let ghost rest = expression(toks, j + 1);
                let made = self.collect_compound(first);
                proof {
                    Self::lemma_chain(
                        old(self),
                        &mid,
                        &*self,
                        start.used,
                        start.faults,
                        1 + rest.used,
                        rest.faults,
                    );
                }
                made
            } else if follow.class == Class::ComparisonOperator {
                let ghost rest = expression(toks, j + 1);
                let made = self.collect_boolean(first);
                proof {
                    Self::lemma_chain(
                        old(self),
                        &mid,
                        &*self,
                        start.used,
                        start.faults,
                        1 + rest.used,
                        rest.faults,
                    );
                }
                made
            } else {
                first
            }
        } else {
            first
        }
    }
}

} // verus!
