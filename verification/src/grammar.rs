//! What the parser computes, stated over the tokens.
//!
//! Past the last token the last token is seen again. A token that is taken
//! moves the cursor on by one, there too. A call, an array, an index or an
//! operator begins only with a token that is there, and a list ends where
//! no token is left.

use vstd::prelude::*;
use crate::diagnostic::{diagnostic_text, expectation_text, line_of};
use crate::token::{class_name, kebab_case_text, Class, TokenView};
use crate::tree::{ExprView, ExpressionKind, Shape, ShapeRef, StatementKind};

verus! {

/// What the parser may find amiss.
#[derive(Debug, PartialEq, Eq, Clone, Copy, Structural)]
pub enum Problem {
    /// A call does not start with a name.
    Name,
    /// A list does not start with its opening bracket.
    Opening,
    /// An index does not end with its closing bracket.
    Closing,
    /// The tokens end inside a list.
    Unclosed,
    /// Two items of a list follow each other without a comma.
    Misplaced,
}

/// The complaint about a problem.
pub open spec fn problem_text(problem: Problem) -> Seq<char> {
    match problem {
        Problem::Name => "name not found"@,
        Problem::Opening => "open bracket not found"@,
        Problem::Closing => "close bracket not found"@,
        Problem::Unclosed => "eof found before close bracket"@,
        Problem::Misplaced => "expression found before comma"@,
    }
}

/// A syntax error: the token at which it was found, the class that was
/// expected there, another class that would have been in order too, if
/// there is one, the complaint, and the kind of node that was being read.
pub struct SyntaxFault {
    pub token: TokenView,
    pub expected: Class,
    pub also: Option<Class>,
    pub problem: Seq<char>,
    pub kind: ExpressionKind,
}

/// The place of the element of class `class` in the grammar rule of a
/// kind of expression, counted from 0.
pub open spec fn element_of(kind: ExpressionKind, class: Class) -> nat {
    match (kind, class) {
        (ExpressionKind::Array, Class::Comma) => 2,
        (ExpressionKind::Array, Class::RightBracket) => 4,
        (ExpressionKind::Call, Class::LeftParen) => 1,
        (ExpressionKind::Call, Class::Comma) => 3,
        (ExpressionKind::Call, Class::RightParen) => 5,
        (ExpressionKind::Index, Class::LeftBracket) => 1,
        (ExpressionKind::Index, Class::RightBracket) => 3,
        _ => 0,
    }
}

/// The hint for a class that was expected while a kind of expression was
/// read.
pub open spec fn hint_for(kind: ExpressionKind, class: Class) -> ShapeRef {
    ShapeRef { shape: Shape::Expression(kind), element: element_of(kind, class) as usize }
}

/// The hints of a syntax error: one for the class that was expected, and
/// one for the other class that would have been in order.
pub open spec fn hints_of(fault: SyntaxFault) -> Seq<ShapeRef> {
    match fault.also {
        Some(other) => seq![hint_for(fault.kind, fault.expected), hint_for(fault.kind, other)],
        None => seq![hint_for(fault.kind, fault.expected)],
    }
}

/// The diagnostic for a syntax error in the file `path` with the lines
/// `code`: its header ends with the complaint, and behind the underline
/// stand the class that was expected and the class of the token.
pub open spec fn syntax_message(path: Seq<char>, code: Seq<Seq<char>>, fault: SyntaxFault) -> Seq<
    char,
> {
    diagnostic_text(
        path,
        fault.token,
        fault.problem,
        line_of(code, fault.token.line),
        expectation_text(
            kebab_case_text(class_name(fault.expected)),
            kebab_case_text(class_name(fault.token.class)),
        ),
        hints_of(fault),
    )
}

/// The diagnostics for a list of syntax errors, in order.
pub open spec fn syntax_messages(path: Seq<char>, code: Seq<Seq<char>>, faults: Seq<SyntaxFault>)
    -> Seq<Seq<char>> {
    Seq::new(faults.len(), |k: int| syntax_message(path, code, faults[k]))
}

/// The token seen at cursor `i`: the token there, or the nearest one
/// where `i` lies outside the tokens.
pub open spec fn seen(toks: Seq<TokenView>, i: int) -> TokenView
    recommends
        toks.len() > 0,
{
    if i <= 0 {
        toks[0]
    } else if i >= toks.len() {
        toks[toks.len() - 1]
    } else {
        toks[i]
    }
}

/// The number of tokens that are left at cursor `i`.
pub open spec fn left(toks: Seq<TokenView>, i: int) -> nat {
    if i < toks.len() {
        (toks.len() - i) as nat
    } else {
        0
    }
}

/// The errors of expecting a token of class `class` at cursor `i`: none
/// if the token seen there is of that class, else one.
pub open spec fn expect(
    toks: Seq<TokenView>,
    i: int,
    class: Class,
    problem: Seq<char>,
    kind: ExpressionKind,
) -> Seq<SyntaxFault> {
    if seen(toks, i).class != class {
        seq![SyntaxFault { token: seen(toks, i), expected: class, also: None, problem, kind }]
    } else {
        Seq::empty()
    }
}

/// The kind of statement that starts at cursor `i`, told by its first
/// token: `fun`, `set`, `var` and `use` start a function, a constant, a
/// variable and an import, an identifier before `=` starts a
/// reassignment, and anything else an expression.
pub open spec fn statement_start(toks: Seq<TokenView>, i: int) -> StatementKind
    recommends
        toks.len() > 0,
{
    let token = seen(toks, i);
    if token.class == Class::Keyword && token.value == "fun"@ {
        StatementKind::FunctionDefine
    } else if token.class == Class::Keyword && token.value == "set"@ {
        StatementKind::ConstAssign
    } else if token.class == Class::Keyword && token.value == "var"@ {
        StatementKind::VarAssign
    } else if token.class == Class::Keyword && token.value == "use"@ {
        StatementKind::Import
    } else if token.class == Class::Identifier && seen(toks, i + 1).class == Class::Assign {
        StatementKind::Reassign
    } else {
        StatementKind::ExpressionStatement
    }
}

/// An expression that was read: the tree, the number of tokens it took,
/// and the errors found on the way.
pub struct Parsed {
    pub expr: ExprView,
    pub used: nat,
    pub faults: Seq<SyntaxFault>,
}

/// The items of a list that were read: the trees, the number of tokens
/// they took (commas and the closing bracket included), and the errors
/// found on the way.
pub struct ParsedList {
    pub items: Seq<ExprView>,
    pub used: nat,
    pub faults: Seq<SyntaxFault>,
}

/// The items of a list from cursor `i` on, up to the token of class
/// `close`. An item is in order at the start and after a comma, which
/// `due` says.
///
/// A comma is taken and makes an item due. The closing token is taken and
/// ends the list. The end of the tokens ends the list with an error. Any
/// other token starts an item where one is due, and ends the list with an
/// error where none is. Commas that follow each other, or one before the
/// closing token, leave no trace.
pub open spec fn items(
    toks: Seq<TokenView>,
    i: int,
    close: Class,
    kind: ExpressionKind,
    due: bool,
) -> ParsedList
    decreases left(toks, i), 2int,
{
    let token = seen(toks, i);
    if i >= toks.len() {
        ParsedList {
            items: Seq::empty(),
            used: 0,
            faults: seq![
                SyntaxFault {
                    token,
                    expected: close,
                    also: None,
                    problem: problem_text(Problem::Unclosed),
                    kind,
                },
            ],
        }
    } else if token.class == Class::Comma {
        let rest = items(toks, i + 1, close, kind, true);
        ParsedList { items: rest.items, used: 1 + rest.used, faults: rest.faults }
    } else if token.class == close {
        ParsedList { items: Seq::empty(), used: 1, faults: Seq::empty() }
    } else if token.class == Class::EndOfFile {
        ParsedList {
            items: Seq::empty(),
            used: 0,
            faults: seq![
                SyntaxFault {
                    token,
                    expected: close,
                    also: None,
                    problem: problem_text(Problem::Unclosed),
                    kind,
                },
            ],
        }
    } else if due {
        let item = expression(toks, i);
        if item.used == 0 {
            // An item takes at least its first token: see
            // `lemma_expression_bound`.
            ParsedList { items: seq![item.expr], used: 0, faults: item.faults }
        } else {
            let rest = items(toks, i + item.used, close, kind, false);
            ParsedList {
                items: seq![item.expr] + rest.items,
                used: item.used + rest.used,
                faults: item.faults + rest.faults,
            }
        }
    } else {
        ParsedList {
            items: Seq::empty(),
            used: 0,
            faults: seq![
                SyntaxFault {
                    token,
                    expected: Class::Comma,
                    also: Some(close),
                    problem: problem_text(Problem::Misplaced),
                    kind,
                },
            ],
        }
    }
}

/// The expression that starts at cursor `i`, without what may follow it:
/// a call where an identifier stands before `(`, an array where `[`
/// stands, and else the one token seen there.
pub open spec fn primary(toks: Seq<TokenView>, i: int) -> Parsed
    decreases left(toks, i), 0int,
{
    if 0 <= i < toks.len() && toks[i].class == Class::Identifier && i + 1 < toks.len() && toks[i
        + 1].class == Class::LeftParen {
        let list = items(toks, i + 2, Class::RightParen, ExpressionKind::Call, true);
        Parsed {
            expr: ExprView::Call { name: toks[i], args: list.items },
            used: 2 + list.used,
            faults: list.faults,
        }
    } else if 0 <= i < toks.len() && toks[i].class == Class::LeftBracket {
        let list = items(toks, i + 1, Class::RightBracket, ExpressionKind::Array, true);
        Parsed {
            expr: ExprView::Array { items: list.items },
            used: 1 + list.used,
            faults: list.faults,
        }
    } else {
        Parsed {
            expr: ExprView::Literal { value: seen(toks, i) },
            used: 1,
            faults: Seq::empty(),
        }
    }
}

/// The expression that starts at cursor `i`: what `primary` reads, and
/// what the token behind it makes of that. `[` makes it the array of an
/// index; an arithmetic or a comparison operator makes it the left side of
/// a compound or a boolean, whose right side is the whole expression
/// behind the operator, so that a chain of operators leans to the right.
/// This is done once: what follows the closing bracket of an index is left
/// alone.
pub open spec fn expression(toks: Seq<TokenView>, i: int) -> Parsed
    decreases left(toks, i), 1int,
{
    let first = primary(toks, i);
    let j = i + first.used;
    if 0 <= i <= j < toks.len() && toks[j].class == Class::LeftBracket {
        let inner = expression(toks, j + 1);
        let k = j + 1 + inner.used;
        Parsed {
            expr: ExprView::Index { array: Box::new(first.expr), index: Box::new(inner.expr) },
            used: first.used + 1 + inner.used + 1,
            faults: first.faults + inner.faults + expect(
                toks,
                k,
                Class::RightBracket,
                problem_text(Problem::Closing),
                ExpressionKind::Index,
            ),
        }
    } else if 0 <= i <= j < toks.len() && toks[j].class == Class::ArithmeticOperator {
        let rhs = expression(toks, j + 1);
        Parsed {
            expr: ExprView::Compound {
                lhs: Box::new(first.expr),
                rhs: Box::new(rhs.expr),
                operator: toks[j],
            },
            used: first.used + 1 + rhs.used,
            faults: first.faults + rhs.faults,
        }
    } else if 0 <= i <= j < toks.len() && toks[j].class == Class::ComparisonOperator {
        let rhs = expression(toks, j + 1);
        Parsed {
            expr: ExprView::Boolean {
                lhs: Box::new(first.expr),
                rhs: Box::new(rhs.expr),
                operator: toks[j],
            },
            used: first.used + 1 + rhs.used,
            faults: first.faults + rhs.faults,
        }
    } else {
        first
    }
}

/// A list from cursor `i` on: the token of class `open`, which is taken
/// whatever it is and recorded as an error where it is another, and then
/// the items up to the token of class `close`.
pub open spec fn list(
    toks: Seq<TokenView>,
    i: int,
    open: Class,
    close: Class,
    kind: ExpressionKind,
) -> ParsedList {
    let rest = items(toks, i + 1, close, kind, true);
    ParsedList {
        items: rest.items,
        used: 1 + rest.used,
        faults: expect(toks, i, open, problem_text(Problem::Opening), kind) + rest.faults,
    }
}

/// An array from cursor `i` on: a list in brackets.
pub open spec fn array(toks: Seq<TokenView>, i: int) -> Parsed {
    let read = list(toks, i, Class::LeftBracket, Class::RightBracket, ExpressionKind::Array);
    Parsed { expr: ExprView::Array { items: read.items }, used: read.used, faults: read.faults }
}

/// A call from cursor `i` on: the name, which is taken whatever it is and
/// recorded as an error where it is no identifier, and a list in
/// parentheses.
pub open spec fn call(toks: Seq<TokenView>, i: int) -> Parsed {
    let read = list(toks, i + 1, Class::LeftParen, Class::RightParen, ExpressionKind::Call);
    Parsed {
        expr: ExprView::Call { name: seen(toks, i), args: read.items },
        used: 1 + read.used,
        faults: expect(
            toks,
            i,
            Class::Identifier,
            problem_text(Problem::Name),
            ExpressionKind::Call,
        ) + read.faults,
    }
}

/// The items of a list take at most twice as many tokens as are left,
/// and one more.
pub proof fn lemma_items_bound(
    toks: Seq<TokenView>,
    i: int,
    close: Class,
    kind: ExpressionKind,
    due: bool,
)
    requires
        0 <= i,
    ensures
        items(toks, i, close, kind, due).used <= 2 * left(toks, i) + 1,
    decreases left(toks, i), 2int,
{
    if i < toks.len() {
        let token = seen(toks, i);
        if token.class == Class::Comma {
            lemma_items_bound(toks, i + 1, close, kind, true);
        } else if token.class == close || token.class == Class::EndOfFile {
        } else if due {
            lemma_expression_bound(toks, i);
            let item = expression(toks, i);
            lemma_items_bound(toks, i + item.used, close, kind, false);
        }
    }
}

/// What starts an expression takes at least one token, and at most twice
/// as many as are left, and one more.
pub proof fn lemma_primary_bound(toks: Seq<TokenView>, i: int)
    requires
        0 <= i,
    ensures
        1 <= primary(toks, i).used <= 2 * left(toks, i) + 1,
    decreases left(toks, i), 0int,
{
    if i < toks.len() && toks[i].class == Class::Identifier && i + 1 < toks.len() && toks[i
        + 1].class == Class::LeftParen {
        lemma_items_bound(toks, i + 2, Class::RightParen, ExpressionKind::Call, true);
    } else if i < toks.len() && toks[i].class == Class::LeftBracket {
        lemma_items_bound(toks, i + 1, Class::RightBracket, ExpressionKind::Array, true);
    }
}

/// An expression takes at least one token, and at most twice as many as
/// are left, and one more.
pub proof fn lemma_expression_bound(toks: Seq<TokenView>, i: int)
    requires
        0 <= i,
    ensures
        1 <= expression(toks, i).used <= 2 * left(toks, i) + 1,
    decreases left(toks, i), 1int,
{
    lemma_primary_bound(toks, i);
    let first = primary(toks, i);
    let j = i + first.used;
    if j < toks.len() && (toks[j].class == Class::LeftBracket || toks[j].class
        == Class::ArithmeticOperator || toks[j].class == Class::ComparisonOperator) {
        lemma_expression_bound(toks, j + 1);
    }
}

} // verus!
