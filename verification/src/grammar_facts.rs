//! What always holds of the parser's grammar.

use vstd::prelude::*;
use crate::grammar::{
    expression, items, lemma_expression_bound, primary, problem_text, seen, Problem,
    SyntaxFault,
};
use crate::token::{Class, TokenView};
use crate::tree::{ExprView, ExpressionKind};

verus! {

/// Where the tokens end inside a list, the list ends: it takes no further
/// token, gets no further item and records exactly one error, which says
/// that the end was found where the closing bracket was expected.
pub proof fn lemma_list_ends_with_tokens(
    toks: Seq<TokenView>,
    i: int,
    close: Class,
    kind: ExpressionKind,
    due: bool,
)
    requires
        toks.len() > 0,
        0 <= i,
        i >= toks.len() || toks[i].class == Class::EndOfFile,
        close != Class::EndOfFile,
    ensures
        items(toks, i, close, kind, due).items == Seq::<ExprView>::empty(),
        items(toks, i, close, kind, due).used == 0,
        items(toks, i, close, kind, due).faults == seq![
            SyntaxFault {
                token: seen(toks, i),
                expected: close,
                also: None,
                problem: problem_text(Problem::Unclosed),
                kind,
            },
        ],
{
}

/// What a list has gathered stays with it, whatever comes later: an item
/// that is read is the first item of the list, its errors are the first
/// errors, and the rest of the list is read behind it. A comma adds
/// nothing but itself.
pub proof fn lemma_list_keeps_items(
    toks: Seq<TokenView>,
    i: int,
    close: Class,
    kind: ExpressionKind,
    due: bool,
)
    requires
        0 <= i < toks.len(),
        toks[i].class != close,
        toks[i].class != Class::EndOfFile,
        toks[i].class == Class::Comma || due,
    ensures
        toks[i].class == Class::Comma ==> {
            &&& items(toks, i, close, kind, due).items == items(
                toks,
                i + 1,
                close,
                kind,
                true,
            ).items
            &&& items(toks, i, close, kind, due).faults == items(
                toks,
                i + 1,
                close,
                kind,
                true,
            ).faults
            &&& items(toks, i, close, kind, due).used == 1 + items(
                toks,
                i + 1,
                close,
                kind,
                true,
            ).used
        },
        toks[i].class != Class::Comma ==> {
            &&& expression(toks, i).used >= 1
            &&& items(toks, i, close, kind, due).items == seq![expression(toks, i).expr] + items(
                toks,
                i + expression(toks, i).used,
                close,
                kind,
                false,
            ).items
            &&& items(toks, i, close, kind, due).faults == expression(toks, i).faults + items(
                toks,
                i + expression(toks, i).used,
                close,
                kind,
                false,
            ).faults
            &&& items(toks, i, close, kind, due).used == expression(toks, i).used + items(
                toks,
                i + expression(toks, i).used,
                close,
                kind,
                false,
            ).used
        },
{
    if toks[i].class != Class::Comma {
        lemma_expression_bound(toks, i);
    }
}

/// Whether the token at `i` stands for itself and nothing behind it makes
/// more of it: it starts neither a call nor an array, and the token behind
/// it is neither `[` nor an operator.
pub open spec fn alone(toks: Seq<TokenView>, i: int) -> bool {
    &&& 0 <= i < toks.len()
    &&& toks[i].class != Class::LeftBracket
    &&& !(toks[i].class == Class::Identifier && i + 1 < toks.len() && toks[i + 1].class
        == Class::LeftParen)
    &&& i + 1 < toks.len() ==> {
        &&& toks[i + 1].class != Class::LeftBracket
        &&& toks[i + 1].class != Class::ArithmeticOperator
        &&& toks[i + 1].class != Class::ComparisonOperator
    }
}

/// A token that stands alone is read as a literal of one token.
pub proof fn lemma_alone(toks: Seq<TokenView>, i: int)
    requires
        alone(toks, i),
    ensures
        expression(toks, i).expr == (ExprView::Literal { value: toks[i] }),
        expression(toks, i).used == 1,
        expression(toks, i).faults == Seq::<SyntaxFault>::empty(),
{
    assert(primary(toks, i).used == 1);
}

/// Whether `n` tokens that stand alone follow each other from `i` on,
/// with a comma between each two, none of them a comma, a token of class
/// `close` or the closing token.
pub open spec fn separated(toks: Seq<TokenView>, i: int, n: nat, close: Class) -> bool {
    forall|k: int|
        0 <= k < n ==> {
            &&& alone(toks, #[trigger] (i + 2 * k))
            &&& toks[i + 2 * k].class != Class::Comma
            &&& toks[i + 2 * k].class != close
            &&& toks[i + 2 * k].class != Class::EndOfFile
            &&& k + 1 < n ==> toks[i + 2 * k + 1].class == Class::Comma
        }
}

/// The literals of `n` tokens that follow each other from `i` on with one
/// token between each two.
pub open spec fn literals(toks: Seq<TokenView>, i: int, n: nat) -> Seq<ExprView> {
    Seq::new(n, |k: int| ExprView::Literal { value: toks[i + 2 * k] })
}

/// A list whose closing bracket is missing before the end of the tokens
/// keeps the items it has gathered and records exactly one error: where
/// items of one token each, with commas between them, are followed by the
/// closing token of the text, the list has these items and the one error
/// that the end was found before the closing bracket.
pub proof fn lemma_unclosed_list(
    toks: Seq<TokenView>,
    i: int,
    n: nat,
    close: Class,
    kind: ExpressionKind,
)
    requires
        0 <= i,
        1 <= n,
        i + 2 * n - 1 < toks.len(),
        separated(toks, i, n, close),
        toks[i + 2 * n - 1].class == Class::EndOfFile,
        close != Class::EndOfFile,
    ensures
        items(toks, i, close, kind, true).items == literals(toks, i, n),
        items(toks, i, close, kind, true).used == 2 * n - 1,
        items(toks, i, close, kind, true).faults == seq![
            SyntaxFault {
                token: toks[i + 2 * n - 1],
                expected: close,
                also: None,
                problem: problem_text(Problem::Unclosed),
                kind,
            },
        ],
    decreases n,
{
    assert(alone(toks, i + 2 * 0));
    lemma_alone(toks, i);
    let behind = items(toks, i + 1, close, kind, false);
    if n == 1 {
        lemma_list_ends_with_tokens(toks, i + 1, close, kind, false);
        assert(items(toks, i, close, kind, true).items =~= literals(toks, i, n));
        assert(items(toks, i, close, kind, true).faults =~= behind.faults);
    } else {
        let m = (n - 1) as nat;
        assert(toks[i + 2 * 0 + 1].class == Class::Comma);
        assert forall|k: int| 0 <= k < m implies {
            &&& alone(toks, #[trigger] (i + 2 + 2 * k))
            &&& toks[i + 2 + 2 * k].class != Class::Comma
            &&& toks[i + 2 + 2 * k].class != close
            &&& toks[i + 2 + 2 * k].class != Class::EndOfFile
            &&& k + 1 < m ==> toks[i + 2 + 2 * k + 1].class == Class::Comma
        } by {
            assert(alone(toks, i + 2 * (k + 1)));
        }
        lemma_unclosed_list(toks, i + 2, m, close, kind);
        let rest = items(toks, i + 2, close, kind, true);
        assert(behind.items == rest.items && behind.faults == rest.faults);
        assert(seq![ExprView::Literal { value: toks[i] }] + literals(toks, i + 2, m)
            =~= literals(toks, i, n));
        assert(items(toks, i, close, kind, true).faults =~= rest.faults);
    }
}

/// A name, `(`, two tokens with a comma between them and `)` are read as
/// the call of the name with the two tokens as its arguments, without an
/// error.
pub proof fn lemma_call_of_two(toks: Seq<TokenView>, i: int)
    requires
        0 <= i,
        i + 6 < toks.len(),
        toks[i].class == Class::Identifier,
        toks[i + 1].class == Class::LeftParen,
        alone(toks, i + 2),
        toks[i + 2].class != Class::Comma,
        toks[i + 2].class != Class::RightParen,
        toks[i + 2].class != Class::EndOfFile,
        toks[i + 3].class == Class::Comma,
        alone(toks, i + 4),
        toks[i + 4].class != Class::Comma,
        toks[i + 4].class != Class::RightParen,
        toks[i + 4].class != Class::EndOfFile,
        toks[i + 5].class == Class::RightParen,
    ensures
        primary(toks, i).expr == (ExprView::Call {
            name: toks[i],
            args: seq![
                ExprView::Literal { value: toks[i + 2] },
                ExprView::Literal { value: toks[i + 4] },
            ],
        }),
        primary(toks, i).used == 6,
        primary(toks, i).faults == Seq::<SyntaxFault>::empty(),
        toks[i + 6].class != Class::LeftBracket && toks[i + 6].class != Class::ArithmeticOperator
            && toks[i + 6].class != Class::ComparisonOperator ==> expression(toks, i) == primary(
            toks,
            i,
        ),
{
    let close = Class::RightParen;
    let kind = ExpressionKind::Call;
    lemma_alone(toks, i + 2);
    lemma_alone(toks, i + 4);
    let last = items(toks, i + 5, close, kind, false);
    assert(last.used == 1 && last.items =~= Seq::empty() && last.faults =~= Seq::empty());
    let fourth = items(toks, i + 4, close, kind, true);
    assert(fourth.items =~= seq![ExprView::Literal { value: toks[i + 4] }]);
    assert(fourth.used == 2 && fourth.faults =~= Seq::empty());
    let third = items(toks, i + 3, close, kind, false);
    assert(third.items == fourth.items && third.used == 3 && third.faults == fourth.faults);
    let second = items(toks, i + 2, close, kind, true);
    assert(second.items =~= seq![
        ExprView::Literal { value: toks[i + 2] },
        ExprView::Literal { value: toks[i + 4] },
    ]);
    assert(second.used == 4 && second.faults =~= Seq::empty());
}

/// A chain of two arithmetic operators leans to the right: of three
/// tokens with an operator between each two, the first is the left side
/// of the first operator, and the right side is the compound of the other
/// two, without an error.
pub proof fn lemma_chain_leans_right(toks: Seq<TokenView>, i: int)
    requires
        0 <= i,
        i + 4 < toks.len(),
        toks[i].class != Class::LeftBracket,
        toks[i].class != Class::Identifier,
        toks[i + 1].class == Class::ArithmeticOperator,
        toks[i + 2].class != Class::LeftBracket,
        toks[i + 2].class != Class::Identifier,
        toks[i + 3].class == Class::ArithmeticOperator,
        alone(toks, i + 4),
    ensures
        expression(toks, i).expr == (ExprView::Compound {
            lhs: Box::new(ExprView::Literal { value: toks[i] }),
            rhs: Box::new(
                ExprView::Compound {
                    lhs: Box::new(ExprView::Literal { value: toks[i + 2] }),
                    rhs: Box::new(ExprView::Literal { value: toks[i + 4] }),
                    operator: toks[i + 3],
                },
            ),
            operator: toks[i + 1],
        }),
        expression(toks, i).used == 5,
        expression(toks, i).faults == Seq::<SyntaxFault>::empty(),
{
    lemma_alone(toks, i + 4);
    assert(primary(toks, i + 2).used == 1);
    let inner = expression(toks, i + 2);
    assert(inner.used == 3);
    assert(inner.faults =~= Seq::empty());
    assert(primary(toks, i).used == 1);
    assert(expression(toks, i).faults =~= Seq::empty());
}

} // verus!
