//! The syntax tree, and the grammar rule of each kind of node as
//! diagnostics show it.

use vstd::prelude::*;
use crate::token::{Token, TokenView};

verus! {

/// A whole source file.
pub type Program = Vec<Statement>;

/// The type of a variable: a base type and the number of array levels
/// around it.
#[derive(Debug)]
pub struct VarType {
    pub base: Token,
    pub array: usize,
}

/// A type as the contracts speak of it.
pub struct VarTypeView {
    pub base: TokenView,
    pub array: nat,
}

impl View for VarType {
    type V = VarTypeView;

    open spec fn view(&self) -> VarTypeView {
        VarTypeView { base: self.base@, array: self.array as nat }
    }
}

/// An expression. Each node owns its children.
#[derive(Debug)]
pub enum Expression {
    /// One token that stands for itself.
    Literal { value: Token },
    /// `[` items `]`
    Array { items: Vec<Expression> },
    /// array `[` index `]`
    Index { array: Box<Expression>, index: Box<Expression> },
    /// lhs, an arithmetic operator, rhs
    Compound { lhs: Box<Expression>, rhs: Box<Expression>, operator: Token },
    /// lhs, a comparison operator, rhs
    Boolean { lhs: Box<Expression>, rhs: Box<Expression>, operator: Token },
    /// name `(` args `)`
    Call { name: Token, args: Vec<Expression> },
    /// base `:` member
    SubExpr { base: Box<Expression>, member: Box<Expression> },
    /// name `:` type
    ArgDefine { name: Token, kind: VarType },
    /// A type where an expression may stand.
    TypeRef { kind: VarType },
    /// Nothing.
    Null,
}

/// An expression as the contracts speak of it.
pub enum ExprView {
    Literal { value: TokenView },
    Array { items: Seq<ExprView> },
    Index { array: Box<ExprView>, index: Box<ExprView> },
    Compound { lhs: Box<ExprView>, rhs: Box<ExprView>, operator: TokenView },
    Boolean { lhs: Box<ExprView>, rhs: Box<ExprView>, operator: TokenView },
    Call { name: TokenView, args: Seq<ExprView> },
    SubExpr { base: Box<ExprView>, member: Box<ExprView> },
    ArgDefine { name: TokenView, kind: VarTypeView },
    TypeRef { kind: VarTypeView },
    Null,
}

/// The kinds of expression.
#[derive(Debug, PartialEq, Eq, Clone, Copy, Structural)]
pub enum ExpressionKind {
    Literal,
    Array,
    Index,
    Compound,
    Boolean,
    Call,
    SubExpr,
    ArgDefine,
    TypeRef,
    Null,
}

impl ExprView {
    /// The kind of the node.
    pub open spec fn kind(self) -> ExpressionKind {
        match self {
            ExprView::Literal { .. } => ExpressionKind::Literal,
            ExprView::Array { .. } => ExpressionKind::Array,
            ExprView::Index { .. } => ExpressionKind::Index,
            ExprView::Compound { .. } => ExpressionKind::Compound,
            ExprView::Boolean { .. } => ExpressionKind::Boolean,
            ExprView::Call { .. } => ExpressionKind::Call,
            ExprView::SubExpr { .. } => ExpressionKind::SubExpr,
            ExprView::ArgDefine { .. } => ExpressionKind::ArgDefine,
            ExprView::TypeRef { .. } => ExpressionKind::TypeRef,
            ExprView::Null => ExpressionKind::Null,
        }
    }
}

/// The expressions of a list as the contracts speak of them.
pub open spec fn expression_views(list: Seq<Expression>) -> Seq<ExprView> {
    Seq::new(list.len(), |i: int| list[i].tree())
}

impl Expression {
    /// The expression as the contracts speak of it.
    pub open spec fn tree(&self) -> ExprView
        decreases self,
    {
        match self {
            Expression::Literal { value } => ExprView::Literal { value: value@ },
            Expression::Array { items } => ExprView::Array {
                items: Seq::new(
                    items@.len(),
                    |i: int|
                        if 0 <= i < items@.len() {
                            items@[i].tree()
                        } else {
                            ExprView::Null
                        },
                ),
            },
            Expression::Index { array, index } => ExprView::Index {
                array: Box::new(array.tree()),
                index: Box::new(index.tree()),
            },
            Expression::Compound { lhs, rhs, operator } => ExprView::Compound {
                lhs: Box::new(lhs.tree()),
                rhs: Box::new(rhs.tree()),
                operator: operator@,
            },
            Expression::Boolean { lhs, rhs, operator } => ExprView::Boolean {
                lhs: Box::new(lhs.tree()),
                rhs: Box::new(rhs.tree()),
                operator: operator@,
            },
            Expression::Call { name, args } => ExprView::Call {
                name: name@,
                args: Seq::new(
                    args@.len(),
                    |i: int|
                        if 0 <= i < args@.len() {
                            args@[i].tree()
                        } else {
                            ExprView::Null
                        },
                ),
            },
            Expression::SubExpr { base, member } => ExprView::SubExpr {
                base: Box::new(base.tree()),
                member: Box::new(member.tree()),
            },
            Expression::ArgDefine { name, kind } => ExprView::ArgDefine {
                name: name@,
                kind: kind@,
            },
            Expression::TypeRef { kind } => ExprView::TypeRef { kind: kind@ },
            Expression::Null => ExprView::Null,
        }
    }

    /// The kind of the node.
    pub fn kind(&self) -> (k: ExpressionKind)
        ensures
            k == self@.kind(),
    {
        match self {
            Expression::Literal { .. } => ExpressionKind::Literal,
            Expression::Array { .. } => ExpressionKind::Array,
            Expression::Index { .. } => ExpressionKind::Index,
            Expression::Compound { .. } => ExpressionKind::Compound,
            Expression::Boolean { .. } => ExpressionKind::Boolean,
            Expression::Call { .. } => ExpressionKind::Call,
            Expression::SubExpr { .. } => ExpressionKind::SubExpr,
            Expression::ArgDefine { .. } => ExpressionKind::ArgDefine,
            Expression::TypeRef { .. } => ExpressionKind::TypeRef,
            Expression::Null => ExpressionKind::Null,
        }
    }
}

impl View for Expression {
    type V = ExprView;

    open spec fn view(&self) -> ExprView {
        self.tree()
    }
}

/// A statement. Each node owns its children.
#[derive(Debug)]
pub enum Statement {
    /// `fun` name `(` params `)` `->` return type `{` body `}`
    FunctionDefine {
        name: Token,
        params: Vec<Expression>,
        return_type: Expression,
        body: Vec<Statement>,
    },
    /// `set` name `=` value
    ConstAssign { name: Token, value: Expression },
    /// `var` name `=` value
    VarAssign { name: Token, value: Expression },
    /// name `=` value
    Reassign { name: Token, value: Expression },
    /// `use` package
    Import { package: Token },
    /// expr `;`
    ExpressionStatement { expr: Expression },
    /// Nothing.
    Void,
}

/// The kinds of statement.
#[derive(Debug, PartialEq, Eq, Clone, Copy, Structural)]
pub enum StatementKind {
    FunctionDefine,
    ConstAssign,
    VarAssign,
    Reassign,
    Import,
    ExpressionStatement,
    Void,
}

impl Statement {
    /// The kind of the node.
    pub open spec fn kind_of(&self) -> StatementKind {
        match self {
            Statement::FunctionDefine { .. } => StatementKind::FunctionDefine,
            Statement::ConstAssign { .. } => StatementKind::ConstAssign,
            Statement::VarAssign { .. } => StatementKind::VarAssign,
            Statement::Reassign { .. } => StatementKind::Reassign,
            Statement::Import { .. } => StatementKind::Import,
            Statement::ExpressionStatement { .. } => StatementKind::ExpressionStatement,
            Statement::Void => StatementKind::Void,
        }
    }

    /// The kind of the node.
    pub fn kind(&self) -> (k: StatementKind)
        ensures
            k == self.kind_of(),
    {
        match self {
            Statement::FunctionDefine { .. } => StatementKind::FunctionDefine,
            Statement::ConstAssign { .. } => StatementKind::ConstAssign,
            Statement::VarAssign { .. } => StatementKind::VarAssign,
            Statement::Reassign { .. } => StatementKind::Reassign,
            Statement::Import { .. } => StatementKind::Import,
            Statement::ExpressionStatement { .. } => StatementKind::ExpressionStatement,
            Statement::Void => StatementKind::Void,
        }
    }
}

/// A kind of node of either sort: the key under which its grammar rule is
/// found.
#[derive(Debug, PartialEq, Eq, Clone, Copy, Structural)]
pub enum Shape {
    Expression(ExpressionKind),
    Statement(StatementKind),
}

/// The grammar rule of a kind of node, element by element, as a reader of
/// a diagnostic sees it. There is one table for both sorts of node, keyed
/// by the kind itself.
pub open spec fn production(shape: Shape) -> Seq<Seq<char>> {
    match shape {
        Shape::Expression(ExpressionKind::Literal) => seq!["literal"@],
        Shape::Expression(ExpressionKind::Array) => seq![
            "["@,
            "expression"@,
            ","@,
            "..."@,
            "]"@,
        ],
        Shape::Expression(ExpressionKind::Index) => seq![
            "expression"@,
            "["@,
            "expression"@,
            "]"@,
        ],
        Shape::Expression(ExpressionKind::Compound) => seq![
            "expression"@,
            "arithmetic-operator"@,
            "expression"@,
        ],
        Shape::Expression(ExpressionKind::Boolean) => seq![
            "expression"@,
            "comparison-operator"@,
            "expression"@,
        ],
        Shape::Expression(ExpressionKind::Call) => seq![
            "identifier"@,
            "("@,
            "expression"@,
            ","@,
            "..."@,
            ")"@,
        ],
        Shape::Expression(ExpressionKind::SubExpr) => seq!["expression"@, ":"@, "expression"@],
        Shape::Expression(ExpressionKind::ArgDefine) => seq!["identifier"@, ":"@, "type"@],
        Shape::Expression(ExpressionKind::TypeRef) => seq!["identifier"@, "["@, "]"@],
        Shape::Expression(ExpressionKind::Null) => Seq::empty(),
        Shape::Statement(StatementKind::FunctionDefine) => seq![
            "fun"@,
            "identifier"@,
            "("@,
            "arguments"@,
            ")"@,
            "->"@,
            "type"@,
            "{"@,
            "statements"@,
            "}"@,
        ],
        Shape::Statement(StatementKind::ConstAssign) => seq![
            "set"@,
            "identifier"@,
            "="@,
            "expression"@,
        ],
        Shape::Statement(StatementKind::VarAssign) => seq![
            "var"@,
            "identifier"@,
            "="@,
            "expression"@,
        ],
        Shape::Statement(StatementKind::Reassign) => seq!["identifier"@, "="@, "expression"@],
        Shape::Statement(StatementKind::Import) => seq!["use"@, "identifier"@],
        Shape::Statement(StatementKind::ExpressionStatement) => seq!["expression"@, ";"@],
        Shape::Statement(StatementKind::Void) => Seq::empty(),
    }
}

/// The texts of a list of string slices.
pub open spec fn words(list: Seq<&'static str>) -> Seq<Seq<char>> {
    Seq::new(list.len(), |i: int| list[i]@)
}

impl Shape {
    /// The grammar rule of this kind of node, element by element.
    pub fn production(&self) -> (r: Vec<&'static str>)
        ensures
            words(r@) == production(*self),
    {
        let r = match self {
            Shape::Expression(ExpressionKind::Literal) => vec!["literal"],
            Shape::Expression(ExpressionKind::Array) => vec!["[", "expression", ",", "...", "]"],
            Shape::Expression(ExpressionKind::Index) => vec!["expression", "[", "expression", "]"],
            Shape::Expression(ExpressionKind::Compound) => vec![
                "expression",
                "arithmetic-operator",
                "expression",
            ],
            Shape::Expression(ExpressionKind::Boolean) => vec![
                "expression",
                "comparison-operator",
                "expression",
            ],
            Shape::Expression(ExpressionKind::Call) => vec![
                "identifier",
                "(",
                "expression",
                ",",
                "...",
                ")",
            ],
            Shape::Expression(ExpressionKind::SubExpr) => vec!["expression", ":", "expression"],
            Shape::Expression(ExpressionKind::ArgDefine) => vec!["identifier", ":", "type"],
            Shape::Expression(ExpressionKind::TypeRef) => vec!["identifier", "[", "]"],
            Shape::Expression(ExpressionKind::Null) => Vec::new(),
            Shape::Statement(StatementKind::FunctionDefine) => vec![
                "fun",
                "identifier",
                "(",
                "arguments",
                ")",
                "->",
                "type",
                "{",
                "statements",
                "}",
            ],
            Shape::Statement(StatementKind::ConstAssign) => vec![
                "set",
                "identifier",
                "=",
                "expression",
            ],
            Shape::Statement(StatementKind::VarAssign) => vec![
                "var",
                "identifier",
                "=",
                "expression",
            ],
            Shape::Statement(StatementKind::Reassign) => vec!["identifier", "=", "expression"],
            Shape::Statement(StatementKind::Import) => vec!["use", "identifier"],
            Shape::Statement(StatementKind::ExpressionStatement) => vec!["expression", ";"],
            Shape::Statement(StatementKind::Void) => Vec::new(),
        };
        assert(words(r@) =~= production(*self));
        r
    }
}

/// One element of a grammar rule: the kind of node, and the place of the
/// element in its rule, counted from 0.
#[derive(Debug, PartialEq, Eq, Clone, Copy, Structural)]
pub struct ShapeRef {
    pub shape: Shape,
    pub element: usize,
}

} // verus!
