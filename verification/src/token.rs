//! Tokens: what the lexer hands to the parser.

use vstd::prelude::*;
use crate::util::{debug_str, debug_text, decimal, decimal_text};

verus! {

/// The class of a token.
///
/// `[` and `]` are the brackets, used for array literals and for indexing;
/// `{` and `}` are the braces, used for blocks.
#[derive(Debug, PartialEq, Eq, Clone, Copy, Structural)]
pub enum Class {
    Identifier,
    Keyword,
    String,
    Number,
    Boolean,
    LeftBracket,
    RightBracket,
    LeftBrace,
    RightBrace,
    LeftParen,
    RightParen,
    Dot,
    Comma,
    Semicolon,
    Colon,
    ArithmeticOperator,
    ComparisonOperator,
    Bang,
    Assign,
    Arrow,
    Logic,
    EndOfFile,
}

/// The name of a class as it is written in the source of this library.
pub open spec fn class_name(class: Class) -> Seq<char> {
    match class {
        Class::Identifier => "Identifier"@,
        Class::Keyword => "Keyword"@,
        Class::String => "String"@,
        Class::Number => "Number"@,
        Class::Boolean => "Boolean"@,
        Class::LeftBracket => "LeftBracket"@,
        Class::RightBracket => "RightBracket"@,
        Class::LeftBrace => "LeftBrace"@,
        Class::RightBrace => "RightBrace"@,
        Class::LeftParen => "LeftParen"@,
        Class::RightParen => "RightParen"@,
        Class::Dot => "Dot"@,
        Class::Comma => "Comma"@,
        Class::Semicolon => "Semicolon"@,
        Class::Colon => "Colon"@,
        Class::ArithmeticOperator => "ArithmeticOperator"@,
        Class::ComparisonOperator => "ComparisonOperator"@,
        Class::Bang => "Bang"@,
        Class::Assign => "Assign"@,
        Class::Arrow => "Arrow"@,
        Class::Logic => "Logic"@,
        Class::EndOfFile => "EndOfFile"@,
    }
}

/// What `lorust::kebab_case` makes of a text: the text in lower case, with
/// a hyphen at each boundary between words.
pub uninterp spec fn kebab_case_text(text: Seq<char>) -> Seq<char>;

/// Calls `lorust::kebab_case`. Taken on trust: that function trims the
/// text, rewrites it with four fixed patterns and lowers its case, so its
/// result depends on the text alone.
#[verifier::external_body]
fn kebab_case(text: &str) -> (r: String)
    ensures
        r@ == kebab_case_text(text@),
{
    lorust::kebab_case(text.to_string())
}

impl Class {
    /// The name of the class, as in `class_name`.
    pub fn name(&self) -> (r: &'static str)
        ensures
            r@ == class_name(*self),
    {
        match self {
            Class::Identifier => "Identifier",
            Class::Keyword => "Keyword",
            Class::String => "String",
            Class::Number => "Number",
            Class::Boolean => "Boolean",
            Class::LeftBracket => "LeftBracket",
            Class::RightBracket => "RightBracket",
            Class::LeftBrace => "LeftBrace",
            Class::RightBrace => "RightBrace",
            Class::LeftParen => "LeftParen",
            Class::RightParen => "RightParen",
            Class::Dot => "Dot",
            Class::Comma => "Comma",
            Class::Semicolon => "Semicolon",
            Class::Colon => "Colon",
            Class::ArithmeticOperator => "ArithmeticOperator",
            Class::ComparisonOperator => "ComparisonOperator",
            Class::Bang => "Bang",
            Class::Assign => "Assign",
            Class::Arrow => "Arrow",
            Class::Logic => "Logic",
            Class::EndOfFile => "EndOfFile",
        }
    }

    /// The name of the class in kebab case, as diagnostics show it.
    pub fn to_string(&self) -> (r: String)
        ensures
            r@ == kebab_case_text(class_name(*self)),
    {
        kebab_case(self.name())
    }
}

/// A token: its class, its text and the line and column of its first
/// character, both counted from 1.
#[derive(Debug)]
pub struct Token {
    pub class: Class,
    pub value: String,
    pub index: [usize; 2],
}

/// A token as the contracts speak of it.
pub struct TokenView {
    pub class: Class,
    pub value: Seq<char>,
    pub line: nat,
    pub column: nat,
}

impl View for Token {
    type V = TokenView;

    open spec fn view(&self) -> TokenView {
        TokenView {
            class: self.class,
            value: self.value@,
            line: self.index[0] as nat,
            column: self.index[1] as nat,
        }
    }
}

/// The tokens of a list as the contracts speak of them.
pub open spec fn token_views(tokens: Seq<Token>) -> Seq<TokenView> {
    Seq::new(tokens.len(), |i: int| tokens[i]@)
}

/// How a token is shown, given its text in quotes and the name of its
/// class.
pub open spec fn token_text(quoted: Seq<char>, class: Seq<char>, line: nat, column: nat) -> Seq<
    char,
> {
    "Token{ value: "@ + quoted + ", class: "@ + class + ", index: ["@ + decimal_text(line) + ", "@
        + decimal_text(column) + "] }"@
}

/// Shows a token, given its text in quotes and the name of its class.
pub fn describe_token(quoted: &str, class: &str, line: usize, column: usize) -> (r: String)
    ensures
        r@ == token_text(quoted@, class@, line as nat, column as nat),
{
    let mut out = String::from_str("Token{ value: ");
    out.append(quoted);
    out.append(", class: ");
    out.append(class);
    out.append(", index: [");
    out.append(decimal(line).as_str());
    out.append(", ");
    out.append(decimal(column).as_str());
    out.append("] }");
    out
}

impl Token {
    pub fn new(class: Class, value: String, index: [usize; 2]) -> (t: Self)
        ensures
            t == (Token { class, value, index }),
    {
        Self { class, value, index }
    }

    /// The token as one line of text: its text as a string literal, the
    /// name of its class in kebab case, and its line and column.
    pub fn to_string(&self) -> (r: String)
        ensures
            r@ == token_text(
                debug_text(self.value@),
                kebab_case_text(class_name(self.class)),
                self@.line,
                self@.column,
            ),
    {
        let quoted = debug_str(self.value.as_str());
        let class = self.class.to_string();
        describe_token(quoted.as_str(), class.as_str(), self.index[0], self.index[1])
    }
}

impl Clone for Token {
    fn clone(&self) -> (r: Self)
        ensures
            r == *self,
    {
        Token { class: self.class, value: self.value.clone(), index: self.index }
    }
}

} // verus!
