use script_syntax::lexer::{copy_tokens, describe};
use script_syntax::scanning::FaultKind;
use script_syntax::token::{describe_token, Class, Token};
use script_syntax::util::{decimal, join_lines, pad, reads, Colorize, Split};

#[test]
fn decimal_numbers() {
    assert_eq!(decimal(0), "0");
    assert_eq!(decimal(7), "7");
    assert_eq!(decimal(10), "10");
    assert_eq!(decimal(1203), "1203");
    assert_eq!(decimal(usize::MAX), usize::MAX.to_string());
}

#[test]
fn padding() {
    let mut out = "ab".to_string();
    pad(&mut out, '~', 3);
    assert_eq!(out, "ab~~~");
    pad(&mut out, ' ', 0);
    assert_eq!(out, "ab~~~");
}

#[test]
fn colours() {
    assert_eq!(Colorize::colorize("error", 31), "\x1b[31merror\x1b[0m");
    assert_eq!(Colorize::colorize(&"x".to_string(), 0), "\x1b[0mx\x1b[0m");
    assert_eq!(Colorize::colorize("", 105), "\x1b[105m\x1b[0m");
}

#[test]
fn splitting() {
    assert_eq!(Split::split("a,b,,c", ','), vec!["a", "b", "", "c"]);
    assert_eq!(Split::split("", ','), vec![""]);
    assert_eq!(Split::split("abc\n", '\n'), vec!["abc", ""]);
    assert_eq!(Split::split("\n", '\n'), vec!["", ""]);
    assert_eq!(Split::split("no separator", ';'), vec!["no separator"]);
    assert_eq!(
        Split::split(&"one two".to_string(), ' '),
        vec!["one", "two"]
    );
}

#[test]
fn splitting_and_joining_give_the_text_back() {
    let text = "first\n\nthird\n";
    let lines = Split::split(text, '\n');
    assert_eq!(lines.len(), 4);
    assert!(lines.iter().all(|l| !l.contains('\n')));
    assert_eq!(join_lines(&lines), text);
}

#[test]
fn joining() {
    assert_eq!(join_lines(&vec![]), "");
    assert_eq!(join_lines(&vec!["a".to_string()]), "a");
    assert_eq!(
        join_lines(&vec!["a".to_string(), "".to_string(), "b".to_string()]),
        "a\n\nb"
    );
}

#[test]
fn reading_a_word() {
    assert!(reads(&"fun".to_string(), "fun"));
    assert!(!reads(&"fun".to_string(), "fu"));
    assert!(!reads(&"".to_string(), "fun"));
}

#[test]
fn class_names() {
    assert_eq!(Class::LeftParen.name(), "LeftParen");
    assert_eq!(Class::EndOfFile.name(), "EndOfFile");
    assert_eq!(Class::ArithmeticOperator.name(), "ArithmeticOperator");
    assert_eq!(Class::String.name(), "String");
}

#[test]
fn class_names_in_kebab_case() {
    assert_eq!(Class::LeftParen.to_string(), "left-paren");
    assert_eq!(Class::EndOfFile.to_string(), "end-of-file");
    assert_eq!(Class::ArithmeticOperator.to_string(), "arithmetic-operator");
    assert_eq!(Class::ComparisonOperator.to_string(), "comparison-operator");
    assert_eq!(Class::RightBracket.to_string(), "right-bracket");
    assert_eq!(Class::Identifier.to_string(), "identifier");
}

#[test]
fn token_new_keeps_its_parts() {
    let token = Token::new(Class::Number, "12".to_string(), [3, 4]);
    assert_eq!(token.class, Class::Number);
    assert_eq!(token.value, "12");
    assert_eq!(token.index, [3, 4]);
}

#[test]
fn token_clone_is_equal() {
    let token = Token::new(Class::String, "a\nb".to_string(), [1, 9]);
    let copy = token.clone();
    assert_eq!(copy.class, token.class);
    assert_eq!(copy.value, token.value);
    assert_eq!(copy.index, token.index);
}

#[test]
fn token_as_text() {
    let token = Token::new(Class::Identifier, "f".to_string(), [1, 1]);
    assert_eq!(
        token.to_string(),
        "Token{ value: \"f\", class: identifier, index: [1, 1] }"
    );
    let text = Token::new(Class::String, "a\n\"b".to_string(), [12, 30]);
    assert_eq!(
        text.to_string(),
        "Token{ value: \"a\\n\\\"b\", class: string, index: [12, 30] }"
    );
}

#[test]
fn token_text_from_its_parts() {
    assert_eq!(
        describe_token("\"x\"", "left-paren", 2, 10),
        "Token{ value: \"x\", class: left-paren, index: [2, 10] }"
    );
}

#[test]
fn copies_of_tokens() {
    let tokens = vec![
        Token::new(Class::Identifier, "a".to_string(), [1, 1]),
        Token::new(Class::EndOfFile, "\0".to_string(), [1, 2]),
    ];
    let copy = copy_tokens(&tokens);
    assert_eq!(copy.len(), 2);
    assert_eq!(copy[0].value, "a");
    assert_eq!(copy[1].class, Class::EndOfFile);
    assert!(copy_tokens(&vec![]).is_empty());
}

#[test]
fn descriptions_of_lexical_errors() {
    assert_eq!(
        describe(FaultKind::ExtraDot, b'.', "'.'"),
        "too many '.' found while looking for number"
    );
    assert_eq!(
        describe(FaultKind::BadEscape, b'q', "'q'"),
        "\\q is not a valid escape sequence"
    );
    assert_eq!(
        describe(FaultKind::Unrecognized, b'@', "'@'"),
        "unrecognized char '@'"
    );
    assert_eq!(
        describe(FaultKind::Unterminated, 0, "'\\0'"),
        "eof found before string deliminator '\"'"
    );
}
