use script_syntax::diagnostic::{
    format_at, format_diagnostic, line_at_number, mismatch, render_hint,
};
use script_syntax::grammar::Problem;
use script_syntax::lexer::{LexError, Lexer};
use script_syntax::parser::{hint, problem_name, Parser};
use script_syntax::token::{Class, Token};
use script_syntax::tree::{
    Expression, ExpressionKind, Shape, ShapeRef, Statement, StatementKind, VarType,
};

fn token(class: Class, value: &str, column: usize) -> Token {
    Token::new(class, value.to_string(), [1, column])
}

fn parser_of(source: &str) -> Parser {
    let lexer = Lexer::new().init("main.src".to_string(), source.to_string());
    Parser::new().init(lexer).unwrap()
}

fn literal(expression: &Expression) -> &str {
    match expression {
        Expression::Literal { value } => value.value.as_str(),
        other => panic!("{:?}", other),
    }
}

#[test]
fn new_parser_is_empty() {
    let parser = Parser::new();
    assert!(parser.tokens().is_empty());
    assert_eq!(parser.position(), 0);
    assert!(parser.errors().is_empty());
}

#[test]
fn no_parser_without_tokens() {
    assert!(Parser::from_tokens(vec![]).is_none());
    assert!(Parser::from_tokens(vec![token(Class::EndOfFile, "\0", 1)]).is_some());
}

#[test]
fn init_takes_the_tokens_of_the_lexer() {
    let parser = parser_of("a + 1");
    assert_eq!(parser.tokens().len(), 4);
    assert_eq!(parser.position(), 0);
    assert!(parser.errors().is_empty());
}

#[test]
fn init_hands_lexical_errors_on() {
    let lexer = Lexer::new().init("main.src".to_string(), "a @".to_string());
    match Parser::new().init(lexer) {
        Err(LexError::Lexical(lines)) => {
            assert_eq!(
                lines,
                "main.src[1, 3]:\x1b[31merror\x1b[0m --> unrecognized char '@'\n\
                 \x20 | a @\n\
                 \x20 |   ^\n\
                 \x20 |   info: \x1b[33mliteral\x1b[0m"
            );
        }
        _ => panic!(),
    }
    let lexer = Lexer::new().init("main.src".to_string(), "\"a".to_string());
    assert!(matches!(
        Parser::new().init(lexer),
        Err(LexError::UnterminatedString(_))
    ));
}

#[test]
fn call_with_two_arguments() {
    let tokens = vec![
        token(Class::Identifier, "f", 1),
        token(Class::LeftParen, "(", 2),
        token(Class::Identifier, "x", 3),
        token(Class::Comma, ",", 4),
        token(Class::Identifier, "y", 5),
        token(Class::RightParen, ")", 6),
        token(Class::EndOfFile, "\0", 7),
    ];
    let mut parser = Parser::from_tokens(tokens).unwrap();
    let expression = parser.collect_expression();
    match expression {
        Expression::Call { name, args } => {
            assert_eq!(name.value, "f");
            assert_eq!(name.class, Class::Identifier);
            assert_eq!(args.len(), 2);
            assert_eq!(literal(&args[0]), "x");
            assert_eq!(literal(&args[1]), "y");
        }
        other => panic!("{:?}", other),
    }
    assert!(parser.errors().is_empty());
    assert_eq!(parser.position(), 6);
}

#[test]
fn chain_of_operators_leans_right() {
    let tokens = vec![
        token(Class::Number, "1", 1),
        token(Class::ArithmeticOperator, "+", 2),
        token(Class::Number, "2", 3),
        token(Class::ArithmeticOperator, "+", 4),
        token(Class::Number, "3", 5),
    ];
    let mut parser = Parser::from_tokens(tokens).unwrap();
    let expression = parser.collect_expression();
    match expression {
        Expression::Compound { lhs, rhs, operator } => {
            assert_eq!(literal(&lhs), "1");
            assert_eq!(operator.index, [1, 2]);
            match *rhs {
                Expression::Compound { lhs, rhs, operator } => {
                    assert_eq!(literal(&lhs), "2");
                    assert_eq!(literal(&rhs), "3");
                    assert_eq!(operator.index, [1, 4]);
                }
                other => panic!("{:?}", other),
            }
        }
        other => panic!("{:?}", other),
    }
    assert!(parser.errors().is_empty());
    assert_eq!(parser.position(), 5);
}

#[test]
fn chain_of_comparisons_leans_right() {
    let mut parser = parser_of("a <= b == c");
    match parser.collect_expression() {
        Expression::Boolean { lhs, rhs, operator } => {
            assert_eq!(literal(&lhs), "a");
            assert_eq!(operator.value, "<=");
            match *rhs {
                Expression::Boolean { lhs, rhs, operator } => {
                    assert_eq!(literal(&lhs), "b");
                    assert_eq!(literal(&rhs), "c");
                    assert_eq!(operator.value, "==");
                }
                other => panic!("{:?}", other),
            }
        }
        other => panic!("{:?}", other),
    }
    assert_eq!(parser.position(), 5);
}

#[test]
fn unclosed_list_records_one_diagnostic_and_keeps_its_items() {
    let mut parser = parser_of("[1, 2");
    let expression = parser.collect_expression();
    match expression {
        Expression::Array { items } => {
            assert_eq!(items.len(), 2);
            assert_eq!(literal(&items[0]), "1");
            assert_eq!(literal(&items[1]), "2");
        }
        other => panic!("{:?}", other),
    }
    assert_eq!(parser.errors().len(), 1);
    assert_eq!(
        parser.errors()[0],
        "main.src[1, 6]:\x1b[31merror\x1b[0m --> eof found before close bracket\n\
         \x20 | [1, 2\n\
         \x20 |      ^expected right-bracket, not end-of-file\n\
         \x20 |      info: [ expression , ... \x1b[33m]\x1b[0m"
    );
    assert_eq!(parser.position(), 4);
}

#[test]
fn unclosed_list_without_a_closing_token() {
    let tokens = vec![
        token(Class::LeftBracket, "[", 1),
        token(Class::Number, "1", 2),
        token(Class::Comma, ",", 3),
    ];
    let mut parser = Parser::from_tokens(tokens).unwrap();
    match parser.collect_expression() {
        Expression::Array { items } => {
            assert_eq!(items.len(), 1);
            assert_eq!(literal(&items[0]), "1");
        }
        other => panic!("{:?}", other),
    }
    assert_eq!(parser.errors().len(), 1);
    assert!(parser.errors()[0].contains("eof found before close bracket"));
    assert_eq!(parser.position(), 3);
}

#[test]
fn unclosed_call_names_the_parenthesis() {
    let mut parser = parser_of("f(x");
    match parser.collect_expression() {
        Expression::Call { name, args } => {
            assert_eq!(name.value, "f");
            assert_eq!(args.len(), 1);
        }
        other => panic!("{:?}", other),
    }
    assert_eq!(parser.errors().len(), 1);
    assert!(parser.errors()[0].contains("--> eof found before close bracket\n"));
    assert!(parser.errors()[0].contains("^expected right-paren, not end-of-file\n"));
    assert!(parser.errors()[0]
        .ends_with("info: identifier ( expression , ... \x1b[33m)\x1b[0m"));
}

#[test]
fn nested_unclosed_lists_record_one_diagnostic_each() {
    let mut parser = parser_of("[[1");
    match parser.collect_expression() {
        Expression::Array { items } => {
            assert_eq!(items.len(), 1);
            assert_eq!(items[0].kind(), ExpressionKind::Array);
        }
        other => panic!("{:?}", other),
    }
    assert_eq!(parser.errors().len(), 2);
}

#[test]
fn empty_array() {
    let mut parser = parser_of("[]");
    match parser.collect_expression() {
        Expression::Array { items } => assert!(items.is_empty()),
        other => panic!("{:?}", other),
    }
    assert!(parser.errors().is_empty());
    assert_eq!(parser.position(), 2);
}

#[test]
fn trailing_and_doubled_commas_leave_no_trace() {
    let mut parser = parser_of("[1,]");
    match parser.collect_expression() {
        Expression::Array { items } => assert_eq!(items.len(), 1),
        other => panic!("{:?}", other),
    }
    assert!(parser.errors().is_empty());

    let mut parser = parser_of("[1,,2]");
    match parser.collect_expression() {
        Expression::Array { items } => {
            assert_eq!(items.len(), 2);
            assert_eq!(literal(&items[1]), "2");
        }
        other => panic!("{:?}", other),
    }
    assert!(parser.errors().is_empty());
    assert_eq!(parser.position(), 6);
}

#[test]
fn item_without_comma_ends_the_list() {
    let mut parser = parser_of("[1 2]");
    match parser.collect_expression() {
        Expression::Array { items } => {
            assert_eq!(items.len(), 1);
            assert_eq!(literal(&items[0]), "1");
        }
        other => panic!("{:?}", other),
    }
    assert_eq!(parser.position(), 2);
    assert_eq!(parser.errors().len(), 1);
    assert_eq!(
        parser.errors()[0],
        "main.src[1, 4]:\x1b[31merror\x1b[0m --> expression found before comma\n\
         \x20 | [1 2]\n\
         \x20 |    ^expected comma, not number\n\
         \x20 |    info: [ expression \x1b[33m,\x1b[0m ... ]\n\
         \x20 |      or: [ expression , ... \x1b[33m]\x1b[0m"
    );
}

#[test]
fn index_of_a_name() {
    let mut parser = parser_of("a[1]");
    match parser.collect_expression() {
        Expression::Index { array, index } => {
            assert_eq!(literal(&array), "a");
            assert_eq!(literal(&index), "1");
        }
        other => panic!("{:?}", other),
    }
    assert!(parser.errors().is_empty());
    assert_eq!(parser.position(), 4);
}

#[test]
fn index_without_closing_bracket() {
    let mut parser = parser_of("a[1 b");
    match parser.collect_expression() {
        Expression::Index { array, index } => {
            assert_eq!(literal(&array), "a");
            assert_eq!(literal(&index), "1");
        }
        other => panic!("{:?}", other),
    }
    assert_eq!(parser.position(), 4);
    assert_eq!(parser.errors().len(), 1);
    assert_eq!(
        parser.errors()[0],
        "main.src[1, 5]:\x1b[31merror\x1b[0m --> close bracket not found\n\
         \x20 | a[1 b\n\
         \x20 |     ^expected right-bracket, not identifier\n\
         \x20 |     info: expression [ expression \x1b[33m]\x1b[0m"
    );
}

#[test]
fn what_follows_is_looked_at_once() {
    let mut parser = parser_of("a[1]+2");
    let expression = parser.collect_expression();
    assert_eq!(expression.kind(), ExpressionKind::Index);
    assert_eq!(parser.position(), 4);
    assert_eq!(parser.fetch(0).value, "+");
}

#[test]
fn index_inside_a_compound() {
    let mut parser = parser_of("1 + a[2]");
    match parser.collect_expression() {
        Expression::Compound { lhs, rhs, operator } => {
            assert_eq!(literal(&lhs), "1");
            assert_eq!(operator.value, "+");
            assert_eq!(rhs.kind(), ExpressionKind::Index);
        }
        other => panic!("{:?}", other),
    }
    assert_eq!(parser.position(), 6);
}

#[test]
fn nested_calls_and_arrays() {
    let mut parser = parser_of("f(g(x), [1, 2], y * 3)");
    match parser.collect_expression() {
        Expression::Call { name, args } => {
            assert_eq!(name.value, "f");
            assert_eq!(args.len(), 3);
            assert_eq!(args[0].kind(), ExpressionKind::Call);
            assert_eq!(args[1].kind(), ExpressionKind::Array);
            assert_eq!(args[2].kind(), ExpressionKind::Compound);
        }
        other => panic!("{:?}", other),
    }
    assert!(parser.errors().is_empty());
    assert_eq!(parser.fetch(0).class, Class::EndOfFile);
}

#[test]
fn a_name_alone_is_a_literal() {
    let mut parser = parser_of("f");
    assert_eq!(literal(&parser.collect_expression()), "f");
    assert_eq!(parser.position(), 1);
}

#[test]
fn the_closing_token_is_a_literal_too() {
    let mut parser = parser_of("");
    match parser.collect_expression() {
        Expression::Literal { value } => assert_eq!(value.class, Class::EndOfFile),
        other => panic!("{:?}", other),
    }
    assert_eq!(parser.position(), 1);
    match parser.collect_expression() {
        Expression::Literal { value } => assert_eq!(value.class, Class::EndOfFile),
        other => panic!("{:?}", other),
    }
    assert_eq!(parser.position(), 2);
    assert!(parser.errors().is_empty());
}

#[test]
fn check_moves_on_whatever_it_finds() {
    let mut parser = parser_of("a");
    let found = parser.check(Class::Identifier, "no name", ExpressionKind::Call);
    assert_eq!(found.value, "a");
    assert_eq!(parser.position(), 1);
    assert!(parser.errors().is_empty());

    let found = parser.check(Class::Comma, "no comma", ExpressionKind::Array);
    assert_eq!(found.class, Class::EndOfFile);
    assert_eq!(parser.position(), 2);
    assert_eq!(parser.errors().len(), 1);

    let found = parser.check(Class::EndOfFile, "no end", ExpressionKind::Array);
    assert_eq!(found.class, Class::EndOfFile);
    assert_eq!(parser.position(), 3);
    assert_eq!(parser.errors().len(), 1);

    let found = parser.check(Class::RightParen, "no parenthesis", ExpressionKind::Call);
    assert_eq!(found.class, Class::EndOfFile);
    assert_eq!(parser.position(), 4);
    assert_eq!(parser.errors().len(), 2);
    assert_eq!(
        parser.errors()[1],
        "main.src[1, 2]:\x1b[31merror\x1b[0m --> no parenthesis\n\
         \x20 | a\n\
         \x20 |  ^expected right-paren, not end-of-file\n\
         \x20 |  info: identifier ( expression , ... \x1b[33m)\x1b[0m"
    );
}

#[test]
fn error_ends_its_header_with_the_complaint() {
    let mut parser = parser_of("let abc");
    let offending = Token::new(Class::Identifier, "abc".to_string(), [1, 5]);
    parser.error(&offending, Class::Number, "bad", ExpressionKind::Literal, None);
    assert_eq!(parser.position(), 0);
    assert_eq!(parser.errors().len(), 1);
    let lines: Vec<&str> = parser.errors()[0].split('\n').collect();
    assert_eq!(lines[0], "main.src[1, 5]:\x1b[31merror\x1b[0m --> bad");
    assert_eq!(lines[1], "  | let abc");
    assert_eq!(lines[2], "  |     ^~~expected number, not identifier");
    assert_eq!(lines[3], "  |     info: \x1b[33mliteral\x1b[0m");
    assert_eq!(lines.len(), 4);
}

#[test]
fn error_with_another_class_in_order() {
    let mut parser = parser_of("f(a b)");
    let offending = parser.fetch(3);
    parser.error(
        &offending,
        Class::Comma,
        "something else",
        ExpressionKind::Call,
        Some(Class::RightParen),
    );
    assert_eq!(
        parser.errors()[0],
        "main.src[1, 5]:\x1b[31merror\x1b[0m --> something else\n\
         \x20 | f(a b)\n\
         \x20 |     ^expected comma, not identifier\n\
         \x20 |     info: identifier ( expression \x1b[33m,\x1b[0m ... )\n\
         \x20 |       or: identifier ( expression , ... \x1b[33m)\x1b[0m"
    );
}

#[test]
fn operator_at_the_end_of_the_tokens() {
    let tokens = vec![
        token(Class::Number, "1", 1),
        token(Class::ArithmeticOperator, "+", 2),
    ];
    let mut parser = Parser::from_tokens(tokens).unwrap();
    match parser.collect_expression() {
        Expression::Compound { lhs, rhs, .. } => {
            assert_eq!(literal(&lhs), "1");
            assert_eq!(literal(&rhs), "+");
        }
        other => panic!("{:?}", other),
    }
    assert_eq!(parser.position(), 3);
}

#[test]
fn fetch_clamps_at_both_ends() {
    let parser = parser_of("a b c");
    assert_eq!(parser.fetch(0).value, "a");
    assert_eq!(parser.fetch(1).value, "b");
    assert_eq!(parser.fetch(3).class, Class::EndOfFile);
    assert_eq!(parser.fetch(100).class, Class::EndOfFile);
    assert_eq!(parser.fetch(isize::MAX).class, Class::EndOfFile);
    assert_eq!(parser.fetch(-1).value, "a");
    assert_eq!(parser.fetch(isize::MIN).value, "a");
    let mut parser = parser;
    parser.collect_expression();
    parser.collect_expression();
    assert_eq!(parser.fetch(0).value, "c");
    assert_eq!(parser.fetch(-1).value, "b");
    assert_eq!(parser.fetch(-2).value, "a");
    assert_eq!(parser.fetch(-3).value, "a");
}

#[test]
fn diagnostics_on_a_later_line() {
    let mut parser = parser_of("x\ny\n\n\n\n\n\n\n\nabc[12, 3 4]");
    parser.collect_expression();
    parser.collect_expression();
    let expression = parser.collect_expression();
    assert_eq!(expression.kind(), ExpressionKind::Index);
    assert_eq!(parser.errors().len(), 1);
    assert_eq!(
        parser.errors()[0],
        "main.src[10, 7]:\x1b[31merror\x1b[0m --> close bracket not found\n\
         \x20  | abc[12, 3 4]\n\
         \x20  |       ^expected right-bracket, not comma\n\
         \x20  |       info: expression [ expression \x1b[33m]\x1b[0m"
    );
}

#[test]
fn statement_kinds() {
    assert_eq!(parser_of("fun f()").statement_kind(), StatementKind::FunctionDefine);
    assert_eq!(parser_of("set x = 1").statement_kind(), StatementKind::ConstAssign);
    assert_eq!(parser_of("var x = 1").statement_kind(), StatementKind::VarAssign);
    assert_eq!(parser_of("use maths").statement_kind(), StatementKind::Import);
    assert_eq!(parser_of("x = 1").statement_kind(), StatementKind::Reassign);
    assert_eq!(parser_of("x == 1;").statement_kind(), StatementKind::ExpressionStatement);
    assert_eq!(parser_of("if x").statement_kind(), StatementKind::ExpressionStatement);
    assert_eq!(parser_of("").statement_kind(), StatementKind::ExpressionStatement);
}

#[test]
fn complaints() {
    assert_eq!(mismatch("identifier", "number"), "expected identifier, not number");
    assert_eq!(mismatch("", ""), "expected , not ");
    assert_eq!(problem_name(Problem::Name), "name not found");
    assert_eq!(problem_name(Problem::Opening), "open bracket not found");
    assert_eq!(problem_name(Problem::Closing), "close bracket not found");
    assert_eq!(problem_name(Problem::Unclosed), "eof found before close bracket");
    assert_eq!(problem_name(Problem::Misplaced), "expression found before comma");
}

#[test]
fn hints() {
    assert_eq!(
        hint(ExpressionKind::Call, Class::RightParen),
        ShapeRef { shape: Shape::Expression(ExpressionKind::Call), element: 5 }
    );
    assert_eq!(hint(ExpressionKind::Array, Class::Comma).element, 2);
    assert_eq!(hint(ExpressionKind::Index, Class::LeftBracket).element, 1);
    assert_eq!(hint(ExpressionKind::Call, Class::Identifier).element, 0);
    assert_eq!(
        render_hint(ShapeRef { shape: Shape::Statement(StatementKind::Import), element: 1 }),
        "use \x1b[33midentifier\x1b[0m"
    );
    assert_eq!(
        render_hint(ShapeRef { shape: Shape::Expression(ExpressionKind::Literal), element: 7 }),
        "literal"
    );
    assert_eq!(
        render_hint(ShapeRef { shape: Shape::Expression(ExpressionKind::Null), element: 0 }),
        ""
    );
}

#[test]
fn productions() {
    assert_eq!(
        Shape::Expression(ExpressionKind::Call).production(),
        vec!["identifier", "(", "expression", ",", "...", ")"]
    );
    assert_eq!(
        Shape::Statement(StatementKind::FunctionDefine).production(),
        vec!["fun", "identifier", "(", "arguments", ")", "->", "type", "{", "statements", "}"]
    );
    assert_eq!(
        Shape::Statement(StatementKind::ExpressionStatement).production(),
        vec!["expression", ";"]
    );
    assert!(Shape::Statement(StatementKind::Void).production().is_empty());
}

#[test]
fn a_diagnostic_with_alternatives() {
    let offending = Token::new(Class::Identifier, "total".to_string(), [3, 5]);
    let hints = vec![
        ShapeRef { shape: Shape::Statement(StatementKind::ConstAssign), element: 0 },
        ShapeRef { shape: Shape::Statement(StatementKind::VarAssign), element: 0 },
        ShapeRef { shape: Shape::Statement(StatementKind::Reassign), element: 1 },
    ];
    assert_eq!(
        format_diagnostic("a.src", &offending, "no statement", "    total 1", " here", &hints),
        "a.src[3, 5]:\x1b[31merror\x1b[0m --> no statement\n\
         \x20 |     total 1\n\
         \x20 |     ^~~~~ here\n\
         \x20 |     info: \x1b[33mset\x1b[0m identifier = expression\n\
         \x20 |       or: \x1b[33mvar\x1b[0m identifier = expression\n\
         \x20 |       or: identifier \x1b[33m=\x1b[0m expression"
    );
}

#[test]
fn a_diagnostic_without_hints() {
    let offending = Token::new(Class::EndOfFile, "\0".to_string(), [1, 1]);
    assert_eq!(
        format_diagnostic("", &offending, "", "", "", &vec![]),
        "[1, 1]:\x1b[31merror\x1b[0m --> \n\x20 | \n\x20 | ^"
    );
}

#[test]
fn the_underline_covers_the_token() {
    let source = "set total = [alpha, 12.5]";
    let lexer = Lexer::new().init("main.src".to_string(), source.to_string());
    let parser = Parser::new().init(lexer).unwrap();
    for token in parser.tokens() {
        if token.class == Class::EndOfFile {
            continue;
        }
        let text = format_diagnostic("main.src", token, "", source, "", &vec![]);
        let lines: Vec<&str> = text.split('\n').collect();
        let shown = &lines[1][4..];
        let marks = &lines[2][4..];
        let marked: String = shown
            .chars()
            .zip(marks.chars())
            .filter(|(_, m)| *m != ' ')
            .map(|(c, _)| c)
            .collect();
        assert_eq!(marked, token.value);
    }
}

#[test]
fn kinds_of_nodes() {
    let name = || Token::new(Class::Identifier, "n".to_string(), [1, 1]);
    assert_eq!(Expression::Null.kind(), ExpressionKind::Null);
    assert_eq!(
        Expression::Literal { value: name() }.kind(),
        ExpressionKind::Literal
    );
    assert_eq!(
        Expression::ArgDefine { name: name(), kind: VarType { base: name(), array: 2 } }.kind(),
        ExpressionKind::ArgDefine
    );
    assert_eq!(
        Expression::TypeRef { kind: VarType { base: name(), array: 0 } }.kind(),
        ExpressionKind::TypeRef
    );
    assert_eq!(
        Expression::SubExpr {
            base: Box::new(Expression::Null),
            member: Box::new(Expression::Null)
        }
        .kind(),
        ExpressionKind::SubExpr
    );
    assert_eq!(Statement::Void.kind(), StatementKind::Void);
    assert_eq!(
        Statement::Import { package: name() }.kind(),
        StatementKind::Import
    );
    assert_eq!(
        Statement::FunctionDefine {
            name: name(),
            params: vec![],
            return_type: Expression::Null,
            body: vec![Statement::Void],
        }
        .kind(),
        StatementKind::FunctionDefine
    );
}

#[test]
fn call_without_a_name() {
    let mut parser = parser_of("1(x)");
    match parser.collect_function() {
        Expression::Call { name, args } => {
            assert_eq!(name.value, "1");
            assert_eq!(args.len(), 1);
            assert_eq!(literal(&args[0]), "x");
        }
        other => panic!("{:?}", other),
    }
    assert_eq!(parser.position(), 4);
    assert_eq!(parser.errors().len(), 1);
    assert_eq!(
        parser.errors()[0],
        "main.src[1, 1]:\x1b[31merror\x1b[0m --> name not found\n\
         \x20 | 1(x)\n\
         \x20 | ^expected identifier, not number\n\
         \x20 | info: \x1b[33midentifier\x1b[0m ( expression , ... )"
    );
}

#[test]
fn call_without_an_opening_parenthesis() {
    let mut parser = parser_of("f x)");
    match parser.collect_function() {
        Expression::Call { name, args } => {
            assert_eq!(name.value, "f");
            assert!(args.is_empty());
        }
        other => panic!("{:?}", other),
    }
    assert_eq!(parser.position(), 3);
    assert_eq!(parser.errors().len(), 1);
    assert_eq!(
        parser.errors()[0],
        "main.src[1, 3]:\x1b[31merror\x1b[0m --> open bracket not found\n\
         \x20 | f x)\n\
         \x20 |   ^expected left-paren, not identifier\n\
         \x20 |   info: identifier \x1b[33m(\x1b[0m expression , ... )"
    );
}

#[test]
fn array_without_an_opening_bracket() {
    let mut parser = parser_of("abc, 2]");
    match parser.collect_array() {
        Expression::Array { items } => {
            assert_eq!(items.len(), 1);
            assert_eq!(literal(&items[0]), "2");
        }
        other => panic!("{:?}", other),
    }
    assert_eq!(parser.position(), 4);
    assert_eq!(parser.errors().len(), 1);
    assert_eq!(
        parser.errors()[0],
        "main.src[1, 1]:\x1b[31merror\x1b[0m --> open bracket not found\n\
         \x20 | abc, 2]\n\
         \x20 | ^~~expected left-bracket, not identifier\n\
         \x20 | info: \x1b[33m[\x1b[0m expression , ... ]"
    );
}

#[test]
fn array_as_it_should_be() {
    let mut parser = parser_of("[a, b]");
    match parser.collect_array() {
        Expression::Array { items } => assert_eq!(items.len(), 2),
        other => panic!("{:?}", other),
    }
    assert!(parser.errors().is_empty());
}

#[test]
fn literal_takes_one_token() {
    let mut parser = parser_of("[a");
    match parser.collect_literal() {
        Expression::Literal { value } => assert_eq!(value.class, Class::LeftBracket),
        other => panic!("{:?}", other),
    }
    assert_eq!(parser.position(), 1);
    assert_eq!(literal(&parser.collect_literal()), "a");
    assert_eq!(parser.position(), 2);
}

#[test]
fn a_diagnostic_about_a_place() {
    assert_eq!(
        format_at("a.src", 120, 3, 4, "odd", "  abcd", "", &vec![]),
        "a.src[120, 3]:\x1b[31merror\x1b[0m --> odd\n\
         \x20   |   abcd\n\
         \x20   |   ^~~~"
    );
    assert_eq!(
        format_at("", 0, 0, 0, "", "", "note", &vec![]),
        "[0, 0]:\x1b[31merror\x1b[0m --> \n\x20 | \n\x20 | ^note"
    );
}

#[test]
fn lines_by_their_number() {
    let code = vec!["first".to_string(), "second".to_string()];
    assert_eq!(line_at_number(&code, 1), "first");
    assert_eq!(line_at_number(&code, 2), "second");
    assert_eq!(line_at_number(&code, 0), "");
    assert_eq!(line_at_number(&code, 3), "");
}
