use script_syntax::lexer::{classify, letter, numeral, resolve, symbol_of, LexError, Lexer};
use script_syntax::token::{Class, Token};
use script_syntax::util::Split;

fn lexer_of(source: &str) -> Lexer {
    Lexer::new().init("main.src".to_string(), source.to_string())
}

fn lex(source: &str) -> Result<Vec<Token>, LexError> {
    lexer_of(source).tokenize()
}

fn classes(tokens: &[Token]) -> Vec<Class> {
    tokens.iter().map(|t| t.class).collect()
}

fn values(tokens: &[Token]) -> Vec<String> {
    tokens.iter().map(|t| t.value.clone()).collect()
}

/// The diagnostic for a lexical error in the file `main.src`.
fn block(line: usize, column: usize, complaint: &str, source_line: &str) -> String {
    let margin = " ".repeat(line.to_string().len());
    let before = " ".repeat(column - 1);
    format!(
        "main.src[{}, {}]:\x1b[31merror\x1b[0m --> {}\n{} | {}\n{} | {}^\n{} | {}info: {}",
        line,
        column,
        complaint,
        margin,
        source_line,
        margin,
        before,
        margin,
        before,
        "\x1b[33mliteral\x1b[0m"
    )
}

#[test]
fn new_lexer_is_empty() {
    let lexer = Lexer::new();
    assert_eq!(lexer.filename, "");
    assert_eq!(lexer.source, "");
    assert!(lexer.tokens().is_empty());
    assert!(lexer.errors().is_empty());
}

#[test]
fn init_sets_name_and_text() {
    let lexer = lexer_of("a b");
    assert_eq!(lexer.filename, "main.src");
    assert_eq!(lexer.source, "a b");
    assert_eq!(lexer.filename(), "main.src");
    assert_eq!(lexer.source(), "a b");
}

#[test]
fn empty_text_yields_the_closing_token() {
    let tokens = lex("").unwrap();
    assert_eq!(tokens.len(), 1);
    assert_eq!(tokens[0].class, Class::EndOfFile);
    assert_eq!(tokens[0].value, "\0");
    assert_eq!(tokens[0].index, [1, 1]);
}

#[test]
fn blank_text_yields_the_closing_token_alone() {
    let tokens = lex("  \n \n\n   ").unwrap();
    assert_eq!(classes(&tokens), vec![Class::EndOfFile]);
    assert_eq!(tokens[0].value, "\0");
    assert_eq!(tokens[0].index, [4, 4]);
}

#[test]
fn blank_text_records_no_error() {
    let mut lexer = lexer_of("\n\n  \n");
    assert!(lexer.tokenize().is_ok());
    assert!(lexer.errors().is_empty());
    assert_eq!(lexer.tokens().len(), 1);
}

#[test]
fn two_character_operators_are_one_token() {
    let cases = [
        ("->", Class::Arrow),
        ("<=", Class::ComparisonOperator),
        (">=", Class::ComparisonOperator),
        ("!=", Class::ComparisonOperator),
        ("==", Class::ComparisonOperator),
    ];
    for (text, class) in cases {
        let tokens = lex(text).unwrap();
        assert_eq!(classes(&tokens), vec![class, Class::EndOfFile]);
        assert_eq!(tokens[0].value, text);
        assert_eq!(tokens[0].index, [1, 1]);
        assert_eq!(tokens[1].index, [1, 3]);
    }
}

#[test]
fn two_character_operators_between_words() {
    let tokens = lex("a->b<=c").unwrap();
    assert_eq!(
        classes(&tokens),
        vec![
            Class::Identifier,
            Class::Arrow,
            Class::Identifier,
            Class::ComparisonOperator,
            Class::Identifier,
            Class::EndOfFile,
        ]
    );
    assert_eq!(values(&tokens), vec!["a", "->", "b", "<=", "c", "\0"]);
}

#[test]
fn single_character_operators_keep_their_class() {
    let cases = [
        ("-", Class::ArithmeticOperator),
        ("<", Class::ComparisonOperator),
        (">", Class::ComparisonOperator),
        ("!", Class::Bang),
        ("=", Class::Assign),
    ];
    for (text, class) in cases {
        let tokens = lex(text).unwrap();
        assert_eq!(classes(&tokens), vec![class, Class::EndOfFile]);
        assert_eq!(tokens[0].value, text);
    }
}

#[test]
fn operators_that_do_not_pair() {
    let tokens = lex("- > <- -= =! !<").unwrap();
    assert_eq!(
        values(&tokens),
        vec!["-", ">", "<", "-", "-", "=", "=", "!", "!", "<", "\0"]
    );
    assert_eq!(
        classes(&tokens),
        vec![
            Class::ArithmeticOperator,
            Class::ComparisonOperator,
            Class::ComparisonOperator,
            Class::ArithmeticOperator,
            Class::ArithmeticOperator,
            Class::Assign,
            Class::Assign,
            Class::Bang,
            Class::Bang,
            Class::ComparisonOperator,
            Class::EndOfFile,
        ]
    );
}

#[test]
fn three_equal_signs() {
    let tokens = lex("===").unwrap();
    assert_eq!(values(&tokens), vec!["==", "=", "\0"]);
    assert_eq!(
        classes(&tokens),
        vec![Class::ComparisonOperator, Class::Assign, Class::EndOfFile]
    );
}

#[test]
fn punctuation_maps_one_to_one() {
    let tokens = lex("[]{}().,:;+*/&|").unwrap();
    assert_eq!(
        classes(&tokens),
        vec![
            Class::LeftBracket,
            Class::RightBracket,
            Class::LeftBrace,
            Class::RightBrace,
            Class::LeftParen,
            Class::RightParen,
            Class::Dot,
            Class::Comma,
            Class::Colon,
            Class::Semicolon,
            Class::ArithmeticOperator,
            Class::ArithmeticOperator,
            Class::ArithmeticOperator,
            Class::Logic,
            Class::Logic,
            Class::EndOfFile,
        ]
    );
    for (k, token) in tokens.iter().enumerate() {
        assert_eq!(token.index, [1, k + 1]);
    }
}

#[test]
fn escapes_are_resolved() {
    let tokens = lex("\"a\\nb\"").unwrap();
    assert_eq!(classes(&tokens), vec![Class::String, Class::EndOfFile]);
    assert_eq!(tokens[0].value, "a\nb");
    assert_eq!(tokens[0].value.chars().count(), 3);
    assert_eq!(tokens[0].value.chars().filter(|c| *c == '\n').count(), 1);
}

#[test]
fn every_escape() {
    let tokens = lex("\"\\n\\t\\\\\\\"\"").unwrap();
    assert_eq!(tokens[0].class, Class::String);
    assert_eq!(tokens[0].value, "\n\t\\\"");
    assert_eq!(tokens[1].index, [1, 11]);
}

#[test]
fn empty_string_literal() {
    let tokens = lex("\"\"").unwrap();
    assert_eq!(classes(&tokens), vec![Class::String, Class::EndOfFile]);
    assert_eq!(tokens[0].value, "");
    assert_eq!(tokens[1].index, [1, 3]);
}

#[test]
fn string_over_two_lines() {
    let tokens = lex("\"a\nb\" c").unwrap();
    assert_eq!(tokens[0].value, "a\nb");
    assert_eq!(tokens[0].index, [1, 1]);
    assert_eq!(tokens[1].value, "c");
    assert_eq!(tokens[1].index, [2, 4]);
}

#[test]
fn bad_escape_is_recorded_and_skipped() {
    let mut lexer = lexer_of("\"a\\qb\" x");
    let result = lexer.tokenize();
    match result {
        Err(LexError::Lexical(lines)) => {
            assert_eq!(
                lines,
                "main.src[1, 4]:\x1b[31merror\x1b[0m --> \\q is not a valid escape sequence\n\
                 \x20 | \"a\\qb\" x\n\
                 \x20 |    ^\n\
                 \x20 |    info: \x1b[33mliteral\x1b[0m"
            );
        }
        other => panic!("{:?}", other),
    }
    assert_eq!(values(lexer.tokens()), vec!["ab", "x", "\0"]);
    assert_eq!(
        classes(lexer.tokens()),
        vec![Class::String, Class::Identifier, Class::EndOfFile]
    );
    assert_eq!(lexer.errors().len(), 1);
}

#[test]
fn bad_escape_before_the_closing_quote() {
    let mut lexer = lexer_of("\"a\\q\"");
    assert!(matches!(lexer.tokenize(), Err(LexError::Lexical(_))));
    assert_eq!(values(lexer.tokens()), vec!["a", "\0"]);
}

#[test]
fn second_dot_is_one_error_and_one_number() {
    let mut lexer = lexer_of("1.2.3");
    let result = lexer.tokenize();
    match result {
        Err(LexError::Lexical(lines)) => {
            assert_eq!(
                lines,
                block(1, 4, "too many '.' found while looking for number", "1.2.3")
            );
        }
        other => panic!("{:?}", other),
    }
    assert_eq!(lexer.errors().len(), 1);
    assert_eq!(classes(lexer.tokens()), vec![Class::Number, Class::EndOfFile]);
    assert_eq!(lexer.tokens()[0].value, "1.2.3");
}

#[test]
fn each_further_dot_is_one_error() {
    let mut lexer = lexer_of("1.2.3.4");
    assert!(lexer.tokenize().is_err());
    assert_eq!(lexer.errors().len(), 2);
    assert_eq!(
        lexer.errors()[1],
        block(1, 6, "too many '.' found while looking for number", "1.2.3.4")
    );
    assert_eq!(lexer.tokens()[0].value, "1.2.3.4");
}

#[test]
fn one_dot_is_in_order() {
    let tokens = lex("12.5 7").unwrap();
    assert_eq!(values(&tokens), vec!["12.5", "7", "\0"]);
    assert_eq!(
        classes(&tokens),
        vec![Class::Number, Class::Number, Class::EndOfFile]
    );
    assert_eq!(tokens[1].index, [1, 6]);
}

#[test]
fn dot_before_a_numeral_is_a_dot() {
    let tokens = lex(".5").unwrap();
    assert_eq!(classes(&tokens), vec![Class::Dot, Class::Number, Class::EndOfFile]);
}

#[test]
fn unterminated_string_breaks_off() {
    let mut lexer = lexer_of("x \"abc");
    let result = lexer.tokenize();
    match result {
        Err(LexError::UnterminatedString(line)) => {
            assert_eq!(
                line,
                block(1, 7, "eof found before string deliminator '\"'", "x \"abc")
            );
        }
        other => panic!("{:?}", other),
    }
    assert_eq!(classes(lexer.tokens()), vec![Class::Identifier]);
    assert_eq!(lexer.tokens()[0].value, "x");
    assert_eq!(lexer.errors().len(), 1);
}

#[test]
fn unterminated_string_after_errors() {
    let mut lexer = lexer_of("@ \"a\\");
    let result = lexer.tokenize();
    match result {
        Err(LexError::UnterminatedString(line)) => {
            assert_eq!(
                line,
                block(1, 6, "eof found before string deliminator '\"'", "@ \"a\\")
            );
        }
        other => panic!("{:?}", other),
    }
    assert!(lexer.tokens().is_empty());
    assert_eq!(lexer.errors().len(), 2);
    assert_eq!(lexer.errors()[0], block(1, 1, "unrecognized char '@'", "@ \"a\\"));
}

#[test]
fn unrecognized_characters_are_joined_by_line_feeds() {
    let mut lexer = lexer_of("a @ #\n\tb");
    let result = lexer.tokenize();
    match result {
        Err(LexError::Lexical(lines)) => {
            assert_eq!(
                lines,
                [
                    block(1, 3, "unrecognized char '@'", "a @ #"),
                    block(1, 5, "unrecognized char '#'", "a @ #"),
                    block(2, 1, "unrecognized char '\\t'", "\tb"),
                ]
                .join("\n")
            );
        }
        other => panic!("{:?}", other),
    }
    assert_eq!(values(lexer.tokens()), vec!["a", "b", "\0"]);
    assert_eq!(lexer.tokens()[1].index, [2, 2]);
}

#[test]
fn words_are_classified_as_a_whole() {
    let tokens = lex("fun set var if use pass true false funx iffy truer x1 Fun").unwrap();
    assert_eq!(
        classes(&tokens),
        vec![
            Class::Keyword,
            Class::Keyword,
            Class::Keyword,
            Class::Keyword,
            Class::Keyword,
            Class::Keyword,
            Class::Boolean,
            Class::Boolean,
            Class::Identifier,
            Class::Identifier,
            Class::Identifier,
            Class::Identifier,
            Class::Identifier,
            Class::EndOfFile,
        ]
    );
}

#[test]
fn classify_compares_the_whole_word() {
    assert_eq!(classify(&"pass".to_string()), Class::Keyword);
    assert_eq!(classify(&"pas".to_string()), Class::Identifier);
    assert_eq!(classify(&"false".to_string()), Class::Boolean);
    assert_eq!(classify(&"".to_string()), Class::Identifier);
}

#[test]
fn a_numeral_does_not_start_a_word() {
    let tokens = lex("1ab").unwrap();
    assert_eq!(values(&tokens), vec!["1", "ab", "\0"]);
    assert_eq!(
        classes(&tokens),
        vec![Class::Number, Class::Identifier, Class::EndOfFile]
    );
}

#[test]
fn lines_and_columns_count_from_one() {
    let tokens = lex("ab\n  cd\n\nx").unwrap();
    assert_eq!(tokens[0].index, [1, 1]);
    assert_eq!(tokens[1].index, [2, 3]);
    assert_eq!(tokens[2].index, [4, 1]);
    assert_eq!(tokens[3].index, [4, 2]);
    assert_eq!(tokens[3].class, Class::EndOfFile);
}

#[test]
fn a_zero_byte_ends_the_text() {
    let tokens = lex("a\0b").unwrap();
    assert_eq!(values(&tokens), vec!["a", "\0"]);
    assert_eq!(tokens[1].class, Class::EndOfFile);
    assert_eq!(tokens[1].index, [1, 2]);
}

#[test]
fn bytes_are_read_as_latin_1() {
    let mut lexer = lexer_of("\u{e9}");
    let result = lexer.tokenize();
    assert!(matches!(result, Err(LexError::Lexical(_))));
    assert_eq!(lexer.tokens()[0].class, Class::Identifier);
    assert_eq!(lexer.tokens()[0].value, "\u{c3}");
    assert_eq!(
        lexer.errors()[0],
        block(1, 2, "unrecognized char '\u{a9}'", "\u{e9}")
    );
}

#[test]
fn letters_and_numerals_are_those_of_the_characters() {
    for b in 0..=255u8 {
        let c = b as char;
        assert_eq!(letter(b), c.is_alphabetic(), "{}", b);
        assert_eq!(numeral(b), c.is_numeric(), "{}", b);
        assert_eq!(letter(b) || numeral(b), c.is_alphanumeric(), "{}", b);
    }
}

#[test]
fn symbols() {
    assert_eq!(symbol_of(b'-', b'>'), Some((Class::Arrow, 2)));
    assert_eq!(symbol_of(b'-', b'='), Some((Class::ArithmeticOperator, 1)));
    assert_eq!(symbol_of(b'<', b'='), Some((Class::ComparisonOperator, 2)));
    assert_eq!(symbol_of(b'!', b'!'), Some((Class::Bang, 1)));
    assert_eq!(symbol_of(b'=', 0), Some((Class::Assign, 1)));
    assert_eq!(symbol_of(b'a', b'='), None);
    assert_eq!(symbol_of(b' ', b' '), None);
}

#[test]
fn escape_letters() {
    assert_eq!(resolve(b'n'), Some('\n'));
    assert_eq!(resolve(b't'), Some('\t'));
    assert_eq!(resolve(b'\\'), Some('\\'));
    assert_eq!(resolve(b'"'), Some('"'));
    assert_eq!(resolve(b'r'), None);
}

#[test]
fn a_second_scan_gives_the_same() {
    let mut lexer = lexer_of("a + 1");
    let first = lexer.tokenize().unwrap();
    let second = lexer.tokenize().unwrap();
    assert_eq!(values(&first), values(&second));
    assert_eq!(lexer.tokens().len(), 4);
}

#[test]
fn tokens_can_be_read_again_from_their_lines() {
    let source = "fun add(a, b) -> a+b;\n  set x = [1.5, 22] <= y\n\nuse z != !w";
    let tokens = lex(source).unwrap();
    let lines = Split::split(source, '\n');
    let mut seen = 0;
    for token in &tokens {
        if token.class == Class::String || token.class == Class::EndOfFile {
            continue;
        }
        let line = &lines[token.index[0] - 1];
        let from = token.index[1] - 1;
        assert_eq!(&line[from..from + token.value.len()], token.value);
        seen += 1;
    }
    assert_eq!(seen, 27);
}

#[test]
fn the_closing_token_is_last_and_only_last() {
    let tokens = lex("a b c").unwrap();
    assert_eq!(tokens.last().unwrap().class, Class::EndOfFile);
    assert!(tokens[..tokens.len() - 1]
        .iter()
        .all(|t| t.class != Class::EndOfFile));
}

#[test]
fn a_diagnostic_on_a_later_line_shows_that_line() {
    let mut lexer = lexer_of("a\nb\n\n\n\n\n\n\n\n  c $ d");
    assert!(lexer.tokenize().is_err());
    assert_eq!(lexer.errors().len(), 1);
    assert_eq!(
        lexer.errors()[0],
        "main.src[10, 5]:\x1b[31merror\x1b[0m --> unrecognized char '$'\n\
         \x20  |   c $ d\n\
         \x20  |     ^\n\
         \x20  |     info: \x1b[33mliteral\x1b[0m"
    );
}

#[test]
fn a_diagnostic_at_the_end_of_the_text() {
    let mut lexer = lexer_of("a\n\"b\n");
    assert!(matches!(lexer.tokenize(), Err(LexError::UnterminatedString(_))));
    assert_eq!(
        lexer.errors()[0],
        block(3, 1, "eof found before string deliminator '\"'", "")
    );
}

#[test]
fn scan_takes_one_step() {
    let mut lexer = lexer_of("-> -\nx");
    assert!(!lexer.scan());
    assert_eq!(classes(lexer.tokens()), vec![Class::Arrow]);
    assert_eq!(lexer.tokens()[0].value, "->");
    assert_eq!(lexer.tokens()[0].index, [1, 1]);
    assert!(!lexer.scan());
    assert_eq!(lexer.tokens().len(), 1);
    assert!(!lexer.scan());
    assert_eq!(lexer.tokens()[1].class, Class::ArithmeticOperator);
    assert_eq!(lexer.tokens()[1].value, "-");
    assert_eq!(lexer.tokens()[1].index, [1, 4]);
    assert!(!lexer.scan());
    assert!(!lexer.scan());
    assert_eq!(lexer.tokens()[2].value, "x");
    assert_eq!(lexer.tokens()[2].index, [2, 1]);
    assert!(lexer.errors().is_empty());
}

#[test]
fn scan_breaks_off_in_an_open_string() {
    let mut lexer = lexer_of("\"a");
    assert!(lexer.scan());
    assert!(lexer.tokens().is_empty());
    assert_eq!(
        lexer.errors()[0],
        block(1, 3, "eof found before string deliminator '\"'", "\"a")
    );
}

#[test]
fn scan_records_what_starts_no_token() {
    let mut lexer = lexer_of("#a");
    assert!(!lexer.scan());
    assert!(lexer.tokens().is_empty());
    assert_eq!(lexer.errors()[0], block(1, 1, "unrecognized char '#'", "#a"));
    assert!(!lexer.scan());
    assert_eq!(lexer.tokens()[0].index, [1, 2]);
}

#[test]
fn the_cursor_starts_at_line_one_column_one() {
    let lexer = Lexer::new();
    assert_eq!(lexer.offset(), 0);
    assert_eq!(lexer.coordinate(), [1, 1]);
    let lexer = lexer.init("main.src".to_string(), "a\nb".to_string());
    assert_eq!(lexer.offset(), 0);
    assert_eq!(lexer.coordinate(), [1, 1]);
}

#[test]
fn the_cursor_moves_on_behind_the_closing_token() {
    let mut lexer = lexer_of("ab\nc");
    lexer.tokenize().unwrap();
    assert_eq!(lexer.offset(), 5);
    assert_eq!(lexer.coordinate(), [2, 3]);

    let mut lexer = lexer_of("");
    lexer.tokenize().unwrap();
    assert_eq!(lexer.offset(), 1);
    assert_eq!(lexer.coordinate(), [1, 2]);

    let mut lexer = lexer_of("a\n");
    lexer.tokenize().unwrap();
    assert_eq!(lexer.tokens()[1].index, [2, 1]);
    assert_eq!(lexer.offset(), 3);
    assert_eq!(lexer.coordinate(), [2, 2]);
}

#[test]
fn the_cursor_stays_where_the_scan_broke_off() {
    let mut lexer = lexer_of("a \"bc");
    assert!(lexer.tokenize().is_err());
    assert_eq!(lexer.offset(), 5);
    assert_eq!(lexer.coordinate(), [1, 6]);
}

#[test]
fn scan_moves_the_cursor_over_the_step() {
    let mut lexer = lexer_of("<= 12.5");
    lexer.scan();
    assert_eq!(lexer.offset(), 2);
    assert_eq!(lexer.coordinate(), [1, 3]);
    lexer.scan();
    lexer.scan();
    assert_eq!(lexer.offset(), 7);
    assert_eq!(lexer.coordinate(), [1, 8]);
}
