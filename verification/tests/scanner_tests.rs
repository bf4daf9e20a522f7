use tox::scanner::{is_alpha, is_alpha_num, is_digit, LexError, LiteralValue, Scanner, Token, TokenType};

fn scan(source: &str) -> Vec<Token> {
    let mut scanner = Scanner::new(source);
    scanner.scan_tokens().unwrap()
}

fn kinds(source: &str) -> Vec<TokenType> {
    scan(source).iter().map(|t| t.token_type).collect()
}

#[test]
fn handle_single_char_tokens() {
    let source = "(){}=/-+*.,;";
    let tokens = scan(source);

    assert_eq!(tokens.len(), source.len() + 1);
    assert_eq!(tokens[0].token_type, TokenType::LeftParen);
    assert_eq!(tokens[1].token_type, TokenType::RightParen);
    assert_eq!(tokens[2].token_type, TokenType::LeftBrace);
    assert_eq!(tokens[3].token_type, TokenType::RightBrace);
    assert_eq!(tokens[4].token_type, TokenType::Equal);
    assert_eq!(tokens[5].token_type, TokenType::Slash);
    assert_eq!(tokens[6].token_type, TokenType::Minus);
    assert_eq!(tokens[7].token_type, TokenType::Plus);
    assert_eq!(tokens[8].token_type, TokenType::Star);
    assert_eq!(tokens[9].token_type, TokenType::Dot);
    assert_eq!(tokens[10].token_type, TokenType::Comma);
    assert_eq!(tokens[11].token_type, TokenType::Semicolon);
    assert_eq!(tokens[12].token_type, TokenType::Eof);
}

#[test]
fn handle_double_char_tokens() {
    let source = "== >= <= != // this is a comment";
    let tokens = scan(source);

    assert_eq!(tokens.len(), 5);
    assert_eq!(tokens[0].token_type, TokenType::EqualEqual);
    assert_eq!(tokens[1].token_type, TokenType::GreaterEqual);
    assert_eq!(tokens[2].token_type, TokenType::LessEqual);
    assert_eq!(tokens[3].token_type, TokenType::BangEqual);
    assert_eq!(tokens[4].token_type, TokenType::Eof);
}

#[test]
fn check_is_digit() {
    assert_eq!(is_digit('0'), true);
    assert_eq!(is_digit('1'), true);
    assert_eq!(is_digit('2'), true);
    assert_eq!(is_digit('3'), true);
    assert_eq!(is_digit('4'), true);
    assert_eq!(is_digit('5'), true);
    assert_eq!(is_digit('6'), true);
    assert_eq!(is_digit('7'), true);
    assert_eq!(is_digit('8'), true);
    assert_eq!(is_digit('9'), true);
    assert_eq!(is_digit('i'), false);
}

#[test]
fn check_is_alpha() {
    assert_eq!(is_alpha('a'), true);
    assert_eq!(is_alpha('z'), true);
    assert_eq!(is_alpha('A'), true);
    assert_eq!(is_alpha('Z'), true);
    assert_eq!(is_alpha('-'), false);
    assert_eq!(is_alpha('f'), true);
    assert_eq!(is_alpha('F'), true);
}

#[test]
fn check_is_alpha_num() {
    assert!(is_alpha_num('_'));
    assert!(is_alpha_num('7'));
    assert!(is_alpha_num('q'));
    assert!(!is_alpha_num(' '));
    assert!(!is_alpha_num('.'));
    assert!(!is_digit('/'));
    assert!(!is_digit(':'));
    assert!(!is_alpha('@'));
    assert!(!is_alpha('['));
    assert!(!is_alpha('`'));
    assert!(!is_alpha('{'));
}

#[test]
fn string_literal_test() {
    let source = "\"Hello world\" ";
    let tokens = scan(source);

    assert_eq!(tokens.len(), 2);
    assert_eq!(tokens[0].token_type, TokenType::String_);
    assert_eq!(tokens[1].token_type, TokenType::Eof);
}

#[test]
fn string_literal_multilind_test() {
    let source = "\"Hello\nWorld\"\n";
    let tokens = scan(source);

    assert_eq!(tokens.len(), 2);
    assert_eq!(tokens[0].token_type, TokenType::String_);
    assert_eq!(tokens[1].token_type, TokenType::Eof);
}

#[test]
fn number_literal_test() {
    let source = "123.321\n432432.43242\n5.\n1\n.1";
    let tokens = scan(source);

    assert_eq!(tokens.len(), 8);
    assert_eq!(tokens[0].token_type, TokenType::Number);
    assert_eq!(tokens[1].token_type, TokenType::Number);
    assert_eq!(tokens[2].token_type, TokenType::Number);
    assert_eq!(tokens[3].token_type, TokenType::Dot);
    assert_eq!(tokens[4].token_type, TokenType::Number);
    assert_eq!(tokens[5].token_type, TokenType::Dot);
    assert_eq!(tokens[6].token_type, TokenType::Number);
    assert_eq!(tokens[7].token_type, TokenType::Eof);
}

#[test]
fn identifier_test() {
    let source = "hello this_ is a var_ and or class else if true false for nil print return func this while super var";
    let tokens = scan(source);

    assert_eq!(tokens.len(), 22);
    assert_eq!(tokens[0].token_type, TokenType::Identifier);
    assert_eq!(tokens[1].token_type, TokenType::Identifier);
    assert_eq!(tokens[2].token_type, TokenType::Identifier);
    assert_eq!(tokens[3].token_type, TokenType::Identifier);
    assert_eq!(tokens[4].token_type, TokenType::Identifier);
    assert_eq!(tokens[5].token_type, TokenType::And);
    assert_eq!(tokens[6].token_type, TokenType::Or);
    assert_eq!(tokens[7].token_type, TokenType::Class);
    assert_eq!(tokens[8].token_type, TokenType::Else);
    assert_eq!(tokens[9].token_type, TokenType::If);
    assert_eq!(tokens[10].token_type, TokenType::True);
    assert_eq!(tokens[11].token_type, TokenType::False);
    assert_eq!(tokens[12].token_type, TokenType::For);
    assert_eq!(tokens[13].token_type, TokenType::Nil);
    assert_eq!(tokens[14].token_type, TokenType::Print);
    assert_eq!(tokens[15].token_type, TokenType::Return);
    assert_eq!(tokens[16].token_type, TokenType::Func);
    assert_eq!(tokens[17].token_type, TokenType::This);
    assert_eq!(tokens[18].token_type, TokenType::While);
    assert_eq!(tokens[19].token_type, TokenType::Super);
    assert_eq!(tokens[20].token_type, TokenType::Var);
    assert_eq!(tokens[21].token_type, TokenType::Eof);
}

#[test]
fn full_test() {
    let source = "var x = 10;\nwhile x>1 { print(\"hello\"); }";
    let tokens = scan(source);

    assert_eq!(tokens.len(), 17);
    assert_eq!(tokens[0].token_type, TokenType::Var);
    assert_eq!(tokens[1].token_type, TokenType::Identifier);
    assert_eq!(tokens[2].token_type, TokenType::Equal);
    assert_eq!(tokens[3].token_type, TokenType::Number);
    assert_eq!(tokens[4].token_type, TokenType::Semicolon);
    assert_eq!(tokens[5].token_type, TokenType::While);
    assert_eq!(tokens[6].token_type, TokenType::Identifier);
    assert_eq!(tokens[7].token_type, TokenType::Greater);
    assert_eq!(tokens[8].token_type, TokenType::Number);
    assert_eq!(tokens[9].token_type, TokenType::LeftBrace);
    assert_eq!(tokens[10].token_type, TokenType::Print);
    assert_eq!(tokens[11].token_type, TokenType::LeftParen);
    assert_eq!(tokens[12].token_type, TokenType::String_);
    assert_eq!(tokens[13].token_type, TokenType::RightParen);
    assert_eq!(tokens[14].token_type, TokenType::Semicolon);
    assert_eq!(tokens[15].token_type, TokenType::RightBrace);
    assert_eq!(tokens[16].token_type, TokenType::Eof);
}

#[test]
fn dot_before_digits_is_a_dot() {
    let tokens = scan(".1");
    assert_eq!(tokens.len(), 3);
    assert_eq!(tokens[0].token_type, TokenType::Dot);
    assert_eq!(tokens[0].lexeme, ".");
    assert_eq!(tokens[1].token_type, TokenType::Number);
    assert_eq!(tokens[1].lexeme, "1");
    assert_eq!(tokens[2].token_type, TokenType::Eof);
}

#[test]
fn number_keeps_its_fraction() {
    let tokens = scan("123.321 7");
    assert_eq!(tokens[0].lexeme, "123.321");
    assert!(tokens[0].literal.is_none());
    assert_eq!(tokens[1].lexeme, "7");
}

#[test]
fn trailing_dot_is_not_part_of_a_number() {
    assert_eq!(kinds("5."), vec![TokenType::Number, TokenType::Dot, TokenType::Eof]);
    assert_eq!(kinds("5.."), vec![TokenType::Number, TokenType::Dot, TokenType::Dot, TokenType::Eof]);
    assert_eq!(kinds("1.2.3"), vec![TokenType::Number, TokenType::Dot, TokenType::Number, TokenType::Eof]);
}

#[test]
fn longest_operator_wins() {
    assert_eq!(
        kinds("= == === ! != < <= > >="),
        vec![
            TokenType::Equal,
            TokenType::EqualEqual,
            TokenType::EqualEqual,
            TokenType::Equal,
            TokenType::Bang,
            TokenType::BangEqual,
            TokenType::Less,
            TokenType::LessEqual,
            TokenType::Greater,
            TokenType::GreaterEqual,
            TokenType::Eof,
        ]
    );
}

#[test]
fn comment_runs_to_the_end_of_its_line() {
    let tokens = scan("1 // two three\n4 / 5");
    let got: Vec<TokenType> = tokens.iter().map(|t| t.token_type).collect();
    assert_eq!(
        got,
        vec![TokenType::Number, TokenType::Number, TokenType::Slash, TokenType::Number, TokenType::Eof]
    );
    assert_eq!(tokens[0].line_number, 1);
    assert_eq!(tokens[1].line_number, 2);
    assert_eq!(tokens[4].line_number, 2);
}

#[test]
fn string_literal_holds_its_content() {
    let tokens = scan("\"a\\nb\" \"\"");
    assert_eq!(tokens.len(), 3);
    assert_eq!(tokens[0].lexeme, "\"a\\nb\"");
    match &tokens[0].literal {
        Some(LiteralValue::StringValue(s)) => assert_eq!(s, "a\\nb"),
        other => panic!("unexpected literal {:?}", other),
    }
    match &tokens[1].literal {
        Some(LiteralValue::StringValue(s)) => assert_eq!(s, ""),
        other => panic!("unexpected literal {:?}", other),
    }
}

#[test]
fn string_at_the_very_end_is_terminated() {
    let tokens = scan("\"abc\"");
    assert_eq!(tokens.len(), 2);
    assert_eq!(tokens[0].token_type, TokenType::String_);
}

#[test]
fn string_token_is_put_on_the_line_where_it_ends() {
    let tokens = scan("\"a\nb\nc\" x");
    assert_eq!(tokens[0].line_number, 3);
    assert_eq!(tokens[1].line_number, 3);
}

#[test]
fn non_ascii_text_inside_a_string() {
    let tokens = scan("\"héllo ✓\"");
    match &tokens[0].literal {
        Some(LiteralValue::StringValue(s)) => assert_eq!(s, "héllo ✓"),
        other => panic!("unexpected literal {:?}", other),
    }
}

#[test]
fn unterminated_string_is_an_error_on_its_first_line() {
    let mut scanner = Scanner::new("1\n\"abc\ndef");
    let errors = scanner.scan_tokens().unwrap_err();
    assert_eq!(errors, vec![LexError::UnterminatedString { line: 2 }]);
    assert_eq!(errors[0].message(), "String is not terminated at line 2");
}

#[test]
fn all_lexical_errors_are_reported_together() {
    let mut scanner = Scanner::new("var a = @;\nvar b = #;\n\"open");
    let errors = scanner.scan_tokens().unwrap_err();
    assert_eq!(
        errors,
        vec![
            LexError::UnrecognisedChar { ch: '@', line: 1 },
            LexError::UnrecognisedChar { ch: '#', line: 2 },
            LexError::UnterminatedString { line: 3 },
        ]
    );
    assert_eq!(
        LexError::report(&errors),
        "Unrecognised char @ at line 1\nUnrecognised char # at line 2\nString is not terminated at line 3\n"
    );
}

#[test]
fn empty_source_is_the_end_marker_alone() {
    let tokens = scan("");
    assert_eq!(tokens.len(), 1);
    assert_eq!(tokens[0].token_type, TokenType::Eof);
    assert_eq!(tokens[0].lexeme, "");
    assert_eq!(tokens[0].line_number, 1);
}

#[test]
fn token_is_written_out_with_type_lexeme_and_literal() {
    let tokens = scan("abc \"x\"");
    assert_eq!(tokens[0].to_string(), "Identifier abc None");
    assert_eq!(tokens[1].to_string(), "String_ \"x\" Some(StringValue(\"x\"))");
    assert_eq!(TokenType::LeftParen.to_string(), "LeftParen");
    assert_eq!(TokenType::Eof.name(), "Eof");
}
