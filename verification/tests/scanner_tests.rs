use ferrugem::scanner::{keyword_type, LiteralValue, Scanner, Token, TokenType};

fn scan(source: &str) -> Vec<Token> {
    Scanner::new(source).scan_tokens().unwrap()
}

fn kinds(source: &str) -> Vec<TokenType> {
    scan(source).iter().map(|t| t.token_type).collect()
}

fn scan_error(source: &str) -> String {
    match Scanner::new(source).scan_tokens() {
        Ok(_) => panic!("the scan went through"),
        Err(message) => message,
    }
}

#[test]
fn empty_source_is_eof_alone() {
    let tokens = scan("");
    assert_eq!(tokens.len(), 1);
    assert_eq!(tokens[0].token_type, TokenType::Eof);
    assert_eq!(tokens[0].lexeme, "");
    assert_eq!(tokens[0].line_number, 1);
    assert!(tokens[0].literal.is_none());
}

#[test]
fn single_character_tokens() {
    assert_eq!(
        kinds("(){},.-+;/*"),
        vec![
            TokenType::LeftParen,
            TokenType::RightParen,
            TokenType::LeftBrace,
            TokenType::RightBrace,
            TokenType::Comma,
            TokenType::Dot,
            TokenType::Minus,
            TokenType::Plus,
            TokenType::Semicolon,
            TokenType::Slash,
            TokenType::Star,
            TokenType::Eof,
        ]
    );
}

#[test]
fn compound_tokens() {
    assert_eq!(
        kinds("! != = == < <= > >= |>"),
        vec![
            TokenType::Bang,
            TokenType::BangEqual,
            TokenType::Equal,
            TokenType::EqualEqual,
            TokenType::Less,
            TokenType::LessEqual,
            TokenType::Greater,
            TokenType::GreaterEqual,
            TokenType::Pipe,
            TokenType::Eof,
        ]
    );
}

#[test]
fn three_equals_are_two_tokens() {
    let tokens = scan("===");
    assert_eq!(tokens[0].token_type, TokenType::EqualEqual);
    assert_eq!(tokens[0].lexeme, "==");
    assert_eq!(tokens[1].token_type, TokenType::Equal);
    assert_eq!(tokens[1].lexeme, "=");
}

#[test]
fn keywords_of_the_language() {
    assert_eq!(
        kinds("e ou senao falso verdadeiro nulo para funcao se enquanto saida limpar retorna classe este super var recebe"),
        vec![
            TokenType::And,
            TokenType::Or,
            TokenType::Else,
            TokenType::False,
            TokenType::True,
            TokenType::Nil,
            TokenType::For,
            TokenType::Fun,
            TokenType::If,
            TokenType::While,
            TokenType::Print,
            TokenType::Limpar,
            TokenType::Return,
            TokenType::Class,
            TokenType::This,
            TokenType::Super,
            TokenType::Var,
            TokenType::Gets,
            TokenType::Eof,
        ]
    );
}

#[test]
fn words_that_are_no_keywords() {
    let tokens = scan("ee _x saida2 Se x_1");
    for token in &tokens[..5] {
        assert_eq!(token.token_type, TokenType::Identifier);
        assert!(token.literal.is_none());
    }
    assert_eq!(tokens[0].lexeme, "ee");
    assert_eq!(tokens[1].lexeme, "_x");
    assert_eq!(tokens[2].lexeme, "saida2");
    assert_eq!(tokens[3].lexeme, "Se");
    assert_eq!(tokens[4].lexeme, "x_1");
}

#[test]
fn keyword_type_of_a_word() {
    assert_eq!(keyword_type(&"classe".to_string()), TokenType::Class);
    assert_eq!(keyword_type(&"class".to_string()), TokenType::Identifier);
    assert_eq!(keyword_type(&"".to_string()), TokenType::Identifier);
}

#[test]
fn number_keeps_its_text() {
    let tokens = scan("12 3.25 007");
    assert_eq!(tokens[0].token_type, TokenType::Number);
    assert_eq!(tokens[0].lexeme, "12");
    match &tokens[0].literal {
        Some(LiteralValue::FValue(text)) => assert_eq!(text, "12"),
        other => panic!("{:?}", other),
    }
    assert_eq!(tokens[1].lexeme, "3.25");
    match &tokens[1].literal {
        Some(LiteralValue::FValue(text)) => assert_eq!(text, "3.25"),
        other => panic!("{:?}", other),
    }
    assert_eq!(tokens[2].lexeme, "007");
    assert_eq!(tokens.len(), 4);
}

#[test]
fn dot_without_digit_is_no_fraction() {
    let tokens = scan("1.x 2.");
    assert_eq!(tokens[0].token_type, TokenType::Number);
    assert_eq!(tokens[0].lexeme, "1");
    assert_eq!(tokens[1].token_type, TokenType::Dot);
    assert_eq!(tokens[2].token_type, TokenType::Identifier);
    assert_eq!(tokens[3].token_type, TokenType::Number);
    assert_eq!(tokens[3].lexeme, "2");
    assert_eq!(tokens[4].token_type, TokenType::Dot);
    assert_eq!(tokens[5].token_type, TokenType::Eof);
}

#[test]
fn string_literal_without_its_quotes() {
    let tokens = scan("\"ola mundo\"");
    assert_eq!(tokens[0].token_type, TokenType::StringLit);
    assert_eq!(tokens[0].lexeme, "\"ola mundo\"");
    match &tokens[0].literal {
        Some(LiteralValue::SValue(text)) => assert_eq!(text, "ola mundo"),
        other => panic!("{:?}", other),
    }
}

#[test]
fn string_keeps_backslashes() {
    let tokens = scan("\"a\\nb\"");
    match &tokens[0].literal {
        Some(LiteralValue::SValue(text)) => assert_eq!(text, "a\\nb"),
        other => panic!("{:?}", other),
    }
}

#[test]
fn string_with_letters_beyond_ascii() {
    let tokens = scan("\"instância\" x");
    match &tokens[0].literal {
        Some(LiteralValue::SValue(text)) => assert_eq!(text, "instância"),
        other => panic!("{:?}", other),
    }
    assert_eq!(tokens[1].lexeme, "x");
}

#[test]
fn comment_runs_to_the_end_of_the_line() {
    let tokens = scan("a // b c d\ne");
    assert_eq!(tokens.len(), 3);
    assert_eq!(tokens[0].lexeme, "a");
    assert_eq!(tokens[1].lexeme, "e");
    assert_eq!(tokens[1].line_number, 2);
}

#[test]
fn comment_at_the_end_of_the_source() {
    assert_eq!(kinds("1 // fim"), vec![TokenType::Number, TokenType::Eof]);
}

#[test]
fn slash_alone_is_a_token() {
    assert_eq!(
        kinds("8 / 2"),
        vec![TokenType::Number, TokenType::Slash, TokenType::Number, TokenType::Eof]
    );
}

#[test]
fn line_is_one_more_than_the_newlines_before() {
    let source = "a\n\nb c\n  d\r\n\te";
    let tokens = scan(source);
    let lines: Vec<usize> = tokens.iter().map(|t| t.line_number).collect();
    assert_eq!(lines, vec![1, 3, 3, 4, 5, 5]);
    // Each token starts where its lexeme stands, on the line counted.
    let mut from = 0;
    for token in &tokens[..5] {
        let at = from + source[from..].find(token.lexeme.as_str()).unwrap();
        let before = source[..at].bytes().filter(|b| *b == b'\n').count();
        assert_eq!(token.line_number, 1 + before);
        from = at + token.lexeme.len();
    }
}

#[test]
fn string_over_lines_has_the_line_of_its_start() {
    let tokens = scan("x\n\"a\nb\"\ny");
    assert_eq!(tokens[1].token_type, TokenType::StringLit);
    assert_eq!(tokens[1].line_number, 2);
    assert_eq!(tokens[2].lexeme, "y");
    assert_eq!(tokens[2].line_number, 4);
    assert_eq!(tokens[3].token_type, TokenType::Eof);
    assert_eq!(tokens[3].line_number, 4);
}

#[test]
fn unexpected_character_is_an_error() {
    assert_eq!(scan_error("var a = 1;\n  @"), "Line 2: Caractere inesperado: @");
    assert_eq!(scan_error("a | b"), "Line 1: Caractere inesperado: |");
    assert_eq!(scan_error("á"), "Line 1: Caractere inesperado: á");
}

#[test]
fn first_error_ends_the_scan() {
    assert_eq!(scan_error("#\n$"), "Line 1: Caractere inesperado: #");
}

#[test]
fn string_without_end_is_an_error() {
    assert_eq!(scan_error("\n\"abc\n\n"), "Line 2: Texto sem aspas finais");
}

#[test]
fn line_numbers_with_many_digits() {
    let mut source = String::new();
    for _ in 0..1204 {
        source.push('\n');
    }
    source.push('?');
    assert_eq!(scan_error(&source), "Line 1205: Caractere inesperado: ?");
}
