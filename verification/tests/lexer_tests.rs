use lefi::lexer::{Lexer, Token};

fn num(v: f64) -> Token {
    Token::Value(Some(v.to_bits()), None)
}

fn tokens_of(input: &str) -> Vec<Token> {
    let mut lexer = Lexer::new(input.to_string());
    lexer.tokenize().unwrap()
}

#[test]
fn test_simple_operators() {
    let expected_tokens = vec![
        Token::Plus,
        Token::Minus,
        Token::Multiply,
        Token::Divide,
        Token::Assign,
        Token::Equal,
        Token::Semicolon,
    ];
    assert_eq!(tokens_of("+ - * / = == ;"), expected_tokens);
}

#[test]
fn test_numerical_literals() {
    let expected_tokens = vec![num(123.0), num(4.56)];
    assert_eq!(tokens_of("123 4.56"), expected_tokens);
}

#[test]
fn test_identifiers_and_keywords() {
    let expected_tokens = vec![
        Token::Identifier("x".to_string()),
        Token::If,
        Token::Else,
        Token::And,
        Token::Or,
        Token::Not,
        Token::Value(None, Some(true)),
        Token::Value(None, Some(false)),
    ];
    assert_eq!(tokens_of("x if else and or not true false"), expected_tokens);
}

#[test]
fn test_mixed_input() {
    let expected_tokens = vec![
        Token::If,
        Token::OpenParen,
        Token::Identifier("x".to_string()),
        Token::Superior,
        num(100.0),
        Token::CloseParen,
        Token::OpenCurlyParen,
        Token::Identifier("x".to_string()),
        Token::Assign,
        num(100.0),
        Token::Semicolon,
        Token::CloseCurlyParen,
        Token::Else,
        Token::OpenCurlyParen,
        Token::Identifier("x".to_string()),
        Token::Assign,
        num(0.0),
        Token::Semicolon,
        Token::CloseCurlyParen,
    ];
    assert_eq!(
        tokens_of("if (x > 100) { x = 100; } else { x = 0; }"),
        expected_tokens
    );
}

#[test]
fn test_invalid_input() {
    let mut lexer = Lexer::new("@".to_string());
    let err = lexer.tokenize();
    assert!(err.is_err());
}

#[test]
fn test_whitespace() {
    let expected_tokens = vec![num(1.0), Token::Plus, num(2.0)];
    assert_eq!(tokens_of("  1  + 2  "), expected_tokens);
}

#[test]
fn test_comparison_operators() {
    let expected_tokens = vec![
        Token::Inferior,
        Token::Superior,
        Token::InferiorOrEqual,
        Token::SuperiorOrEqual,
    ];
    assert_eq!(tokens_of("< > <= >="), expected_tokens);
}

#[test]
fn test_logical_operators() {
    assert_eq!(tokens_of("and or not"), vec![Token::And, Token::Or, Token::Not]);
}

#[test]
fn test_parentheses() {
    let expected_tokens = vec![
        Token::OpenParen,
        Token::CloseParen,
        Token::OpenCurlyParen,
        Token::CloseCurlyParen,
    ];
    assert_eq!(tokens_of("( ) { }"), expected_tokens);
}

#[test]
fn test_assignment() {
    let expected_tokens = vec![
        Token::Identifier("x".to_string()),
        Token::Assign,
        num(10.0),
        Token::Semicolon,
    ];
    assert_eq!(tokens_of("x = 10;"), expected_tokens);
}

#[test]
fn test_long_var_names() {
    let expected_tokens = vec![
        Token::Identifier("long_variable_name".to_string()),
        Token::Assign,
        num(10.0),
        Token::Semicolon,
    ];
    assert_eq!(tokens_of("long_variable_name = 10;"), expected_tokens);
}

#[test]
fn test_var_names_spaces() {
    let expected_tokens = vec![
        Token::Identifier("var_1".to_string()),
        Token::Identifier("var_2".to_string()),
    ];
    assert_eq!(tokens_of("var_1 var_2"), expected_tokens);
}

#[test]
fn test_var_names_front_invalid_char() {
    let expected_tokens = vec![
        num(1.0),
        Token::Identifier("var_1".to_string()),
        num(2.0),
        Token::Identifier("var_2".to_string()),
    ];
    assert_eq!(tokens_of("1var_1 2var_2"), expected_tokens);
}

#[test]
fn test_var_names_back_invalid_char() {
    let expected_tokens = vec![
        Token::Identifier("var_1_".to_string()),
        Token::Identifier("var_2_".to_string()),
    ];
    assert_eq!(tokens_of("var_1_ var_2_"), expected_tokens);
}

#[test]
fn test_boolean_literals() {
    let expected_tokens = vec![Token::Value(None, Some(true)), Token::Value(None, Some(false))];
    assert_eq!(tokens_of("true false"), expected_tokens);
}

#[test]
fn test_and_not() {
    assert_eq!(tokens_of("and not"), vec![Token::And, Token::Not]);
}

#[test]
fn test_and_not_with_vars() {
    let expected_tokens = vec![
        Token::Identifier("x".to_string()),
        Token::Assign,
        Token::Identifier("y".to_string()),
        Token::And,
        Token::Identifier("z".to_string()),
    ];
    assert_eq!(tokens_of("x = y and z"), expected_tokens);
}

#[test]
fn test_new_lines() {
    let expected_tokens = vec![
        Token::Identifier("x".to_string()),
        Token::Assign,
        num(10.0),
        Token::Semicolon,
        Token::Newline,
        Token::Identifier("y".to_string()),
        Token::Assign,
        num(20.0),
        Token::Semicolon,
    ];
    assert_eq!(tokens_of("x = 10;\n y = 20;"), expected_tokens);
}

#[test]
fn test_and_not_with_vars_2() {
    let input = "x = true;
            y = false;
            z = x and y;
            w = x or y;";
    let expected_tokens = vec![
        Token::Identifier("x".to_string()),
        Token::Assign,
        Token::Value(None, Some(true)),
        Token::Semicolon,
        Token::Newline,
        Token::Identifier("y".to_string()),
        Token::Assign,
        Token::Value(None, Some(false)),
        Token::Semicolon,
        Token::Newline,
        Token::Identifier("z".to_string()),
        Token::Assign,
        Token::Identifier("x".to_string()),
        Token::And,
        Token::Identifier("y".to_string()),
        Token::Semicolon,
        Token::Newline,
        Token::Identifier("w".to_string()),
        Token::Assign,
        Token::Identifier("x".to_string()),
        Token::Or,
        Token::Identifier("y".to_string()),
        Token::Semicolon,
    ];
    assert_eq!(tokens_of(input), expected_tokens);
}

#[test]
fn test_skipt_coments() {
    assert_eq!(tokens_of(" 1 #+ 2 "), vec![num(1.0)]);
    assert_eq!(tokens_of(" 1 ###+ 2## "), vec![num(1.0)]);
}

#[test]
fn test_power_operator() {
    assert_eq!(tokens_of("2 ** 3"), vec![num(2.0), Token::Power, num(3.0)]);
}

#[test]
fn test_power_operator_with_parentheses() {
    let expected_tokens = vec![
        Token::OpenParen,
        num(2.0),
        Token::Plus,
        num(3.0),
        Token::CloseParen,
        Token::Power,
        num(2.0),
    ];
    assert_eq!(tokens_of("(2 + 3) ** 2"), expected_tokens);
}

#[test]
fn lexer_test_max_function() {
    let expected_tokens = vec![
        Token::Identifier("max".to_string()),
        Token::OpenParen,
        num(2.0),
        Token::Comma,
        num(3.0),
        Token::CloseParen,
    ];
    assert_eq!(tokens_of("max(2, 3)"), expected_tokens);
}

#[test]
fn test_pays() {
    assert_eq!(tokens_of("pays"), vec![Token::Pays]);
}

#[test]
fn test_string_literals() {
    assert_eq!(tokens_of("\"hello\""), vec![Token::String("hello".to_string())]);
}

#[test]
fn test_string_literals_with_spaces() {
    assert_eq!(
        tokens_of("\"hello world\""),
        vec![Token::String("hello world".to_string())]
    );
}

#[test]
fn test_string_literals_with_special_chars() {
    assert_eq!(
        tokens_of("\"hello world!\""),
        vec![Token::String("hello world!".to_string())]
    );
}

#[test]
fn test_unterminated_string_is_error() {
    let mut lexer = Lexer::new("\"hello".to_string());
    assert!(lexer.tokenize().is_err());
}

#[test]
fn test_lone_bang_is_error() {
    let mut lexer = Lexer::new("1 ! 2".to_string());
    let err = lexer.tokenize().unwrap_err();
    assert_eq!(err.message(), "Invalid Syntax: Invalid character: !");
}

#[test]
fn test_malformed_number_is_error() {
    let mut lexer = Lexer::new("1.2.3".to_string());
    let err = lexer.tokenize().unwrap_err();
    assert_eq!(err.message(), "Error while parsing: invalid float literal");
}

#[test]
fn test_trailing_dot_number() {
    assert_eq!(tokens_of("1."), vec![num(1.0)]);
}

#[test]
fn test_leading_zero_number() {
    assert_eq!(tokens_of("007 0.5"), vec![num(7.0), num(0.5)]);
}
