use lefi::lexer::{Lexer, Token};
use lefi::market::Currency;
use lefi::nodes::Node;
use lefi::parser::Parser;

fn tokens_of(input: &str) -> Vec<Token> {
    let mut lexer = Lexer::new(input.to_string());
    lexer.tokenize().unwrap()
}

fn parse_ok(input: &str) -> Box<Node> {
    let mut parser = Parser::new(tokens_of(input));
    parser.parse().unwrap()
}

fn parse_err(input: &str) -> bool {
    let mut parser = Parser::new(tokens_of(input));
    parser.parse().is_err()
}

fn var(name: &str) -> Box<Node> {
    Box::new(Node::Variable(Vec::new(), name.to_string(), None))
}

fn cnum(v: f64) -> Box<Node> {
    Box::new(Node::Constant(v.to_bits()))
}

fn assign(lhs: Box<Node>, rhs: Box<Node>) -> Box<Node> {
    Box::new(Node::Assign(vec![lhs, rhs]))
}

fn equal(lhs: Box<Node>, rhs: Box<Node>) -> Box<Node> {
    Box::new(Node::Equal(vec![lhs, rhs]))
}

fn currency(code: &str) -> Currency {
    let chars: Vec<char> = code.chars().collect();
    Currency::from_code(&chars).unwrap()
}

#[test]
fn test_advance_token() {
    let mut parser = Parser::new(tokens_of("a = 1;"));
    assert_eq!(parser.current_token(), Token::Identifier("a".to_string()));
    parser.advance();
    assert_eq!(parser.current_token(), Token::Assign);
    parser.advance();
    assert_eq!(parser.current_token(), Token::Value(Some(1.0f64.to_bits()), None));
    parser.advance();
    assert_eq!(parser.current_token(), Token::Semicolon);
    parser.advance();
    assert_eq!(parser.current_token(), Token::EOF);
}

#[test]
fn test_advance_token_with_newlines() {
    let mut parser = Parser::new(tokens_of("a = 1;\n\n"));
    assert_eq!(parser.current_token(), Token::Identifier("a".to_string()));
    parser.advance();
    assert_eq!(parser.current_token(), Token::Assign);
    parser.advance();
    assert_eq!(parser.current_token(), Token::Value(Some(1.0f64.to_bits()), None));
    parser.advance();
    assert_eq!(parser.current_token(), Token::Semicolon);
    parser.advance();
    assert_eq!(parser.current_token(), Token::EOF);
}

#[test]
fn test_parse_empty() {
    let result = parse_ok("");
    assert!(result.tree_eq(&Node::Base(Vec::new())));
}

#[test]
fn test_handle_newline() {
    let result = parse_ok("\n\n\n");
    assert!(result.tree_eq(&Node::Base(Vec::new())));
}

#[test]
fn test_variable_assignment() {
    let expected = Node::Base(vec![assign(var("a"), cnum(1.0))]);
    assert!(parse_ok("a = 1;").tree_eq(&expected));
}

#[test]
fn test_variable_assignment_with_new_lines() {
    let expected = Node::Base(vec![assign(var("a"), cnum(1.0))]);
    assert!(parse_ok("a = 1;").tree_eq(&expected));
}

#[test]
fn test_if_statement() {
    let script = "
            if a == 1 {
                b = 2;
            }";
    let expected = Node::Base(vec![Box::new(Node::If(
        vec![equal(var("a"), cnum(1.0)), assign(var("b"), cnum(2.0))],
        None,
    ))]);
    assert!(parse_ok(script).tree_eq(&expected));
}

#[test]
fn test_if_else_statement() {
    let script = "
        if a == 1 {
            b = 2;
        } else {
            b = 3;
        }
        ";
    let expected = Node::Base(vec![Box::new(Node::If(
        vec![
            equal(var("a"), cnum(1.0)),
            assign(var("b"), cnum(2.0)),
            assign(var("b"), cnum(3.0)),
        ],
        Some(1 + 1),
    ))]);
    // The else starts after the single condition and the single then
    // statement: children[0] is the condition, children[1] the then body,
    // children[2] the else body.
    assert!(parse_ok(script).tree_eq(&expected));
}

#[test]
fn test_nested_if_else_statement() {
    let script = "
            if a == 1 {
                if b == 2 {
                    c = 3;
                }else {
                    c = 4;
                }
            } else {
                c = 5;
            }";
    let expected = Node::Base(vec![Box::new(Node::If(
        vec![
            equal(var("a"), cnum(1.0)),
            Box::new(Node::If(
                vec![
                    equal(var("b"), cnum(2.0)),
                    assign(var("c"), cnum(3.0)),
                    assign(var("c"), cnum(4.0)),
                ],
                Some(2),
            )),
            assign(var("c"), cnum(5.0)),
        ],
        Some(2),
    ))]);
    assert!(parse_ok(script).tree_eq(&expected));
}

#[test]
fn test_nested_if_else_statement_with_multiple_statements() {
    let script = "
            if a == 1 {
                if b == 2 {
                    c = 3;
                    d = 4;
                } else {
                    c = 5;
                    d = 6;
                }
            } else {
                c = 7;
                d = 8;
            }";
    let expected = Node::Base(vec![Box::new(Node::If(
        vec![
            equal(var("a"), cnum(1.0)),
            Box::new(Node::If(
                vec![
                    equal(var("b"), cnum(2.0)),
                    assign(var("c"), cnum(3.0)),
                    assign(var("d"), cnum(4.0)),
                    assign(var("c"), cnum(5.0)),
                    assign(var("d"), cnum(6.0)),
                ],
                Some(3),
            )),
            assign(var("c"), cnum(7.0)),
            assign(var("d"), cnum(8.0)),
        ],
        Some(2),
    ))]);
    assert!(parse_ok(script).tree_eq(&expected));
}

#[test]
fn test_if_multiple_conditions() {
    let script = "
            if a == 1 and b == 2 {
                c = 3;
            }";
    let expected = Node::Base(vec![Box::new(Node::If(
        vec![
            Box::new(Node::And(vec![
                equal(var("a"), cnum(1.0)),
                equal(var("b"), cnum(2.0)),
            ])),
            assign(var("c"), cnum(3.0)),
        ],
        None,
    ))]);
    assert!(parse_ok(script).tree_eq(&expected));

    let script = "
            if a == 1 or b == 2 {
                c = 3;
            }";
    let expected = Node::Base(vec![Box::new(Node::If(
        vec![
            Box::new(Node::Or(vec![
                equal(var("a"), cnum(1.0)),
                equal(var("b"), cnum(2.0)),
            ])),
            assign(var("c"), cnum(3.0)),
        ],
        None,
    ))]);
    assert!(parse_ok(script).tree_eq(&expected));
}

#[test]
fn parser_test_if_new_variable() {
    let script = "
                x = 2;
                if x == 1 {
                    z = 3;
                    w = 4;
                }
            ";
    let expected = Node::Base(vec![
        assign(var("x"), cnum(2.0)),
        Box::new(Node::If(
            vec![
                equal(var("x"), cnum(1.0)),
                assign(var("z"), cnum(3.0)),
                assign(var("w"), cnum(4.0)),
            ],
            None,
        )),
    ]);
    assert!(parse_ok(script).tree_eq(&expected));
}

#[test]
fn test_bool_variables_with_if() {
    let script = "
                x = true;
                y = false;
                if x == true {
                    z = 3;
                }
            ";
    let expected = Node::Base(vec![
        assign(var("x"), Box::new(Node::True)),
        assign(var("y"), Box::new(Node::False)),
        Box::new(Node::If(
            vec![
                equal(var("x"), Box::new(Node::True)),
                assign(var("z"), cnum(3.0)),
            ],
            None,
        )),
    ]);
    assert!(parse_ok(script).tree_eq(&expected));
}

#[test]
fn test_multiple_bool_vars() {
    let script = "
            x = true;
            y = false;
            z = x and y;
            w = x or y;
        ";
    let expected = Node::Base(vec![
        assign(var("x"), Box::new(Node::True)),
        assign(var("y"), Box::new(Node::False)),
        assign(var("z"), Box::new(Node::And(vec![var("x"), var("y")]))),
        assign(var("w"), Box::new(Node::Or(vec![var("x"), var("y")]))),
    ]);
    assert!(parse_ok(script).tree_eq(&expected));
}

#[test]
fn parser_test_max_function() {
    let script = "
            z = max(1, 2);
        ";
    let expected = Node::Base(vec![assign(
        var("z"),
        Box::new(Node::Max(vec![cnum(1.0), cnum(2.0)])),
    )]);
    assert!(parse_ok(script).tree_eq(&expected));
}

#[test]
fn test_string_variable() {
    let script = "
            x = \"hello\";
        ";
    let expected = Node::Base(vec![assign(
        var("x"),
        Box::new(Node::String("hello".to_string())),
    )]);
    assert!(parse_ok(script).tree_eq(&expected));
}

#[test]
fn test_spot_function() {
    let script = "
            x = spot(\"USD\");
        ";
    let expected = Node::Base(vec![assign(
        var("x"),
        Box::new(Node::Spot(currency("USD"), None)),
    )]);
    assert!(parse_ok(script).tree_eq(&expected));
}

#[test]
fn test_if_reserved() {
    assert!(parse_err("\n            if = 1;\n        "));
}

#[test]
fn test_else_reserved() {
    assert!(parse_err("\n            else = 1;\n        "));
}

#[test]
fn test_and_reserved() {
    assert!(parse_err("\n            and = 1;\n        "));
}

#[test]
fn test_or_reserved() {
    assert!(parse_err("\n            or = 1;\n        "));
}

#[test]
fn test_true_reserved() {
    assert!(parse_err("\n            true = 1;\n        "));
}

#[test]
fn test_false_reserved() {
    assert!(parse_err("\n            false = 1;\n        "));
}

#[test]
fn test_max_reserved() {
    assert!(parse_err("\n            max = 1;\n        "));
}

#[test]
fn test_min_reserved() {
    assert!(parse_err("\n            min = 1;\n        "));
}

#[test]
fn test_pow_reserved() {
    assert!(parse_err("\n            pow = 1;\n        "));
}

#[test]
fn test_ln_reserved() {
    assert!(parse_err("\n            ln = 1;\n        "));
}

#[test]
fn test_exp_reserved() {
    assert!(parse_err("\n            exp = 1;\n        "));
}

#[test]
fn test_spot_reserved() {
    assert!(parse_err("\n            spot = 1;\n        "));
}

#[test]
fn test_pays_reserved() {
    assert!(parse_err("\n            pays = 1;\n        "));
}

#[test]
fn test_invalid_currency_is_error() {
    assert!(parse_err("x = spot(\"us\");"));
}

#[test]
fn test_wrong_arity_is_error() {
    assert!(parse_err("x = pow(1);"));
    assert!(parse_err("x = ln(1, 2);"));
    assert!(parse_err("x = min(1);"));
}

#[test]
fn test_missing_semicolon_is_error() {
    assert!(parse_err("x = 1"));
}

#[test]
fn test_parse_script_pipeline() {
    let tree = lefi::parser::parse_script("a = 1;".to_string()).unwrap();
    let expected = Node::Base(vec![assign(var("a"), cnum(1.0))]);
    assert!(tree.tree_eq(&expected));
    assert!(lefi::parser::parse_script("@".to_string()).is_err());
}
