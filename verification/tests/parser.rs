use tinycalc::ast::{ASTNode, ParseError};
use tinycalc::token::Token;

fn num(value: f64) -> Token {
    Token::NumericLiteral(value.to_bits())
}

fn ident(name: &str) -> Token {
    Token::Identifier(name.to_string())
}

fn number(value: f64) -> ASTNode {
    ASTNode::Number(value.to_bits())
}

fn bin(lhs: ASTNode, op: Token, rhs: ASTNode) -> ASTNode {
    ASTNode::BinaryExpr { lhs: Box::new(lhs), op, rhs: Box::new(rhs) }
}

/// A reference evaluator over closed arithmetic trees, standing in for the
/// external evaluator that consumes the AST.
fn eval(node: &ASTNode) -> f64 {
    match node {
        ASTNode::Number(bits) => f64::from_bits(*bits),
        ASTNode::BinaryExpr { lhs, op, rhs } => {
            let a = eval(lhs);
            let b = eval(rhs);
            match op {
                Token::OpAdd => a + b,
                Token::OpSubtract => a - b,
                Token::OpMultiply => a * b,
                Token::OpDivide => a / b,
                other => panic!("non-arithmetic operator {other:?}"),
            }
        }
        other => panic!("not a closed expression: {other:?}"),
    }
}

#[test]
fn precedence_multiplication_binds_tighter() {
    let tokens = [num(2.0), Token::OpAdd, num(3.0), Token::OpMultiply, num(4.0)];
    let tree = ASTNode::try_from(&tokens).unwrap();
    let expected = bin(number(2.0), Token::OpAdd, bin(number(3.0), Token::OpMultiply, number(4.0)));
    assert_eq!(tree, expected);
    let wrong = bin(bin(number(2.0), Token::OpAdd, number(3.0)), Token::OpMultiply, number(4.0));
    assert_ne!(tree, wrong);
    assert_eq!(eval(&tree), 14.0);
}

#[test]
fn subtraction_is_left_associative() {
    let tokens = [num(8.0), Token::OpSubtract, num(3.0), Token::OpSubtract, num(2.0)];
    let tree = ASTNode::try_from(&tokens).unwrap();
    let expected = bin(bin(number(8.0), Token::OpSubtract, number(3.0)), Token::OpSubtract, number(2.0));
    assert_eq!(tree, expected);
    let wrong = bin(number(8.0), Token::OpSubtract, bin(number(3.0), Token::OpSubtract, number(2.0)));
    assert_ne!(tree, wrong);
    assert_eq!(eval(&tree), 3.0);
}

#[test]
fn division_is_left_associative() {
    let tokens = [num(8.0), Token::OpDivide, num(2.0), Token::OpDivide, num(2.0)];
    let tree = ASTNode::try_from(&tokens).unwrap();
    let expected = bin(bin(number(8.0), Token::OpDivide, number(2.0)), Token::OpDivide, number(2.0));
    assert_eq!(tree, expected);
    assert_eq!(eval(&tree), 2.0);
}

#[test]
fn parenthesization_round_trip() {
    let wrapped = [Token::OpenParen, num(1.0), Token::OpAdd, num(2.0), Token::CloseParen];
    let bare = [num(1.0), Token::OpAdd, num(2.0)];
    let wrapped_tree = ASTNode::try_from(&wrapped).unwrap();
    let bare_tree = ASTNode::try_from(&bare).unwrap();
    assert_eq!(wrapped_tree, bare_tree);
    assert_eq!(bare_tree, bin(number(1.0), Token::OpAdd, number(2.0)));
}

#[test]
fn parentheses_override_precedence() {
    let tokens = [
        Token::OpenParen,
        num(2.0),
        Token::OpAdd,
        num(3.0),
        Token::CloseParen,
        Token::OpMultiply,
        num(4.0),
    ];
    let tree = ASTNode::try_from(&tokens).unwrap();
    let expected = bin(bin(number(2.0), Token::OpAdd, number(3.0)), Token::OpMultiply, number(4.0));
    assert_eq!(tree, expected);
    assert_eq!(eval(&tree), 20.0);
}

#[test]
fn nested_parentheses_collapse() {
    let tokens = [Token::OpenParen, Token::OpenParen, num(5.0), Token::CloseParen, Token::CloseParen];
    let tree = ASTNode::try_from(&tokens).unwrap();
    assert_eq!(tree, number(5.0));
}

#[test]
fn unmatched_paren_reports_mismatch() {
    let tokens = [Token::OpenParen, num(1.0), Token::OpAdd, num(2.0)];
    let err = ASTNode::try_from(&tokens).unwrap_err();
    assert_eq!(
        err,
        ParseError::ExpectedTokenMismatch { offset: 4, expected: Token::CloseParen, found: None }
    );
}

#[test]
fn close_paren_mismatch_names_the_intruder() {
    let tokens = [Token::OpenParen, num(1.0), Token::OpAdd, num(2.0), ident("x")];
    let err = ASTNode::try_from(&tokens).unwrap_err();
    assert_eq!(
        err,
        ParseError::ExpectedTokenMismatch {
            offset: 4,
            expected: Token::CloseParen,
            found: Some(ident("x")),
        }
    );
}

#[test]
fn empty_input_is_an_error() {
    let tokens: [Token; 0] = [];
    let err = ASTNode::try_from(&tokens).unwrap_err();
    assert_eq!(err, ParseError::UnexpectedEndOfInput { offset: 0 });
}

#[test]
fn input_ending_after_operator_is_an_error() {
    let tokens = [num(2.0), Token::OpAdd];
    let err = ASTNode::try_from(&tokens).unwrap_err();
    assert_eq!(err, ParseError::UnexpectedEndOfInput { offset: 2 });
}

#[test]
fn lone_open_paren_is_an_error() {
    let tokens = [Token::OpenParen];
    let err = ASTNode::try_from(&tokens).unwrap_err();
    assert_eq!(err, ParseError::UnexpectedEndOfInput { offset: 1 });
}

#[test]
fn operator_is_no_primary_expression() {
    let tokens = [Token::OpAdd];
    let err = ASTNode::try_from(&tokens).unwrap_err();
    assert_eq!(err, ParseError::UnexpectedToken { offset: 0, found: Token::OpAdd });
}

#[test]
fn empty_parentheses_are_an_error() {
    let tokens = [Token::OpenParen, Token::CloseParen];
    let err = ASTNode::try_from(&tokens).unwrap_err();
    assert_eq!(err, ParseError::UnexpectedToken { offset: 1, found: Token::CloseParen });
}

#[test]
fn bare_identifier_is_a_variable() {
    let tokens = [ident("x")];
    let tree = ASTNode::try_from(&tokens).unwrap();
    assert_eq!(tree, ASTNode::Variable("x".to_string()));
}

#[test]
fn assignment_of_literal() {
    let tokens = [ident("x"), Token::OpAssign, num(5.0)];
    let tree = ASTNode::try_from(&tokens).unwrap();
    assert_eq!(tree, ASTNode::Assignment("x".to_string(), Box::new(number(5.0))));
}

#[test]
fn assignment_of_expression() {
    let tokens = [ident("x"), Token::OpAssign, num(2.0), Token::OpAdd, num(3.0)];
    let tree = ASTNode::try_from(&tokens).unwrap();
    assert_eq!(
        tree,
        ASTNode::Assignment(
            "x".to_string(),
            Box::new(bin(number(2.0), Token::OpAdd, number(3.0))),
        )
    );
}

#[test]
fn chained_assignment_is_rejected() {
    let tokens = [ident("x"), Token::OpAssign, ident("y"), Token::OpAssign, num(1.0)];
    let err = ASTNode::try_from(&tokens).unwrap_err();
    assert_eq!(err, ParseError::UnexpectedToken { offset: 3, found: Token::OpAssign });
}

#[test]
fn assignment_to_literal_is_rejected() {
    let tokens = [num(5.0), Token::OpAssign, num(3.0)];
    let err = ASTNode::try_from(&tokens).unwrap_err();
    assert_eq!(err, ParseError::UnexpectedToken { offset: 1, found: Token::OpAssign });
}

#[test]
fn juxtaposition_is_no_multiplication() {
    let tokens = [num(1.0), num(2.0)];
    let err = ASTNode::try_from(&tokens).unwrap_err();
    assert_eq!(err, ParseError::UnexpectedToken { offset: 1, found: num(2.0) });
}

#[test]
fn adjacent_parenthesised_groups_are_rejected() {
    let tokens = [
        Token::OpenParen,
        num(1.0),
        Token::CloseParen,
        Token::OpenParen,
        num(2.0),
        Token::CloseParen,
    ];
    let err = ASTNode::try_from(&tokens).unwrap_err();
    assert_eq!(err, ParseError::UnexpectedToken { offset: 3, found: Token::OpenParen });
}

#[test]
fn variables_mix_with_arithmetic() {
    let tokens = [ident("a"), Token::OpMultiply, ident("b"), Token::OpAdd, num(1.0)];
    let tree = ASTNode::try_from(&tokens).unwrap();
    let expected = bin(
        bin(
            ASTNode::Variable("a".to_string()),
            Token::OpMultiply,
            ASTNode::Variable("b".to_string()),
        ),
        Token::OpAdd,
        number(1.0),
    );
    assert_eq!(tree, expected);
}

#[test]
fn numeric_payload_travels_untouched() {
    let tokens = [num(0.1)];
    let tree = ASTNode::try_from(&tokens).unwrap();
    match tree {
        ASTNode::Number(bits) => assert_eq!(f64::from_bits(bits), 0.1),
        other => panic!("expected a literal, got {other:?}"),
    }
}
