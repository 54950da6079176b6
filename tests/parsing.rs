use apl_core::array::{Array, Fraction, Scalar};
use apl_core::error::EvalError;
use apl_core::parser::{parse, Token};
use apl_core::primitives::{PrimitiveFunction, PrimitiveMonadicOperator};
use apl_core::tree::{build_tree, Expr};
use apl_core::value::{eval, Value};

#[test]
fn flat_tokens_become_items() {
    let toks = [Token::Integer(1), Token::Plus, Token::Float(Fraction { num: 5, den: 10 })];
    assert_eq!(
        parse(&toks).unwrap(),
        vec![
            Expr::Integer(1),
            Expr::PrimitiveFunction(PrimitiveFunction::Plus),
            Expr::Float(Fraction { num: 5, den: 10 }),
        ]
    );
}

#[test]
fn every_symbol_has_its_item() {
    let toks = [
        Token::Minus,
        Token::Times,
        Token::Divide,
        Token::LeftTack,
        Token::RightTack,
        Token::Comma,
        Token::Epsilon,
        Token::TildeDiaeresis,
    ];
    assert_eq!(
        parse(&toks).unwrap(),
        vec![
            Expr::PrimitiveFunction(PrimitiveFunction::Minus),
            Expr::PrimitiveFunction(PrimitiveFunction::Times),
            Expr::PrimitiveFunction(PrimitiveFunction::Divide),
            Expr::PrimitiveFunction(PrimitiveFunction::LeftTack),
            Expr::PrimitiveFunction(PrimitiveFunction::RightTack),
            Expr::PrimitiveFunction(PrimitiveFunction::Comma),
            Expr::PrimitiveFunction(PrimitiveFunction::Epsilon),
            Expr::PrimitiveMonadicOperator(PrimitiveMonadicOperator::Commute),
        ]
    );
}

#[test]
fn parentheses_make_nested_groups() {
    let toks = [
        Token::LParens,
        Token::Integer(1),
        Token::LParens,
        Token::Integer(2),
        Token::Integer(3),
        Token::RParens,
        Token::RParens,
        Token::Integer(4),
    ];
    assert_eq!(
        parse(&toks).unwrap(),
        vec![
            Expr::Isolated(vec![
                Expr::Integer(1),
                Expr::Isolated(vec![Expr::Integer(2), Expr::Integer(3)]),
            ]),
            Expr::Integer(4),
        ]
    );
}

#[test]
fn parse_errors() {
    assert_eq!(parse(&[]), Err(EvalError::Syntax));
    assert_eq!(parse(&[Token::LParens, Token::RParens]), Err(EvalError::Syntax));
    assert_eq!(parse(&[Token::LParens, Token::Integer(1)]), Err(EvalError::Syntax));
    assert_eq!(parse(&[Token::Integer(1), Token::RParens]), Err(EvalError::Syntax));
    assert_eq!(parse(&[Token::Error]), Err(EvalError::Syntax));
}

#[test]
fn whole_line_from_tokens() {
    // (2 3 4) + 1
    let toks = [
        Token::LParens,
        Token::Integer(2),
        Token::Integer(3),
        Token::Integer(4),
        Token::RParens,
        Token::Plus,
        Token::Integer(1),
    ];
    let tree = build_tree(parse(&toks).unwrap()).unwrap();
    let v = eval(&tree).unwrap();
    let expected = Array::Vector(vec![
        Array::Scalar(Scalar::Integer(3)),
        Array::Scalar(Scalar::Integer(4)),
        Array::Scalar(Scalar::Integer(5)),
    ]);
    assert_eq!(v, Value::Array(expected));
}
