use apl_core::array::{Array, Fraction, Scalar};
use apl_core::error::EvalError;
use apl_core::function::Function;
use apl_core::primitives::{PrimitiveFunction, PrimitiveMonadicOperator};
use apl_core::scalar::{Dyadic, ScalarFn};
use apl_core::tree::{binding_strengths, build_tree, combine, strongest_pair, EvalTree, Expr};
use apl_core::value::{eval, Value};

fn num(n: i64) -> Expr {
    Expr::Integer(n)
}

fn f(p: PrimitiveFunction) -> Expr {
    Expr::PrimitiveFunction(p)
}

fn group(es: Vec<Expr>) -> Expr {
    Expr::Isolated(es)
}

fn run(es: Vec<Expr>) -> Result<Value, EvalError> {
    let tree = build_tree(es)?;
    eval(&tree)
}

fn run_array(es: Vec<Expr>) -> Array {
    match run(es) {
        Ok(Value::Array(a)) => a,
        other => panic!("expected an array, got {:?}", other),
    }
}

fn si(n: i64) -> Array {
    Array::Scalar(Scalar::Integer(n))
}

fn sf(num: i64, den: i64) -> Array {
    Array::Scalar(Scalar::Float(Fraction { num, den }))
}

fn vi(ns: &[i64]) -> Array {
    Array::Vector(ns.iter().map(|n| si(*n)).collect())
}

#[test]
fn strand_of_values_is_one_array_literal() {
    let tree = build_tree(vec![num(1), num(2), num(3)]).unwrap();
    assert_eq!(
        tree,
        EvalTree::Array(vec![EvalTree::Integer(1), EvalTree::Integer(2), EvalTree::Integer(3)])
    );
    assert_eq!(run_array(vec![num(1), num(2), num(3)]), vi(&[1, 2, 3]));
}

#[test]
fn strand_with_fraction_keeps_order() {
    let half = Fraction { num: 1, den: 2 };
    let tree = build_tree(vec![num(4), Expr::Float(half), num(6), num(7)]).unwrap();
    assert_eq!(
        tree,
        EvalTree::Array(vec![
            EvalTree::Integer(4),
            EvalTree::Float(half),
            EvalTree::Integer(6),
            EvalTree::Integer(7),
        ])
    );
}

#[test]
fn single_value_is_not_wrapped() {
    assert_eq!(build_tree(vec![num(7)]).unwrap(), EvalTree::Integer(7));
    assert_eq!(run_array(vec![num(7)]), si(7));
}

#[test]
fn parenthesized_array_is_not_spliced() {
    let a = run_array(vec![group(vec![num(1), num(2)]), num(3)]);
    assert_eq!(a, Array::Vector(vec![vi(&[1, 2]), si(3)]));
}

#[test]
fn tie_break_picks_rightmost_strongest_pair() {
    assert_eq!(strongest_pair(&vec![3, 5, 1, 5, 2]), 3);
    assert_eq!(strongest_pair(&vec![6, 6, 6]), 2);
    assert_eq!(strongest_pair(&vec![7, 1, 1]), 0);
}

#[test]
fn tie_break_in_reduction() {
    // Three bare functions: both pairs bind with the same strength. The
    // rightmost pair binds first, to an atop, which the first function then
    // turns into a fork; binding the left pair first would give an atop of
    // an atop.
    let items = vec![
        EvalTree::PrimitiveFunction(PrimitiveFunction::Plus),
        EvalTree::PrimitiveFunction(PrimitiveFunction::Times),
        EvalTree::PrimitiveFunction(PrimitiveFunction::Minus),
    ];
    assert_eq!(binding_strengths(&items).unwrap(), vec![1, 1]);
    let es = vec![
        f(PrimitiveFunction::Plus),
        f(PrimitiveFunction::Times),
        f(PrimitiveFunction::Minus),
    ];
    assert_eq!(
        build_tree(es).unwrap(),
        EvalTree::Fork(
            Box::new(EvalTree::PrimitiveFunction(PrimitiveFunction::Plus)),
            Box::new(EvalTree::PrimitiveFunction(PrimitiveFunction::Times)),
            Box::new(EvalTree::PrimitiveFunction(PrimitiveFunction::Minus)),
        )
    );
}

#[test]
fn chained_dyadic_calls_meet_an_undefined_pair() {
    // 1 + 2 - 3: the rightmost of the two strongest pairs binds first, 2 -,
    // and a function beside a bound left argument has no strength.
    let items = vec![
        EvalTree::Integer(1),
        EvalTree::PrimitiveFunction(PrimitiveFunction::Plus),
        EvalTree::Integer(2),
        EvalTree::PrimitiveFunction(PrimitiveFunction::Minus),
        EvalTree::Integer(3),
    ];
    assert_eq!(binding_strengths(&items).unwrap(), vec![3, 2, 3, 2]);
    let es = vec![
        num(1),
        f(PrimitiveFunction::Plus),
        num(2),
        f(PrimitiveFunction::Minus),
        num(3),
    ];
    assert_eq!(run(es), Err(EvalError::Syntax));
}

#[test]
fn dyadic_plus_of_integers() {
    assert_eq!(run_array(vec![num(1), f(PrimitiveFunction::Plus), num(2)]), si(3));
}

#[test]
fn inexact_division_is_fraction() {
    assert_eq!(run_array(vec![num(1), f(PrimitiveFunction::Divide), num(2)]), sf(1, 2));
}

#[test]
fn exact_division_is_integer() {
    assert_eq!(run_array(vec![num(4), f(PrimitiveFunction::Divide), num(2)]), si(2));
}

#[test]
fn reciprocal_of_four() {
    assert_eq!(run_array(vec![f(PrimitiveFunction::Divide), num(4)]), sf(1, 4));
}

#[test]
fn reciprocal_of_one_is_integer() {
    assert_eq!(run_array(vec![f(PrimitiveFunction::Divide), num(1)]), si(1));
}

#[test]
fn scalar_extension_left() {
    let es = vec![num(1), f(PrimitiveFunction::Plus), group(vec![num(2), num(3), num(4)])];
    assert_eq!(run_array(es), vi(&[3, 4, 5]));
}

#[test]
fn scalar_extension_right() {
    let es = vec![group(vec![num(2), num(3), num(4)]), f(PrimitiveFunction::Plus), num(1)];
    assert_eq!(run_array(es), vi(&[3, 4, 5]));
}

#[test]
fn catenate_two_vectors() {
    let es = vec![
        group(vec![num(1), num(2)]),
        f(PrimitiveFunction::Comma),
        group(vec![num(3), num(4)]),
    ];
    assert_eq!(run_array(es), vi(&[1, 2, 3, 4]));
}

#[test]
fn ravel_of_scalar() {
    assert_eq!(run_array(vec![f(PrimitiveFunction::Comma), num(5)]), vi(&[5]));
}

#[test]
fn tacks_dyadic_and_monadic() {
    let lt = PrimitiveFunction::LeftTack;
    let rt = PrimitiveFunction::RightTack;
    assert_eq!(run_array(vec![num(1), f(lt), num(2)]), si(1));
    assert_eq!(run_array(vec![num(1), f(rt), num(2)]), si(2));
    assert_eq!(run_array(vec![f(lt), num(9)]), si(9));
    assert_eq!(run_array(vec![f(rt), num(9)]), si(9));
}

#[test]
fn fork_applied_monadically() {
    let fork = Function::Fork(
        Box::new(Function::Primitive(PrimitiveFunction::Plus)),
        Box::new(Function::Primitive(PrimitiveFunction::Times)),
        Box::new(Function::Primitive(PrimitiveFunction::Minus)),
    );
    assert_eq!(fork.apply(None, si(5)).unwrap(), si(-25));
}

#[test]
fn three_functions_in_parentheses_form_a_fork() {
    let train = group(vec![
        f(PrimitiveFunction::Plus),
        f(PrimitiveFunction::Times),
        f(PrimitiveFunction::Minus),
    ]);
    let tree = build_tree(vec![train]).unwrap();
    assert_eq!(
        tree,
        EvalTree::Parenthesized(Box::new(EvalTree::Fork(
            Box::new(EvalTree::PrimitiveFunction(PrimitiveFunction::Plus)),
            Box::new(EvalTree::PrimitiveFunction(PrimitiveFunction::Times)),
            Box::new(EvalTree::PrimitiveFunction(PrimitiveFunction::Minus)),
        )))
    );
    let train = group(vec![
        f(PrimitiveFunction::Plus),
        f(PrimitiveFunction::Times),
        f(PrimitiveFunction::Minus),
    ]);
    assert_eq!(run_array(vec![train, num(5)]), si(-25));
}

#[test]
fn two_functions_in_parentheses_form_an_atop() {
    // (- ÷) 4 is - (÷ 4)
    let train = group(vec![f(PrimitiveFunction::Minus), f(PrimitiveFunction::Divide)]);
    assert_eq!(run_array(vec![train, num(4)]), sf(-1, 4));
}

#[test]
fn monadic_functions_apply_right_to_left() {
    // - × 3 is - (× 3)
    let es = vec![f(PrimitiveFunction::Minus), f(PrimitiveFunction::Times), num(3)];
    assert_eq!(run_array(es), si(-1));
}

#[test]
fn signum_of_negative_and_zero() {
    assert_eq!(run_array(vec![f(PrimitiveFunction::Times), num(-7)]), si(-1));
    assert_eq!(run_array(vec![f(PrimitiveFunction::Times), num(0)]), si(0));
    assert_eq!(run_array(vec![f(PrimitiveFunction::Times), num(12)]), si(1));
    let zero = Scalar::Float(Fraction { num: 0, den: 3 });
    assert_eq!(zero.signum().unwrap(), Scalar::Integer(0));
    let neg = Scalar::Float(Fraction { num: -1, den: 3 });
    assert_eq!(neg.signum().unwrap(), Scalar::Integer(-1));
}

#[test]
fn fraction_arithmetic() {
    let half = Scalar::Float(Fraction { num: 1, den: 2 });
    let third = Scalar::Float(Fraction { num: 1, den: 3 });
    assert_eq!(half.add(&third).unwrap(), Scalar::Float(Fraction { num: 5, den: 6 }));
    assert_eq!(half.sub(&third).unwrap(), Scalar::Float(Fraction { num: 1, den: 6 }));
    assert_eq!(half.mul(&third).unwrap(), Scalar::Float(Fraction { num: 1, den: 6 }));
    assert_eq!(half.div(&third).unwrap(), Scalar::Float(Fraction { num: 3, den: 2 }));
    assert_eq!(Scalar::Integer(3).add(&half).unwrap(), Scalar::Float(Fraction { num: 7, den: 2 }));
}

#[test]
fn round_whole_and_negation() {
    let four_halves = Scalar::Float(Fraction { num: 4, den: 2 });
    assert_eq!(four_halves.round_whole().unwrap(), Scalar::Integer(2));
    let half = Scalar::Float(Fraction { num: 1, den: 2 });
    assert_eq!(half.round_whole().unwrap(), Scalar::Float(Fraction { num: 1, den: 2 }));
    assert_eq!(half.negation().unwrap(), Scalar::Float(Fraction { num: -1, den: 2 }));
    assert_eq!(half.conjugate().unwrap(), Scalar::Float(Fraction { num: 1, den: 2 }));
    assert_eq!(Scalar::Integer(-2).reciprocal().unwrap(), Scalar::Float(Fraction { num: -1, den: 2 }));
    assert_eq!(half.signum().unwrap(), Scalar::Integer(1));
}

#[test]
fn nested_scalar_is_pervaded() {
    let nested = Scalar::Array(Box::new(vi(&[1, 2])));
    assert_eq!(nested.negation().unwrap(), Scalar::Array(Box::new(vi(&[-1, -2]))));
    assert_eq!(
        Scalar::Integer(10).add(&nested).unwrap(),
        Scalar::Array(Box::new(vi(&[11, 12])))
    );
    assert_eq!(
        nested.mul(&Scalar::Integer(3)).unwrap(),
        Scalar::Array(Box::new(vi(&[3, 6])))
    );
}

#[test]
fn pervade_keeps_shape() {
    let a = Array::Vector(vec![si(1), vi(&[2, 3])]);
    let r = a.pervade(&ScalarFn::LeftFixed(Dyadic::Mul, Scalar::Integer(2))).unwrap();
    assert_eq!(r, Array::Vector(vec![si(2), vi(&[4, 6])]));
    let r = a.pervade(&ScalarFn::RightFixed(Dyadic::Sub, Scalar::Integer(1))).unwrap();
    assert_eq!(r, Array::Vector(vec![si(0), vi(&[1, 2])]));
}

#[test]
fn rank_shape_pick() {
    let v = vi(&[4, 5, 6]);
    assert_eq!(v.rank(), 1);
    assert_eq!(v.shape(), vec![3]);
    assert_eq!(v.pick(&[1]).unwrap(), &si(5));
    assert_eq!(v.pick(&[3]), Err(EvalError::Shape));
    assert_eq!(v.pick(&[]), Err(EvalError::Shape));
    let s = si(8);
    assert_eq!(s.rank(), 0);
    assert_eq!(s.shape(), Vec::<usize>::new());
    assert_eq!(s.pick(&[]).unwrap(), &si(8));
    assert_eq!(s.pick(&[0]), Err(EvalError::Shape));
}

#[test]
fn catenate_and_ravel_directly() {
    assert_eq!(Array::catenate(si(1), si(2)), vi(&[1, 2]));
    assert_eq!(Array::catenate(si(1), vi(&[2, 3])), vi(&[1, 2, 3]));
    assert_eq!(Array::catenate(vi(&[1, 2]), si(3)), vi(&[1, 2, 3]));
    assert_eq!(vi(&[1, 2]).ravel(), vi(&[1, 2]));
    assert_eq!(si(4).ravel(), vi(&[4]));
}

#[test]
fn value_accessors() {
    assert_eq!(Value::Array(si(1)).as_array().unwrap(), si(1));
    assert_eq!(Value::Array(si(1)).as_function(), Err(EvalError::Type));
    let p = Function::Primitive(PrimitiveFunction::Plus);
    assert_eq!(Value::Function(p).as_array(), Err(EvalError::Type));
}

#[test]
fn error_overflow() {
    let es = vec![num(i64::MAX), f(PrimitiveFunction::Plus), num(1)];
    assert_eq!(run(es), Err(EvalError::Overflow));
    assert_eq!(run(vec![f(PrimitiveFunction::Minus), num(i64::MIN)]), Err(EvalError::Overflow));
}

#[test]
fn error_division_by_zero() {
    let es = vec![num(1), f(PrimitiveFunction::Divide), num(0)];
    assert_eq!(run(es), Err(EvalError::Domain));
    assert_eq!(run(vec![f(PrimitiveFunction::Divide), num(0)]), Err(EvalError::Domain));
}

#[test]
fn error_two_vectors_are_not_paired() {
    let es = vec![
        group(vec![num(1), num(2)]),
        f(PrimitiveFunction::Plus),
        group(vec![num(3), num(4)]),
    ];
    assert_eq!(run(es), Err(EvalError::Unsupported));
}

#[test]
fn error_unconsumed_operator() {
    let es = vec![Expr::PrimitiveMonadicOperator(PrimitiveMonadicOperator::Commute)];
    assert_eq!(run(es), Err(EvalError::Syntax));
}

#[test]
fn error_function_awaiting_argument() {
    assert_eq!(run(vec![num(1), f(PrimitiveFunction::Plus)]), Err(EvalError::Syntax));
}

#[test]
fn error_undefined_pair() {
    // two monadic operators side by side have no strength
    let op = Expr::PrimitiveMonadicOperator(PrimitiveMonadicOperator::Commute);
    let op2 = Expr::PrimitiveMonadicOperator(PrimitiveMonadicOperator::Commute);
    assert_eq!(build_tree(vec![op, op2]), Err(EvalError::Syntax));
    assert_eq!(build_tree(vec![]), Err(EvalError::Syntax));
}

#[test]
fn error_function_inside_array_literal() {
    let tree = EvalTree::Array(vec![
        EvalTree::Integer(1),
        EvalTree::PrimitiveFunction(PrimitiveFunction::Plus),
    ]);
    assert_eq!(eval(&tree), Err(EvalError::Type));
}

#[test]
fn error_applying_an_array() {
    let tree = EvalTree::MonadicFunctionApplication(
        Box::new(EvalTree::Integer(1)),
        Box::new(EvalTree::Integer(2)),
    );
    assert_eq!(eval(&tree), Err(EvalError::Type));
}

#[test]
fn operator_application_is_not_evaluated() {
    let derived = group(vec![
        f(PrimitiveFunction::Minus),
        Expr::PrimitiveMonadicOperator(PrimitiveMonadicOperator::Commute),
    ]);
    assert_eq!(run(vec![derived, num(3)]), Err(EvalError::Unsupported));
}

#[test]
fn epsilon_is_reserved() {
    assert_eq!(run(vec![f(PrimitiveFunction::Epsilon), num(3)]), Err(EvalError::Unsupported));
}

#[test]
fn combine_value_and_function() {
    let r = combine(
        EvalTree::Integer(1),
        EvalTree::PrimitiveFunction(PrimitiveFunction::Plus),
    )
    .unwrap();
    assert_eq!(
        r,
        EvalTree::BoundLeftArgument(
            Box::new(EvalTree::Integer(1)),
            Box::new(EvalTree::PrimitiveFunction(PrimitiveFunction::Plus)),
        )
    );
    let r = combine(r, EvalTree::Integer(2)).unwrap();
    assert_eq!(
        r,
        EvalTree::DyadicFunctionApplication(
            Box::new(EvalTree::Integer(1)),
            Box::new(EvalTree::PrimitiveFunction(PrimitiveFunction::Plus)),
            Box::new(EvalTree::Integer(2)),
        )
    );
}

#[test]
fn fractions_are_in_lowest_terms() {
    assert_eq!(run_array(vec![num(2), f(PrimitiveFunction::Divide), num(4)]), sf(1, 2));
    assert_eq!(run_array(vec![num(-6), f(PrimitiveFunction::Divide), num(-4)]), sf(3, 2));
    assert_eq!(run_array(vec![num(6), f(PrimitiveFunction::Divide), num(-4)]), sf(-3, 2));
    let half = Scalar::Float(Fraction { num: 1, den: 2 });
    assert_eq!(half.add(&half).unwrap(), Scalar::Float(Fraction { num: 1, den: 1 }));
    let sixth = Scalar::Float(Fraction { num: 1, den: 6 });
    let third = Scalar::Float(Fraction { num: 1, den: 3 });
    assert_eq!(sixth.add(&sixth).unwrap(), third);
}

#[test]
fn wide_intermediate_reduces_to_fit() {
    let one = Scalar::Float(Fraction { num: i64::MIN, den: i64::MIN });
    assert_eq!(one.add(&one).unwrap(), Scalar::Float(Fraction { num: 2, den: 1 }));
    assert_eq!(one.sub(&one).unwrap(), Scalar::Float(Fraction { num: 0, den: 1 }));
}

#[test]
fn fraction_overflow_is_reported() {
    let tiny = Scalar::Float(Fraction { num: 1, den: i64::MAX });
    let other = Scalar::Float(Fraction { num: 1, den: i64::MAX - 1 });
    assert_eq!(tiny.mul(&other), Err(EvalError::Overflow));
}
