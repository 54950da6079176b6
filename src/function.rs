use vstd::prelude::*;

use crate::array::{Array, ArrayModel, elements, model_result};
use crate::error::EvalError;
use crate::primitives::PrimitiveFunction;
use crate::scalar::{Dyadic, Monadic, left_fixed_model, monadic_model, right_fixed_model};

verus! {

/// A function value: a primitive, or a composition of functions.
#[derive(Debug, PartialEq)]
pub enum Function {
    Primitive(PrimitiveFunction),
    /// `Atop(f, g)`: `f` applied monadically to the result of `g`.
    Atop(Box<Function>, Box<Function>),
    /// `Fork(f, g, h)`: `g` applied to the results of `f` and `h`.
    Fork(Box<Function>, Box<Function>, Box<Function>),
}

pub open spec fn option_model(o: Option<Array>) -> Option<ArrayModel> {
    match o {
        Some(a) => Some(a@),
        None => None,
    }
}

/// A dyadic scalar function between two arrays: a scalar on either side is
/// paired with every scalar of the other side; two vectors are not paired.
pub open spec fn pervasion_model(op: Dyadic, alpha: ArrayModel, omega: ArrayModel) -> Result<
    ArrayModel,
    EvalError,
> {
    if alpha is Vector && omega is Vector {
        Err(EvalError::Unsupported)
    } else if alpha is Vector {
        right_fixed_model(op, alpha, omega)
    } else {
        left_fixed_model(op, alpha, omega)
    }
}

pub open spec fn arithmetic(p: PrimitiveFunction) -> (Monadic, Dyadic) {
    match p {
        PrimitiveFunction::Minus => (Monadic::Negation, Dyadic::Sub),
        PrimitiveFunction::Times => (Monadic::Signum, Dyadic::Mul),
        PrimitiveFunction::Divide => (Monadic::Reciprocal, Dyadic::Div),
        _ => (Monadic::Conjugate, Dyadic::Add),
    }
}

/// What a primitive function returns on an optional left argument and a right one.
pub open spec fn primitive_model(p: PrimitiveFunction, alpha: Option<ArrayModel>, omega: ArrayModel) -> Result<
    ArrayModel,
    EvalError,
> {
    match p {
        PrimitiveFunction::Plus | PrimitiveFunction::Minus | PrimitiveFunction::Times
        | PrimitiveFunction::Divide => match alpha {
            Some(a) => pervasion_model(arithmetic(p).1, a, omega),
            None => monadic_model(arithmetic(p).0, omega),
        },
        PrimitiveFunction::LeftTack => match alpha {
            Some(a) => Ok(a),
            None => Ok(omega),
        },
        PrimitiveFunction::RightTack => Ok(omega),
        PrimitiveFunction::Comma => match alpha {
            Some(a) => Ok(ArrayModel::Vector(elements(a) + elements(omega))),
            None => Ok(ArrayModel::Vector(elements(omega))),
        },
        PrimitiveFunction::Epsilon => Err(EvalError::Unsupported),
    }
}

/// What a function returns on an optional left argument and a right one.
pub open spec fn apply_model(f: Function, alpha: Option<ArrayModel>, omega: ArrayModel) -> Result<
    ArrayModel,
    EvalError,
>
    decreases f,
{
    match f {
        Function::Primitive(p) => primitive_model(p, alpha, omega),
        Function::Atop(outer, inner) => match apply_model(*inner, alpha, omega) {
            Ok(x) => apply_model(*outer, None, x),
            Err(e) => Err(e),
        },
        Function::Fork(left, middle, right) => match apply_model(*left, alpha, omega) {
            Err(e) => Err(e),
            Ok(l) => match apply_model(*right, alpha, omega) {
                Err(e) => Err(e),
                Ok(r) => apply_model(*middle, Some(l), r),
            },
        },
    }
}

/// A dyadic scalar function between two arrays.
pub fn scalar_pervasion(op: Dyadic, alpha: &Array, omega: &Array) -> (r: Result<Array, EvalError>)
    ensures
        model_result(r) == pervasion_model(op, alpha@, omega@),
{
    match (alpha, omega) {
        (Array::Vector(_), Array::Vector(_)) => Err(EvalError::Unsupported),
        (Array::Vector(_), Array::Scalar(b)) => Array::right_fixed(op, alpha, b),
        (Array::Scalar(a), _) => Array::left_fixed(op, a, omega),
    }
}

fn arithmetic_of(p: PrimitiveFunction) -> (r: (Monadic, Dyadic))
    ensures
        r == arithmetic(p),
{
    match p {
        PrimitiveFunction::Minus => (Monadic::Negation, Dyadic::Sub),
        PrimitiveFunction::Times => (Monadic::Signum, Dyadic::Mul),
        PrimitiveFunction::Divide => (Monadic::Reciprocal, Dyadic::Div),
        _ => (Monadic::Conjugate, Dyadic::Add),
    }
}

impl Function {
    /// Applies the function to `omega`, with `alpha` as left argument where
    /// there is one.
    pub fn apply(&self, alpha: Option<Array>, omega: Array) -> (r: Result<Array, EvalError>)
        ensures
            model_result(r) == apply_model(*self, option_model(alpha), omega@),
        decreases self,
    {
        match self {
            Function::Primitive(p) => match p {
                PrimitiveFunction::Plus | PrimitiveFunction::Minus | PrimitiveFunction::Times
                | PrimitiveFunction::Divide => {
                    let (m, d) = arithmetic_of(*p);
                    match alpha {
                        Some(a) => scalar_pervasion(d, &a, &omega),
                        None => omega.pervade_monadic(m),
                    }
                },
                PrimitiveFunction::LeftTack => match alpha {
                    Some(a) => Ok(a),
                    None => Ok(omega),
                },
                PrimitiveFunction::RightTack => Ok(omega),
                PrimitiveFunction::Comma => match alpha {
                    Some(a) => Ok(Array::catenate(a, omega)),
                    None => Ok(omega.ravel()),
                },
                PrimitiveFunction::Epsilon => Err(EvalError::Unsupported),
            },
            Function::Atop(outer, inner) => match inner.apply(alpha, omega) {
                Ok(x) => outer.apply(None, x),
                Err(e) => Err(e),
            },
            Function::Fork(left, middle, right) => {
                let alpha2 = match &alpha {
                    Some(a) => Some(a.copy()),
                    None => None,
                };
                let omega2 = omega.copy();
                match left.apply(alpha2, omega2) {
                    Err(e) => Err(e),
                    Ok(l) => match right.apply(alpha, omega) {
                        Err(e) => Err(e),
                        Ok(r) => middle.apply(Some(l), r),
                    },
                }
            },
        }
    }
}


/// Left tack returns its left argument, or its only one; right tack returns
/// its right argument, or its only one.
pub proof fn law_tacks(a: ArrayModel, b: ArrayModel)
    ensures
        apply_model(Function::Primitive(PrimitiveFunction::LeftTack), Some(a), b) == Ok::<
            ArrayModel,
            EvalError,
        >(a),
        apply_model(Function::Primitive(PrimitiveFunction::RightTack), Some(a), b) == Ok::<
            ArrayModel,
            EvalError,
        >(b),
        apply_model(Function::Primitive(PrimitiveFunction::LeftTack), None, b) == Ok::<
            ArrayModel,
            EvalError,
        >(b),
        apply_model(Function::Primitive(PrimitiveFunction::RightTack), None, b) == Ok::<
            ArrayModel,
            EvalError,
        >(b),
{
}

/// A fork applied to `omega` alone applies its outer functions to `omega`
/// and its middle function to their two results: `(f g h) w = (f w) g (h w)`.
pub proof fn law_fork(f: Function, g: Function, h: Function, omega: ArrayModel)
    ensures
        apply_model(Function::Fork(Box::new(f), Box::new(g), Box::new(h)), None, omega) == match (
            apply_model(f, None, omega),
            apply_model(h, None, omega),
        ) {
            (Ok(l), Ok(r)) => apply_model(g, Some(l), r),
            (Err(e), _) => Err(e),
            (Ok(_), Err(e)) => Err(e),
        },
{
}

/// An atop applies its outer function monadically to what its inner one
/// returns.
pub proof fn law_atop(f: Function, g: Function, alpha: Option<ArrayModel>, omega: ArrayModel)
    ensures
        apply_model(Function::Atop(Box::new(f), Box::new(g)), alpha, omega) == match apply_model(
            g,
            alpha,
            omega,
        ) {
            Ok(x) => apply_model(f, None, x),
            Err(e) => Err(e),
        },
{
}

} // verus!
