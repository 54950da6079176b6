use vstd::prelude::*;

use crate::array::{Array, ArrayModel, Scalar, array_models, lemma_array_models_push};
use crate::error::EvalError;
use crate::function::{Function, apply_model};
use crate::scalar::{lemma_prefixed, prefixed};
use crate::tree::{EvalTree, TreeModel, lemma_tree_models};

verus! {

broadcast use vstd::std_specs::vec::group_vec_axioms;

/// What an expression evaluates to.
#[derive(Debug, PartialEq)]
pub enum Value {
    Array(Array),
    Function(Function),
}

pub enum ValueModel {
    Array(ArrayModel),
    Function(Function),
}

impl View for Value {
    type V = ValueModel;

    open spec fn view(&self) -> ValueModel {
        match *self {
            Value::Array(a) => ValueModel::Array(a@),
            Value::Function(f) => ValueModel::Function(f),
        }
    }
}

pub open spec fn value_result(r: Result<Value, EvalError>) -> Result<ValueModel, EvalError> {
    match r {
        Ok(v) => Ok(v@),
        Err(e) => Err(e),
    }
}

/// A result that must be an array; a function there is a type error.
pub open spec fn array_of(r: Result<ValueModel, EvalError>) -> Result<ArrayModel, EvalError> {
    match r {
        Ok(ValueModel::Array(a)) => Ok(a),
        Ok(ValueModel::Function(_)) => Err(EvalError::Type),
        Err(e) => Err(e),
    }
}

/// A result that must be a function; an array there is a type error.
pub open spec fn function_of(r: Result<ValueModel, EvalError>) -> Result<Function, EvalError> {
    match r {
        Ok(ValueModel::Function(f)) => Ok(f),
        Ok(ValueModel::Array(_)) => Err(EvalError::Type),
        Err(e) => Err(e),
    }
}

pub open spec fn array_value(r: Result<ArrayModel, EvalError>) -> Result<ValueModel, EvalError> {
    match r {
        Ok(a) => Ok(ValueModel::Array(a)),
        Err(e) => Err(e),
    }
}

/// The value of a node, children first; the first failure is the result.
pub open spec fn eval_model(t: TreeModel) -> Result<ValueModel, EvalError>
    decreases t,
{
    match t {
        TreeModel::Array(s) => match eval_items(s) {
            Ok(items) => Ok(ValueModel::Array(ArrayModel::Vector(items))),
            Err(e) => Err(e),
        },
        TreeModel::Function(a) => match function_of(eval_model(*a)) {
            Ok(f) => Ok(ValueModel::Function(f)),
            Err(e) => Err(e),
        },
        TreeModel::MonadicFunctionApplication(f, r) => match function_of(eval_model(*f)) {
            Err(e) => Err(e),
            Ok(g) => match array_of(eval_model(*r)) {
                Err(e) => Err(e),
                Ok(w) => array_value(apply_model(g, None, w)),
            },
        },
        TreeModel::DyadicFunctionApplication(l, f, r) => match function_of(eval_model(*f)) {
            Err(e) => Err(e),
            Ok(g) => match array_of(eval_model(*l)) {
                Err(e) => Err(e),
                Ok(a) => match array_of(eval_model(*r)) {
                    Err(e) => Err(e),
                    Ok(w) => array_value(apply_model(g, Some(a), w)),
                },
            },
        },
        TreeModel::Atop(a, b) => match function_of(eval_model(*a)) {
            Err(e) => Err(e),
            Ok(fa) => match function_of(eval_model(*b)) {
                Err(e) => Err(e),
                Ok(fb) => Ok(ValueModel::Function(Function::Atop(Box::new(fa), Box::new(fb)))),
            },
        },
        TreeModel::Fork(a, b, c) => match function_of(eval_model(*a)) {
            Err(e) => Err(e),
            Ok(fa) => match function_of(eval_model(*b)) {
                Err(e) => Err(e),
                Ok(fb) => match function_of(eval_model(*c)) {
                    Err(e) => Err(e),
                    Ok(fc) => Ok(
                        ValueModel::Function(Function::Fork(Box::new(fa), Box::new(fb), Box::new(fc))),
                    ),
                },
            },
        },
        TreeModel::Integer(n) => Ok(ValueModel::Array(ArrayModel::Integer(n))),
        TreeModel::Float(f) => Ok(ValueModel::Array(ArrayModel::Float(f))),
        TreeModel::PrimitiveFunction(p) => Ok(ValueModel::Function(Function::Primitive(p))),
        TreeModel::MonadicOperatorApplication(_, _) => Err(EvalError::Unsupported),
        TreeModel::DyadicOperatorApplication(_, _, _) => Err(EvalError::Unsupported),
        TreeModel::BoundLeftArgument(_, _) => Err(EvalError::Syntax),
        TreeModel::BoundRightOperand(_, _) => Err(EvalError::Syntax),
        TreeModel::PrimitiveMonadicOperator(_) => Err(EvalError::Syntax),
        TreeModel::PrimitiveDyadicOperator(_) => Err(EvalError::Syntax),
        TreeModel::Parenthesized(a) => eval_model(*a),
    }
}

pub open spec fn eval_items(s: Seq<TreeModel>) -> Result<Seq<ArrayModel>, EvalError>
    decreases s,
{
    if s.len() == 0 {
        Ok(Seq::empty())
    } else {
        match array_of(eval_model(s[0])) {
            Err(e) => Err(e),
            Ok(x) => prefixed(seq![x], eval_items(s.subrange(1, s.len() as int))),
        }
    }
}

impl Value {
    /// The array this value holds; a function is a type error.
    pub fn as_array(self) -> (r: Result<Array, EvalError>)
        ensures
            match r {
                Ok(a) => array_of(Ok(self@)) == Ok::<ArrayModel, EvalError>(a@),
                Err(e) => array_of(Ok(self@)) == Err::<ArrayModel, EvalError>(e),
            },
    {
        match self {
            Value::Array(a) => Ok(a),
            Value::Function(_) => Err(EvalError::Type),
        }
    }

    /// The function this value holds; an array is a type error.
    pub fn as_function(self) -> (r: Result<Function, EvalError>)
        ensures
            function_of(Ok(self@)) == r,
    {
        match self {
            Value::Array(_) => Err(EvalError::Type),
            Value::Function(f) => Ok(f),
        }
    }
}

fn eval_array(tree: &EvalTree) -> (r: Result<Array, EvalError>)
    ensures
        match r {
            Ok(a) => array_of(eval_model(tree@)) == Ok::<ArrayModel, EvalError>(a@),
            Err(e) => array_of(eval_model(tree@)) == Err::<ArrayModel, EvalError>(e),
        },
    decreases tree, 3nat,
{
    match eval(tree) {
        Ok(v) => v.as_array(),
        Err(e) => Err(e),
    }
}

fn eval_function(tree: &EvalTree) -> (r: Result<Function, EvalError>)
    ensures
        function_of(eval_model(tree@)) == r,
    decreases tree, 3nat,
{
    match eval(tree) {
        Ok(v) => v.as_function(),
        Err(e) => Err(e),
    }
}

fn eval_strand(tree: &EvalTree, v: &Vec<EvalTree>) -> (r: Result<Value, EvalError>)
    requires
        *tree == EvalTree::Array(*v),
    ensures
        value_result(r) == eval_model(tree@),
    decreases tree, 1nat,
{
        let ghost ms = crate::tree::tree_models(v@);
        proof {
            lemma_tree_models(v@);
            assert(ms.subrange(0, ms.len() as int) =~= ms);
            lemma_prefixed(Seq::<ArrayModel>::empty(), Seq::empty(), eval_items(ms));
        }
        let mut out: Vec<Array> = Vec::new();
        let mut i: usize = 0;
        while i < v.len()
            invariant
                *tree == EvalTree::Array(*v),
                i <= v@.len(),
                ms == crate::tree::tree_models(v@),
                ms.len() == v@.len(),
                forall|j: int| 0 <= j < v@.len() ==> #[trigger] ms[j] == v@[j]@,
                eval_items(ms) == prefixed(
                    array_models(out@),
                    eval_items(ms.subrange(i as int, ms.len() as int)),
                ),
            decreases v@.len() - i,
        {
            proof {
                assert(decreases_to!(*tree => tree->Array_0));
                assert(decreases_to!(*tree => v@[i as int]));
            }
            let x = eval_array(&v[i]);
            let ghost rest = ms.subrange(i as int, ms.len() as int);
            proof {
                assert(rest[0] == v@[i as int]@);
                assert(rest.subrange(1, rest.len() as int) =~= ms.subrange(i + 1, ms.len() as int));
            }
            match x {
                Err(e) => {
                    return Err(e);
                },
                Ok(y) => {
                    let ghost prev = out@;
                    out.push(y);
                    proof {
                        lemma_array_models_push(prev, y);
                        lemma_prefixed(array_models(prev), seq![y@], eval_items(ms.subrange(i + 1, ms.len() as int)));
                        assert(array_models(prev) + seq![y@] =~= array_models(prev).push(y@));
                    }
                    i += 1;
                },
            }
        }
        proof {
            assert(ms.subrange(i as int, ms.len() as int) =~= Seq::<TreeModel>::empty());
            lemma_prefixed(array_models(out@), Seq::empty(), Ok(Seq::empty()));
        }
        Ok(Value::Array(Array::Vector(out)))
}

/// Evaluates a finished tree.
#[verifier::rlimit(60)]
pub fn eval(tree: &EvalTree) -> (r: Result<Value, EvalError>)
    ensures
        value_result(r) == eval_model(tree@),
    decreases tree, 2nat,
{
    match tree {
        EvalTree::Array(v) => eval_strand(tree, v),
        EvalTree::Function(a) => match eval_function(a) {
            Ok(f) => Ok(Value::Function(f)),
            Err(e) => Err(e),
        },
        EvalTree::MonadicFunctionApplication(f, r) => {
            let g = match eval_function(f) {
                Ok(g) => g,
                Err(e) => {
                    return Err(e);
                },
            };
            let w = match eval_array(r) {
                Ok(w) => w,
                Err(e) => {
                    return Err(e);
                },
            };
            match g.apply(None, w) {
                Ok(x) => Ok(Value::Array(x)),
                Err(e) => Err(e),
            }
        },
        EvalTree::DyadicFunctionApplication(l, f, r) => {
            let g = match eval_function(f) {
                Ok(g) => g,
                Err(e) => {
                    return Err(e);
                },
            };
            let a = match eval_array(l) {
                Ok(a) => a,
                Err(e) => {
                    return Err(e);
                },
            };
            let w = match eval_array(r) {
                Ok(w) => w,
                Err(e) => {
                    return Err(e);
                },
            };
            match g.apply(Some(a), w) {
                Ok(x) => Ok(Value::Array(x)),
                Err(e) => Err(e),
            }
        },
        EvalTree::Atop(a, b) => {
            let fa = match eval_function(a) {
                Ok(f) => f,
                Err(e) => {
                    return Err(e);
                },
            };
            let fb = match eval_function(b) {
                Ok(f) => f,
                Err(e) => {
                    return Err(e);
                },
            };
            Ok(Value::Function(Function::Atop(Box::new(fa), Box::new(fb))))
        },
        EvalTree::Fork(a, b, c) => {
            let fa = match eval_function(a) {
                Ok(f) => f,
                Err(e) => {
                    return Err(e);
                },
            };
            let fb = match eval_function(b) {
                Ok(f) => f,
                Err(e) => {
                    return Err(e);
                },
            };
            let fc = match eval_function(c) {
                Ok(f) => f,
                Err(e) => {
                    return Err(e);
                },
            };
            Ok(Value::Function(Function::Fork(Box::new(fa), Box::new(fb), Box::new(fc))))
        },
        EvalTree::Integer(n) => Ok(Value::Array(Array::Scalar(Scalar::Integer(*n)))),
        EvalTree::Float(f) => Ok(Value::Array(Array::Scalar(Scalar::Float(*f)))),
        EvalTree::PrimitiveFunction(p) => Ok(Value::Function(Function::Primitive(*p))),
        EvalTree::MonadicOperatorApplication(_, _) => Err(EvalError::Unsupported),
        EvalTree::DyadicOperatorApplication(_, _, _) => Err(EvalError::Unsupported),
        EvalTree::BoundLeftArgument(_, _) => Err(EvalError::Syntax),
        EvalTree::BoundRightOperand(_, _) => Err(EvalError::Syntax),
        EvalTree::PrimitiveMonadicOperator(_) => Err(EvalError::Syntax),
        EvalTree::PrimitiveDyadicOperator(_) => Err(EvalError::Syntax),
        EvalTree::Parenthesized(a) => eval(a),
    }
}

} // verus!
