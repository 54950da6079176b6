use vstd::prelude::*;

use crate::error::EvalError;

verus! {

broadcast use vstd::std_specs::vec::group_vec_axioms;

/// A number that is not whole: `num / den`, held exactly.
#[derive(Debug, Clone, Copy, PartialEq, Eq, Structural)]
pub struct Fraction {
    pub num: i64,
    pub den: i64,
}

/// A rank-0 value.
#[derive(Debug, PartialEq)]
pub enum Scalar {
    Integer(i64),
    Float(Fraction),
    Array(Box<Array>),
}

/// A scalar (rank 0) or a vector (rank 1) whose items are arrays again.
#[derive(Debug, PartialEq)]
pub enum Array {
    Scalar(Scalar),
    Vector(Vec<Array>),
}

/// The mathematical content of a `Scalar` or an `Array`. A scalar and the
/// rank-0 array that holds it have the same model.
pub enum ArrayModel {
    Integer(i64),
    Float(Fraction),
    Nested(Box<ArrayModel>),
    Vector(Seq<ArrayModel>),
}

pub open spec fn scalar_model(s: Scalar) -> ArrayModel
    decreases s,
{
    match s {
        Scalar::Integer(i) => ArrayModel::Integer(i),
        Scalar::Float(f) => ArrayModel::Float(f),
        Scalar::Array(b) => ArrayModel::Nested(Box::new(array_model(*b))),
    }
}

pub open spec fn array_model(a: Array) -> ArrayModel
    decreases a,
{
    match a {
        Array::Scalar(s) => scalar_model(s),
        Array::Vector(v) => ArrayModel::Vector(array_models(v@)),
    }
}

pub open spec fn array_models(s: Seq<Array>) -> Seq<ArrayModel>
    decreases s,
{
    if s.len() == 0 {
        Seq::empty()
    } else {
        array_models(s.drop_last()).push(array_model(s.last()))
    }
}

impl View for Scalar {
    type V = ArrayModel;

    open spec fn view(&self) -> ArrayModel {
        scalar_model(*self)
    }
}

impl View for Array {
    type V = ArrayModel;

    open spec fn view(&self) -> ArrayModel {
        array_model(*self)
    }
}

pub open spec fn model_result(r: Result<Array, EvalError>) -> Result<ArrayModel, EvalError> {
    match r {
        Ok(a) => Ok(a@),
        Err(e) => Err(e),
    }
}

pub open spec fn scalar_result(r: Result<Scalar, EvalError>) -> Result<ArrayModel, EvalError> {
    match r {
        Ok(s) => Ok(s@),
        Err(e) => Err(e),
    }
}

pub proof fn lemma_array_models(s: Seq<Array>)
    ensures
        array_models(s).len() == s.len(),
        forall|i: int| 0 <= i < s.len() ==> #[trigger] array_models(s)[i] == s[i]@,
    decreases s.len(),
{
    if s.len() > 0 {
        lemma_array_models(s.drop_last());
    }
}

pub proof fn lemma_array_models_push(s: Seq<Array>, a: Array)
    ensures
        array_models(s.push(a)) == array_models(s).push(a@),
{
    assert(s.push(a).drop_last() =~= s);
}

pub proof fn lemma_array_models_concat(s: Seq<Array>, t: Seq<Array>)
    ensures
        array_models(s + t) == array_models(s) + array_models(t),
{
    lemma_array_models(s);
    lemma_array_models(t);
    lemma_array_models(s + t);
    assert(array_models(s + t) =~= array_models(s) + array_models(t));
}

/// The items of an array: those of a vector, or the scalar alone.
pub open spec fn elements(m: ArrayModel) -> Seq<ArrayModel> {
    match m {
        ArrayModel::Vector(s) => s,
        _ => seq![m],
    }
}

impl Scalar {
    /// A copy with the same model.
    pub fn copy(&self) -> (r: Scalar)
        ensures
            r@ == self@,
        decreases self,
    {
        match self {
            Scalar::Integer(i) => Scalar::Integer(*i),
            Scalar::Float(f) => Scalar::Float(*f),
            Scalar::Array(b) => Scalar::Array(Box::new(b.copy())),
        }
    }
}

impl Array {
    /// A copy with the same model.
    pub fn copy(&self) -> (r: Array)
        ensures
            r@ == self@,
        decreases self,
    {
        match self {
            Array::Scalar(s) => Array::Scalar(s.copy()),
            Array::Vector(v) => {
                let mut out: Vec<Array> = Vec::new();
                let mut i: usize = 0;
                while i < v.len()
                    invariant
                        *self == Array::Vector(*v),
                        i <= v@.len(),
                        array_models(out@) == array_models(v@.take(i as int)),
                    decreases v@.len() - i,
                {
                    proof {
                        assert(decreases_to!(*self => self->Vector_0));
                        assert(decreases_to!(*self => v@[i as int]));
                    }
                    let c = v[i].copy();
                    let ghost prev = out@;
                    out.push(c);
                    proof {
                        lemma_array_models_push(prev, c);
                        lemma_array_models_push(v@.take(i as int), v@[i as int]);
                        assert(v@.take(i as int).push(v@[i as int]) =~= v@.take(i + 1));
                    }
                    i += 1;
                }
                proof {
                    assert(v@.take(i as int) =~= v@);
                }
                Array::Vector(out)
            },
        }
    }

    /// 0 for a scalar, 1 for a vector.
    pub fn rank(&self) -> (r: usize)
        ensures
            r == (if self is Vector { 1usize } else { 0usize }),
    {
        match self {
            Array::Scalar(_) => 0,
            Array::Vector(_) => 1,
        }
    }

    /// No extent for a scalar, the length for a vector.
    pub fn shape(&self) -> (r: Vec<usize>)
        ensures
            r@ == (match *self {
                Array::Scalar(_) => Seq::<usize>::empty(),
                Array::Vector(v) => seq![v@.len() as usize],
            }),
    {
        match self {
            Array::Scalar(_) => Vec::new(),
            Array::Vector(v) => {
                let mut r: Vec<usize> = Vec::new();
                r.push(v.len());
                proof {
                    assert(r@ =~= seq![v@.len() as usize]);
                }
                r
            },
        }
    }

    /// The item at `index`, which holds one position per axis: a scalar is its
    /// own only item.
    pub fn pick<'a>(&'a self, index: &[usize]) -> (r: Result<&'a Array, EvalError>)
        ensures
            index@.len() != (if self is Vector { 1int } else { 0int }) ==> r == Err::<&Array, EvalError>(EvalError::Shape),
            index@.len() == 0 && self is Scalar ==> r == Ok::<&Array, EvalError>(self),
            (match *self {
                Array::Vector(v) => index@.len() == 1 ==> (if index@[0] < v@.len() {
                    r is Ok && *r->Ok_0 == v@[index@[0] as int]
                } else {
                    r == Err::<&Array, EvalError>(EvalError::Shape)
                }),
                _ => true,
            }),
    {
        if index.len() != self.rank() {
            return Err(EvalError::Shape);
        }
        match self {
            Array::Scalar(_) => Ok(self),
            Array::Vector(v) => {
                if index[0] < v.len() {
                    Ok(&v[index[0]])
                } else {
                    Err(EvalError::Shape)
                }
            },
        }
    }

    /// A vector of the array's items: a scalar becomes a vector of length one.
    pub fn ravel(&self) -> (r: Array)
        ensures
            r@ == ArrayModel::Vector(elements(self@)),
            r is Vector,
    {
        match self {
            Array::Scalar(s) => {
                let mut v: Vec<Array> = Vec::new();
                v.push(Array::Scalar(s.copy()));
                proof {
                    lemma_array_models_push(Seq::empty(), v@[0]);
                    assert(Seq::<Array>::empty().push(v@[0]) =~= v@);
                }
                Array::Vector(v)
            },
            Array::Vector(_) => self.copy(),
        }
    }

    /// The items of `a` followed by those of `b`, as one vector; a scalar
    /// counts as one item.
    pub fn catenate(a: Array, b: Array) -> (r: Array)
        ensures
            r@ == ArrayModel::Vector(elements(a@) + elements(b@)),
            r is Vector,
    {
        let ghost am = a@;
        let ghost bm = b@;
        let mut out: Vec<Array> = match a {
            Array::Scalar(s) => {
                let mut v: Vec<Array> = Vec::new();
                v.push(Array::Scalar(s));
                proof {
                    lemma_array_models_push(Seq::empty(), v@[0]);
                    assert(Seq::<Array>::empty().push(v@[0]) =~= v@);
                }
                v
            },
            Array::Vector(v) => v,
        };
        assert(array_models(out@) == elements(am));
        let mut rest: Vec<Array> = match b {
            Array::Scalar(s) => {
                let mut v: Vec<Array> = Vec::new();
                v.push(Array::Scalar(s));
                proof {
                    lemma_array_models_push(Seq::empty(), v@[0]);
                    assert(Seq::<Array>::empty().push(v@[0]) =~= v@);
                }
                v
            },
            Array::Vector(v) => v,
        };
        assert(array_models(rest@) == elements(bm));
        let ghost o = out@;
        let ghost t = rest@;
        out.append(&mut rest);
        proof {
            lemma_array_models_concat(o, t);
        }
        Array::Vector(out)
    }
}

} // verus!
