use vstd::prelude::*;

use crate::array::{
    Array, ArrayModel, Fraction, Scalar, array_models, lemma_array_models, lemma_array_models_push,
    model_result, scalar_result,
};
use crate::error::EvalError;

verus! {

/// The scalar functions of one argument.
#[derive(Debug, Clone, Copy, PartialEq, Eq, Structural)]
pub enum Monadic {
    Conjugate,
    Negation,
    Signum,
    Reciprocal,
    RoundWhole,
}

/// The scalar functions of two arguments.
#[derive(Debug, Clone, Copy, PartialEq, Eq, Structural)]
pub enum Dyadic {
    Add,
    Sub,
    Mul,
    Div,
}

pub open spec fn in_i64(x: int) -> bool {
    i64::MIN <= x <= i64::MAX
}

pub open spec fn abs(x: int) -> int {
    if x < 0 {
        -x
    } else {
        x
    }
}

/// An integer result, or `Overflow` where it does not fit.
pub open spec fn int_result(x: int) -> Result<ArrayModel, EvalError> {
    if in_i64(x) {
        Ok(ArrayModel::Integer(x as i64))
    } else {
        Err(EvalError::Overflow)
    }
}

/// The greatest common divisor, by Euclid's algorithm.
pub open spec fn gcd(a: nat, b: nat) -> nat
    decreases b,
{
    if b == 0 {
        a
    } else {
        gcd(b, a % b)
    }
}

pub proof fn lemma_gcd_positive(a: nat, b: nat)
    requires
        a > 0 || b > 0,
    ensures
        gcd(a, b) > 0,
    decreases b,
{
    if b > 0 {
        lemma_gcd_positive(b, a % b);
    }
}

/// The fraction `n / d` in lowest terms, written with a positive denominator.
pub open spec fn float_result(n: int, d: int) -> Result<ArrayModel, EvalError> {
    if d == 0 {
        Err(EvalError::Domain)
    } else {
        let g = gcd(abs(n) as nat, abs(d) as nat) as int;
        let q = abs(n) / g;
        let n2 = if (n < 0) != (d < 0) { -q } else { q };
        let d2 = abs(d) / g;
        if in_i64(n2) && in_i64(d2) {
            Ok(ArrayModel::Float(Fraction { num: n2 as i64, den: d2 as i64 }))
        } else {
            Err(EvalError::Overflow)
        }
    }
}

/// `n / d` in its simplest form: an integer where `d` divides `n`, a fraction otherwise.
pub open spec fn quotient_result(n: int, d: int) -> Result<ArrayModel, EvalError> {
    if d == 0 {
        Err(EvalError::Domain)
    } else if abs(n) % abs(d) == 0 {
        int_result(
            if (n < 0) == (d < 0) {
                abs(n) / abs(d)
            } else {
                -(abs(n) / abs(d))
            },
        )
    } else {
        float_result(n, d)
    }
}

pub open spec fn is_number(m: ArrayModel) -> bool {
    m is Integer || m is Float
}

pub open spec fn numerator(m: ArrayModel) -> int {
    match m {
        ArrayModel::Integer(i) => i as int,
        ArrayModel::Float(f) => f.num as int,
        _ => 0,
    }
}

pub open spec fn denominator(m: ArrayModel) -> int {
    match m {
        ArrayModel::Float(f) => f.den as int,
        _ => 1,
    }
}

/// A monadic scalar function on one number.
pub open spec fn number_monadic(op: Monadic, m: ArrayModel) -> Result<ArrayModel, EvalError> {
    match op {
        Monadic::Conjugate => Ok(m),
        Monadic::Negation => match m {
            ArrayModel::Float(f) => if in_i64(-f.num) {
                Ok(ArrayModel::Float(Fraction { num: (-f.num) as i64, den: f.den }))
            } else {
                Err(EvalError::Overflow)
            },
            _ => int_result(-numerator(m)),
        },
        Monadic::Signum => Ok(
            ArrayModel::Integer(
                if numerator(m) * denominator(m) > 0 {
                    1i64
                } else if numerator(m) * denominator(m) < 0 {
                    -1i64
                } else {
                    0i64
                },
            ),
        ),
        Monadic::Reciprocal => if numerator(m) == 0 {
            Err(EvalError::Domain)
        } else {
            quotient_result(denominator(m), numerator(m))
        },
        Monadic::RoundWhole => match m {
            ArrayModel::Float(f) => if f.den != 0 && abs(f.num as int) % abs(f.den as int) == 0 {
                quotient_result(f.num as int, f.den as int)
            } else {
                Ok(m)
            },
            _ => Ok(m),
        },
    }
}

/// A dyadic scalar function on two numbers: integers stay integers, except
/// that a quotient is a fraction where the division is not exact; a fraction
/// on either side makes the result a fraction.
pub open spec fn number_dyadic(op: Dyadic, a: ArrayModel, b: ArrayModel) -> Result<
    ArrayModel,
    EvalError,
> {
    let an = numerator(a);
    let ad = denominator(a);
    let bn = numerator(b);
    let bd = denominator(b);
    let ints = a is Integer && b is Integer;
    match op {
        Dyadic::Add => if ints {
            int_result(an + bn)
        } else {
            float_result(an * bd + bn * ad, ad * bd)
        },
        Dyadic::Sub => if ints {
            int_result(an - bn)
        } else {
            float_result(an * bd - bn * ad, ad * bd)
        },
        Dyadic::Mul => if ints {
            int_result(an * bn)
        } else {
            float_result(an * bn, ad * bd)
        },
        Dyadic::Div => if ints {
            quotient_result(an, bn)
        } else {
            float_result(an * bd, ad * bn)
        },
    }
}

const I64_MIN: i128 = -9223372036854775808;

const I64_MAX: i128 = 9223372036854775807;

fn int_res(x: i128) -> (r: Result<Scalar, EvalError>)
    ensures
        scalar_result(r) == int_result(x as int),
{
    if I64_MIN <= x && x <= I64_MAX {
        Ok(Scalar::Integer(x as i64))
    } else {
        Err(EvalError::Overflow)
    }
}

fn gcd_of(a: u128, b: u128) -> (g: u128)
    ensures
        g == gcd(a as nat, b as nat),
{
    let mut x: u128 = a;
    let mut y: u128 = b;
    while y != 0
        invariant
            gcd(x as nat, y as nat) == gcd(a as nat, b as nat),
        decreases y,
    {
        let r = x % y;
        x = y;
        y = r;
    }
    x
}

/// `float_result` of a numerator given by its sign and magnitude, over a
/// positive denominator.
fn float_mag(neg: bool, an: u128, ad: u128) -> (r: Result<Scalar, EvalError>)
    requires
        ad > 0,
    ensures
        scalar_result(r) == float_result(if neg { -(an as int) } else { an as int }, ad as int),
{
    let g = gcd_of(an, ad);
    proof {
        lemma_gcd_positive(an as nat, ad as nat);
    }
    let q: u128 = an / g;
    let d2: u128 = ad / g;
    proof {
        assert(0 <= q <= an) by (nonlinear_arith)
            requires q == an / g, g >= 1;
        assert(0 <= d2 <= ad) by (nonlinear_arith)
            requires d2 == ad / g, g >= 1;
    }
    if d2 > 0x7fff_ffff_ffff_ffff {
        return Err(EvalError::Overflow);
    }
    if neg && an > 0 {
        if q > 0x8000_0000_0000_0000 {
            return Err(EvalError::Overflow);
        }
        Ok(Scalar::Float(Fraction { num: (-(q as i128)) as i64, den: d2 as i64 }))
    } else {
        if q > 0x7fff_ffff_ffff_ffff {
            return Err(EvalError::Overflow);
        }
        Ok(Scalar::Float(Fraction { num: q as i64, den: d2 as i64 }))
    }
}

/// The fraction `n / d` depends on the magnitudes of `n` and `d` and on
/// whether their signs differ.
proof fn lemma_float_result_sign(n: int, d: int, neg: bool)
    requires
        d != 0,
        n != 0 ==> neg == ((n < 0) != (d < 0)),
    ensures
        float_result(n, d) == float_result(if neg { -abs(n) } else { abs(n) }, abs(d)),
{
    let m = if neg { -abs(n) } else { abs(n) };
    assert(abs(m) == abs(n));
    assert(abs(abs(d)) == abs(d));
    lemma_gcd_positive(abs(n) as nat, abs(d) as nat);
    let g = gcd(abs(n) as nat, abs(d) as nat) as int;
    if n == 0 {
        assert(abs(n) / g == 0);
    }
}

fn float_res(n: i128, d: i128) -> (r: Result<Scalar, EvalError>)
    requires
        n > i128::MIN,
        d > i128::MIN,
    ensures
        scalar_result(r) == float_result(n as int, d as int),
{
    if d == 0 {
        return Err(EvalError::Domain);
    }
    let neg = (n < 0) != (d < 0);
    let an: i128 = if n < 0 { -n } else { n };
    let ad: i128 = if d < 0 { -d } else { d };
    proof {
        lemma_float_result_sign(n as int, d as int, neg);
    }
    float_mag(neg, an as u128, ad as u128)
}

/// `float_res(x + y, d)`, where the sum itself may not fit in 128 bits.
fn sum_res(x: i128, y: i128, d: i128) -> (r: Result<Scalar, EvalError>)
    requires
        x > i128::MIN,
        y > i128::MIN,
        d > i128::MIN,
    ensures
        scalar_result(r) == float_result(x + y, d as int),
{
    if d == 0 {
        return Err(EvalError::Domain);
    }
    let ax: u128 = if x < 0 { (-x) as u128 } else { x as u128 };
    let ay: u128 = if y < 0 { (-y) as u128 } else { y as u128 };
    let (sum_neg, mag): (bool, u128) = if (x < 0) == (y < 0) {
        (x < 0, ax + ay)
    } else if ax >= ay {
        (x < 0, ax - ay)
    } else {
        (y < 0, ay - ax)
    };
    let ghost s = x + y;
    proof {
        assert(abs(s) == mag);
        assert(mag != 0 ==> sum_neg == (s < 0));
    }
    let neg = sum_neg != (d < 0);
    let ad: i128 = if d < 0 { -d } else { d };
    proof {
        lemma_float_result_sign(s, d as int, neg);
    }
    float_mag(neg, mag, ad as u128)
}

fn quotient_res(n: i128, d: i128) -> (r: Result<Scalar, EvalError>)
    requires
        I64_MIN <= n <= I64_MAX,
        I64_MIN <= d <= I64_MAX,
    ensures
        scalar_result(r) == quotient_result(n as int, d as int),
{
    if d == 0 {
        return Err(EvalError::Domain);
    }
    let an: i128 = if n < 0 { -n } else { n };
    let ad: i128 = if d < 0 { -d } else { d };
    if an % ad == 0 {
        let q: i128 = an / ad;
        proof {
            assert(0 <= q <= an) by (nonlinear_arith)
                requires q == an / ad, an >= 0, ad >= 1;
        }
        int_res(if (n < 0) == (d < 0) { q } else { -q })
    } else {
        float_res(n, d)
    }
}

fn parts(s: &Scalar) -> (r: (i128, i128))
    requires
        is_number(s@),
    ensures
        r.0 == numerator(s@),
        r.1 == denominator(s@),
        I64_MIN <= r.0 <= I64_MAX,
        I64_MIN <= r.1 <= I64_MAX,
{
    match s {
        Scalar::Integer(i) => (*i as i128, 1),
        Scalar::Float(f) => (f.num as i128, f.den as i128),
        Scalar::Array(_) => (0, 1),
    }
}

fn wide_mul(x: i128, y: i128) -> (r: i128)
    requires
        I64_MIN <= x <= I64_MAX,
        I64_MIN <= y <= I64_MAX,
    ensures
        r == x * y,
        -0x4000_0000_0000_0000_0000_0000_0000_0000 <= r <= 0x4000_0000_0000_0000_0000_0000_0000_0000,
{
    proof {
        assert(-0x4000_0000_0000_0000_0000_0000_0000_0000 <= x * y <= 0x4000_0000_0000_0000_0000_0000_0000_0000) by (nonlinear_arith)
            requires I64_MIN <= x <= I64_MAX, I64_MIN <= y <= I64_MAX;
    }
    x * y
}

impl Scalar {
    fn number_monadic(&self, op: Monadic) -> (r: Result<Scalar, EvalError>)
        requires
            is_number(self@),
        ensures
            scalar_result(r) == number_monadic(op, self@),
    {
        let (n, d) = parts(self);
        match op {
            Monadic::Conjugate => match self {
                Scalar::Integer(i) => Ok(Scalar::Integer(*i)),
                Scalar::Float(f) => Ok(Scalar::Float(*f)),
                Scalar::Array(_) => Err(EvalError::Internal),
            },
            Monadic::Negation => match self {
                Scalar::Float(f) => if f.num == i64::MIN {
                    Err(EvalError::Overflow)
                } else {
                    Ok(Scalar::Float(Fraction { num: -f.num, den: f.den }))
                },
                _ => int_res(-n),
            },
            Monadic::Signum => {
                let positive = (n > 0 && d > 0) || (n < 0 && d < 0);
                let negative = (n > 0 && d < 0) || (n < 0 && d > 0);
                proof {
                    if n > 0 && d > 0 {
                        assert(n * d > 0) by (nonlinear_arith)
                            requires n > 0, d > 0;
                    } else if n < 0 && d < 0 {
                        assert(n * d > 0) by (nonlinear_arith)
                            requires n < 0, d < 0;
                    } else if n > 0 && d < 0 {
                        assert(n * d < 0) by (nonlinear_arith)
                            requires n > 0, d < 0;
                    } else if n < 0 && d > 0 {
                        assert(n * d < 0) by (nonlinear_arith)
                            requires n < 0, d > 0;
                    } else {
                        assert(n * d == 0) by (nonlinear_arith)
                            requires n == 0 || d == 0;
                    }
                }
                Ok(Scalar::Integer(if positive { 1 } else if negative { -1 } else { 0 }))
            },
            Monadic::Reciprocal => if n == 0 {
                Err(EvalError::Domain)
            } else {
                quotient_res(d, n)
            },
            Monadic::RoundWhole => match self {
                Scalar::Float(f) => {
                    let an: i128 = if n < 0 { -n } else { n };
                    let ad: i128 = if d < 0 { -d } else { d };
                    if d != 0 && an % ad == 0 {
                        quotient_res(n, d)
                    } else {
                        Ok(Scalar::Float(*f))
                    }
                },
                Scalar::Integer(i) => Ok(Scalar::Integer(*i)),
                Scalar::Array(_) => Err(EvalError::Internal),
            },
        }
    }

    fn number_dyadic(op: Dyadic, a: &Scalar, b: &Scalar) -> (r: Result<Scalar, EvalError>)
        requires
            is_number(a@),
            is_number(b@),
        ensures
            scalar_result(r) == number_dyadic(op, a@, b@),
    {
        let (an, ad) = parts(a);
        let (bn, bd) = parts(b);
        let ints = matches!(a, Scalar::Integer(_)) && matches!(b, Scalar::Integer(_));
        match op {
            Dyadic::Add => if ints {
                int_res(an + bn)
            } else {
                sum_res(wide_mul(an, bd), wide_mul(bn, ad), wide_mul(ad, bd))
            },
            Dyadic::Sub => if ints {
                int_res(an - bn)
            } else {
                sum_res(wide_mul(an, bd), -wide_mul(bn, ad), wide_mul(ad, bd))
            },
            Dyadic::Mul => if ints {
                int_res(wide_mul(an, bn))
            } else {
                float_res(wide_mul(an, bn), wide_mul(ad, bd))
            },
            Dyadic::Div => if ints {
                quotient_res(an, bn)
            } else {
                float_res(wide_mul(an, bd), wide_mul(ad, bn))
            },
        }
    }
}


/// A scalar function to spread over every scalar of an array: a monadic one,
/// or a dyadic one with its left or its right argument fixed.
#[derive(Debug, PartialEq)]
pub enum ScalarFn {
    Monadic(Monadic),
    LeftFixed(Dyadic, Scalar),
    RightFixed(Dyadic, Scalar),
}

pub open spec fn nested(r: Result<ArrayModel, EvalError>) -> Result<ArrayModel, EvalError> {
    match r {
        Ok(m) => Ok(ArrayModel::Nested(Box::new(m))),
        Err(e) => Err(e),
    }
}

pub open spec fn vector(r: Result<Seq<ArrayModel>, EvalError>) -> Result<ArrayModel, EvalError> {
    match r {
        Ok(s) => Ok(ArrayModel::Vector(s)),
        Err(e) => Err(e),
    }
}

/// `p` put in front of a successful result; an error passes through.
pub open spec fn prefixed<T>(p: Seq<T>, r: Result<Seq<T>, EvalError>) -> Result<Seq<T>, EvalError> {
    match r {
        Ok(s) => Ok(p + s),
        Err(e) => Err(e),
    }
}

pub proof fn lemma_prefixed<T>(p: Seq<T>, q: Seq<T>, r: Result<Seq<T>, EvalError>)
    ensures
        prefixed(p, prefixed(q, r)) == prefixed(p + q, r),
        prefixed(p, Ok(Seq::empty())) == Ok::<Seq<T>, EvalError>(p),
        prefixed(Seq::empty(), r) == r,
{
    if let Ok(s) = r {
        assert(p + (q + s) =~= (p + q) + s);
    }
    assert(p + Seq::<T>::empty() =~= p);
    if let Ok(s) = r {
        assert(Seq::<T>::empty() + s =~= s);
    }
}

/// A monadic scalar function applied to every number inside `m`, whatever
/// its nesting; the first failure, left to right, is the result.
pub open spec fn monadic_model(op: Monadic, m: ArrayModel) -> Result<ArrayModel, EvalError>
    decreases m,
{
    match m {
        ArrayModel::Nested(b) => nested(monadic_model(op, *b)),
        ArrayModel::Vector(s) => vector(monadic_models(op, s)),
        _ => number_monadic(op, m),
    }
}

pub open spec fn monadic_models(op: Monadic, s: Seq<ArrayModel>) -> Result<Seq<ArrayModel>, EvalError>
    decreases s,
{
    if s.len() == 0 {
        Ok(Seq::empty())
    } else {
        match monadic_model(op, s[0]) {
            Err(e) => Err(e),
            Ok(x) => prefixed(seq![x], monadic_models(op, s.subrange(1, s.len() as int))),
        }
    }
}

/// A dyadic scalar function on two scalars. Where one side holds a nested
/// array, the other side is paired with every number inside it (the right
/// side is looked into first).
pub open spec fn dyadic_model(op: Dyadic, a: ArrayModel, b: ArrayModel) -> Result<ArrayModel, EvalError>
    decreases b, a, 0nat,
{
    if is_number(a) && is_number(b) {
        number_dyadic(op, a, b)
    } else {
        match b {
            ArrayModel::Nested(bb) => nested(left_fixed_model(op, a, *bb)),
            _ => match a {
                ArrayModel::Nested(aa) => nested(right_fixed_model(op, *aa, b)),
                _ => Err(EvalError::Unsupported),
            },
        }
    }
}

/// `a op x` for every scalar `x` of `m`.
pub open spec fn left_fixed_model(op: Dyadic, a: ArrayModel, m: ArrayModel) -> Result<ArrayModel, EvalError>
    decreases m, a, 1nat,
{
    match m {
        ArrayModel::Vector(s) => vector(left_fixed_models(op, a, s)),
        _ => dyadic_model(op, a, m),
    }
}

pub open spec fn left_fixed_models(op: Dyadic, a: ArrayModel, s: Seq<ArrayModel>) -> Result<
    Seq<ArrayModel>,
    EvalError,
>
    decreases s, a, 1nat,
{
    if s.len() == 0 {
        Ok(Seq::empty())
    } else {
        match left_fixed_model(op, a, s[0]) {
            Err(e) => Err(e),
            Ok(x) => prefixed(seq![x], left_fixed_models(op, a, s.subrange(1, s.len() as int))),
        }
    }
}

/// `x op b` for every scalar `x` of `m`.
pub open spec fn right_fixed_model(op: Dyadic, m: ArrayModel, b: ArrayModel) -> Result<ArrayModel, EvalError>
    decreases b, m, 1nat,
{
    match m {
        ArrayModel::Vector(s) => vector(right_fixed_models(op, s, b)),
        _ => dyadic_model(op, m, b),
    }
}

pub open spec fn right_fixed_models(op: Dyadic, s: Seq<ArrayModel>, b: ArrayModel) -> Result<
    Seq<ArrayModel>,
    EvalError,
>
    decreases b, s, 1nat,
{
    if s.len() == 0 {
        Ok(Seq::empty())
    } else {
        match right_fixed_model(op, s[0], b) {
            Err(e) => Err(e),
            Ok(x) => prefixed(seq![x], right_fixed_models(op, s.subrange(1, s.len() as int), b)),
        }
    }
}

pub open spec fn pervade_model(f: ScalarFn, m: ArrayModel) -> Result<ArrayModel, EvalError> {
    match f {
        ScalarFn::Monadic(op) => monadic_model(op, m),
        ScalarFn::LeftFixed(op, a) => left_fixed_model(op, a@, m),
        ScalarFn::RightFixed(op, b) => right_fixed_model(op, m, b@),
    }
}

impl Scalar {
    /// A monadic scalar function, applied inside a nested array too.
    pub fn monadic(&self, op: Monadic) -> (r: Result<Scalar, EvalError>)
        ensures
            scalar_result(r) == monadic_model(op, self@),
        decreases self, 0nat,
    {
        match self {
            Scalar::Array(b) => match b.pervade_monadic(op) {
                Ok(x) => Ok(Scalar::Array(Box::new(x))),
                Err(e) => Err(e),
            },
            _ => self.number_monadic(op),
        }
    }

    /// A dyadic scalar function on two scalars.
    pub fn dyadic(op: Dyadic, a: &Scalar, b: &Scalar) -> (r: Result<Scalar, EvalError>)
        ensures
            scalar_result(r) == dyadic_model(op, a@, b@),
        decreases b, a, 0nat,
    {
        match b {
            Scalar::Array(bb) => {
                return match Array::left_fixed(op, a, bb) {
                    Ok(x) => Ok(Scalar::Array(Box::new(x))),
                    Err(e) => Err(e),
                };
            },
            _ => {},
        }
        match a {
            Scalar::Array(aa) => match Array::right_fixed(op, aa, b) {
                Ok(x) => Ok(Scalar::Array(Box::new(x))),
                Err(e) => Err(e),
            },
            _ => Scalar::number_dyadic(op, a, b),
        }
    }
}

impl Array {
    /// A monadic scalar function applied to every scalar of the array.
    pub fn pervade_monadic(&self, op: Monadic) -> (r: Result<Array, EvalError>)
        ensures
            model_result(r) == monadic_model(op, self@),
        decreases self, 1nat,
    {
        match self {
            Array::Scalar(s) => match s.monadic(op) {
                Ok(x) => Ok(Array::Scalar(x)),
                Err(e) => Err(e),
            },
            Array::Vector(v) => {
                let ghost ms = array_models(v@);
                proof {
                    lemma_array_models(v@);
                    assert(ms.subrange(0, ms.len() as int) =~= ms);
                    lemma_prefixed(Seq::empty(), Seq::empty(), monadic_models(op, ms));
                }
                let mut out: Vec<Array> = Vec::new();
                let mut i: usize = 0;
                while i < v.len()
                    invariant
                        *self == Array::Vector(*v),
                        i <= v@.len(),
                        ms == array_models(v@),
                        ms.len() == v@.len(),
                        forall|j: int| 0 <= j < v@.len() ==> #[trigger] ms[j] == v@[j]@,
                        monadic_models(op, ms) == prefixed(
                            array_models(out@),
                            monadic_models(op, ms.subrange(i as int, ms.len() as int)),
                        ),
                    decreases v@.len() - i,
                {
                    proof {
                        assert(decreases_to!(*self => self->Vector_0));
                        assert(decreases_to!(*self => v@[i as int]));
                    }
                    let x = v[i].pervade_monadic(op);
                    let ghost rest = ms.subrange(i as int, ms.len() as int);
                    proof {
                        assert(rest[0] == v@[i as int]@);
                        assert(rest.subrange(1, rest.len() as int) =~= ms.subrange(i + 1, ms.len() as int));
                    }
                    match x {
                        Err(e) => {
                            return Err(e);
                        },
                        Ok(y) => {
                            let ghost prev = out@;
                            out.push(y);
                            proof {
                                lemma_array_models_push(prev, y);
                                lemma_prefixed(array_models(prev), seq![y@], monadic_models(op, ms.subrange(i + 1, ms.len() as int)));
                                assert(array_models(prev) + seq![y@] =~= array_models(prev).push(y@));
                            }
                            i += 1;
                        },
                    }
                }
                proof {
                    assert(ms.subrange(i as int, ms.len() as int) =~= Seq::<ArrayModel>::empty());
                    lemma_prefixed(array_models(out@), Seq::empty(), Ok(Seq::empty()));
                }
                Ok(Array::Vector(out))
            },
        }
    }

    /// `a op x` for every scalar `x` of `arr`.
    pub(crate) fn left_fixed(op: Dyadic, a: &Scalar, arr: &Array) -> (r: Result<Array, EvalError>)
        ensures
            model_result(r) == left_fixed_model(op, a@, arr@),
        decreases arr, a, 1nat,
    {
        match arr {
            Array::Scalar(s) => match Scalar::dyadic(op, a, s) {
                Ok(x) => Ok(Array::Scalar(x)),
                Err(e) => Err(e),
            },
            Array::Vector(v) => {
                let ghost ms = array_models(v@);
                proof {
                    lemma_array_models(v@);
                    assert(ms.subrange(0, ms.len() as int) =~= ms);
                    lemma_prefixed(Seq::empty(), Seq::empty(), left_fixed_models(op, a@, ms));
                }
                let mut out: Vec<Array> = Vec::new();
                let mut i: usize = 0;
                while i < v.len()
                    invariant
                        *arr == Array::Vector(*v),
                        i <= v@.len(),
                        ms == array_models(v@),
                        ms.len() == v@.len(),
                        forall|j: int| 0 <= j < v@.len() ==> #[trigger] ms[j] == v@[j]@,
                        left_fixed_models(op, a@, ms) == prefixed(
                            array_models(out@),
                            left_fixed_models(op, a@, ms.subrange(i as int, ms.len() as int)),
                        ),
                    decreases v@.len() - i,
                {
                    proof {
                        assert(decreases_to!(*arr => arr->Vector_0));
                        assert(decreases_to!(*arr => v@[i as int]));
                    }
                    let x = Array::left_fixed(op, a, &v[i]);
                    let ghost rest = ms.subrange(i as int, ms.len() as int);
                    proof {
                        assert(rest[0] == v@[i as int]@);
                        assert(rest.subrange(1, rest.len() as int) =~= ms.subrange(i + 1, ms.len() as int));
                    }
                    match x {
                        Err(e) => {
                            return Err(e);
                        },
                        Ok(y) => {
                            let ghost prev = out@;
                            out.push(y);
                            proof {
                                lemma_array_models_push(prev, y);
                                lemma_prefixed(array_models(prev), seq![y@], left_fixed_models(op, a@, ms.subrange(i + 1, ms.len() as int)));
                                assert(array_models(prev) + seq![y@] =~= array_models(prev).push(y@));
                            }
                            i += 1;
                        },
                    }
                }
                proof {
                    assert(ms.subrange(i as int, ms.len() as int) =~= Seq::<ArrayModel>::empty());
                    lemma_prefixed(array_models(out@), Seq::empty(), Ok(Seq::empty()));
                }
                Ok(Array::Vector(out))
            },
        }
    }

    /// `x op b` for every scalar `x` of `arr`.
    pub(crate) fn right_fixed(op: Dyadic, arr: &Array, b: &Scalar) -> (r: Result<Array, EvalError>)
        ensures
            model_result(r) == right_fixed_model(op, arr@, b@),
        decreases b, arr, 1nat,
    {
        match arr {
            Array::Scalar(s) => match Scalar::dyadic(op, s, b) {
                Ok(x) => Ok(Array::Scalar(x)),
                Err(e) => Err(e),
            },
            Array::Vector(v) => {
                let ghost ms = array_models(v@);
                proof {
                    lemma_array_models(v@);
                    assert(ms.subrange(0, ms.len() as int) =~= ms);
                    lemma_prefixed(Seq::empty(), Seq::empty(), right_fixed_models(op, ms, b@));
                }
                let mut out: Vec<Array> = Vec::new();
                let mut i: usize = 0;
                while i < v.len()
                    invariant
                        *arr == Array::Vector(*v),
                        i <= v@.len(),
                        ms == array_models(v@),
                        ms.len() == v@.len(),
                        forall|j: int| 0 <= j < v@.len() ==> #[trigger] ms[j] == v@[j]@,
                        right_fixed_models(op, ms, b@) == prefixed(
                            array_models(out@),
                            right_fixed_models(op, ms.subrange(i as int, ms.len() as int), b@),
                        ),
                    decreases v@.len() - i,
                {
                    proof {
                        assert(decreases_to!(*arr => arr->Vector_0));
                        assert(decreases_to!(*arr => v@[i as int]));
                    }
                    let x = Array::right_fixed(op, &v[i], b);
                    let ghost rest = ms.subrange(i as int, ms.len() as int);
                    proof {
                        assert(rest[0] == v@[i as int]@);
                        assert(rest.subrange(1, rest.len() as int) =~= ms.subrange(i + 1, ms.len() as int));
                    }
                    match x {
                        Err(e) => {
                            return Err(e);
                        },
                        Ok(y) => {
                            let ghost prev = out@;
                            out.push(y);
                            proof {
                                lemma_array_models_push(prev, y);
                                lemma_prefixed(array_models(prev), seq![y@], right_fixed_models(op, ms.subrange(i + 1, ms.len() as int), b@));
                                assert(array_models(prev) + seq![y@] =~= array_models(prev).push(y@));
                            }
                            i += 1;
                        },
                    }
                }
                proof {
                    assert(ms.subrange(i as int, ms.len() as int) =~= Seq::<ArrayModel>::empty());
                    lemma_prefixed(array_models(out@), Seq::empty(), Ok(Seq::empty()));
                }
                Ok(Array::Vector(out))
            },
        }
    }

    /// Applies `f` to every scalar of the array, keeping its shape.
    pub fn pervade(&self, f: &ScalarFn) -> (r: Result<Array, EvalError>)
        ensures
            model_result(r) == pervade_model(*f, self@),
    {
        match f {
            ScalarFn::Monadic(op) => self.pervade_monadic(*op),
            ScalarFn::LeftFixed(op, a) => Array::left_fixed(*op, a, self),
            ScalarFn::RightFixed(op, b) => Array::right_fixed(*op, self, b),
        }
    }
}

impl Scalar {
    /// An integer stays an integer; a fraction that is whole becomes one.
    pub fn round_whole(&self) -> (r: Result<Scalar, EvalError>)
        ensures
            scalar_result(r) == monadic_model(Monadic::RoundWhole, self@),
    {
        self.monadic(Monadic::RoundWhole)
    }

    /// The identity on real numbers.
    pub fn conjugate(&self) -> (r: Result<Scalar, EvalError>)
        ensures
            scalar_result(r) == monadic_model(Monadic::Conjugate, self@),
    {
        self.monadic(Monadic::Conjugate)
    }

    pub fn negation(&self) -> (r: Result<Scalar, EvalError>)
        ensures
            scalar_result(r) == monadic_model(Monadic::Negation, self@),
    {
        self.monadic(Monadic::Negation)
    }

    /// `1 / x`, an integer where that is exact.
    pub fn reciprocal(&self) -> (r: Result<Scalar, EvalError>)
        ensures
            scalar_result(r) == monadic_model(Monadic::Reciprocal, self@),
    {
        self.monadic(Monadic::Reciprocal)
    }

    /// `1` for a positive number, `-1` for a negative one, `0` for zero.
    pub fn signum(&self) -> (r: Result<Scalar, EvalError>)
        ensures
            scalar_result(r) == monadic_model(Monadic::Signum, self@),
    {
        self.monadic(Monadic::Signum)
    }

    pub fn add(&self, rhs: &Scalar) -> (r: Result<Scalar, EvalError>)
        ensures
            scalar_result(r) == dyadic_model(Dyadic::Add, self@, rhs@),
    {
        Scalar::dyadic(Dyadic::Add, self, rhs)
    }

    pub fn sub(&self, rhs: &Scalar) -> (r: Result<Scalar, EvalError>)
        ensures
            scalar_result(r) == dyadic_model(Dyadic::Sub, self@, rhs@),
    {
        Scalar::dyadic(Dyadic::Sub, self, rhs)
    }

    pub fn mul(&self, rhs: &Scalar) -> (r: Result<Scalar, EvalError>)
        ensures
            scalar_result(r) == dyadic_model(Dyadic::Mul, self@, rhs@),
    {
        Scalar::dyadic(Dyadic::Mul, self, rhs)
    }

    /// The quotient; an integer where integers divide exactly.
    pub fn div(&self, rhs: &Scalar) -> (r: Result<Scalar, EvalError>)
        ensures
            scalar_result(r) == dyadic_model(Dyadic::Div, self@, rhs@),
    {
        Scalar::dyadic(Dyadic::Div, self, rhs)
    }
}

} // verus!

verus! {

/// Dividing an integer by an integer that divides it exactly gives the
/// integer quotient.
pub proof fn law_exact_division(a: i64, b: i64, q: int)
    requires
        b != 0,
        a == q * b,
        in_i64(q),
    ensures
        dyadic_model(Dyadic::Div, ArrayModel::Integer(a), ArrayModel::Integer(b)) == Ok::<
            ArrayModel,
            EvalError,
        >(ArrayModel::Integer(q as i64)),
{
    let aq = abs(q);
    let ab = abs(b as int);
    assert(abs(a as int) == aq * ab) by (nonlinear_arith)
        requires a == q * b, aq == abs(q), ab == abs(b as int);
    vstd::arithmetic::div_mod::lemma_mod_multiples_basic(aq, ab);
    vstd::arithmetic::div_mod::lemma_div_multiples_vanish(aq, ab);
    assert(ab * aq == aq * ab) by (nonlinear_arith);
    if a != 0 {
        assert(q != 0);
        assert(((a < 0) == (b < 0)) == (q > 0)) by (nonlinear_arith)
            requires a == q * b, a != 0, b != 0, q != 0;
    } else {
        assert(q == 0) by (nonlinear_arith)
            requires a == q * b, a == 0, b != 0;
    }
}

/// Dividing an integer by one that does not divide it gives the fraction
/// `a / b` in lowest terms, or `Overflow`.
pub proof fn law_inexact_division(a: i64, b: i64)
    requires
        b != 0,
        abs(a as int) % abs(b as int) != 0,
    ensures
        dyadic_model(Dyadic::Div, ArrayModel::Integer(a), ArrayModel::Integer(b)) == float_result(
            a as int,
            b as int,
        ),
{
}

/// The greatest common divisor divides both of its arguments.
pub proof fn lemma_gcd_divides(a: nat, b: nat)
    requires
        a > 0 || b > 0,
    ensures
        a % gcd(a, b) == 0,
        b % gcd(a, b) == 0,
    decreases b,
{
    lemma_gcd_positive(a, b);
    let g = gcd(a, b) as int;
    if b == 0 {
        vstd::arithmetic::div_mod::lemma_mod_multiples_basic(1, g);
        vstd::arithmetic::div_mod::lemma_mod_multiples_basic(0, g);
    } else {
        lemma_gcd_divides(b, a % b);
        let r = (a % b) as int;
        vstd::arithmetic::div_mod::lemma_fundamental_div_mod(a as int, b as int);
        vstd::arithmetic::div_mod::lemma_fundamental_div_mod(b as int, g);
        vstd::arithmetic::div_mod::lemma_fundamental_div_mod(r, g);
        let k1 = b as int / g;
        let k2 = r / g;
        let t = a as int / b as int;
        assert(a == g * (k1 * t + k2)) by (nonlinear_arith)
            requires a == b * t + r, b == g * k1, r == g * k2;
        vstd::arithmetic::div_mod::lemma_mod_multiples_basic(k1 * t + k2, g);
        assert(g * (k1 * t + k2) == (k1 * t + k2) * g) by (nonlinear_arith);
    }
}

/// A fraction result holds the value `n / d`: `num * d == n * den`.
pub proof fn law_fraction_value(n: int, d: int)
    requires
        d != 0,
        float_result(n, d) is Ok,
    ensures
        float_result(n, d)->Ok_0 is Float,
        float_result(n, d)->Ok_0->Float_0.num * d == n * float_result(n, d)->Ok_0->Float_0.den,
        float_result(n, d)->Ok_0->Float_0.den > 0,
{
    let an = abs(n);
    let ad = abs(d);
    lemma_gcd_positive(an as nat, ad as nat);
    lemma_gcd_divides(an as nat, ad as nat);
    let g = gcd(an as nat, ad as nat) as int;
    let q = an / g;
    let d2 = ad / g;
    vstd::arithmetic::div_mod::lemma_fundamental_div_mod(an, g);
    vstd::arithmetic::div_mod::lemma_fundamental_div_mod(ad, g);
    assert(an == g * q && ad == g * d2);
    assert(q * ad == an * d2) by (nonlinear_arith)
        requires an == g * q, ad == g * d2;
    assert(d2 > 0) by (nonlinear_arith)
        requires ad == g * d2, ad > 0, g > 0;
    let n2 = if (n < 0) != (d < 0) { -q } else { q };
    assert(n2 * d == n * d2) by (nonlinear_arith)
        requires
            q * ad == an * d2,
            an == abs(n),
            ad == abs(d),
            n2 == (if (n < 0) != (d < 0) { -q } else { q }),
            d != 0;
}

/// Where a fraction takes part, a sum that succeeds is a fraction holding
/// the exact value `a + b`; two integers give their integer sum.
pub proof fn law_addition(a: ArrayModel, b: ArrayModel)
    requires
        is_number(a),
        is_number(b),
        denominator(a) != 0,
        denominator(b) != 0,
        dyadic_model(Dyadic::Add, a, b) is Ok,
    ensures
        a is Integer && b is Integer ==> dyadic_model(Dyadic::Add, a, b) == Ok::<ArrayModel, EvalError>(
            ArrayModel::Integer((numerator(a) + numerator(b)) as i64),
        ),
        !(a is Integer && b is Integer) ==> ({
            let r = dyadic_model(Dyadic::Add, a, b)->Ok_0;
            r is Float && r->Float_0.num * (denominator(a) * denominator(b)) == (numerator(a)
                * denominator(b) + numerator(b) * denominator(a)) * r->Float_0.den
        }),
{
    if !(a is Integer && b is Integer) {
        let ad = denominator(a);
        let bd = denominator(b);
        assert(ad * bd != 0) by (nonlinear_arith)
            requires ad != 0, bd != 0;
        law_fraction_value(numerator(a) * bd + numerator(b) * ad, ad * bd);
    }
}

} // verus!
