use vstd::prelude::*;

use crate::array::Fraction;
use crate::error::EvalError;
use crate::primitives::{PrimitiveDyadicOperator, PrimitiveFunction, PrimitiveMonadicOperator};
use crate::scalar::{lemma_prefixed, prefixed};
use crate::tree::Expr;

verus! {

broadcast use vstd::std_specs::vec::group_vec_axioms;

/// A lexical token of an input line.
#[derive(Debug, Clone, Copy, PartialEq, Eq, Structural)]
pub enum Token {
    Integer(i64),
    Float(Fraction),
    LParens,
    RParens,
    Plus,
    Minus,
    Times,
    Divide,
    LeftTack,
    RightTack,
    Comma,
    Epsilon,
    TildeDiaeresis,
    /// Text that is no token.
    Error,
}

/// The mathematical content of an `Expr`.
pub enum ExprModel {
    Integer(i64),
    Float(Fraction),
    PrimitiveFunction(PrimitiveFunction),
    PrimitiveMonadicOperator(PrimitiveMonadicOperator),
    PrimitiveDyadicOperator(PrimitiveDyadicOperator),
    Isolated(Seq<ExprModel>),
}

pub open spec fn expr_model(e: Expr) -> ExprModel
    decreases e,
{
    match e {
        Expr::Integer(n) => ExprModel::Integer(n),
        Expr::Float(f) => ExprModel::Float(f),
        Expr::PrimitiveFunction(p) => ExprModel::PrimitiveFunction(p),
        Expr::PrimitiveMonadicOperator(p) => ExprModel::PrimitiveMonadicOperator(p),
        Expr::PrimitiveDyadicOperator(p) => ExprModel::PrimitiveDyadicOperator(p),
        Expr::Isolated(es) => ExprModel::Isolated(expr_models(es@)),
    }
}

pub open spec fn expr_models(s: Seq<Expr>) -> Seq<ExprModel>
    decreases s,
{
    if s.len() == 0 {
        Seq::empty()
    } else {
        expr_models(s.drop_last()).push(expr_model(s.last()))
    }
}

pub proof fn lemma_expr_models(s: Seq<Expr>)
    ensures
        expr_models(s).len() == s.len(),
        forall|i: int| 0 <= i < s.len() ==> #[trigger] expr_models(s)[i] == expr_model(s[i]),
    decreases s.len(),
{
    if s.len() > 0 {
        lemma_expr_models(s.drop_last());
    }
}

/// The item that a token other than a parenthesis stands for.
pub open spec fn leaf_model(t: Token) -> Option<ExprModel> {
    match t {
        Token::Integer(n) => Some(ExprModel::Integer(n)),
        Token::Float(f) => Some(ExprModel::Float(f)),
        Token::Plus => Some(ExprModel::PrimitiveFunction(PrimitiveFunction::Plus)),
        Token::Minus => Some(ExprModel::PrimitiveFunction(PrimitiveFunction::Minus)),
        Token::Times => Some(ExprModel::PrimitiveFunction(PrimitiveFunction::Times)),
        Token::Divide => Some(ExprModel::PrimitiveFunction(PrimitiveFunction::Divide)),
        Token::LeftTack => Some(ExprModel::PrimitiveFunction(PrimitiveFunction::LeftTack)),
        Token::RightTack => Some(ExprModel::PrimitiveFunction(PrimitiveFunction::RightTack)),
        Token::Comma => Some(ExprModel::PrimitiveFunction(PrimitiveFunction::Comma)),
        Token::Epsilon => Some(ExprModel::PrimitiveFunction(PrimitiveFunction::Epsilon)),
        Token::TildeDiaeresis => Some(
            ExprModel::PrimitiveMonadicOperator(PrimitiveMonadicOperator::Commute),
        ),
        _ => None,
    }
}

/// Scanning `t` from `k` with `depth` parentheses open, the position of the
/// one that closes the outermost; -1 where it is never closed.
pub open spec fn close_of(t: Seq<Token>, k: int, depth: int) -> int
    decreases t.len() - k,
{
    if k < 0 || k >= t.len() {
        -1
    } else if t[k] is RParens {
        if depth <= 1 {
            k
        } else {
            close_of(t, k + 1, depth - 1)
        }
    } else if t[k] is LParens {
        close_of(t, k + 1, depth + 1)
    } else {
        close_of(t, k + 1, depth)
    }
}

/// The items of a run of tokens: a parenthesized run is one item that holds
/// the items inside, which must not be empty; an unmatched parenthesis or a
/// token in error is a syntax error.
pub open spec fn parse_model(t: Seq<Token>) -> Result<Seq<ExprModel>, EvalError>
    decreases t.len(),
{
    if t.len() == 0 {
        Ok(Seq::empty())
    } else if t[0] is LParens {
        let m = close_of(t, 1, 1);
        if 1 <= m < t.len() {
            match parse_model(t.subrange(1, m)) {
                Err(e) => Err(e),
                Ok(inner) => if inner.len() == 0 {
                    Err(EvalError::Syntax)
                } else {
                    prefixed(
                        seq![ExprModel::Isolated(inner)],
                        parse_model(t.subrange(m + 1, t.len() as int)),
                    )
                },
            }
        } else {
            Err(EvalError::Syntax)
        }
    } else {
        match leaf_model(t[0]) {
            Some(x) => prefixed(seq![x], parse_model(t.subrange(1, t.len() as int))),
            None => Err(EvalError::Syntax),
        }
    }
}

/// The items of a whole line: at least one.
pub open spec fn parse_line_model(t: Seq<Token>) -> Result<Seq<ExprModel>, EvalError> {
    match parse_model(t) {
        Ok(s) => if s.len() == 0 {
            Err(EvalError::Syntax)
        } else {
            Ok(s)
        },
        Err(e) => Err(e),
    }
}

pub open spec fn exprs_result(r: Result<Vec<Expr>, EvalError>) -> Result<Seq<ExprModel>, EvalError> {
    match r {
        Ok(v) => Ok(expr_models(v@)),
        Err(e) => Err(e),
    }
}

fn leaf(t: Token) -> (r: Option<Expr>)
    ensures
        match r {
            Some(e) => leaf_model(t) == Some(expr_model(e)),
            None => leaf_model(t) is None,
        },
{
    match t {
        Token::Integer(n) => Some(Expr::Integer(n)),
        Token::Float(f) => Some(Expr::Float(f)),
        Token::Plus => Some(Expr::PrimitiveFunction(PrimitiveFunction::Plus)),
        Token::Minus => Some(Expr::PrimitiveFunction(PrimitiveFunction::Minus)),
        Token::Times => Some(Expr::PrimitiveFunction(PrimitiveFunction::Times)),
        Token::Divide => Some(Expr::PrimitiveFunction(PrimitiveFunction::Divide)),
        Token::LeftTack => Some(Expr::PrimitiveFunction(PrimitiveFunction::LeftTack)),
        Token::RightTack => Some(Expr::PrimitiveFunction(PrimitiveFunction::RightTack)),
        Token::Comma => Some(Expr::PrimitiveFunction(PrimitiveFunction::Comma)),
        Token::Epsilon => Some(Expr::PrimitiveFunction(PrimitiveFunction::Epsilon)),
        Token::TildeDiaeresis => Some(
            Expr::PrimitiveMonadicOperator(PrimitiveMonadicOperator::Commute),
        ),
        _ => None,
    }
}

/// The position, counted from `lo`, of the parenthesis that closes the one
/// at `lo - 1`.
fn find_close(t: &[Token], lo: usize, hi: usize) -> (r: i64)
    requires
        1 <= lo <= hi <= t@.len(),
        hi <= i64::MAX,
    ensures
        r == close_of(t@.subrange(lo - 1, hi as int), 1, 1),
{
    let ghost s = t@.subrange(lo - 1, hi as int);
    let mut k: usize = lo;
    let mut depth: i64 = 1;
    while k < hi
        invariant
            1 <= lo <= k <= hi,
            s.len() == hi - lo + 1,
            hi <= t@.len(),
            hi <= i64::MAX,
            s == t@.subrange(lo - 1, hi as int),
            1 <= depth <= k - lo + 1,
            close_of(s, 1, 1) == close_of(s, k - lo + 1, depth as int),
        decreases hi - k,
    {
        let tok = t[k];
        proof {
            assert(t@[k as int] == tok);
            assert(s[k - lo + 1] == t@[(lo - 1) + (k - lo + 1)]);
            assert(s[k - lo + 1] == tok);
            assert(close_of(s, k - lo + 1, depth as int) == if tok is RParens {
                if depth <= 1 { k - lo + 1 } else { close_of(s, k - lo + 2, depth - 1) }
            } else if tok is LParens {
                close_of(s, k - lo + 2, depth + 1)
            } else {
                close_of(s, k - lo + 2, depth as int)
            });
        }
        match tok {
            Token::RParens => {
                if depth <= 1 {
                    return (k - lo + 1) as i64;
                }
                depth = depth - 1;
            },
            Token::LParens => {
                assert(depth < hi);
                depth = depth + 1;
            },
            _ => {},
        }
        k += 1;
    }
    proof {
        assert(close_of(s, k - lo + 1, depth as int) == -1);
    }
    -1
}

pub proof fn lemma_expr_models_cons(x: Expr, s: Seq<Expr>)
    ensures
        expr_models(seq![x] + s) == seq![expr_model(x)] + expr_models(s),
{
    lemma_expr_models(seq![x] + s);
    lemma_expr_models(s);
    assert(expr_models(seq![x] + s) =~= seq![expr_model(x)] + expr_models(s)) by {
        assert forall|i: int| 0 <= i < s.len() + 1 implies #[trigger] expr_models(seq![x] + s)[i] == (
        seq![expr_model(x)] + expr_models(s))[i] by {
            if i > 0 {
                assert((seq![x] + s)[i] == s[i - 1]);
            }
        }
    }
}

fn parse_range(t: &[Token], lo: usize, hi: usize) -> (r: Result<Vec<Expr>, EvalError>)
    requires
        lo <= hi <= t@.len(),
        hi <= i64::MAX,
    ensures
        exprs_result(r) == parse_model(t@.subrange(lo as int, hi as int)),
    decreases hi - lo,
{
    let ghost s = t@.subrange(lo as int, hi as int);
    if lo == hi {
        proof {
            assert(expr_models(Seq::<Expr>::empty()) =~= Seq::<ExprModel>::empty());
        }
        return Ok(Vec::new());
    }
    let first = t[lo];
    proof {
        assert(s[0] == first);
    }
    let (item, next) = match first {
        Token::LParens => {
            let m = find_close(t, lo + 1, hi);
            proof {
                assert(t@.subrange(lo as int, hi as int) =~= s);
            }
            if m < 1 || m >= (hi - lo) as i64 {
                return Err(EvalError::Syntax);
            }
            let close = lo + m as usize;
            assert(lo + 1 <= close < hi);
            let inner = match parse_range(t, lo + 1, close) {
                Ok(inner) => inner,
                Err(e) => {
                    proof {
                        assert(s.subrange(1, m as int) =~= t@.subrange(lo + 1, close as int));
                    }
                    return Err(e);
                },
            };
            proof {
                assert(s.subrange(1, m as int) =~= t@.subrange(lo + 1, close as int));
                lemma_expr_models(inner@);
            }
            if inner.len() == 0 {
                return Err(EvalError::Syntax);
            }
            proof {
                assert(s.subrange(m + 1, s.len() as int) =~= t@.subrange(close + 1, hi as int));
            }
            (Expr::Isolated(inner), close + 1)
        },
        _ => match leaf(first) {
            Some(e) => {
                proof {
                    assert(s.subrange(1, s.len() as int) =~= t@.subrange(lo + 1, hi as int));
                }
                (e, lo + 1)
            },
            None => {
                return Err(EvalError::Syntax);
            },
        },
    };
    let ghost item_model = expr_model(item);
    match parse_range(t, next, hi) {
        Err(e) => Err(e),
        Ok(rest) => {
            let ghost rest_seq = rest@;
            let mut out: Vec<Expr> = Vec::new();
            out.push(item);
            let mut rest = rest;
            out.append(&mut rest);
            proof {
                assert(out@ =~= seq![item] + rest_seq);
                lemma_expr_models_cons(item, rest_seq);
            }
            Ok(out)
        },
    }
}

/// Groups the tokens of one line into items, a parenthesized run into one
/// item.
pub fn parse(input: &[Token]) -> (r: Result<Vec<Expr>, EvalError>)
    requires
        input@.len() <= i64::MAX,
    ensures
        exprs_result(r) == parse_line_model(input@),
{
    let r = parse_range(input, 0, input.len());
    proof {
        assert(input@.subrange(0, input@.len() as int) =~= input@);
    }
    match r {
        Ok(v) => {
            proof {
                lemma_expr_models(v@);
            }
            if v.len() == 0 {
                Err(EvalError::Syntax)
            } else {
                Ok(v)
            }
        },
        Err(e) => Err(e),
    }
}

} // verus!
