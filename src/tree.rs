use vstd::prelude::*;

use crate::array::Fraction;
use crate::error::EvalError;
use crate::primitives::{PrimitiveDyadicOperator, PrimitiveFunction, PrimitiveMonadicOperator};
use crate::scalar::{lemma_prefixed, prefixed};

verus! {

broadcast use vstd::std_specs::vec::group_vec_axioms;

/// One item of an input line, as the grouping parser hands it over.
#[derive(Debug, PartialEq)]
pub enum Expr {
    Integer(i64),
    Float(Fraction),
    PrimitiveFunction(PrimitiveFunction),
    PrimitiveMonadicOperator(PrimitiveMonadicOperator),
    PrimitiveDyadicOperator(PrimitiveDyadicOperator),
    /// A parenthesized run of items.
    Isolated(Vec<Expr>),
}

/// A resolved node of the application tree.
#[derive(Debug, PartialEq)]
pub enum EvalTree {
    /// Values written side by side: one vector.
    Array(Vec<EvalTree>),
    /// A function that is not applied.
    Function(Box<EvalTree>),
    MonadicFunctionApplication(Box<EvalTree>, Box<EvalTree>),
    DyadicFunctionApplication(Box<EvalTree>, Box<EvalTree>, Box<EvalTree>),
    /// A left argument and a function, awaiting the right argument.
    BoundLeftArgument(Box<EvalTree>, Box<EvalTree>),
    /// An operand and a monadic operator: a derived function.
    MonadicOperatorApplication(Box<EvalTree>, Box<EvalTree>),
    /// A dyadic operator and its right operand, awaiting the left operand.
    BoundRightOperand(Box<EvalTree>, Box<EvalTree>),
    DyadicOperatorApplication(Box<EvalTree>, Box<EvalTree>, Box<EvalTree>),
    Atop(Box<EvalTree>, Box<EvalTree>),
    Fork(Box<EvalTree>, Box<EvalTree>, Box<EvalTree>),
    Integer(i64),
    Float(Fraction),
    PrimitiveFunction(PrimitiveFunction),
    PrimitiveMonadicOperator(PrimitiveMonadicOperator),
    PrimitiveDyadicOperator(PrimitiveDyadicOperator),
    /// The result of a parenthesized group: it is never spliced into a
    /// neighbouring strand, nor taken apart to form a fork.
    Parenthesized(Box<EvalTree>),
}

/// The mathematical content of an `EvalTree`.
pub enum TreeModel {
    Array(Seq<TreeModel>),
    Function(Box<TreeModel>),
    MonadicFunctionApplication(Box<TreeModel>, Box<TreeModel>),
    DyadicFunctionApplication(Box<TreeModel>, Box<TreeModel>, Box<TreeModel>),
    BoundLeftArgument(Box<TreeModel>, Box<TreeModel>),
    MonadicOperatorApplication(Box<TreeModel>, Box<TreeModel>),
    BoundRightOperand(Box<TreeModel>, Box<TreeModel>),
    DyadicOperatorApplication(Box<TreeModel>, Box<TreeModel>, Box<TreeModel>),
    Atop(Box<TreeModel>, Box<TreeModel>),
    Fork(Box<TreeModel>, Box<TreeModel>, Box<TreeModel>),
    Integer(i64),
    Float(Fraction),
    PrimitiveFunction(PrimitiveFunction),
    PrimitiveMonadicOperator(PrimitiveMonadicOperator),
    PrimitiveDyadicOperator(PrimitiveDyadicOperator),
    Parenthesized(Box<TreeModel>),
}

pub open spec fn tree_model(t: EvalTree) -> TreeModel
    decreases t,
{
    match t {
        EvalTree::Array(v) => TreeModel::Array(tree_models(v@)),
        EvalTree::Function(a) => TreeModel::Function(Box::new(tree_model(*a))),
        EvalTree::MonadicFunctionApplication(a, b) => TreeModel::MonadicFunctionApplication(
            Box::new(tree_model(*a)),
            Box::new(tree_model(*b)),
        ),
        EvalTree::DyadicFunctionApplication(a, b, c) => TreeModel::DyadicFunctionApplication(
            Box::new(tree_model(*a)),
            Box::new(tree_model(*b)),
            Box::new(tree_model(*c)),
        ),
        EvalTree::BoundLeftArgument(a, b) => TreeModel::BoundLeftArgument(
            Box::new(tree_model(*a)),
            Box::new(tree_model(*b)),
        ),
        EvalTree::MonadicOperatorApplication(a, b) => TreeModel::MonadicOperatorApplication(
            Box::new(tree_model(*a)),
            Box::new(tree_model(*b)),
        ),
        EvalTree::BoundRightOperand(a, b) => TreeModel::BoundRightOperand(
            Box::new(tree_model(*a)),
            Box::new(tree_model(*b)),
        ),
        EvalTree::DyadicOperatorApplication(a, b, c) => TreeModel::DyadicOperatorApplication(
            Box::new(tree_model(*a)),
            Box::new(tree_model(*b)),
            Box::new(tree_model(*c)),
        ),
        EvalTree::Atop(a, b) => TreeModel::Atop(Box::new(tree_model(*a)), Box::new(tree_model(*b))),
        EvalTree::Fork(a, b, c) => TreeModel::Fork(
            Box::new(tree_model(*a)),
            Box::new(tree_model(*b)),
            Box::new(tree_model(*c)),
        ),
        EvalTree::Integer(n) => TreeModel::Integer(n),
        EvalTree::Float(f) => TreeModel::Float(f),
        EvalTree::PrimitiveFunction(p) => TreeModel::PrimitiveFunction(p),
        EvalTree::PrimitiveMonadicOperator(p) => TreeModel::PrimitiveMonadicOperator(p),
        EvalTree::PrimitiveDyadicOperator(p) => TreeModel::PrimitiveDyadicOperator(p),
        EvalTree::Parenthesized(a) => TreeModel::Parenthesized(Box::new(tree_model(*a))),
    }
}

pub open spec fn tree_models(s: Seq<EvalTree>) -> Seq<TreeModel>
    decreases s,
{
    if s.len() == 0 {
        Seq::empty()
    } else {
        tree_models(s.drop_last()).push(tree_model(s.last()))
    }
}

impl View for EvalTree {
    type V = TreeModel;

    open spec fn view(&self) -> TreeModel {
        tree_model(*self)
    }
}

pub open spec fn tree_result(r: Result<EvalTree, EvalError>) -> Result<TreeModel, EvalError> {
    match r {
        Ok(t) => Ok(t@),
        Err(e) => Err(e),
    }
}

pub proof fn lemma_tree_models(s: Seq<EvalTree>)
    ensures
        tree_models(s).len() == s.len(),
        forall|i: int| 0 <= i < s.len() ==> #[trigger] tree_models(s)[i] == s[i]@,
    decreases s.len(),
{
    if s.len() > 0 {
        lemma_tree_models(s.drop_last());
    }
}

pub proof fn lemma_tree_models_concat(s: Seq<EvalTree>, t: Seq<EvalTree>)
    ensures
        tree_models(s + t) == tree_models(s) + tree_models(t),
{
    lemma_tree_models(s);
    lemma_tree_models(t);
    lemma_tree_models(s + t);
    assert(tree_models(s + t) =~= tree_models(s) + tree_models(t));
}

/// The role a node plays when it meets its neighbours. `Hybrid`, `Jot`,
/// `Dot`, `Reference` and `Index` have rows in the strength table but no node
/// takes them yet.
#[derive(Debug, Clone, Copy, PartialEq, Eq, Structural)]
pub enum BindingType {
    Value,
    Function,
    Hybrid,
    LeftBound,
    MonadicOp,
    DyadicOp,
    Jot,
    Dot,
    Reference,
    Index,
}

pub open spec fn role(t: TreeModel) -> BindingType
    decreases t,
{
    match t {
        TreeModel::Array(_) => BindingType::Value,
        TreeModel::Function(_) => BindingType::Function,
        TreeModel::MonadicFunctionApplication(_, _) => BindingType::Value,
        TreeModel::DyadicFunctionApplication(_, _, _) => BindingType::Value,
        TreeModel::BoundLeftArgument(_, _) => BindingType::LeftBound,
        TreeModel::MonadicOperatorApplication(_, _) => BindingType::Function,
        TreeModel::BoundRightOperand(_, _) => BindingType::MonadicOp,
        TreeModel::DyadicOperatorApplication(_, _, _) => BindingType::Function,
        TreeModel::Atop(_, _) => BindingType::Function,
        TreeModel::Fork(_, _, _) => BindingType::Function,
        TreeModel::Integer(_) => BindingType::Value,
        TreeModel::Float(_) => BindingType::Value,
        TreeModel::PrimitiveFunction(_) => BindingType::Function,
        TreeModel::PrimitiveMonadicOperator(_) => BindingType::MonadicOp,
        TreeModel::PrimitiveDyadicOperator(_) => BindingType::DyadicOp,
        TreeModel::Parenthesized(a) => role(*a),
    }
}

/// The role of a node.
pub fn binding_type(t: &EvalTree) -> (r: BindingType)
    ensures
        r == role(t@),
    decreases t,
{
    match t {
        EvalTree::Array(_) => BindingType::Value,
        EvalTree::Function(_) => BindingType::Function,
        EvalTree::MonadicFunctionApplication(_, _) => BindingType::Value,
        EvalTree::DyadicFunctionApplication(_, _, _) => BindingType::Value,
        EvalTree::BoundLeftArgument(_, _) => BindingType::LeftBound,
        EvalTree::MonadicOperatorApplication(_, _) => BindingType::Function,
        EvalTree::BoundRightOperand(_, _) => BindingType::MonadicOp,
        EvalTree::DyadicOperatorApplication(_, _, _) => BindingType::Function,
        EvalTree::Atop(_, _) => BindingType::Function,
        EvalTree::Fork(_, _, _) => BindingType::Function,
        EvalTree::Integer(_) => BindingType::Value,
        EvalTree::Float(_) => BindingType::Value,
        EvalTree::PrimitiveFunction(_) => BindingType::Function,
        EvalTree::PrimitiveMonadicOperator(_) => BindingType::MonadicOp,
        EvalTree::PrimitiveDyadicOperator(_) => BindingType::DyadicOp,
        EvalTree::Parenthesized(a) => binding_type(a),
    }
}


/// How strongly two adjacent roles bind: the higher, the sooner; `None` where
/// the two cannot stand side by side.
pub open spec fn strength(x: BindingType, y: BindingType) -> Option<u8> {
    match (x, y) {
        (BindingType::Value, BindingType::Value) => Some(6),
        (BindingType::Value, BindingType::Function) => Some(3),
        (BindingType::Value, BindingType::Hybrid) => Some(3),
        (BindingType::Value, BindingType::MonadicOp) => Some(4),
        (BindingType::Value, BindingType::Dot) => Some(7),
        (BindingType::Value, BindingType::Index) => Some(4),
        (BindingType::Function, BindingType::Value) => Some(2),
        (BindingType::Function, BindingType::Function) => Some(1),
        (BindingType::Function, BindingType::Hybrid) => Some(4),
        (BindingType::Function, BindingType::MonadicOp) => Some(4),
        (BindingType::Function, BindingType::Index) => Some(4),
        (BindingType::Hybrid, BindingType::Function) => Some(1),
        (BindingType::Hybrid, BindingType::Hybrid) => Some(4),
        (BindingType::Hybrid, BindingType::MonadicOp) => Some(4),
        (BindingType::Hybrid, BindingType::Index) => Some(4),
        (BindingType::LeftBound, BindingType::Value) => Some(2),
        (BindingType::LeftBound, BindingType::Function) => Some(1),
        (BindingType::MonadicOp, BindingType::Hybrid) => Some(4),
        (BindingType::DyadicOp, BindingType::Value) => Some(5),
        (BindingType::DyadicOp, BindingType::Function) => Some(5),
        (BindingType::DyadicOp, BindingType::Hybrid) => Some(5),
        (BindingType::Jot, BindingType::Value) => Some(5),
        (BindingType::Jot, BindingType::Function) => Some(5),
        (BindingType::Jot, BindingType::Hybrid) => Some(5),
        (BindingType::Jot, BindingType::MonadicOp) => Some(4),
        (BindingType::Dot, BindingType::Value) => Some(6),
        (BindingType::Dot, BindingType::Function) => Some(5),
        (BindingType::Dot, BindingType::Hybrid) => Some(5),
        (BindingType::Dot, BindingType::DyadicOp) => Some(6),
        (BindingType::Reference, BindingType::Value) => Some(7),
        (BindingType::Reference, BindingType::Function) => Some(7),
        (BindingType::Reference, BindingType::Hybrid) => Some(7),
        (BindingType::Reference, BindingType::MonadicOp) => Some(7),
        (BindingType::Reference, BindingType::DyadicOp) => Some(7),
        (BindingType::Index, BindingType::Value) => Some(3),
        (BindingType::Index, BindingType::Function) => Some(3),
        (BindingType::Index, BindingType::Hybrid) => Some(3),
        _ => None,
    }
}

fn strength_of(x: BindingType, y: BindingType) -> (r: Option<u8>)
    ensures
        r == strength(x, y),
{
    match (x, y) {
        (BindingType::Value, BindingType::Value) => Some(6),
        (BindingType::Value, BindingType::Function) => Some(3),
        (BindingType::Value, BindingType::Hybrid) => Some(3),
        (BindingType::Value, BindingType::MonadicOp) => Some(4),
        (BindingType::Value, BindingType::Dot) => Some(7),
        (BindingType::Value, BindingType::Index) => Some(4),
        (BindingType::Function, BindingType::Value) => Some(2),
        (BindingType::Function, BindingType::Function) => Some(1),
        (BindingType::Function, BindingType::Hybrid) => Some(4),
        (BindingType::Function, BindingType::MonadicOp) => Some(4),
        (BindingType::Function, BindingType::Index) => Some(4),
        (BindingType::Hybrid, BindingType::Function) => Some(1),
        (BindingType::Hybrid, BindingType::Hybrid) => Some(4),
        (BindingType::Hybrid, BindingType::MonadicOp) => Some(4),
        (BindingType::Hybrid, BindingType::Index) => Some(4),
        (BindingType::LeftBound, BindingType::Value) => Some(2),
        (BindingType::LeftBound, BindingType::Function) => Some(1),
        (BindingType::MonadicOp, BindingType::Hybrid) => Some(4),
        (BindingType::DyadicOp, BindingType::Value) => Some(5),
        (BindingType::DyadicOp, BindingType::Function) => Some(5),
        (BindingType::DyadicOp, BindingType::Hybrid) => Some(5),
        (BindingType::Jot, BindingType::Value) => Some(5),
        (BindingType::Jot, BindingType::Function) => Some(5),
        (BindingType::Jot, BindingType::Hybrid) => Some(5),
        (BindingType::Jot, BindingType::MonadicOp) => Some(4),
        (BindingType::Dot, BindingType::Value) => Some(6),
        (BindingType::Dot, BindingType::Function) => Some(5),
        (BindingType::Dot, BindingType::Hybrid) => Some(5),
        (BindingType::Dot, BindingType::DyadicOp) => Some(6),
        (BindingType::Reference, BindingType::Value) => Some(7),
        (BindingType::Reference, BindingType::Function) => Some(7),
        (BindingType::Reference, BindingType::Hybrid) => Some(7),
        (BindingType::Reference, BindingType::MonadicOp) => Some(7),
        (BindingType::Reference, BindingType::DyadicOp) => Some(7),
        (BindingType::Index, BindingType::Value) => Some(3),
        (BindingType::Index, BindingType::Function) => Some(3),
        (BindingType::Index, BindingType::Hybrid) => Some(3),
        _ => None,
    }
}

/// The binding strength of two adjacent nodes.
pub open spec fn pair_strength(x: TreeModel, y: TreeModel) -> Option<u8> {
    strength(role(x), role(y))
}

fn binding_strength(x: &EvalTree, y: &EvalTree) -> (r: Option<u8>)
    ensures
        r == pair_strength(x@, y@),
{
    strength_of(binding_type(x), binding_type(y))
}

/// Every adjacent pair of `s` has a strength.
pub open spec fn all_bind(s: Seq<TreeModel>) -> bool {
    forall|k: int| 0 <= k < s.len() - 1 ==> #[trigger] pair_strength(s[k], s[k + 1]) is Some
}

/// The strengths of the adjacent pairs of `s`, left to right.
pub open spec fn strengths(s: Seq<TreeModel>) -> Seq<u8> {
    Seq::new((s.len() - 1) as nat, |k: int| pair_strength(s[k], s[k + 1])->Some_0)
}

/// The strengths of the adjacent pairs, or `Syntax` where a pair has none.
pub fn binding_strengths(ts: &[EvalTree]) -> (r: Result<Vec<u8>, EvalError>)
    requires
        ts@.len() >= 1,
    ensures
        all_bind(tree_models(ts@)) <==> r is Ok,
        r is Ok ==> r->Ok_0@ == strengths(tree_models(ts@)),
        r is Err ==> r == Err::<Vec<u8>, EvalError>(EvalError::Syntax),
{
    let ghost ms = tree_models(ts@);
    proof {
        lemma_tree_models(ts@);
    }
    let mut out: Vec<u8> = Vec::new();
    let mut k: usize = 0;
    while k < ts.len() - 1
        invariant
            ms == tree_models(ts@),
            ms.len() == ts@.len(),
            ts@.len() >= 1,
            forall|j: int| 0 <= j < ts@.len() ==> #[trigger] ms[j] == ts@[j]@,
            k + 1 <= ts@.len(),
            out@.len() == k,
            forall|j: int| 0 <= j < k ==> (#[trigger] pair_strength(ms[j], ms[j + 1])) is Some
                && out@[j] == pair_strength(ms[j], ms[j + 1])->Some_0,
        decreases ts@.len() - k,
    {
        match binding_strength(&ts[k], &ts[k + 1]) {
            Some(n) => {
                out.push(n);
            },
            None => {
                proof {
                    assert(pair_strength(ms[k as int], ms[k + 1]) is None);
                }
                return Err(EvalError::Syntax);
            },
        }
        k += 1;
    }
    proof {
        assert(out@ =~= strengths(ms));
    }
    Ok(out)
}

/// The position of the greatest strength; among equal ones, the rightmost.
pub open spec fn strongest(s: Seq<u8>) -> int
    decreases s.len(),
{
    if s.len() <= 1 {
        0
    } else {
        let b = strongest(s.drop_last());
        if s.last() >= s[b] {
            s.len() - 1
        } else {
            b
        }
    }
}

/// The strongest pair is a greatest one, and every pair to its right binds
/// strictly less: ties go to the rightmost pair.
pub proof fn law_tie_break(s: Seq<u8>)
    requires
        s.len() >= 1,
    ensures
        0 <= strongest(s) < s.len(),
        forall|j: int| 0 <= j < s.len() ==> #[trigger] s[j] <= s[strongest(s)],
        forall|j: int| strongest(s) < j < s.len() ==> #[trigger] s[j] < s[strongest(s)],
    decreases s.len(),
{
    if s.len() > 1 {
        let t = s.drop_last();
        law_tie_break(t);
        let b = strongest(t);
        assert forall|j: int| 0 <= j < t.len() implies #[trigger] t[j] == s[j] by {}
        assert(t[b] == s[b]);
        if s.last() >= s[b] {
            assert(strongest(s) == s.len() - 1);
            assert forall|j: int| 0 <= j < s.len() implies #[trigger] s[j] <= s[strongest(s)] by {
                if j < s.len() - 1 {
                    assert(t[j] <= t[b]);
                }
            }
        } else {
            assert(strongest(s) == b);
            assert forall|j: int| 0 <= j < s.len() implies #[trigger] s[j] <= s[strongest(s)] by {
                if j < s.len() - 1 {
                    assert(t[j] <= t[b]);
                }
            }
            assert forall|j: int| strongest(s) < j < s.len() implies #[trigger] s[j] < s[strongest(s)] by {
                if j < s.len() - 1 {
                    assert(t[j] < t[b]);
                }
            }
        }
    }
}

/// The index of the strongest pair, scanning left to right and keeping the
/// last candidate that is greater or equal.
pub fn strongest_pair(s: &Vec<u8>) -> (r: usize)
    requires
        s@.len() >= 1,
    ensures
        r == strongest(s@),
{
    let mut best: usize = 0;
    let mut k: usize = 1;
    while k < s.len()
        invariant
            1 <= k <= s@.len(),
            best == strongest(s@.take(k as int)),
            best < k,
        decreases s@.len() - k,
    {
        proof {
            assert(s@.take(k + 1).drop_last() =~= s@.take(k as int));
            law_tie_break(s@.take(k as int));
        }
        if s[k] >= s[best] {
            best = k;
        }
        k += 1;
    }
    proof {
        assert(s@.take(k as int) =~= s@);
    }
    best
}


/// What a node brings to a strand: an array literal its items, any other
/// node (a parenthesized array too) itself.
pub open spec fn strand_items(t: TreeModel) -> Seq<TreeModel> {
    match t {
        TreeModel::Array(s) => s,
        _ => seq![t],
    }
}

/// The left argument and the function of a node that awaits a right
/// argument, looking through parentheses.
pub open spec fn bound_left_parts(t: TreeModel) -> Option<(TreeModel, TreeModel)>
    decreases t,
{
    match t {
        TreeModel::BoundLeftArgument(l, f) => Some((*l, *f)),
        TreeModel::Parenthesized(a) => bound_left_parts(*a),
        _ => None,
    }
}

/// Two adjacent functions: beside an atop that the reduction has just formed
/// a function makes a fork, beside any other function an atop. Reduced from
/// the right, `f g h` is a fork, `e f g h` an atop over that fork, and so on.
pub open spec fn train(f: TreeModel, g: TreeModel) -> TreeModel {
    match g {
        TreeModel::Atop(m, r) => TreeModel::Fork(Box::new(f), m, r),
        _ => TreeModel::Atop(Box::new(f), Box::new(g)),
    }
}

/// The node that two adjacent nodes form, by their roles.
pub open spec fn combine_model(x: TreeModel, y: TreeModel) -> Result<TreeModel, EvalError> {
    match (role(x), role(y)) {
        (BindingType::Value, BindingType::Value) => Ok(
            TreeModel::Array(strand_items(x) + strand_items(y)),
        ),
        (BindingType::Value, BindingType::Function)
        | (BindingType::Value, BindingType::Hybrid) => Ok(
            TreeModel::BoundLeftArgument(Box::new(x), Box::new(y)),
        ),
        (BindingType::Value, BindingType::MonadicOp)
        | (BindingType::Function, BindingType::MonadicOp)
        | (BindingType::Hybrid, BindingType::MonadicOp)
        | (BindingType::Jot, BindingType::MonadicOp) => Ok(
            TreeModel::MonadicOperatorApplication(Box::new(x), Box::new(y)),
        ),
        (BindingType::Function, BindingType::Value) => Ok(
            TreeModel::MonadicFunctionApplication(Box::new(x), Box::new(y)),
        ),
        (BindingType::Function, BindingType::Function)
        | (BindingType::Function, BindingType::Hybrid) => Ok(train(x, y)),
        (BindingType::LeftBound, BindingType::Value) => match bound_left_parts(x) {
            Some(p) => Ok(
                TreeModel::DyadicFunctionApplication(Box::new(p.0), Box::new(p.1), Box::new(y)),
            ),
            None => Err(EvalError::Internal),
        },
        (BindingType::DyadicOp, BindingType::Value)
        | (BindingType::DyadicOp, BindingType::Function)
        | (BindingType::DyadicOp, BindingType::Hybrid)
        | (BindingType::Jot, BindingType::Value)
        | (BindingType::Jot, BindingType::Function)
        | (BindingType::Jot, BindingType::Hybrid)
        | (BindingType::Dot, BindingType::Function)
        | (BindingType::Dot, BindingType::Hybrid) => Ok(
            TreeModel::BoundRightOperand(Box::new(x), Box::new(y)),
        ),
        _ => Err(EvalError::Syntax),
    }
}

pub proof fn lemma_tree_models_single(t: EvalTree)
    ensures
        tree_models(seq![t]) == seq![t@],
{
    let s = seq![t];
    assert(s.drop_last() =~= Seq::<EvalTree>::empty());
    assert(s.last() == t);
    assert(tree_models(Seq::<EvalTree>::empty()) == Seq::<TreeModel>::empty());
    assert(tree_models(s) == tree_models(s.drop_last()).push(tree_model(s.last())));
    assert(tree_models(s) =~= seq![t@]);
}

fn into_strand(t: EvalTree) -> (r: Vec<EvalTree>)
    ensures
        tree_models(r@) == strand_items(t@),
{
    match t {
        EvalTree::Array(v) => v,
        other => {
            let ghost o = other;
            let r = vec![other];
            proof {
                assert(r@ =~= seq![o]);
                lemma_tree_models_single(o);
            }
            r
        },
    }
}

fn into_bound_left(t: EvalTree) -> (r: Option<(Box<EvalTree>, Box<EvalTree>)>)
    ensures
        match bound_left_parts(t@) {
            Some(p) => r is Some && (*r->Some_0.0)@ == p.0 && (*r->Some_0.1)@ == p.1,
            None => r is None,
        },
    decreases t,
{
    match t {
        EvalTree::BoundLeftArgument(l, f) => Some((l, f)),
        EvalTree::Parenthesized(a) => into_bound_left(*a),
        _ => None,
    }
}

/// Combines two adjacent nodes into the one node they form.
pub fn combine(x: EvalTree, y: EvalTree) -> (r: Result<EvalTree, EvalError>)
    ensures
        tree_result(r) == combine_model(x@, y@),
{
    let bx = binding_type(&x);
    let by = binding_type(&y);
    match (bx, by) {
        (BindingType::Value, BindingType::Value) => {
            let mut items = into_strand(x);
            let mut rest = into_strand(y);
            let ghost a = items@;
            let ghost b = rest@;
            items.append(&mut rest);
            proof {
                lemma_tree_models_concat(a, b);
            }
            Ok(EvalTree::Array(items))
        },
        (BindingType::Value, BindingType::Function)
        | (BindingType::Value, BindingType::Hybrid) => Ok(
            EvalTree::BoundLeftArgument(Box::new(x), Box::new(y)),
        ),
        (BindingType::Value, BindingType::MonadicOp)
        | (BindingType::Function, BindingType::MonadicOp)
        | (BindingType::Hybrid, BindingType::MonadicOp)
        | (BindingType::Jot, BindingType::MonadicOp) => Ok(
            EvalTree::MonadicOperatorApplication(Box::new(x), Box::new(y)),
        ),
        (BindingType::Function, BindingType::Value) => Ok(
            EvalTree::MonadicFunctionApplication(Box::new(x), Box::new(y)),
        ),
        (BindingType::Function, BindingType::Function)
        | (BindingType::Function, BindingType::Hybrid) => match y {
            EvalTree::Atop(m, r) => Ok(EvalTree::Fork(Box::new(x), m, r)),
            other => Ok(EvalTree::Atop(Box::new(x), Box::new(other))),
        },
        (BindingType::LeftBound, BindingType::Value) => match into_bound_left(x) {
            Some((l, f)) => Ok(EvalTree::DyadicFunctionApplication(l, f, Box::new(y))),
            None => Err(EvalError::Internal),
        },
        (BindingType::DyadicOp, BindingType::Value)
        | (BindingType::DyadicOp, BindingType::Function)
        | (BindingType::DyadicOp, BindingType::Hybrid)
        | (BindingType::Jot, BindingType::Value)
        | (BindingType::Jot, BindingType::Function)
        | (BindingType::Jot, BindingType::Hybrid)
        | (BindingType::Dot, BindingType::Function)
        | (BindingType::Dot, BindingType::Hybrid) => Ok(
            EvalTree::BoundRightOperand(Box::new(x), Box::new(y)),
        ),
        _ => Err(EvalError::Syntax),
    }
}


/// Contracts the strongest adjacent pair, again and again, until one node is
/// left.
pub open spec fn reduce_model(s: Seq<TreeModel>) -> Result<TreeModel, EvalError>
    decreases s.len(),
{
    if s.len() == 0 {
        Err(EvalError::Syntax)
    } else if s.len() == 1 {
        Ok(s[0])
    } else if !all_bind(s) {
        Err(EvalError::Syntax)
    } else {
        let i = strongest(strengths(s));
        if 0 <= i < s.len() - 1 {
            match combine_model(s[i], s[i + 1]) {
                Err(e) => Err(e),
                Ok(n) => reduce_model(s.take(i) + seq![n] + s.skip(i + 2)),
            }
        } else {
            Err(EvalError::Internal)
        }
    }
}

/// Reduces a sequence of resolved nodes to one node.
pub fn reduce(items: Vec<EvalTree>) -> (r: Result<EvalTree, EvalError>)
    ensures
        tree_result(r) == reduce_model(tree_models(items@)),
{
    let ghost goal = reduce_model(tree_models(items@));
    let mut ts = items;
    if ts.len() == 0 {
        return Err(EvalError::Syntax);
    }
    while ts.len() > 1
        invariant
            ts@.len() >= 1,
            goal == reduce_model(tree_models(items@)),
            reduce_model(tree_models(ts@)) == goal,
        decreases ts@.len(),
    {
        let ghost old_ts = ts@;
        let ghost ms = tree_models(ts@);
        proof {
            lemma_tree_models(ts@);
        }
        let st = match binding_strengths(ts.as_slice()) {
            Ok(s) => s,
            Err(e) => {
                proof {
                    assert(!all_bind(ms));
                    assert(reduce_model(ms) == Err::<TreeModel, EvalError>(EvalError::Syntax));
                }
                return Err(e);
            },
        };
        let i = strongest_pair(&st);
        proof {
            law_tie_break(st@);
        }
        let x = ts.remove(i);
        let y = ts.remove(i);
        proof {
            assert(x@ == ms[i as int]);
            assert(y@ == ms[i + 1]);
            assert(strongest(strengths(ms)) == i);
        }
        match combine(x, y) {
            Err(e) => {
                return Err(e);
            },
            Ok(n) => {
                ts.insert(i, n);
                proof {
                    assert(ts@ =~= old_ts.take(i as int) + seq![n] + old_ts.skip(i + 2));
                    lemma_tree_models(ts@);
                    assert(tree_models(ts@) =~= ms.take(i as int) + seq![n@] + ms.skip(i + 2));
                }
            },
        }
    }
    proof {
        lemma_tree_models(ts@);
    }
    Ok(ts.remove(0))
}

pub open spec fn trees_result(r: Result<Vec<EvalTree>, EvalError>) -> Result<Seq<TreeModel>, EvalError> {
    match r {
        Ok(v) => Ok(tree_models(v@)),
        Err(e) => Err(e),
    }
}

/// The node an input item resolves to: a group is reduced first, and, where
/// it held more than one item, marked as parenthesized.
pub open spec fn resolve_model(e: Expr) -> Result<TreeModel, EvalError>
    decreases e,
{
    match e {
        Expr::Integer(n) => Ok(TreeModel::Integer(n)),
        Expr::Float(f) => Ok(TreeModel::Float(f)),
        Expr::PrimitiveFunction(p) => Ok(TreeModel::PrimitiveFunction(p)),
        Expr::PrimitiveMonadicOperator(p) => Ok(TreeModel::PrimitiveMonadicOperator(p)),
        Expr::PrimitiveDyadicOperator(p) => Ok(TreeModel::PrimitiveDyadicOperator(p)),
        Expr::Isolated(es) => match resolve_models(es@) {
            Err(err) => Err(err),
            Ok(items) => if items.len() >= 2 {
                match reduce_model(items) {
                    Ok(t) => Ok(TreeModel::Parenthesized(Box::new(t))),
                    Err(err) => Err(err),
                }
            } else {
                reduce_model(items)
            },
        },
    }
}

pub open spec fn resolve_models(s: Seq<Expr>) -> Result<Seq<TreeModel>, EvalError>
    decreases s,
{
    if s.len() == 0 {
        Ok(Seq::empty())
    } else {
        match resolve_model(s[0]) {
            Err(e) => Err(e),
            Ok(x) => prefixed(seq![x], resolve_models(s.subrange(1, s.len() as int))),
        }
    }
}

/// The tree of a whole input line.
pub open spec fn build_model(s: Seq<Expr>) -> Result<TreeModel, EvalError> {
    match resolve_models(s) {
        Err(e) => Err(e),
        Ok(items) => reduce_model(items),
    }
}

fn resolve(e: &Expr) -> (r: Result<EvalTree, EvalError>)
    ensures
        tree_result(r) == resolve_model(*e),
    decreases e, 1nat,
{
    match e {
        Expr::Integer(n) => Ok(EvalTree::Integer(*n)),
        Expr::Float(f) => Ok(EvalTree::Float(*f)),
        Expr::PrimitiveFunction(p) => Ok(EvalTree::PrimitiveFunction(*p)),
        Expr::PrimitiveMonadicOperator(p) => Ok(EvalTree::PrimitiveMonadicOperator(*p)),
        Expr::PrimitiveDyadicOperator(p) => Ok(EvalTree::PrimitiveDyadicOperator(*p)),
        Expr::Isolated(es) => {
            proof {
                assert(decreases_to!(*e => e->Isolated_0));
            }
            match resolve_all(es) {
                Err(err) => Err(err),
                Ok(items) => {
                    proof {
                        lemma_tree_models(items@);
                    }
                    if items.len() >= 2 {
                        match reduce(items) {
                            Ok(t) => Ok(EvalTree::Parenthesized(Box::new(t))),
                            Err(err) => Err(err),
                        }
                    } else {
                        reduce(items)
                    }
                },
            }
        },
    }
}

fn resolve_all(es: &Vec<Expr>) -> (r: Result<Vec<EvalTree>, EvalError>)
    ensures
        trees_result(r) == resolve_models(es@),
    decreases es, 0nat,
{
    let mut out: Vec<EvalTree> = Vec::new();
    let mut i: usize = 0;
    proof {
        assert(es@.subrange(0, es@.len() as int) =~= es@);
        lemma_prefixed(Seq::<TreeModel>::empty(), Seq::empty(), resolve_models(es@));
    }
    while i < es.len()
        invariant
            i <= es@.len(),
            resolve_models(es@) == prefixed(
                tree_models(out@),
                resolve_models(es@.subrange(i as int, es@.len() as int)),
            ),
        decreases es@.len() - i,
    {
        proof {
            assert(decreases_to!(*es => es@[i as int]));
        }
        let x = resolve(&es[i]);
        let ghost rest = es@.subrange(i as int, es@.len() as int);
        proof {
            assert(rest[0] == es@[i as int]);
            assert(rest.subrange(1, rest.len() as int) =~= es@.subrange(i + 1, es@.len() as int));
        }
        match x {
            Err(e) => {
                return Err(e);
            },
            Ok(y) => {
                let ghost prev = out@;
                out.push(y);
                proof {
                    assert(out@.drop_last() =~= prev);
                    lemma_prefixed(tree_models(prev), seq![y@], resolve_models(es@.subrange(i + 1, es@.len() as int)));
                    assert(tree_models(prev) + seq![y@] =~= tree_models(prev).push(y@));
                }
                i += 1;
            },
        }
    }
    proof {
        assert(es@.subrange(i as int, es@.len() as int) =~= Seq::<Expr>::empty());
        lemma_prefixed(tree_models(out@), Seq::empty(), Ok(Seq::empty()));
    }
    Ok(out)
}

/// Builds the application tree of one input line.
pub fn build_tree(exprs: Vec<Expr>) -> (r: Result<EvalTree, EvalError>)
    ensures
        tree_result(r) == build_model(exprs@),
{
    match resolve_all(&exprs) {
        Err(e) => Err(e),
        Ok(items) => reduce(items),
    }
}


pub open spec fn is_literal(t: TreeModel) -> bool {
    t is Integer || t is Float
}

/// A literal, or an array literal of literals.
pub open spec fn is_strand(t: TreeModel) -> bool {
    is_literal(t) || (t is Array && forall|k: int|
        0 <= k < t->Array_0.len() ==> is_literal(#[trigger] t->Array_0[k]))
}

/// The items of all the strands of `s`, in order.
pub open spec fn flatten(s: Seq<TreeModel>) -> Seq<TreeModel>
    decreases s.len(),
{
    if s.len() == 0 {
        Seq::empty()
    } else {
        flatten(s.drop_last()) + strand_items(s.last())
    }
}

proof fn lemma_flatten_concat(a: Seq<TreeModel>, b: Seq<TreeModel>)
    ensures
        flatten(a + b) == flatten(a) + flatten(b),
    decreases b.len(),
{
    if b.len() == 0 {
        assert(a + b =~= a);
        assert(flatten(a) + flatten(b) =~= flatten(a));
    } else {
        lemma_flatten_concat(a, b.drop_last());
        assert((a + b).drop_last() =~= a + b.drop_last());
        assert((a + b).last() == b.last());
        assert(flatten(a) + flatten(b.drop_last()) + strand_items(b.last()) =~= flatten(a) + (
        flatten(b.drop_last()) + strand_items(b.last())));
    }
}

proof fn lemma_flatten_literals(s: Seq<TreeModel>)
    requires
        forall|k: int| 0 <= k < s.len() ==> is_literal(#[trigger] s[k]),
    ensures
        flatten(s) == s,
    decreases s.len(),
{
    if s.len() > 0 {
        lemma_flatten_literals(s.drop_last());
        assert(s.drop_last() + seq![s.last()] =~= s);
    }
}

proof fn lemma_flatten_pair(x: TreeModel, y: TreeModel)
    ensures
        flatten(seq![x, y]) == strand_items(x) + strand_items(y),
        flatten(seq![TreeModel::Array(strand_items(x) + strand_items(y))]) == strand_items(x)
            + strand_items(y),
{
    let e = Seq::<TreeModel>::empty();
    assert(flatten(e) == e);
    assert(seq![x, y].drop_last() =~= seq![x]);
    assert(seq![x, y].last() == y);
    assert(seq![x].drop_last() =~= e);
    assert(seq![x].last() == x);
    assert(flatten(seq![x]) == flatten(e) + strand_items(x));
    assert(e + strand_items(x) =~= strand_items(x));
    assert(flatten(seq![x, y]) == flatten(seq![x]) + strand_items(y));
    let n = TreeModel::Array(strand_items(x) + strand_items(y));
    assert(seq![n].drop_last() =~= e);
    assert(seq![n].last() == n);
    assert(flatten(seq![n]) == flatten(e) + strand_items(n));
    assert(e + strand_items(n) =~= strand_items(n));
}

proof fn lemma_strand_reduce(s: Seq<TreeModel>)
    requires
        s.len() >= 1,
        forall|k: int| 0 <= k < s.len() ==> is_strand(#[trigger] s[k]),
        s.len() >= 2 || s[0] is Array,
    ensures
        reduce_model(s) == Ok::<TreeModel, EvalError>(TreeModel::Array(flatten(s))),
    decreases s.len(),
{
    if s.len() == 1 {
        let e = Seq::<TreeModel>::empty();
        assert(flatten(e) == e);
        assert(s.drop_last() =~= e);
        assert(s.last() == s[0]);
        assert(flatten(s) == flatten(e) + strand_items(s[0]));
        assert(e + strand_items(s[0]) =~= strand_items(s[0]));
        assert(flatten(s) == strand_items(s[0]));
    } else {
        assert forall|k: int| 0 <= k < s.len() - 1 implies #[trigger] pair_strength(s[k], s[k + 1])
            is Some by {
            assert(is_strand(s[k]) && is_strand(s[k + 1]));
        }
        let st = strengths(s);
        law_tie_break(st);
        let i = strongest(st);
        assert(is_strand(s[i]) && is_strand(s[i + 1]));
        let n = TreeModel::Array(strand_items(s[i]) + strand_items(s[i + 1]));
        assert(combine_model(s[i], s[i + 1]) == Ok::<TreeModel, EvalError>(n));
        let t = s.take(i) + seq![n] + s.skip(i + 2);
        assert forall|k: int| 0 <= k < n->Array_0.len() implies is_literal(#[trigger] n->Array_0[k]) by {
            let a = strand_items(s[i]);
            if k < a.len() {
                assert(n->Array_0[k] == a[k]);
            } else {
                assert(n->Array_0[k] == strand_items(s[i + 1])[k - a.len()]);
            }
        }
        assert forall|k: int| 0 <= k < t.len() implies is_strand(#[trigger] t[k]) by {
            if k < i {
                assert(t[k] == s[k]);
            } else if k > i {
                assert(t[k] == s[k + 1]);
            }
        }
        assert(t.len() >= 2 || t[0] is Array) by {
            if t.len() < 2 {
                assert(t[0] == n);
            }
        }
        lemma_strand_reduce(t);
        lemma_flatten_concat(s.take(i) + seq![n], s.skip(i + 2));
        lemma_flatten_concat(s.take(i), seq![n]);
        lemma_flatten_concat(s.take(i) + seq![s[i], s[i + 1]], s.skip(i + 2));
        lemma_flatten_concat(s.take(i), seq![s[i], s[i + 1]]);
        lemma_flatten_pair(s[i], s[i + 1]);
        assert(s.take(i) + seq![s[i], s[i + 1]] + s.skip(i + 2) =~= s);
    }
}

/// Values written side by side reduce to one array literal that holds
/// exactly those values, in their order, whichever pairs bind first.
pub proof fn law_strand(s: Seq<TreeModel>)
    requires
        s.len() >= 2,
        forall|k: int| 0 <= k < s.len() ==> is_literal(#[trigger] s[k]),
    ensures
        reduce_model(s) == Ok::<TreeModel, EvalError>(TreeModel::Array(s)),
{
    assert forall|k: int| 0 <= k < s.len() implies is_strand(#[trigger] s[k]) by {
        assert(is_literal(s[k]));
    }
    lemma_strand_reduce(s);
    lemma_flatten_literals(s);
}

} // verus!
