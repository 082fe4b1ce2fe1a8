use rand::distributions::{Distribution, WeightedIndex};
use rand::{thread_rng, Rng};
use vstd::prelude::*;

use crate::error::ApplicationError;
use crate::expr::{
    binary_index, children, unary_index, ComputeFunction, ConstantFunction, Decimal,
    SingleArgFunction, TwoArgFunction, BINARY_OPERATORS, UNARY_OPERATORS,
};

verus! {

/// Random constant components are multiples of `10^-CONSTANT_SCALE` in `[0, 1)`.
pub const CONSTANT_SCALE: u8 = 6;

/// `10^CONSTANT_SCALE`: the number of distinct random constant components.
pub const CONSTANT_STEPS: u32 = 1000000;

/// Number of children of a node: 0 for a leaf and for a placeholder.
pub open spec fn node_arity(f: ComputeFunction) -> nat {
    children(f).len()
}

/// Position of a node's operator among the operators of its arity, in
/// declaration order; for a leaf, 0 for a constant and 1 for a coordinate.
pub open spec fn operator_index(f: ComputeFunction) -> nat {
    match f {
        ComputeFunction::Zero(c) => match *c {
            ConstantFunction::Constant(_, _, _) => 0,
            ConstantFunction::Coord(_) => 1,
        },
        ComputeFunction::One(s) => unary_index(*s),
        ComputeFunction::Two(t) => binary_index(*t),
        ComputeFunction::Placeholder => 0,
    }
}

/// A real node (not a placeholder) whose children are all placeholders.
pub open spec fn is_shallow(f: ComputeFunction) -> bool {
    &&& !(f is Placeholder)
    &&& forall|k: int| 0 <= k < children(f).len() ==> children(f)[k] is Placeholder
}

/// A random constant component: a multiple of `10^-CONSTANT_SCALE` in `[0, 1)`.
pub open spec fn is_unit_component(d: Decimal) -> bool {
    !d.negative && d.digits < CONSTANT_STEPS && d.scale == CONSTANT_SCALE
}

/// What a random leaf may hold: a constant of unit components, or an axis
/// below 3. Nodes other than leaves are not constrained.
pub open spec fn is_random_leaf(f: ComputeFunction) -> bool {
    f matches ComputeFunction::Zero(c) ==> match *c {
        ConstantFunction::Constant(r, g, b) => is_unit_component(r) && is_unit_component(g)
            && is_unit_component(b),
        ConstantFunction::Coord(dim) => dim < 3,
    }
}

/// Relies on rand's `WeightedIndex::new` and its `sample` with `thread_rng`:
/// an index drawn with probability proportional to its weight. Creation fails
/// only when every weight is zero, and an index of weight zero is never drawn.
#[verifier::external_body]
fn draw_weighted(weights: &[u32; 3]) -> (r: Option<usize>)
    ensures
        r is None <==> (weights@[0] == 0 && weights@[1] == 0 && weights@[2] == 0),
        r matches Some(i) ==> i < 3 && weights@[i as int] > 0,
{
    let dist = WeightedIndex::new([weights[0] as u64, weights[1] as u64, weights[2] as u64]).ok()?;
    Some(dist.sample(&mut thread_rng()))
}

/// Relies on rand's `Rng::gen_range` with `thread_rng`: a uniform draw from `0..n`.
#[verifier::external_body]
fn draw_below(n: u32) -> (r: u32)
    requires
        n > 0,
    ensures
        r < n,
{
    thread_rng().gen_range(0..n)
}

/// The node that a set of draws selects: of `arity` children, the operator
/// at position `choice` of that arity (for a leaf, 0 picks the constant
/// `(r, g, b)` and anything else the coordinate `dim`), with placeholders as
/// children.
pub fn shallow_node(arity: usize, choice: u8, r: Decimal, g: Decimal, b: Decimal, dim: u8) -> (f:
    ComputeFunction)
    requires
        arity < 3,
        arity == 1 ==> choice < UNARY_OPERATORS,
        arity == 2 ==> choice < BINARY_OPERATORS,
    ensures
        is_shallow(f),
        node_arity(f) == arity,
        arity == 0 && choice == 0 ==> f == ComputeFunction::Zero(
            Box::new(ConstantFunction::Constant(r, g, b)),
        ),
        arity == 0 && choice != 0 ==> f == ComputeFunction::Zero(
            Box::new(ConstantFunction::Coord(dim)),
        ),
        arity > 0 ==> operator_index(f) == choice,
{
    if arity == 0 {
        if choice == 0 {
            ComputeFunction::Zero(Box::new(ConstantFunction::Constant(r, g, b)))
        } else {
            ComputeFunction::Zero(Box::new(ConstantFunction::Coord(dim)))
        }
    } else if arity == 1 {
        ComputeFunction::One(
            Box::new(SingleArgFunction::from_index(choice, ComputeFunction::Placeholder)),
        )
    } else {
        ComputeFunction::Two(
            Box::new(
                TwoArgFunction::from_index(
                    choice,
                    ComputeFunction::Placeholder,
                    ComputeFunction::Placeholder,
                ),
            ),
        )
    }
}

fn random_component() -> (r: Decimal)
    ensures
        !r.negative,
        r.digits < CONSTANT_STEPS,
        r.scale == CONSTANT_SCALE,
{
    Decimal::new(draw_below(CONSTANT_STEPS), CONSTANT_SCALE)
}

impl ComputeFunction {
    /// A random node with placeholder children.
    ///
    /// `arg_weights` weighs the node having 0, 1 or 2 children; within the
    /// drawn arity every operator (for a leaf: a random constant or a random
    /// coordinate) is equally likely. All weights zero is `BadArg`.
    pub fn random(arg_weights: &[u32; 3]) -> (r: Result<ComputeFunction, ApplicationError>)
        ensures
            (arg_weights@[0] == 0 && arg_weights@[1] == 0 && arg_weights@[2] == 0) ==> r
                == Err::<ComputeFunction, ApplicationError>(ApplicationError::BadArg),
            !(arg_weights@[0] == 0 && arg_weights@[1] == 0 && arg_weights@[2] == 0) ==> r is Ok,
            r matches Ok(f) ==> is_shallow(f) && arg_weights@[node_arity(f) as int] > 0
                && is_random_leaf(f),
    {
        let arity = match draw_weighted(arg_weights) {
            Some(k) => k,
            None => return Err(ApplicationError::BadArg),
        };
        if arity == 0 {
            let r = random_component();
            let g = random_component();
            let b = random_component();
            let dim = draw_below(3) as u8;
            let choice = draw_below(2) as u8;
            Ok(shallow_node(0, choice, r, g, b, dim))
        } else if arity == 1 {
            let choice = draw_below(UNARY_OPERATORS as u32) as u8;
            let d = Decimal::new(0, 0);
            Ok(shallow_node(1, choice, d, d, d, 0))
        } else {
            let choice = draw_below(BINARY_OPERATORS as u32) as u8;
            let d = Decimal::new(0, 0);
            Ok(shallow_node(2, choice, d, d, d, 0))
        }
    }
}

} // verus!
