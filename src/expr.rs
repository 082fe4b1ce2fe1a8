use vstd::prelude::*;

use crate::error::ApplicationError;

verus! {

/// A decimal number `(-1)^negative * digits / 10^scale`.
///
/// It is lowered to a shader literal exactly as stored: `digits` with a
/// decimal point `scale` places from the right.
#[derive(Debug, Clone, Copy, PartialEq, Eq, Structural)]
pub struct Decimal {
    pub negative: bool,
    pub digits: u32,
    pub scale: u8,
}

impl Decimal {
    /// The non-negative number `digits / 10^scale`.
    pub fn new(digits: u32, scale: u8) -> (r: Decimal)
        ensures
            r == (Decimal { negative: false, digits, scale }),
    {
        Decimal { negative: false, digits, scale }
    }
}

/// A leaf: a three-component constant or a reference to one coordinate axis.
#[derive(Debug, PartialEq)]
pub enum ConstantFunction {
    Constant(Decimal, Decimal, Decimal),
    /// Axis 0 is x, 1 is y, anything else is z.
    Coord(u8),
}

/// A node of a compute-function tree.
#[derive(Debug, PartialEq)]
pub enum ComputeFunction {
    Zero(Box<ConstantFunction>),
    One(Box<SingleArgFunction>),
    Two(Box<TwoArgFunction>),
    /// An open slot left by shallow random generation.
    Placeholder,
}

/// A one-argument operator with its operand.
#[derive(Debug, PartialEq)]
pub enum SingleArgFunction {
    Sin(ComputeFunction),
    Cos(ComputeFunction),
    Tan(ComputeFunction),
    Atan(ComputeFunction),
    Sinh(ComputeFunction),
    Cosh(ComputeFunction),
    Abs(ComputeFunction),
    Reciprocal(ComputeFunction),
    Square(ComputeFunction),
    SquareRoot(ComputeFunction),
    Loge(ComputeFunction),
}

/// A two-argument operator with its operands, in order.
#[derive(Debug, PartialEq)]
pub enum TwoArgFunction {
    Add(ComputeFunction, ComputeFunction),
    Subtract(ComputeFunction, ComputeFunction),
    Multiply(ComputeFunction, ComputeFunction),
    Divide(ComputeFunction, ComputeFunction),
    Min(ComputeFunction, ComputeFunction),
    Max(ComputeFunction, ComputeFunction),
    Avg(ComputeFunction, ComputeFunction),
    Mod(ComputeFunction, ComputeFunction),
    Exponent(ComputeFunction, ComputeFunction),
    And(ComputeFunction, ComputeFunction),
    Or(ComputeFunction, ComputeFunction),
    Xor(ComputeFunction, ComputeFunction),
}

/// Number of nodes in the tree rooted at `f`, placeholders included.
pub open spec fn node_count(f: ComputeFunction) -> nat
    decreases f,
{
    match f {
        ComputeFunction::Zero(_) => 1,
        ComputeFunction::Placeholder => 1,
        ComputeFunction::One(s) => match *s {
            SingleArgFunction::Sin(a)
            | SingleArgFunction::Cos(a)
            | SingleArgFunction::Tan(a)
            | SingleArgFunction::Atan(a)
            | SingleArgFunction::Sinh(a)
            | SingleArgFunction::Cosh(a)
            | SingleArgFunction::Abs(a)
            | SingleArgFunction::Reciprocal(a)
            | SingleArgFunction::Square(a)
            | SingleArgFunction::SquareRoot(a)
            | SingleArgFunction::Loge(a) => 1 + node_count(a),
        },
        ComputeFunction::Two(t) => match *t {
            TwoArgFunction::Add(a, b)
            | TwoArgFunction::Subtract(a, b)
            | TwoArgFunction::Multiply(a, b)
            | TwoArgFunction::Divide(a, b)
            | TwoArgFunction::Min(a, b)
            | TwoArgFunction::Max(a, b)
            | TwoArgFunction::Avg(a, b)
            | TwoArgFunction::Mod(a, b)
            | TwoArgFunction::Exponent(a, b)
            | TwoArgFunction::And(a, b)
            | TwoArgFunction::Or(a, b)
            | TwoArgFunction::Xor(a, b) => 1 + node_count(a) + node_count(b),
        },
    }
}

/// Whether the tree rooted at `f` holds no placeholder.
pub open spec fn is_complete(f: ComputeFunction) -> bool
    decreases f,
{
    match f {
        ComputeFunction::Zero(_) => true,
        ComputeFunction::One(s) => single_complete(*s),
        ComputeFunction::Two(t) => two_complete(*t),
        ComputeFunction::Placeholder => false,
    }
}

/// Whether the operand of a one-argument node holds no placeholder.
pub open spec fn single_complete(s: SingleArgFunction) -> bool
    decreases s,
{
    match s {
        SingleArgFunction::Sin(a)
        | SingleArgFunction::Cos(a)
        | SingleArgFunction::Tan(a)
        | SingleArgFunction::Atan(a)
        | SingleArgFunction::Sinh(a)
        | SingleArgFunction::Cosh(a)
        | SingleArgFunction::Abs(a)
        | SingleArgFunction::Reciprocal(a)
        | SingleArgFunction::Square(a)
        | SingleArgFunction::SquareRoot(a)
        | SingleArgFunction::Loge(a) => is_complete(a),
    }
}

/// Whether both operands of a two-argument node hold no placeholder.
pub open spec fn two_complete(t: TwoArgFunction) -> bool
    decreases t,
{
    match t {
        TwoArgFunction::Add(a, b)
        | TwoArgFunction::Subtract(a, b)
        | TwoArgFunction::Multiply(a, b)
        | TwoArgFunction::Divide(a, b)
        | TwoArgFunction::Min(a, b)
        | TwoArgFunction::Max(a, b)
        | TwoArgFunction::Avg(a, b)
        | TwoArgFunction::Mod(a, b)
        | TwoArgFunction::Exponent(a, b)
        | TwoArgFunction::And(a, b)
        | TwoArgFunction::Or(a, b)
        | TwoArgFunction::Xor(a, b) => is_complete(a) && is_complete(b),
    }
}

/// The operand of a one-argument node.
pub open spec fn unary_arg(s: SingleArgFunction) -> ComputeFunction {
    match s {
        SingleArgFunction::Sin(a)
        | SingleArgFunction::Cos(a)
        | SingleArgFunction::Tan(a)
        | SingleArgFunction::Atan(a)
        | SingleArgFunction::Sinh(a)
        | SingleArgFunction::Cosh(a)
        | SingleArgFunction::Abs(a)
        | SingleArgFunction::Reciprocal(a)
        | SingleArgFunction::Square(a)
        | SingleArgFunction::SquareRoot(a)
        | SingleArgFunction::Loge(a) => a,
    }
}

/// The first operand of a two-argument node.
pub open spec fn binary_first(t: TwoArgFunction) -> ComputeFunction {
    match t {
        TwoArgFunction::Add(a, b)
        | TwoArgFunction::Subtract(a, b)
        | TwoArgFunction::Multiply(a, b)
        | TwoArgFunction::Divide(a, b)
        | TwoArgFunction::Min(a, b)
        | TwoArgFunction::Max(a, b)
        | TwoArgFunction::Avg(a, b)
        | TwoArgFunction::Mod(a, b)
        | TwoArgFunction::Exponent(a, b)
        | TwoArgFunction::And(a, b)
        | TwoArgFunction::Or(a, b)
        | TwoArgFunction::Xor(a, b) => a,
    }
}

/// The second operand of a two-argument node.
pub open spec fn binary_second(t: TwoArgFunction) -> ComputeFunction {
    match t {
        TwoArgFunction::Add(a, b)
        | TwoArgFunction::Subtract(a, b)
        | TwoArgFunction::Multiply(a, b)
        | TwoArgFunction::Divide(a, b)
        | TwoArgFunction::Min(a, b)
        | TwoArgFunction::Max(a, b)
        | TwoArgFunction::Avg(a, b)
        | TwoArgFunction::Mod(a, b)
        | TwoArgFunction::Exponent(a, b)
        | TwoArgFunction::And(a, b)
        | TwoArgFunction::Or(a, b)
        | TwoArgFunction::Xor(a, b) => b,
    }
}

/// The children of a node, in operand order.
pub open spec fn children(f: ComputeFunction) -> Seq<ComputeFunction> {
    match f {
        ComputeFunction::One(s) => seq![unary_arg(*s)],
        ComputeFunction::Two(t) => seq![binary_first(*t), binary_second(*t)],
        _ => Seq::empty(),
    }
}

/// Decides whether a tree holds no placeholder.
pub fn check_complete(f: &ComputeFunction) -> (r: bool)
    ensures
        r == is_complete(*f),
    decreases f,
{
    match f {
        ComputeFunction::Zero(_) => true,
        ComputeFunction::One(s) => match &**s {
            SingleArgFunction::Sin(a)
            | SingleArgFunction::Cos(a)
            | SingleArgFunction::Tan(a)
            | SingleArgFunction::Atan(a)
            | SingleArgFunction::Sinh(a)
            | SingleArgFunction::Cosh(a)
            | SingleArgFunction::Abs(a)
            | SingleArgFunction::Reciprocal(a)
            | SingleArgFunction::Square(a)
            | SingleArgFunction::SquareRoot(a)
            | SingleArgFunction::Loge(a) => check_complete(a),
        },
        ComputeFunction::Two(t) => match &**t {
            TwoArgFunction::Add(a, b)
            | TwoArgFunction::Subtract(a, b)
            | TwoArgFunction::Multiply(a, b)
            | TwoArgFunction::Divide(a, b)
            | TwoArgFunction::Min(a, b)
            | TwoArgFunction::Max(a, b)
            | TwoArgFunction::Avg(a, b)
            | TwoArgFunction::Mod(a, b)
            | TwoArgFunction::Exponent(a, b)
            | TwoArgFunction::And(a, b)
            | TwoArgFunction::Or(a, b)
            | TwoArgFunction::Xor(a, b) => check_complete(a) && check_complete(b),
        },
        ComputeFunction::Placeholder => false,
    }
}

/// A node counts itself and the nodes under its children.
pub proof fn lemma_node_count_children(f: ComputeFunction)
    ensures
        node_count(f) == 1 + children_count(children(f)),
{
    reveal_with_fuel(children_count, 3);
    match f {
        ComputeFunction::One(s) => {
            assert(children(f).drop_first().len() == 0);
        },
        ComputeFunction::Two(t) => {
            assert(children(f).drop_first().drop_first().len() == 0);
        },
        _ => {},
    }
}

/// Total number of nodes under the trees of `s`.
pub open spec fn children_count(s: Seq<ComputeFunction>) -> nat
    decreases s.len(),
{
    if s.len() == 0 {
        0
    } else {
        node_count(s[0]) + children_count(s.drop_first())
    }
}

/// Number of one-argument operators.
pub const UNARY_OPERATORS: u8 = 11;

/// Number of two-argument operators.
pub const BINARY_OPERATORS: u8 = 12;

/// Position of a one-argument operator, in declaration order.
pub open spec fn unary_index(s: SingleArgFunction) -> nat {
    match s {
        SingleArgFunction::Sin(_) => 0,
        SingleArgFunction::Cos(_) => 1,
        SingleArgFunction::Tan(_) => 2,
        SingleArgFunction::Atan(_) => 3,
        SingleArgFunction::Sinh(_) => 4,
        SingleArgFunction::Cosh(_) => 5,
        SingleArgFunction::Abs(_) => 6,
        SingleArgFunction::Reciprocal(_) => 7,
        SingleArgFunction::Square(_) => 8,
        SingleArgFunction::SquareRoot(_) => 9,
        SingleArgFunction::Loge(_) => 10,
    }
}

/// Position of a two-argument operator, in declaration order.
pub open spec fn binary_index(t: TwoArgFunction) -> nat {
    match t {
        TwoArgFunction::Add(_, _) => 0,
        TwoArgFunction::Subtract(_, _) => 1,
        TwoArgFunction::Multiply(_, _) => 2,
        TwoArgFunction::Divide(_, _) => 3,
        TwoArgFunction::Min(_, _) => 4,
        TwoArgFunction::Max(_, _) => 5,
        TwoArgFunction::Avg(_, _) => 6,
        TwoArgFunction::Mod(_, _) => 7,
        TwoArgFunction::Exponent(_, _) => 8,
        TwoArgFunction::And(_, _) => 9,
        TwoArgFunction::Or(_, _) => 10,
        TwoArgFunction::Xor(_, _) => 11,
    }
}

/// A one-argument node is fixed by its operator and its operand.
pub proof fn lemma_unary_determined(s1: SingleArgFunction, s2: SingleArgFunction)
    requires
        unary_index(s1) == unary_index(s2),
        unary_arg(s1) == unary_arg(s2),
    ensures
        s1 == s2,
{
}

/// A two-argument node is fixed by its operator and its operands.
pub proof fn lemma_binary_determined(t1: TwoArgFunction, t2: TwoArgFunction)
    requires
        binary_index(t1) == binary_index(t2),
        binary_first(t1) == binary_first(t2),
        binary_second(t1) == binary_second(t2),
    ensures
        t1 == t2,
{
}

impl SingleArgFunction {
    /// The operand.
    pub fn arg(&self) -> (r: &ComputeFunction)
        ensures
            *r == unary_arg(*self),
    {
        match self {
            SingleArgFunction::Sin(a)
            | SingleArgFunction::Cos(a)
            | SingleArgFunction::Tan(a)
            | SingleArgFunction::Atan(a)
            | SingleArgFunction::Sinh(a)
            | SingleArgFunction::Cosh(a)
            | SingleArgFunction::Abs(a)
            | SingleArgFunction::Reciprocal(a)
            | SingleArgFunction::Square(a)
            | SingleArgFunction::SquareRoot(a)
            | SingleArgFunction::Loge(a) => a,
        }
    }

    /// The operator at position `i` applied to `a`.
    pub fn from_index(i: u8, a: ComputeFunction) -> (r: SingleArgFunction)
        requires
            i < UNARY_OPERATORS,
        ensures
            unary_index(r) == i,
            unary_arg(r) == a,
    {
        match i {
            0 => SingleArgFunction::Sin(a),
            1 => SingleArgFunction::Cos(a),
            2 => SingleArgFunction::Tan(a),
            3 => SingleArgFunction::Atan(a),
            4 => SingleArgFunction::Sinh(a),
            5 => SingleArgFunction::Cosh(a),
            6 => SingleArgFunction::Abs(a),
            7 => SingleArgFunction::Reciprocal(a),
            8 => SingleArgFunction::Square(a),
            9 => SingleArgFunction::SquareRoot(a),
            _ => SingleArgFunction::Loge(a),
        }
    }

    /// Position of the operator, in declaration order.
    pub fn index(&self) -> (r: u8)
        ensures
            r == unary_index(*self),
            r < UNARY_OPERATORS,
    {
        match self {
            SingleArgFunction::Sin(_) => 0,
            SingleArgFunction::Cos(_) => 1,
            SingleArgFunction::Tan(_) => 2,
            SingleArgFunction::Atan(_) => 3,
            SingleArgFunction::Sinh(_) => 4,
            SingleArgFunction::Cosh(_) => 5,
            SingleArgFunction::Abs(_) => 6,
            SingleArgFunction::Reciprocal(_) => 7,
            SingleArgFunction::Square(_) => 8,
            SingleArgFunction::SquareRoot(_) => 9,
            SingleArgFunction::Loge(_) => 10,
        }
    }
}

impl TwoArgFunction {
    /// The two operands, in order.
    pub fn args(&self) -> (r: (&ComputeFunction, &ComputeFunction))
        ensures
            *r.0 == binary_first(*self),
            *r.1 == binary_second(*self),
    {
        match self {
            TwoArgFunction::Add(a, b)
            | TwoArgFunction::Subtract(a, b)
            | TwoArgFunction::Multiply(a, b)
            | TwoArgFunction::Divide(a, b)
            | TwoArgFunction::Min(a, b)
            | TwoArgFunction::Max(a, b)
            | TwoArgFunction::Avg(a, b)
            | TwoArgFunction::Mod(a, b)
            | TwoArgFunction::Exponent(a, b)
            | TwoArgFunction::And(a, b)
            | TwoArgFunction::Or(a, b)
            | TwoArgFunction::Xor(a, b) => (a, b),
        }
    }

    /// The operator at position `i` applied to `a` and `b`.
    pub fn from_index(i: u8, a: ComputeFunction, b: ComputeFunction) -> (r: TwoArgFunction)
        requires
            i < BINARY_OPERATORS,
        ensures
            binary_index(r) == i,
            binary_first(r) == a,
            binary_second(r) == b,
    {
        match i {
            0 => TwoArgFunction::Add(a, b),
            1 => TwoArgFunction::Subtract(a, b),
            2 => TwoArgFunction::Multiply(a, b),
            3 => TwoArgFunction::Divide(a, b),
            4 => TwoArgFunction::Min(a, b),
            5 => TwoArgFunction::Max(a, b),
            6 => TwoArgFunction::Avg(a, b),
            7 => TwoArgFunction::Mod(a, b),
            8 => TwoArgFunction::Exponent(a, b),
            9 => TwoArgFunction::And(a, b),
            10 => TwoArgFunction::Or(a, b),
            _ => TwoArgFunction::Xor(a, b),
        }
    }

    /// Position of the operator, in declaration order.
    pub fn index(&self) -> (r: u8)
        ensures
            r == binary_index(*self),
            r < BINARY_OPERATORS,
    {
        match self {
            TwoArgFunction::Add(_, _) => 0,
            TwoArgFunction::Subtract(_, _) => 1,
            TwoArgFunction::Multiply(_, _) => 2,
            TwoArgFunction::Divide(_, _) => 3,
            TwoArgFunction::Min(_, _) => 4,
            TwoArgFunction::Max(_, _) => 5,
            TwoArgFunction::Avg(_, _) => 6,
            TwoArgFunction::Mod(_, _) => 7,
            TwoArgFunction::Exponent(_, _) => 8,
            TwoArgFunction::And(_, _) => 9,
            TwoArgFunction::Or(_, _) => 10,
            TwoArgFunction::Xor(_, _) => 11,
        }
    }
}

/// Positional access to the operands of a node.
pub trait EnumMethods<T>: Sized {
    /// Number of operands.
    spec fn arg_count(&self) -> nat;

    /// The operand at position `i`, for `i < arg_count()`.
    spec fn nth_arg(&self, i: nat) -> T;

    /// Whether `other` has the same operator as `self`.
    spec fn same_operator(&self, other: &Self) -> bool;

    /// The operand at position `i`; `BadArg` when the node has no such operand.
    fn get_arg(&self, i: usize) -> (r: Result<&T, ApplicationError>)
        ensures
            i < self.arg_count() ==> (r matches Ok(a) && *a == self.nth_arg(i as nat)),
            i >= self.arg_count() ==> r == Err::<&T, ApplicationError>(ApplicationError::BadArg),
    ;

    /// Replaces the operand at position `i` by `value`, keeping the operator
    /// and the other operands; `BadArg`, with the node unchanged, when the
    /// node has no such operand.
    fn set_arg(&mut self, i: usize, value: T) -> (r: Result<(), ApplicationError>)
        ensures
            i < old(self).arg_count() ==> {
                &&& r is Ok
                &&& final(self).same_operator(old(self))
                &&& final(self).nth_arg(i as nat) == value
                &&& forall|j: nat|
                    j < old(self).arg_count() && j != i ==> #[trigger] final(self).nth_arg(j)
                        == old(self).nth_arg(j)
            },
            i >= old(self).arg_count() ==> r == Err::<(), ApplicationError>(
                ApplicationError::BadArg,
            ) && *final(self) == *old(self),
    ;
}

impl EnumMethods<ComputeFunction> for SingleArgFunction {
    open spec fn arg_count(&self) -> nat {
        1
    }

    open spec fn nth_arg(&self, i: nat) -> ComputeFunction {
        unary_arg(*self)
    }

    open spec fn same_operator(&self, other: &Self) -> bool {
        unary_index(*self) == unary_index(*other)
    }

    fn get_arg(&self, i: usize) -> (r: Result<&ComputeFunction, ApplicationError>) {
        if i == 0 {
            Ok(self.arg())
        } else {
            Err(ApplicationError::BadArg)
        }
    }

    fn set_arg(&mut self, i: usize, value: ComputeFunction) -> (r: Result<(), ApplicationError>) {
        if i == 0 {
            let op = self.index();
            *self = SingleArgFunction::from_index(op, value);
            Ok(())
        } else {
            Err(ApplicationError::BadArg)
        }
    }
}

impl EnumMethods<ComputeFunction> for TwoArgFunction {
    open spec fn arg_count(&self) -> nat {
        2
    }

    open spec fn nth_arg(&self, i: nat) -> ComputeFunction {
        if i == 0 {
            binary_first(*self)
        } else {
            binary_second(*self)
        }
    }

    open spec fn same_operator(&self, other: &Self) -> bool {
        binary_index(*self) == binary_index(*other)
    }

    fn get_arg(&self, i: usize) -> (r: Result<&ComputeFunction, ApplicationError>) {
        let (a, b) = self.args();
        if i == 0 {
            Ok(a)
        } else if i == 1 {
            Ok(b)
        } else {
            Err(ApplicationError::BadArg)
        }
    }

    fn set_arg(&mut self, i: usize, value: ComputeFunction) -> (r: Result<(), ApplicationError>) {
        if i > 1 {
            return Err(ApplicationError::BadArg);
        }
        let op = self.index();
        let mut taken = TwoArgFunction::Add(ComputeFunction::Placeholder, ComputeFunction::Placeholder);
        std::mem::swap(self, &mut taken);
        let (a, b) = match taken {
            TwoArgFunction::Add(a, b)
            | TwoArgFunction::Subtract(a, b)
            | TwoArgFunction::Multiply(a, b)
            | TwoArgFunction::Divide(a, b)
            | TwoArgFunction::Min(a, b)
            | TwoArgFunction::Max(a, b)
            | TwoArgFunction::Avg(a, b)
            | TwoArgFunction::Mod(a, b)
            | TwoArgFunction::Exponent(a, b)
            | TwoArgFunction::And(a, b)
            | TwoArgFunction::Or(a, b)
            | TwoArgFunction::Xor(a, b) => (a, b),
        };
        *self = if i == 0 {
            TwoArgFunction::from_index(op, value, b)
        } else {
            TwoArgFunction::from_index(op, a, value)
        };
        Ok(())
    }
}

impl Default for ComputeFunction {
    /// A placeholder: the open slot that shallow generation leaves.
    fn default() -> (r: ComputeFunction)
        ensures
            r is Placeholder,
    {
        ComputeFunction::Placeholder
    }
}

} // verus!
