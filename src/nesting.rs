use vstd::prelude::*;

use crate::expr::{
    is_complete, single_complete, two_complete, ComputeFunction, ConstantFunction, Decimal,
    SingleArgFunction, TwoArgFunction,
};
use crate::shader::{
    binary_close, binary_infix, binary_open, constant_text, contains, decimal_text,
    digit_char, int_text, lowered, occurs_at, pointed_text, sentinel_text, single_text, two_text,
    unary_close, unary_open,
};

verus! {

/// Change of nesting depth that a character brings.
pub open spec fn paren_step(c: char) -> int {
    if c == '(' {
        1
    } else if c == ')' {
        -1
    } else {
        0
    }
}

/// Nesting depth at the end of `s`: opening minus closing parentheses.
pub open spec fn depth(s: Seq<char>) -> int
    decreases s.len(),
{
    if s.len() == 0 {
        0
    } else {
        paren_step(s[0]) + depth(s.drop_first())
    }
}

/// Lowest nesting depth reached at any prefix of `s` (the empty prefix included).
pub open spec fn lowest(s: Seq<char>) -> int
    decreases s.len(),
{
    if s.len() == 0 {
        0
    } else {
        let rest = paren_step(s[0]) + lowest(s.drop_first());
        if rest < 0 {
            rest
        } else {
            0
        }
    }
}

/// Whether `c` is an upper-case ASCII letter.
pub open spec fn is_upper(c: char) -> bool {
    'A' <= c && c <= 'Z'
}

/// Whether `s` holds no upper-case ASCII letter.
pub open spec fn lower_only(s: Seq<char>) -> bool
    decreases s.len(),
{
    s.len() == 0 || (!is_upper(s[0]) && lower_only(s.drop_first()))
}

/// Whether the parentheses of `s` form one balanced nesting: every prefix
/// closes no more than it opens, and the whole closes all that it opens.
pub open spec fn balanced(s: Seq<char>) -> bool {
    &&& depth(s) == 0
    &&& forall|i: int| 0 <= i <= s.len() ==> depth(#[trigger] s.subrange(0, i)) >= 0
}

/// Depth `d`, lowest depth `m`, and no upper-case letter.
spec fn shaped(s: Seq<char>, d: int, m: int) -> bool {
    depth(s) == d && lowest(s) == m && lower_only(s)
}

proof fn lemma_shaped_concat(a: Seq<char>, b: Seq<char>)
    ensures
        depth(a + b) == depth(a) + depth(b),
        lowest(a + b) == if lowest(a) < depth(a) + lowest(b) {
            lowest(a)
        } else {
            depth(a) + lowest(b)
        },
        lower_only(a + b) == (lower_only(a) && lower_only(b)),
    decreases a.len(),
{
    if a.len() == 0 {
        assert(a + b =~= b);
        assert(lowest(b) <= 0) by {
            lemma_lowest_nonpositive(b);
        }
    } else {
        assert((a + b).drop_first() =~= a.drop_first() + b);
        lemma_shaped_concat(a.drop_first(), b);
    }
}

proof fn lemma_lowest_nonpositive(s: Seq<char>)
    ensures
        lowest(s) <= 0,
        lowest(s) <= depth(s),
    decreases s.len(),
{
    if s.len() > 0 {
        lemma_lowest_nonpositive(s.drop_first());
    }
}

proof fn lemma_prefix_depth(s: Seq<char>, i: int)
    requires
        0 <= i <= s.len(),
    ensures
        depth(s.subrange(0, i)) >= lowest(s),
    decreases s.len(),
{
    if i > 0 {
        assert(s.subrange(0, i).drop_first() =~= s.drop_first().subrange(0, i - 1));
        lemma_prefix_depth(s.drop_first(), i - 1);
    }
}

proof fn lemma_upper_free(s: Seq<char>, i: int)
    requires
        lower_only(s),
        0 <= i < s.len(),
    ensures
        !is_upper(s[i]),
    decreases s.len(),
{
    if i > 0 {
        lemma_upper_free(s.drop_first(), i - 1);
    }
}

proof fn lemma_literals()
    ensures
        shaped("sin("@, 1, 0),
        shaped("cos("@, 1, 0),
        shaped("tan("@, 1, 0),
        shaped("atan("@, 1, 0),
        shaped("sinh("@, 1, 0),
        shaped("cosh("@, 1, 0),
        shaped("abs("@, 1, 0),
        shaped("1/("@, 1, 0),
        shaped("pow("@, 1, 0),
        shaped("sqrt("@, 1, 0),
        shaped("log("@, 1, 0),
        shaped("("@, 1, 0),
        shaped("min("@, 1, 0),
        shaped("max("@, 1, 0),
        shaped(")"@, -1, -1),
        shaped(",2)"@, -1, -1),
        shaped(")/2"@, -1, -1),
        shaped("+"@, 0, 0),
        shaped("-"@, 0, 0),
        shaped("*"@, 0, 0),
        shaped("/"@, 0, 0),
        shaped(","@, 0, 0),
        shaped("%"@, 0, 0),
        shaped("&"@, 0, 0),
        shaped("|"@, 0, 0),
        shaped("^"@, 0, 0),
        shaped("vec3(x,x,x)"@, 0, 0),
        shaped("vec3(y,y,y)"@, 0, 0),
        shaped("vec3(z,z,z)"@, 0, 0),
        shaped("vec3("@, 1, 0),
{
        reveal_strlit("sin(");
        reveal_strlit("cos(");
        reveal_strlit("tan(");
        reveal_strlit("atan(");
        reveal_strlit("sinh(");
        reveal_strlit("cosh(");
        reveal_strlit("abs(");
        reveal_strlit("1/(");
        reveal_strlit("pow(");
        reveal_strlit("sqrt(");
        reveal_strlit("log(");
        reveal_strlit("(");
        reveal_strlit("min(");
        reveal_strlit("max(");
        reveal_strlit(")");
        reveal_strlit(",2)");
        reveal_strlit(")/2");
        reveal_strlit("+");
        reveal_strlit("-");
        reveal_strlit("*");
        reveal_strlit("/");
        reveal_strlit(",");
        reveal_strlit("%");
        reveal_strlit("&");
        reveal_strlit("|");
        reveal_strlit("^");
        reveal_strlit("vec3(x,x,x)");
        reveal_strlit("vec3(y,y,y)");
        reveal_strlit("vec3(z,z,z)");
        reveal_strlit("vec3(");
    reveal_with_fuel(depth, 12);
    reveal_with_fuel(lowest, 12);
    reveal_with_fuel(lower_only, 12);
}

proof fn lemma_digits_shaped(n: nat)
    ensures
        shaped(int_text(n), 0, 0),
    decreases n,
{
    reveal_with_fuel(depth, 2);
    reveal_with_fuel(lowest, 2);
    reveal_with_fuel(lower_only, 2);
    let d = digit_char(n % 10);
    assert(d == '0' || d == '1' || d == '2' || d == '3' || d == '4' || d == '5' || d == '6' || d
        == '7' || d == '8' || d == '9');
    if n >= 10 {
        lemma_digits_shaped(n / 10);
        lemma_shaped_concat(int_text(n / 10), seq![d]);
        assert(int_text(n) == int_text(n / 10) + seq![d]);
    } else {
        assert(digit_char(n) == d);
    }
}

proof fn lemma_pointed_shaped(n: nat, s: nat)
    ensures
        shaped(pointed_text(n, s), 0, 0),
    decreases s,
{
    reveal_with_fuel(depth, 2);
    reveal_with_fuel(lowest, 2);
    reveal_with_fuel(lower_only, 2);
    if s == 0 {
        lemma_digits_shaped(n);
        lemma_shaped_concat(int_text(n), seq!['.']);
        assert(pointed_text(n, s) == int_text(n) + seq!['.']);
    } else {
        let d = digit_char(n % 10);
        assert(d == '0' || d == '1' || d == '2' || d == '3' || d == '4' || d == '5' || d == '6'
            || d == '7' || d == '8' || d == '9');
        lemma_pointed_shaped(n / 10, (s - 1) as nat);
        lemma_shaped_concat(pointed_text(n / 10, (s - 1) as nat), seq![d]);
        assert(pointed_text(n, s) == pointed_text(n / 10, (s - 1) as nat) + seq![d]);
    }
}

proof fn lemma_decimal_shaped(d: Decimal)
    ensures
        shaped(decimal_text(d), 0, 0),
{
    reveal_with_fuel(depth, 2);
    reveal_with_fuel(lowest, 2);
    reveal_with_fuel(lower_only, 2);
    let body = if d.scale == 0 {
        lemma_digits_shaped(d.digits as nat);
        int_text(d.digits as nat)
    } else {
        lemma_pointed_shaped(d.digits as nat, d.scale as nat);
        pointed_text(d.digits as nat, d.scale as nat)
    };
    lemma_shaped_concat(seq!['-'], body);
}

proof fn lemma_constant_shaped(c: ConstantFunction)
    ensures
        shaped(constant_text(c), 0, 0),
{
    lemma_literals();
    match c {
        ConstantFunction::Constant(r, g, b) => {
            lemma_decimal_shaped(r);
            lemma_decimal_shaped(g);
            lemma_decimal_shaped(b);
            let s1 = "vec3("@ + decimal_text(r);
            let s2 = s1 + ","@;
            let s3 = s2 + decimal_text(g);
            let s4 = s3 + ","@;
            let s5 = s4 + decimal_text(b);
            lemma_shaped_concat("vec3("@, decimal_text(r));
            lemma_shaped_concat(s1, ","@);
            lemma_shaped_concat(s2, decimal_text(g));
            lemma_shaped_concat(s3, ","@);
            lemma_shaped_concat(s4, decimal_text(b));
            lemma_shaped_concat(s5, ")"@);
        },
        ConstantFunction::Coord(dim) => {},
    }
}

proof fn lemma_lowered_shaped(f: ComputeFunction)
    requires
        is_complete(f),
    ensures
        shaped(lowered(f), 0, 0),
    decreases f,
{
    match f {
        ComputeFunction::Zero(c) => lemma_constant_shaped(*c),
        ComputeFunction::One(s) => lemma_single_shaped(*s),
        ComputeFunction::Two(t) => lemma_two_shaped(*t),
        ComputeFunction::Placeholder => {},
    }
}

proof fn lemma_single_shaped(s: SingleArgFunction)
    requires
        single_complete(s),
    ensures
        shaped(single_text(s), 0, 0),
    decreases s,
{
    lemma_literals();
    let a = match s {
        SingleArgFunction::Sin(a)
        | SingleArgFunction::Cos(a)
        | SingleArgFunction::Tan(a)
        | SingleArgFunction::Atan(a)
        | SingleArgFunction::Sinh(a)
        | SingleArgFunction::Cosh(a)
        | SingleArgFunction::Abs(a)
        | SingleArgFunction::Reciprocal(a)
        | SingleArgFunction::Square(a)
        | SingleArgFunction::SquareRoot(a)
        | SingleArgFunction::Loge(a) => {
            lemma_lowered_shaped(a);
            a
        },
    };
    lemma_shaped_concat(unary_open(s), lowered(a));
    lemma_shaped_concat(unary_open(s) + lowered(a), unary_close(s));
}

proof fn lemma_two_shaped(t: TwoArgFunction)
    requires
        two_complete(t),
    ensures
        shaped(two_text(t), 0, 0),
    decreases t,
{
    lemma_literals();
    let (a, b) = match t {
        TwoArgFunction::Add(a, b)
        | TwoArgFunction::Subtract(a, b)
        | TwoArgFunction::Multiply(a, b)
        | TwoArgFunction::Divide(a, b)
        | TwoArgFunction::Min(a, b)
        | TwoArgFunction::Max(a, b)
        | TwoArgFunction::Avg(a, b)
        | TwoArgFunction::Mod(a, b)
        | TwoArgFunction::Exponent(a, b)
        | TwoArgFunction::And(a, b)
        | TwoArgFunction::Or(a, b)
        | TwoArgFunction::Xor(a, b) => {
            lemma_lowered_shaped(a);
            lemma_lowered_shaped(b);
            (a, b)
        },
    };
    let s1 = binary_open(t) + lowered(a);
    let s2 = s1 + binary_infix(t);
    let s3 = s2 + lowered(b);
    lemma_shaped_concat(binary_open(t), lowered(a));
    lemma_shaped_concat(s1, binary_infix(t));
    lemma_shaped_concat(s2, lowered(b));
    lemma_shaped_concat(s3, binary_close(t));
}

/// The shader text of a tree without placeholders is one balanced nesting
/// of parentheses and never holds the template substitution token.
pub proof fn lemma_lowered_well_nested(f: ComputeFunction)
    requires
        is_complete(f),
    ensures
        balanced(lowered(f)),
        !contains(lowered(f), sentinel_text()),
{
    let s = lowered(f);
    lemma_lowered_shaped(f);
    assert forall|i: int| 0 <= i <= s.len() implies depth(#[trigger] s.subrange(0, i)) >= 0 by {
        lemma_prefix_depth(s, i);
    }
    reveal_strlit("COMPUTE_FUNCTION");
    if contains(s, sentinel_text()) {
        let i = choose|i: int| occurs_at(s, sentinel_text(), i);
        assert(s.subrange(i, i + sentinel_text().len())[0] == s[i]);
        lemma_upper_free(s, i);
    }
}

} // verus!
