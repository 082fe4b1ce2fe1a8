use vstd::prelude::*;
use vstd::std_specs::iter::IteratorSpec;
use vstd::string::*;

use crate::error::ApplicationError;
use crate::expr::{
    check_complete, is_complete, single_complete, two_complete, ComputeFunction, ConstantFunction, Decimal, SingleArgFunction, TwoArgFunction};

verus! {

/// The decimal digit character for `d < 10`.
pub open spec fn digit_char(d: nat) -> char {
    seq!['0', '1', '2', '3', '4', '5', '6', '7', '8', '9'][d as int]
}

/// Decimal digits of `n`, without leading zeros (`"0"` for zero).
pub open spec fn int_text(n: nat) -> Seq<char>
    decreases n,
{
    if n < 10 {
        seq![digit_char(n)]
    } else {
        int_text(n / 10).push(digit_char(n % 10))
    }
}

/// Digits of `n` with a decimal point written `s` places from the right;
/// the integer part is at least `"0"`.
pub open spec fn pointed_text(n: nat, s: nat) -> Seq<char>
    decreases s,
{
    if s == 0 {
        int_text(n).push('.')
    } else {
        pointed_text(n / 10, (s - 1) as nat).push(digit_char(n % 10))
    }
}

/// The shader literal of a decimal: its stored digits with the point placed
/// by its scale, behind a minus sign when it is negative.
pub open spec fn decimal_text(d: Decimal) -> Seq<char> {
    let body = if d.scale == 0 {
        int_text(d.digits as nat)
    } else {
        pointed_text(d.digits as nat, d.scale as nat)
    };
    if d.negative {
        seq!['-'] + body
    } else {
        body
    }
}

/// Shader text of a coordinate leaf: axis 0 is x, 1 is y, any other z.
pub open spec fn coord_text(dim: u8) -> Seq<char> {
    if dim == 0 {
        "vec3(x,x,x)"@
    } else if dim == 1 {
        "vec3(y,y,y)"@
    } else {
        "vec3(z,z,z)"@
    }
}

/// Shader text of a leaf.
pub open spec fn constant_text(c: ConstantFunction) -> Seq<char> {
    match c {
        ConstantFunction::Constant(r, g, b) => "vec3("@ + decimal_text(r) + ","@ + decimal_text(g)
            + ","@ + decimal_text(b) + ")"@,
        ConstantFunction::Coord(dim) => coord_text(dim),
    }
}

/// Text written before the operand of a one-argument operator.
pub open spec fn unary_open(s: SingleArgFunction) -> Seq<char> {
    match s {
        SingleArgFunction::Sin(_) => "sin("@,
        SingleArgFunction::Cos(_) => "cos("@,
        SingleArgFunction::Tan(_) => "tan("@,
        SingleArgFunction::Atan(_) => "atan("@,
        SingleArgFunction::Sinh(_) => "sinh("@,
        SingleArgFunction::Cosh(_) => "cosh("@,
        SingleArgFunction::Abs(_) => "abs("@,
        SingleArgFunction::Reciprocal(_) => "1/("@,
        SingleArgFunction::Square(_) => "pow("@,
        SingleArgFunction::SquareRoot(_) => "sqrt("@,
        SingleArgFunction::Loge(_) => "log("@,
    }
}

/// Text written after the operand of a one-argument operator.
pub open spec fn unary_close(s: SingleArgFunction) -> Seq<char> {
    match s {
        SingleArgFunction::Square(_) => ",2)"@,
        _ => ")"@,
    }
}

/// Text written before the first operand of a two-argument operator.
pub open spec fn binary_open(t: TwoArgFunction) -> Seq<char> {
    match t {
        TwoArgFunction::Min(_, _) => "min("@,
        TwoArgFunction::Max(_, _) => "max("@,
        TwoArgFunction::Exponent(_, _) => "pow("@,
        _ => "("@,
    }
}

/// Text written between the operands of a two-argument operator.
pub open spec fn binary_infix(t: TwoArgFunction) -> Seq<char> {
    match t {
        TwoArgFunction::Add(_, _) => "+"@,
        TwoArgFunction::Subtract(_, _) => "-"@,
        TwoArgFunction::Multiply(_, _) => "*"@,
        TwoArgFunction::Divide(_, _) => "/"@,
        TwoArgFunction::Min(_, _) => ","@,
        TwoArgFunction::Max(_, _) => ","@,
        TwoArgFunction::Avg(_, _) => "+"@,
        TwoArgFunction::Mod(_, _) => "%"@,
        TwoArgFunction::Exponent(_, _) => ","@,
        TwoArgFunction::And(_, _) => "&"@,
        TwoArgFunction::Or(_, _) => "|"@,
        TwoArgFunction::Xor(_, _) => "^"@,
    }
}

/// Text written after the second operand of a two-argument operator.
pub open spec fn binary_close(t: TwoArgFunction) -> Seq<char> {
    match t {
        TwoArgFunction::Avg(_, _) => ")/2"@,
        _ => ")"@,
    }
}

/// Shader expression text of a tree (empty for a placeholder, which has none).
pub open spec fn lowered(f: ComputeFunction) -> Seq<char>
    decreases f,
{
    match f {
        ComputeFunction::Zero(c) => constant_text(*c),
        ComputeFunction::One(s) => single_text(*s),
        ComputeFunction::Two(t) => two_text(*t),
        ComputeFunction::Placeholder => Seq::empty(),
    }
}

/// Shader expression text of a one-argument node.
pub open spec fn single_text(s: SingleArgFunction) -> Seq<char>
    decreases s,
{
    match s {
        SingleArgFunction::Sin(a)
        | SingleArgFunction::Cos(a)
        | SingleArgFunction::Tan(a)
        | SingleArgFunction::Atan(a)
        | SingleArgFunction::Sinh(a)
        | SingleArgFunction::Cosh(a)
        | SingleArgFunction::Abs(a)
        | SingleArgFunction::Reciprocal(a)
        | SingleArgFunction::Square(a)
        | SingleArgFunction::SquareRoot(a)
        | SingleArgFunction::Loge(a) => unary_open(s) + lowered(a) + unary_close(s),
    }
}

/// Shader expression text of a two-argument node.
pub open spec fn two_text(t: TwoArgFunction) -> Seq<char>
    decreases t,
{
    match t {
        TwoArgFunction::Add(a, b)
        | TwoArgFunction::Subtract(a, b)
        | TwoArgFunction::Multiply(a, b)
        | TwoArgFunction::Divide(a, b)
        | TwoArgFunction::Min(a, b)
        | TwoArgFunction::Max(a, b)
        | TwoArgFunction::Avg(a, b)
        | TwoArgFunction::Mod(a, b)
        | TwoArgFunction::Exponent(a, b)
        | TwoArgFunction::And(a, b)
        | TwoArgFunction::Or(a, b)
        | TwoArgFunction::Xor(a, b) => binary_open(t) + lowered(a) + binary_infix(t) + lowered(b)
            + binary_close(t),
    }
}

fn digit_str(d: u32) -> (r: &'static str)
    requires
        d < 10,
    ensures
        r@ == seq![digit_char(d as nat)],
{
    proof {
        reveal_strlit("0");
        reveal_strlit("1");
        reveal_strlit("2");
        reveal_strlit("3");
        reveal_strlit("4");
        reveal_strlit("5");
        reveal_strlit("6");
        reveal_strlit("7");
        reveal_strlit("8");
        reveal_strlit("9");
    }
    let r = match d {
        0 => "0",
        1 => "1",
        2 => "2",
        3 => "3",
        4 => "4",
        5 => "5",
        6 => "6",
        7 => "7",
        8 => "8",
        _ => "9",
    };
    assert(r@ =~= seq![digit_char(d as nat)]);
    r
}

fn int_string(n: u32) -> (r: String)
    ensures
        r@ == int_text(n as nat),
    decreases n,
{
    if n < 10 {
        String::from_str(digit_str(n))
    } else {
        let mut r = int_string(n / 10);
        r.append(digit_str(n % 10));
        r
    }
}

fn pointed_string(n: u32, s: u8) -> (r: String)
    ensures
        r@ == pointed_text(n as nat, s as nat),
    decreases s,
{
    if s == 0 {
        let mut r = int_string(n);
        proof {
            reveal_strlit(".");
        }
        r.append(".");
        assert(r@ =~= int_text(n as nat).push('.'));
        r
    } else {
        let mut r = pointed_string(n / 10, s - 1);
        r.append(digit_str(n % 10));
        r
    }
}

/// Writes a decimal as a shader literal.
pub fn decimal_string(d: Decimal) -> (r: String)
    ensures
        r@ == decimal_text(d),
{
    let body = if d.scale == 0 {
        int_string(d.digits)
    } else {
        pointed_string(d.digits, d.scale)
    };
    if d.negative {
        proof {
            reveal_strlit("-");
        }
        let mut r = String::from_str("-");
        r.append(body.as_str());
        assert(r@ =~= seq!['-'] + body@);
        r
    } else {
        body
    }
}

fn wrap(open: &str, inner: String, close: &str) -> (r: String)
    ensures
        r@ == open@ + inner@ + close@,
{
    let mut r = String::from_str(open);
    r.append(inner.as_str());
    r.append(close);
    r
}

fn wrap2(open: &str, first: String, infix: &str, second: String, close: &str) -> (r: String)
    ensures
        r@ == open@ + first@ + infix@ + second@ + close@,
{
    let mut r = String::from_str(open);
    r.append(first.as_str());
    r.append(infix);
    r.append(second.as_str());
    r.append(close);
    r
}

fn coord_str(dim: u8) -> (r: &'static str)
    ensures
        r@ == coord_text(dim),
{
    if dim == 0 {
        "vec3(x,x,x)"
    } else if dim == 1 {
        "vec3(y,y,y)"
    } else {
        "vec3(z,z,z)"
    }
}

fn lower_constant(c: &ConstantFunction) -> (r: String)
    ensures
        r@ == constant_text(*c),
{
    match c {
        ConstantFunction::Constant(r, g, b) => {
            let mut s = String::from_str("vec3(");
            s.append(decimal_string(*r).as_str());
            s.append(",");
            s.append(decimal_string(*g).as_str());
            s.append(",");
            s.append(decimal_string(*b).as_str());
            s.append(")");
            s
        },
        ConstantFunction::Coord(dim) => String::from_str(coord_str(*dim)),
    }
}

fn lower_node(f: &ComputeFunction) -> (r: String)
    requires
        is_complete(*f),
    ensures
        r@ == lowered(*f),
    decreases f,
{
    match f {
        ComputeFunction::Zero(c) => lower_constant(c),
        ComputeFunction::One(s) => lower_single(s),
        ComputeFunction::Two(t) => lower_two(t),
        ComputeFunction::Placeholder => String::new(),
    }
}

fn lower_single(s: &SingleArgFunction) -> (r: String)
    requires
        single_complete(*s),
    ensures
        r@ == single_text(*s),
    decreases s,
{
    match s {
        SingleArgFunction::Sin(a) => wrap("sin(", lower_node(a), ")"),
        SingleArgFunction::Cos(a) => wrap("cos(", lower_node(a), ")"),
        SingleArgFunction::Tan(a) => wrap("tan(", lower_node(a), ")"),
        SingleArgFunction::Atan(a) => wrap("atan(", lower_node(a), ")"),
        SingleArgFunction::Sinh(a) => wrap("sinh(", lower_node(a), ")"),
        SingleArgFunction::Cosh(a) => wrap("cosh(", lower_node(a), ")"),
        SingleArgFunction::Abs(a) => wrap("abs(", lower_node(a), ")"),
        SingleArgFunction::Reciprocal(a) => wrap("1/(", lower_node(a), ")"),
        SingleArgFunction::Square(a) => wrap("pow(", lower_node(a), ",2)"),
        SingleArgFunction::SquareRoot(a) => wrap("sqrt(", lower_node(a), ")"),
        SingleArgFunction::Loge(a) => wrap("log(", lower_node(a), ")"),
    }
}

fn lower_two(t: &TwoArgFunction) -> (r: String)
    requires
        two_complete(*t),
    ensures
        r@ == two_text(*t),
    decreases t,
{
    match t {
        TwoArgFunction::Add(a, b) => {
            wrap2("(", lower_node(a), "+", lower_node(b), ")")
        },
        TwoArgFunction::Subtract(a, b) => {
            wrap2("(", lower_node(a), "-", lower_node(b), ")")
        },
        TwoArgFunction::Multiply(a, b) => {
            wrap2("(", lower_node(a), "*", lower_node(b), ")")
        },
        TwoArgFunction::Divide(a, b) => {
            wrap2("(", lower_node(a), "/", lower_node(b), ")")
        },
        TwoArgFunction::Min(a, b) => {
            wrap2("min(", lower_node(a), ",", lower_node(b), ")")
        },
        TwoArgFunction::Max(a, b) => {
            wrap2("max(", lower_node(a), ",", lower_node(b), ")")
        },
        TwoArgFunction::Avg(a, b) => {
            wrap2("(", lower_node(a), "+", lower_node(b), ")/2")
        },
        TwoArgFunction::Mod(a, b) => {
            wrap2("(", lower_node(a), "%", lower_node(b), ")")
        },
        TwoArgFunction::Exponent(a, b) => {
            wrap2("pow(", lower_node(a), ",", lower_node(b), ")")
        },
        TwoArgFunction::And(a, b) => {
            wrap2("(", lower_node(a), "&", lower_node(b), ")")
        },
        TwoArgFunction::Or(a, b) => {
            wrap2("(", lower_node(a), "|", lower_node(b), ")")
        },
        TwoArgFunction::Xor(a, b) => {
            wrap2("(", lower_node(a), "^", lower_node(b), ")")
        },
    }
}

/// Lowers a tree to one shader expression.
///
/// A tree that still holds a placeholder has no shader text and is refused
/// with `InvalidTreeState`.
pub fn lower(f: &ComputeFunction) -> (r: Result<String, ApplicationError>)
    ensures
        is_complete(*f) ==> (r matches Ok(s) && s@ == lowered(*f)),
        !is_complete(*f) ==> r == Err::<String, ApplicationError>(ApplicationError::InvalidTreeState),
{
    if check_complete(f) {
        Ok(lower_node(f))
    } else {
        Err(ApplicationError::InvalidTreeState)
    }
}

/// The token that a shader template carries where the lowered expression goes.
///
/// Lowered text never holds an upper-case letter, so it cannot bring the
/// token back into a filled template.
pub open spec fn sentinel_text() -> Seq<char> {
    "COMPUTE_FUNCTION"@
}

/// The substitution token of shader templates.
pub fn sentinel() -> (r: &'static str)
    ensures
        r@ == sentinel_text(),
{
    "COMPUTE_FUNCTION"
}

/// Whether `p` occurs in `t` starting at index `i`.
pub open spec fn occurs_at(t: Seq<char>, p: Seq<char>, i: int) -> bool {
    0 <= i && i + p.len() <= t.len() && t.subrange(i, i + p.len()) == p
}

/// Whether `p` occurs anywhere in `t`.
pub open spec fn contains(t: Seq<char>, p: Seq<char>) -> bool {
    exists|i: int| occurs_at(t, p, i)
}

/// `t` with every occurrence of the non-empty `p`, taken left to right
/// without overlap, replaced by `rep`.
pub open spec fn replace_all(t: Seq<char>, p: Seq<char>, rep: Seq<char>) -> Seq<char>
    decreases t.len(),
{
    if p.len() == 0 || t.len() < p.len() {
        t
    } else if t.subrange(0, p.len() as int) == p {
        rep + replace_all(t.subrange(p.len() as int, t.len() as int), p, rep)
    } else {
        seq![t[0]] + replace_all(t.subrange(1, t.len() as int), p, rep)
    }
}

fn chars_of(s: &str) -> (r: Vec<char>)
    ensures
        r@ == s@,
{
    broadcast use vstd::string::group_string_axioms;

    let mut it = s.chars();
    let mut v: Vec<char> = Vec::new();
    assert(v@ + it.remaining() =~= s@);
    loop
        invariant
            v@ + it.remaining() == s@,
        ensures
            v@ == s@,
        decreases s@.len() - v.len(),
    {
        match it.next() {
            Some(c) => {
                v.push(c);
            },
            None => {
                assert(v@ + it.remaining() =~= v@);
                break ;
            },
        }
    }
    v
}

fn occurs_at_exec(t: &Vec<char>, p: &Vec<char>, i: usize) -> (r: bool)
    ensures
        r == occurs_at(t@, p@, i as int),
{
    if i > t.len() || p.len() > t.len() - i {
        return false;
    }
    let mut k: usize = 0;
    while k < p.len()
        invariant
            i + p.len() <= t.len(),
            k <= p.len(),
            forall|j: int| 0 <= j < k ==> t@[i + j] == p@[j],
        decreases p.len() - k,
    {
        if t[i + k] != p[k] {
            assert(t@.subrange(i as int, i + p.len())[k as int] != p@[k as int]);
            return false;
        }
        k += 1;
    }
    assert(t@.subrange(i as int, i + p.len()) =~= p@);
    true
}

proof fn lemma_replace_step(t: Seq<char>, p: Seq<char>, rep: Seq<char>, i: int)
    requires
        p.len() > 0,
        0 <= i < t.len(),
    ensures
        occurs_at(t, p, i) ==> replace_all(t.subrange(i, t.len() as int), p, rep) == rep
            + replace_all(t.subrange(i + p.len(), t.len() as int), p, rep),
        !occurs_at(t, p, i) && i + p.len() <= t.len() ==> replace_all(
            t.subrange(i, t.len() as int),
            p,
            rep,
        ) == seq![t[i]] + replace_all(t.subrange(i + 1, t.len() as int), p, rep),
{
    let u = t.subrange(i, t.len() as int);
    if i + p.len() <= t.len() {
        assert(u.subrange(0, p.len() as int) =~= t.subrange(i, i + p.len()));
        assert(u.subrange(p.len() as int, u.len() as int) =~= t.subrange(
            i + p.len(),
            t.len() as int,
        ));
        assert(u.subrange(1, u.len() as int) =~= t.subrange(i + 1, t.len() as int));
    }
}

/// Puts `body` in place of every substitution token of `template`.
///
/// A template without the token is a configuration fault: `TemplateError`.
pub fn fill_template(template: &str, body: &str) -> (r: Result<String, ApplicationError>)
    ensures
        contains(template@, sentinel_text()) ==> (r matches Ok(s) && s@ == replace_all(
            template@,
            sentinel_text(),
            body@,
        )),
        !contains(template@, sentinel_text()) ==> r == Err::<String, ApplicationError>(
            ApplicationError::TemplateError,
        ),
{
    proof {
        reveal_strlit("COMPUTE_FUNCTION");
    }
    let t = chars_of(template);
    let p = chars_of(sentinel());
    let ghost tv = t@;
    let ghost pv = p@;
    let mut out = String::new();
    let mut seg: usize = 0;
    let mut i: usize = 0;
    let mut found = false;
    assert(tv.subrange(0, tv.len() as int) =~= tv);
    assert(out@ + tv.subrange(0, 0) =~= Seq::<char>::empty());
    while i < t.len()
        invariant
            tv == template@,
            pv == sentinel_text(),
            t@ == tv,
            p@ == pv,
            pv.len() > 0,
            seg <= i <= tv.len(),
            out@ + tv.subrange(seg as int, i as int) + replace_all(
                tv.subrange(i as int, tv.len() as int),
                pv,
                body@,
            ) == replace_all(tv, pv, body@),
            !found ==> forall|j: int| 0 <= j < i ==> !occurs_at(tv, pv, j),
            found ==> contains(tv, pv),
        decreases tv.len() - i,
    {
        proof {
            lemma_replace_step(tv, pv, body@, i as int);
        }
        if occurs_at_exec(&t, &p, i) {
            out.append(template.substring_char(seg, i));
            out.append(body);
            found = true;
            i = i + p.len();
            seg = i;
            assert(out@ + tv.subrange(seg as int, i as int) =~= out@);
        } else {
            if p.len() > t.len() - i {
                assert(tv.subrange(i as int, tv.len() as int).len() < pv.len());
                assert forall|j: int| i <= j < tv.len() implies !occurs_at(tv, pv, j) by {}
                i = t.len();
            } else {
                assert(tv.subrange(seg as int, i as int) + seq![tv[i as int]] =~= tv.subrange(
                    seg as int,
                    i + 1,
                ));
                assert(tv.subrange(seg as int, i + 1) + replace_all(
                    tv.subrange(i + 1, tv.len() as int),
                    pv,
                    body@,
                ) =~= tv.subrange(seg as int, i as int) + (seq![tv[i as int]] + replace_all(
                    tv.subrange(i + 1, tv.len() as int),
                    pv,
                    body@,
                )));
                i = i + 1;
            }
        }
    }
    if !found {
        assert forall|j: int| !occurs_at(tv, pv, j) by {}
        return Err(ApplicationError::TemplateError);
    }
    out.append(template.substring_char(seg, t.len()));
    assert(tv.subrange(i as int, tv.len() as int) =~= Seq::<char>::empty());
    Ok(out)
}

/// A value that can be written as one shader expression.
pub trait ShaderFunction {
    /// Whether the value holds no placeholder, so that it has shader text.
    spec fn lowerable(&self) -> bool;

    /// The shader expression text of the value.
    spec fn shader_text(&self) -> Seq<char>;

    /// Decides whether the value holds no placeholder.
    fn is_lowerable(&self) -> (r: bool)
        ensures
            r == self.lowerable(),
    ;

    /// Generates the inner shader expression; a value that still holds a
    /// placeholder has none and gives `InvalidTreeState`.
    fn inner_shader(&self) -> (r: Result<String, ApplicationError>)
        ensures
            self.lowerable() ==> (r matches Ok(s) && s@ == self.shader_text()),
            !self.lowerable() ==> r == Err::<String, ApplicationError>(
                ApplicationError::InvalidTreeState,
            ),
    ;

    /// Generates complete shader code: `template` with the expression put in
    /// place of its substitution token.
    fn get_shader_code(&self, template: &str) -> (r: Result<String, ApplicationError>)
        ensures
            !self.lowerable() ==> r == Err::<String, ApplicationError>(
                ApplicationError::InvalidTreeState,
            ),
            self.lowerable() && !contains(template@, sentinel_text()) ==> r == Err::<
                String,
                ApplicationError,
            >(ApplicationError::TemplateError),
            self.lowerable() && contains(template@, sentinel_text()) ==> (r matches Ok(s)
                && s@ == replace_all(template@, sentinel_text(), self.shader_text())),
    {
        match self.inner_shader() {
            Ok(body) => fill_template(template, body.as_str()),
            Err(e) => Err(e),
        }
    }
}

impl ShaderFunction for ComputeFunction {
    open spec fn lowerable(&self) -> bool {
        is_complete(*self)
    }

    open spec fn shader_text(&self) -> Seq<char> {
        lowered(*self)
    }

    fn is_lowerable(&self) -> (r: bool) {
        check_complete(self)
    }

    fn inner_shader(&self) -> (r: Result<String, ApplicationError>) {
        if self.is_lowerable() {
            Ok(lower_node(self))
        } else {
            Err(ApplicationError::InvalidTreeState)
        }
    }
}

impl ShaderFunction for ConstantFunction {
    open spec fn lowerable(&self) -> bool {
        true
    }

    open spec fn shader_text(&self) -> Seq<char> {
        constant_text(*self)
    }

    fn is_lowerable(&self) -> (r: bool) {
        true
    }

    fn inner_shader(&self) -> (r: Result<String, ApplicationError>) {
        if self.is_lowerable() {
            Ok(lower_constant(self))
        } else {
            Err(ApplicationError::InvalidTreeState)
        }
    }
}

impl ShaderFunction for SingleArgFunction {
    open spec fn lowerable(&self) -> bool {
        single_complete(*self)
    }

    open spec fn shader_text(&self) -> Seq<char> {
        single_text(*self)
    }

    fn is_lowerable(&self) -> (r: bool) {
        match self {
            SingleArgFunction::Sin(a)
            | SingleArgFunction::Cos(a)
            | SingleArgFunction::Tan(a)
            | SingleArgFunction::Atan(a)
            | SingleArgFunction::Sinh(a)
            | SingleArgFunction::Cosh(a)
            | SingleArgFunction::Abs(a)
            | SingleArgFunction::Reciprocal(a)
            | SingleArgFunction::Square(a)
            | SingleArgFunction::SquareRoot(a)
            | SingleArgFunction::Loge(a) => check_complete(a),
        }
    }

    fn inner_shader(&self) -> (r: Result<String, ApplicationError>) {
        if self.is_lowerable() {
            Ok(lower_single(self))
        } else {
            Err(ApplicationError::InvalidTreeState)
        }
    }
}

impl ShaderFunction for TwoArgFunction {
    open spec fn lowerable(&self) -> bool {
        two_complete(*self)
    }

    open spec fn shader_text(&self) -> Seq<char> {
        two_text(*self)
    }

    fn is_lowerable(&self) -> (r: bool) {
        match self {
            TwoArgFunction::Add(a, b)
            | TwoArgFunction::Subtract(a, b)
            | TwoArgFunction::Multiply(a, b)
            | TwoArgFunction::Divide(a, b)
            | TwoArgFunction::Min(a, b)
            | TwoArgFunction::Max(a, b)
            | TwoArgFunction::Avg(a, b)
            | TwoArgFunction::Mod(a, b)
            | TwoArgFunction::Exponent(a, b)
            | TwoArgFunction::And(a, b)
            | TwoArgFunction::Or(a, b)
            | TwoArgFunction::Xor(a, b) => check_complete(a) && check_complete(b),
        }
    }

    fn inner_shader(&self) -> (r: Result<String, ApplicationError>) {
        if self.is_lowerable() {
            Ok(lower_two(self))
        } else {
            Err(ApplicationError::InvalidTreeState)
        }
    }
}

} // verus!
