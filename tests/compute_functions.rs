use evoshader::{
    lower, ApplicationError, ComputeFunction, ConstantFunction, Decimal, EnumMethods,
    ShaderFunction, SingleArgFunction, TwoArgFunction,
};

const TEMPLATE: &str = "@compute @workgroup_size(32)\nfn main() {\n    let v: vec3<f32> = COMPUTE_FUNCTION;\n}\n";

fn coord(dim: u8) -> ComputeFunction {
    ComputeFunction::Zero(Box::new(ConstantFunction::Coord(dim)))
}

fn constant(r: Decimal, g: Decimal, b: Decimal) -> ComputeFunction {
    ComputeFunction::Zero(Box::new(ConstantFunction::Constant(r, g, b)))
}

fn one(s: SingleArgFunction) -> ComputeFunction {
    ComputeFunction::One(Box::new(s))
}

fn two(t: TwoArgFunction) -> ComputeFunction {
    ComputeFunction::Two(Box::new(t))
}

fn sample_tree() -> ComputeFunction {
    // Add
    //     Sin
    //         Coord(0)
    //     Loge
    //         Constant(0.1,0.2,0.3)
    two(TwoArgFunction::Add(
        one(SingleArgFunction::Sin(coord(0))),
        one(SingleArgFunction::Loge(constant(
            Decimal::new(1, 1),
            Decimal::new(2, 1),
            Decimal::new(3, 1),
        ))),
    ))
}

fn nesting_ok(s: &str) -> bool {
    let mut depth: i64 = 0;
    for c in s.chars() {
        if c == '(' {
            depth += 1;
        } else if c == ')' {
            depth -= 1;
        }
        if depth < 0 {
            return false;
        }
    }
    depth == 0
}

#[test]
fn test_generate_shader_string() {
    let compute_function = SingleArgFunction::Sin(coord(0));
    let result = compute_function.get_shader_code(TEMPLATE).unwrap();
    println!("{}", result);
    assert!(result.contains("let v: vec3<f32> = sin(vec3(x,x,x));"));
    assert!(!result.contains("COMPUTE_FUNCTION"));
}

#[test]
fn lowering_add_of_sin_and_log() {
    let s = lower(&sample_tree()).unwrap();
    assert_eq!(s, "(sin(vec3(x,x,x))+log(vec3(0.1,0.2,0.3)))");
    assert_eq!(sample_tree().inner_shader().unwrap(), s);
}

#[test]
fn lowering_reciprocal_of_z() {
    let f = one(SingleArgFunction::Reciprocal(coord(2)));
    assert_eq!(lower(&f).unwrap(), "1/(vec3(z,z,z))");
}

#[test]
fn lowering_coordinates() {
    assert_eq!(lower(&coord(0)).unwrap(), "vec3(x,x,x)");
    assert_eq!(lower(&coord(1)).unwrap(), "vec3(y,y,y)");
    assert_eq!(lower(&coord(2)).unwrap(), "vec3(z,z,z)");
    assert_eq!(lower(&coord(7)).unwrap(), "vec3(z,z,z)");
}

#[test]
fn lowering_decimals() {
    let c = constant(
        Decimal { negative: true, digits: 125, scale: 1 },
        Decimal::new(5, 2),
        Decimal::new(42, 0),
    );
    assert_eq!(lower(&c).unwrap(), "vec3(-12.5,0.05,42)");
    let z = constant(Decimal::new(0, 0), Decimal::new(0, 3), Decimal::new(1000000, 6));
    assert_eq!(lower(&z).unwrap(), "vec3(0,0.000,1.000000)");
}

#[test]
fn lowering_every_unary_operator() {
    let cases: Vec<(SingleArgFunction, &str)> = vec![
        (SingleArgFunction::Sin(coord(0)), "sin(vec3(x,x,x))"),
        (SingleArgFunction::Cos(coord(0)), "cos(vec3(x,x,x))"),
        (SingleArgFunction::Tan(coord(0)), "tan(vec3(x,x,x))"),
        (SingleArgFunction::Atan(coord(0)), "atan(vec3(x,x,x))"),
        (SingleArgFunction::Sinh(coord(0)), "sinh(vec3(x,x,x))"),
        (SingleArgFunction::Cosh(coord(0)), "cosh(vec3(x,x,x))"),
        (SingleArgFunction::Abs(coord(0)), "abs(vec3(x,x,x))"),
        (SingleArgFunction::Reciprocal(coord(0)), "1/(vec3(x,x,x))"),
        (SingleArgFunction::Square(coord(0)), "pow(vec3(x,x,x),2)"),
        (SingleArgFunction::SquareRoot(coord(0)), "sqrt(vec3(x,x,x))"),
        (SingleArgFunction::Loge(coord(0)), "log(vec3(x,x,x))"),
    ];
    for (s, expected) in cases {
        assert_eq!(s.inner_shader().unwrap(), expected);
    }
}

#[test]
fn lowering_every_binary_operator() {
    let a = || coord(0);
    let b = || coord(1);
    let cases: Vec<(TwoArgFunction, &str)> = vec![
        (TwoArgFunction::Add(a(), b()), "(vec3(x,x,x)+vec3(y,y,y))"),
        (TwoArgFunction::Subtract(a(), b()), "(vec3(x,x,x)-vec3(y,y,y))"),
        (TwoArgFunction::Multiply(a(), b()), "(vec3(x,x,x)*vec3(y,y,y))"),
        (TwoArgFunction::Divide(a(), b()), "(vec3(x,x,x)/vec3(y,y,y))"),
        (TwoArgFunction::Min(a(), b()), "min(vec3(x,x,x),vec3(y,y,y))"),
        (TwoArgFunction::Max(a(), b()), "max(vec3(x,x,x),vec3(y,y,y))"),
        (TwoArgFunction::Avg(a(), b()), "(vec3(x,x,x)+vec3(y,y,y))/2"),
        (TwoArgFunction::Mod(a(), b()), "(vec3(x,x,x)%vec3(y,y,y))"),
        (TwoArgFunction::Exponent(a(), b()), "pow(vec3(x,x,x),vec3(y,y,y))"),
        (TwoArgFunction::And(a(), b()), "(vec3(x,x,x)&vec3(y,y,y))"),
        (TwoArgFunction::Or(a(), b()), "(vec3(x,x,x)|vec3(y,y,y))"),
        (TwoArgFunction::Xor(a(), b()), "(vec3(x,x,x)^vec3(y,y,y))"),
    ];
    for (t, expected) in cases {
        assert_eq!(t.inner_shader().unwrap(), expected);
    }
}

#[test]
fn lowered_text_is_balanced_and_token_free() {
    let deep = two(TwoArgFunction::Avg(
        one(SingleArgFunction::Square(two(TwoArgFunction::Min(coord(1), sample_tree())))),
        one(SingleArgFunction::Reciprocal(constant(
            Decimal::new(123456789, 9),
            Decimal::new(7, 0),
            Decimal::new(1, 3),
        ))),
    ));
    let s = lower(&deep).unwrap();
    assert!(nesting_ok(&s));
    assert!(!s.contains("COMPUTE_FUNCTION"));
    assert!(s.chars().all(|c| !c.is_ascii_uppercase()));
}

#[test]
fn lowering_a_placeholder_is_refused() {
    let f = one(SingleArgFunction::Sin(ComputeFunction::Placeholder));
    assert_eq!(lower(&f), Err(ApplicationError::InvalidTreeState));
    assert_eq!(lower(&ComputeFunction::default()), Err(ApplicationError::InvalidTreeState));
    assert_eq!(f.get_shader_code(TEMPLATE), Err(ApplicationError::InvalidTreeState));
    let s = SingleArgFunction::Sin(ComputeFunction::Placeholder);
    assert_eq!(s.inner_shader(), Err(ApplicationError::InvalidTreeState));
    let t = TwoArgFunction::Add(coord(0), one(SingleArgFunction::Abs(ComputeFunction::Placeholder)));
    assert_eq!(t.inner_shader(), Err(ApplicationError::InvalidTreeState));
    assert_eq!(ComputeFunction::Placeholder.inner_shader(), Err(ApplicationError::InvalidTreeState));
}

#[test]
fn template_without_token_is_refused() {
    let f = coord(0);
    assert_eq!(
        f.get_shader_code("fn main() { let v = 0.5; }"),
        Err(ApplicationError::TemplateError)
    );
    assert_eq!(evoshader::fill_template("", "x"), Err(ApplicationError::TemplateError));
}

#[test]
fn template_token_is_replaced_everywhere() {
    let filled = evoshader::fill_template("a COMPUTE_FUNCTION b COMPUTE_FUNCTIONCOMPUTE_FUNCTION", "x+y")
        .unwrap();
    assert_eq!(filled, "a x+y b x+yx+y");
    assert_eq!(evoshader::sentinel(), "COMPUTE_FUNCTION");
    let whole = evoshader::fill_template("COMPUTE_FUNCTION", "sin(q)").unwrap();
    assert_eq!(whole, "sin(q)");
}

#[test]
fn operand_access_by_position() {
    let s = SingleArgFunction::Cos(coord(1));
    assert_eq!(s.get_arg(0), Ok(&coord(1)));
    assert_eq!(s.get_arg(1), Err(ApplicationError::BadArg));
    let t = TwoArgFunction::Divide(coord(0), coord(2));
    assert_eq!(t.get_arg(0), Ok(&coord(0)));
    assert_eq!(t.get_arg(1), Ok(&coord(2)));
    assert_eq!(t.get_arg(2), Err(ApplicationError::BadArg));
}

#[test]
fn operand_replacement_keeps_the_operator() {
    let mut s = SingleArgFunction::Tan(ComputeFunction::Placeholder);
    assert_eq!(s.set_arg(0, coord(2)), Ok(()));
    assert_eq!(s, SingleArgFunction::Tan(coord(2)));
    assert_eq!(s.set_arg(1, coord(0)), Err(ApplicationError::BadArg));
    assert_eq!(s, SingleArgFunction::Tan(coord(2)));

    let mut t = TwoArgFunction::Subtract(ComputeFunction::Placeholder, ComputeFunction::Placeholder);
    assert_eq!(t.set_arg(1, coord(1)), Ok(()));
    assert_eq!(t, TwoArgFunction::Subtract(ComputeFunction::Placeholder, coord(1)));
    assert_eq!(t.set_arg(0, coord(0)), Ok(()));
    assert_eq!(t, TwoArgFunction::Subtract(coord(0), coord(1)));
    assert_eq!(t.set_arg(2, coord(2)), Err(ApplicationError::BadArg));
    assert_eq!(t.inner_shader().unwrap(), "(vec3(x,x,x)-vec3(y,y,y))");
}
