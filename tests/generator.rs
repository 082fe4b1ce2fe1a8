use evoshader::{ApplicationError, ComputeFunction, ConstantFunction, Decimal};
use evoshader::generator::shallow_node;

fn children_are_placeholders(f: &ComputeFunction) -> bool {
    f.bfs()[1..].iter().all(|(n, _)| matches!(n, ComputeFunction::Placeholder))
}

#[test]
fn test_random() {
    let random_func = ComputeFunction::random(&[1, 1, 1]).unwrap();
    println!("{:?}", &random_func);
    assert!(!matches!(random_func, ComputeFunction::Placeholder));
    assert!(children_are_placeholders(&random_func));
}

#[test]
fn random_leaf_only() {
    for _ in 0..50 {
        let f = ComputeFunction::random(&[1, 0, 0]).unwrap();
        match &f {
            ComputeFunction::Zero(c) => match &**c {
                ConstantFunction::Constant(r, g, b) => {
                    for d in [r, g, b] {
                        assert!(!d.negative && d.scale == 6 && d.digits < 1_000_000);
                    }
                }
                ConstantFunction::Coord(dim) => assert!(*dim < 3),
            },
            _ => panic!("not a leaf: {:?}", f),
        }
    }
}

#[test]
fn random_leaf_fields_in_range() {
    for _ in 0..200 {
        match ComputeFunction::random(&[1, 0, 0]).unwrap() {
            ComputeFunction::Zero(c) => match *c {
                ConstantFunction::Constant(r, g, b) => {
                    for d in [r, g, b] {
                        assert!(!d.negative);
                        assert!(d.digits < evoshader::generator::CONSTANT_STEPS);
                        assert_eq!(d.scale, evoshader::generator::CONSTANT_SCALE);
                    }
                }
                ConstantFunction::Coord(dim) => assert!(dim < 3),
            },
            other => panic!("not a leaf: {:?}", other),
        }
    }
}

#[test]
fn random_unary_only() {
    for _ in 0..50 {
        let f = ComputeFunction::random(&[0, 1, 0]).unwrap();
        assert!(matches!(f, ComputeFunction::One(_)));
        assert_eq!(f.bfs().len(), 2);
        assert!(children_are_placeholders(&f));
    }
}

#[test]
fn random_binary_only() {
    for _ in 0..50 {
        let f = ComputeFunction::random(&[0, 0, 7]).unwrap();
        assert!(matches!(f, ComputeFunction::Two(_)));
        assert_eq!(f.bfs().len(), 3);
        assert!(children_are_placeholders(&f));
    }
}

#[test]
fn random_all_zero_weights_is_bad_argument() {
    assert_eq!(ComputeFunction::random(&[0, 0, 0]), Err(ApplicationError::BadArg));
}

#[test]
fn random_largest_weights() {
    let f = ComputeFunction::random(&[u32::MAX, u32::MAX, 0]).unwrap();
    assert!(!matches!(f, ComputeFunction::Two(_) | ComputeFunction::Placeholder));
}

#[test]
fn shallow_node_from_draws() {
    let d = Decimal::new(25, 2);
    let e = Decimal::new(5, 1);
    assert_eq!(
        shallow_node(0, 0, d, e, d, 1),
        ComputeFunction::Zero(Box::new(ConstantFunction::Constant(d, e, d)))
    );
    assert_eq!(
        shallow_node(0, 1, d, e, d, 1),
        ComputeFunction::Zero(Box::new(ConstantFunction::Coord(1)))
    );
    let sqrt = shallow_node(1, 9, d, d, d, 0);
    assert_eq!(
        sqrt,
        ComputeFunction::One(Box::new(evoshader::SingleArgFunction::SquareRoot(
            ComputeFunction::Placeholder
        )))
    );
    let xor = shallow_node(2, 11, d, d, d, 0);
    assert_eq!(
        xor,
        ComputeFunction::Two(Box::new(evoshader::TwoArgFunction::Xor(
            ComputeFunction::Placeholder,
            ComputeFunction::Placeholder
        )))
    );
}
