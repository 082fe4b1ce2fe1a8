use evoshader::{ComputeFunction, ConstantFunction, Decimal, SingleArgFunction, TwoArgFunction};

fn coord(dim: u8) -> ComputeFunction {
    ComputeFunction::Zero(Box::new(ConstantFunction::Coord(dim)))
}

fn nested() -> ComputeFunction {
    ComputeFunction::One(Box::new(SingleArgFunction::Atan(ComputeFunction::Two(Box::new(
        TwoArgFunction::Exponent(
            ComputeFunction::Zero(Box::new(ConstantFunction::Constant(
                Decimal { negative: true, digits: u32::MAX, scale: 255 },
                Decimal::new(0, 0),
                Decimal::new(305419896, 4),
            ))),
            ComputeFunction::Two(Box::new(TwoArgFunction::Or(
                coord(2),
                ComputeFunction::One(Box::new(SingleArgFunction::Loge(ComputeFunction::Placeholder))),
            ))),
        ),
    )))))
}

#[test]
fn round_trip_of_nested_tree() {
    let f = nested();
    let bytes = f.to_bytes();
    assert_eq!(ComputeFunction::from_bytes(&bytes), Some(nested()));
}

#[test]
fn round_trip_of_every_leaf_and_placeholder() {
    for f in [coord(0), coord(255), ComputeFunction::Placeholder] {
        let bytes = f.to_bytes();
        assert_eq!(ComputeFunction::from_bytes(&bytes), Some(f));
    }
}

#[test]
fn encoding_layout() {
    let f = ComputeFunction::Two(Box::new(TwoArgFunction::Min(
        coord(1),
        ComputeFunction::Zero(Box::new(ConstantFunction::Constant(
            Decimal { negative: true, digits: 0x0403_0201, scale: 3 },
            Decimal::new(1, 1),
            Decimal::new(2, 1),
        ))),
    )));
    assert_eq!(
        f.to_bytes(),
        vec![
            3, 4, 1, 1, 0, 1, 1, 2, 3, 4, 3, 0, 1, 0, 0, 0, 1, 0, 2, 0, 0, 0, 1
        ]
    );
}

#[test]
fn malformed_bytes_are_refused() {
    assert_eq!(ComputeFunction::from_bytes(&[]), None);
    assert_eq!(ComputeFunction::from_bytes(&[9]), None);
    assert_eq!(ComputeFunction::from_bytes(&[2, 11, 4]), None);
    assert_eq!(ComputeFunction::from_bytes(&[3, 0, 4]), None);
    assert_eq!(ComputeFunction::from_bytes(&[0, 2, 0, 0, 0, 0, 0]), None);
    let mut trailing = coord(0).to_bytes();
    trailing.push(4);
    assert_eq!(ComputeFunction::from_bytes(&trailing), None);
    let mut cut = nested().to_bytes();
    cut.pop();
    assert_eq!(ComputeFunction::from_bytes(&cut), None);
}
