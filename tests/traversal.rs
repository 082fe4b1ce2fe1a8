use evoshader::{ComputeFunction, ConstantFunction, Decimal, SingleArgFunction, TwoArgFunction};

fn coord(dim: u8) -> ComputeFunction {
    ComputeFunction::Zero(Box::new(ConstantFunction::Coord(dim)))
}

fn sample_tree() -> ComputeFunction {
    ComputeFunction::Two(Box::new(TwoArgFunction::Add(
        ComputeFunction::One(Box::new(SingleArgFunction::Sin(coord(0)))),
        ComputeFunction::One(Box::new(SingleArgFunction::Loge(ComputeFunction::Zero(Box::new(
            ConstantFunction::Constant(Decimal::new(1, 1), Decimal::new(2, 1), Decimal::new(3, 1)),
        ))))),
    )))
}

#[test]
fn test_bfs() {
    // Add
    //     Sin
    //         Coord(0)
    //     Loge
    //         Constant(0.1,0.2,0.3)
    let compute_function = sample_tree();
    let nodes = compute_function.bfs();
    for node in &nodes {
        println!("{:?}", node);
    }
    let sin = ComputeFunction::One(Box::new(SingleArgFunction::Sin(coord(0))));
    let loge = ComputeFunction::One(Box::new(SingleArgFunction::Loge(ComputeFunction::Zero(
        Box::new(ConstantFunction::Constant(
            Decimal::new(1, 1),
            Decimal::new(2, 1),
            Decimal::new(3, 1),
        )),
    ))));
    let c = ComputeFunction::Zero(Box::new(ConstantFunction::Constant(
        Decimal::new(1, 1),
        Decimal::new(2, 1),
        Decimal::new(3, 1),
    )));
    assert_eq!(nodes.len(), 5);
    assert_eq!((nodes[0].0, nodes[0].1), (&compute_function, &compute_function));
    assert_eq!((nodes[1].0, nodes[1].1), (&sin, &compute_function));
    assert_eq!((nodes[2].0, nodes[2].1), (&loge, &compute_function));
    assert_eq!((nodes[3].0, nodes[3].1), (&coord(0), &sin));
    assert_eq!((nodes[4].0, nodes[4].1), (&c, &loge));
}

#[test]
fn bfs_of_binary_over_two_leaves() {
    let root = ComputeFunction::Two(Box::new(TwoArgFunction::Add(coord(0), coord(1))));
    let nodes = root.bfs();
    assert_eq!(nodes.len(), 3);
    assert_eq!((nodes[0].0, nodes[0].1), (&root, &root));
    assert_eq!((nodes[1].0, nodes[1].1), (&coord(0), &root));
    assert_eq!((nodes[2].0, nodes[2].1), (&coord(1), &root));
}

#[test]
fn bfs_of_a_single_leaf() {
    let root = coord(2);
    let nodes = root.bfs();
    assert_eq!(nodes.len(), 1);
    assert_eq!((nodes[0].0, nodes[0].1), (&root, &root));
}

#[test]
fn bfs_visits_every_node_once_level_by_level() {
    // Sub( Abs(Max(x, y)), Avg(z, Cos(x)) ): 9 nodes.
    let max = ComputeFunction::Two(Box::new(TwoArgFunction::Max(coord(0), coord(1))));
    let abs = ComputeFunction::One(Box::new(SingleArgFunction::Abs(max)));
    let cos = ComputeFunction::One(Box::new(SingleArgFunction::Cos(coord(0))));
    let avg = ComputeFunction::Two(Box::new(TwoArgFunction::Avg(coord(2), cos)));
    let root = ComputeFunction::Two(Box::new(TwoArgFunction::Subtract(abs, avg)));
    let nodes = root.bfs();
    assert_eq!(nodes.len(), 9);
    let shader: Vec<String> = nodes
        .iter()
        .map(|(n, _)| evoshader::lower(n).unwrap())
        .collect();
    assert_eq!(
        shader,
        vec![
            "(abs(max(vec3(x,x,x),vec3(y,y,y)))-(vec3(z,z,z)+cos(vec3(x,x,x)))/2)",
            "abs(max(vec3(x,x,x),vec3(y,y,y)))",
            "(vec3(z,z,z)+cos(vec3(x,x,x)))/2",
            "max(vec3(x,x,x),vec3(y,y,y))",
            "vec3(z,z,z)",
            "cos(vec3(x,x,x))",
            "vec3(x,x,x)",
            "vec3(y,y,y)",
            "vec3(x,x,x)",
        ]
    );
    for (node, parent) in &nodes[1..] {
        let is_child = match parent {
            ComputeFunction::One(s) => match evoshader::EnumMethods::get_arg(&**s, 0) {
                Ok(a) => a == *node,
                Err(_) => false,
            },
            ComputeFunction::Two(t) => {
                evoshader::EnumMethods::get_arg(&**t, 0) == Ok(*node)
                    || evoshader::EnumMethods::get_arg(&**t, 1) == Ok(*node)
            }
            _ => false,
        };
        assert!(is_child);
    }
}

#[test]
fn bfs_treats_a_placeholder_as_a_leaf() {
    let root = ComputeFunction::One(Box::new(SingleArgFunction::Sinh(ComputeFunction::Placeholder)));
    let nodes = root.bfs();
    assert_eq!(nodes.len(), 2);
    assert_eq!((nodes[1].0, nodes[1].1), (&ComputeFunction::Placeholder, &root));
}
