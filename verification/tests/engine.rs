use laz::env::LazEnv;
use laz::example_env;
use laz::nodes::{
    ConstantNode, EvalStop, LazError, LazNode, OutputID, ReadFileNode, SumNode, ID,
};
use laz::types::LazValue;

fn port(node: ID, outport: usize) -> OutputID {
    OutputID { node, outport }
}

#[test]
fn identifier_allocation_is_strictly_increasing() {
    let mut env = LazEnv::default();
    let a = env.add_node(LazNode::Constant(ConstantNode {
        value: LazValue::Byte(1),
    }));
    let b = env.add_node(LazNode::Constant(ConstantNode {
        value: LazValue::Byte(2),
    }));
    let c = env.add_node(LazNode::Sum(SumNode {
        input_list: port(a, 0),
    }));
    assert_eq!(a, ID(0));
    assert_eq!(b, ID(1));
    assert_eq!(c, ID(2));
    assert!(a.0 < b.0 && b.0 < c.0);
}

#[test]
fn constant_evaluation_is_idempotent() {
    let mut env = LazEnv::default();
    let id = env.add_node(LazNode::Constant(ConstantNode {
        value: LazValue::String("fixed".to_owned()),
    }));
    for _ in 0..3 {
        let out = env.evaluate_node(id).unwrap();
        assert_eq!(out, vec![LazValue::String("fixed".to_owned())]);
    }
}

#[test]
fn unregistered_identifier_fails_with_no_such_node() {
    let mut env = LazEnv::default();
    let err = env.evaluate_node(ID(0)).unwrap_err();
    assert_eq!(err, EvalStop::Failed(LazError::NoSuchNode(ID(0))));

    env.add_node(LazNode::Constant(ConstantNode {
        value: LazValue::Byte(1),
    }));
    let err = env.evaluate_node(ID(7)).unwrap_err();
    assert_eq!(err, EvalStop::Failed(LazError::NoSuchNode(ID(7))));
}

#[test]
fn out_of_range_port_fails_with_no_such_outport() {
    let mut env = LazEnv::default();
    let constant = env.add_node(LazNode::Constant(ConstantNode {
        value: LazValue::Array(vec![]),
    }));
    // A constant node has exactly one output; port 1 is out of range.
    let sum = env.add_node(LazNode::Sum(SumNode {
        input_list: port(constant, 1),
    }));
    let err = env.evaluate_node(sum).unwrap_err();
    assert_eq!(
        err,
        EvalStop::Failed(LazError::NoSuchOutport(port(constant, 1)))
    );
}

#[test]
fn dangling_edge_fails_with_no_such_node() {
    let mut env = LazEnv::default();
    let sum = env.add_node(LazNode::Sum(SumNode {
        input_list: port(ID(40), 0),
    }));
    let err = env.evaluate_node(sum).unwrap_err();
    assert_eq!(err, EvalStop::Failed(LazError::NoSuchNode(ID(40))));
}

#[test]
fn sum_over_constant_array() {
    let mut env = LazEnv::default();
    let data = env.add_node(LazNode::Constant(ConstantNode {
        value: LazValue::Array(vec![LazValue::Byte(200), LazValue::Byte(100)]),
    }));
    let sum = env.add_node(LazNode::Sum(SumNode {
        input_list: port(data, 0),
    }));
    let out = env.evaluate_node(sum).unwrap();
    assert_eq!(out, vec![LazValue::Byte(44)]);
}

#[test]
fn file_contents_are_cached_after_one_supply() {
    let mut env = LazEnv::default();
    let path = env.add_node(LazNode::Constant(ConstantNode {
        value: LazValue::String("data.bin".to_owned()),
    }));
    let reader = env.add_node(LazNode::ReadFile(ReadFileNode::new(port(path, 0))));

    // Cold cache: evaluation stops with a request for the file.
    let stop = env.evaluate_node(reader).unwrap_err();
    assert_eq!(
        stop,
        EvalStop::NeedFile {
            node: reader,
            path: "data.bin".to_owned(),
        }
    );

    // The host answers once; from then on the cache serves every
    // evaluation, byte-identically, without the file being asked for again.
    assert!(env.supply_file(reader, "data.bin".to_owned(), vec![3, 1, 4]));
    let first = env.evaluate_node(reader).unwrap();
    let second = env.evaluate_node(reader).unwrap();
    let expected = vec![LazValue::Array(vec![
        LazValue::Byte(3),
        LazValue::Byte(1),
        LazValue::Byte(4),
    ])];
    assert_eq!(first, expected);
    assert_eq!(second, expected);
}

#[test]
fn supply_file_rejects_other_node_kinds() {
    let mut env = LazEnv::default();
    let constant = env.add_node(LazNode::Constant(ConstantNode {
        value: LazValue::Byte(1),
    }));
    assert!(!env.supply_file(constant, "data.bin".to_owned(), vec![1]));
    assert!(!env.supply_file(ID(9), "data.bin".to_owned(), vec![1]));
}

#[test]
fn shared_ancestor_matches_independent_evaluation() {
    // B and C both depend on A; evaluating them in one environment must
    // agree with evaluating each from a fresh environment, since no state
    // is shared or memoized between the paths into A.
    let build = || {
        let mut env = LazEnv::default();
        let a = env.add_node(LazNode::Constant(ConstantNode {
            value: LazValue::Array(vec![LazValue::Unsigned(3), LazValue::Unsigned(4)]),
        }));
        let b = env.add_node(LazNode::Sum(SumNode {
            input_list: port(a, 0),
        }));
        let c = env.add_node(LazNode::Sum(SumNode {
            input_list: port(a, 0),
        }));
        (env, b, c)
    };

    let (shared, b, c) = build();
    let from_shared_b = shared.evaluate_node(b).unwrap();
    let from_shared_c = shared.evaluate_node(c).unwrap();

    let (fresh_b, b2, _) = build();
    let (fresh_c, _, c2) = build();
    assert_eq!(from_shared_b, fresh_b.evaluate_node(b2).unwrap());
    assert_eq!(from_shared_c, fresh_c.evaluate_node(c2).unwrap());
    assert_eq!(from_shared_b, vec![LazValue::Unsigned(7)]);
    assert_eq!(from_shared_c, vec![LazValue::Unsigned(7)]);
}

#[test]
fn get_node_reports_registration() {
    let mut env = LazEnv::default();
    assert!(env.get_node(ID(0)).is_none());
    let id = env.add_node(LazNode::Sum(SumNode {
        input_list: port(ID(0), 0),
    }));
    let node = env.get_node(id).unwrap();
    assert_eq!(node.inputs(), vec![port(ID(0), 0)]);
}

#[test]
fn rewiring_changes_what_is_evaluated() {
    let mut env = LazEnv::default();
    let bytes = env.add_node(LazNode::Constant(ConstantNode {
        value: LazValue::Array(vec![LazValue::Byte(1), LazValue::Byte(2)]),
    }));
    let words = env.add_node(LazNode::Constant(ConstantNode {
        value: LazValue::Array(vec![LazValue::Unsigned(10), LazValue::Unsigned(20)]),
    }));
    let sum = env.add_node(LazNode::Sum(SumNode {
        input_list: port(bytes, 0),
    }));
    assert_eq!(env.evaluate_node(sum).unwrap(), vec![LazValue::Byte(3)]);

    let node = env.get_node_mut(sum).unwrap();
    assert!(node.set_input(0, port(words, 0)));
    assert!(env.get_node_mut(ID(9)).is_none());
    assert_eq!(
        env.evaluate_node(sum).unwrap(),
        vec![LazValue::Unsigned(30)]
    );
}

#[test]
fn example_pipeline_sums_supplied_file_bytes() {
    let (env, root) = example_env();
    let mut env = env;

    let stop = env.evaluate_node(root).unwrap_err();
    let path = match stop {
        EvalStop::NeedFile { node, path } => {
            assert_eq!(node, ID(1));
            path
        }
        other => panic!("expected a file request, got {:?}", other),
    };
    assert_eq!(path, "src/render/shaders/compiled/data.frag.spv");

    assert!(env.supply_file(ID(1), path, vec![250, 5, 7]));
    let out = env.evaluate_node(root).unwrap();
    assert_eq!(out, vec![LazValue::Byte(6)]);
}
