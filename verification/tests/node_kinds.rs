use laz::nodes::{
    ConstantNode, EvalStop, LazError, LazNode, OutputID, ReadFileNode, SumNode, ID,
};
use laz::types::LazValue;

fn port(node: u64, outport: usize) -> OutputID {
    OutputID {
        node: ID(node),
        outport,
    }
}

#[test]
fn constant_node_evaluates_to_stored_value() {
    let node = ConstantNode {
        value: LazValue::Unsigned(99),
    };
    let out = node.evaluate_for(ID(0), vec![]).unwrap();
    assert_eq!(out, vec![LazValue::Unsigned(99)]);
    // A second evaluation returns the same value again.
    let out = node.evaluate_for(ID(0), vec![]).unwrap();
    assert_eq!(out, vec![LazValue::Unsigned(99)]);
}

#[test]
fn constant_node_has_no_inputs() {
    let node = ConstantNode {
        value: LazValue::Byte(1),
    };
    assert!(node.inputs().is_empty());
}

#[test]
fn io_description_counts_match_slots() {
    let constant = LazNode::Constant(ConstantNode {
        value: LazValue::Byte(1),
    });
    let read_file = LazNode::ReadFile(ReadFileNode::new(port(0, 0)));
    let sum = LazNode::Sum(SumNode {
        input_list: port(1, 0),
    });
    for node in [&constant, &read_file, &sum] {
        let description = node.io_description();
        assert_eq!(description.inputs.len(), node.inputs().len());
        assert_eq!(description.outputs.len(), 1);
    }
}

#[test]
fn read_file_rejects_non_string_input() {
    let node = ReadFileNode::new(port(0, 0));
    let err = node
        .evaluate_for(ID(1), vec![(port(0, 0), LazValue::Unsigned(5))])
        .unwrap_err();
    assert_eq!(
        err,
        EvalStop::Failed(LazError::InvalidInputType {
            from: port(0, 0),
            expected: "String".to_owned(),
        })
    );
}

#[test]
fn read_file_misses_cold_cache() {
    let node = ReadFileNode::new(port(0, 0));
    let err = node
        .evaluate_for(
            ID(1),
            vec![(port(0, 0), LazValue::String("a.bin".to_owned()))],
        )
        .unwrap_err();
    assert_eq!(
        err,
        EvalStop::NeedFile {
            node: ID(1),
            path: "a.bin".to_owned(),
        }
    );
}

#[test]
fn read_file_serves_supplied_contents() {
    let mut node = ReadFileNode::new(port(0, 0));
    node.supply_contents("a.bin".to_owned(), vec![10, 20]);
    let out = node
        .evaluate_for(
            ID(1),
            vec![(port(0, 0), LazValue::String("a.bin".to_owned()))],
        )
        .unwrap();
    assert_eq!(
        out,
        vec![LazValue::Array(vec![LazValue::Byte(10), LazValue::Byte(20)])]
    );
    // A different path misses the single-entry cache.
    let err = node
        .evaluate_for(
            ID(1),
            vec![(port(0, 0), LazValue::String("b.bin".to_owned()))],
        )
        .unwrap_err();
    assert_eq!(
        err,
        EvalStop::NeedFile {
            node: ID(1),
            path: "b.bin".to_owned(),
        }
    );
}

fn sum_of(input: LazValue) -> Result<Vec<LazValue>, EvalStop> {
    let node = SumNode {
        input_list: port(0, 0),
    };
    node.evaluate_for(ID(1), vec![(port(0, 0), input)])
}

#[test]
fn sum_of_empty_array_is_byte_zero() {
    let out = sum_of(LazValue::Array(vec![])).unwrap();
    assert_eq!(out, vec![LazValue::Byte(0)]);
}

#[test]
fn sum_of_bytes_wraps_modulo_256() {
    let out = sum_of(LazValue::Array(vec![LazValue::Byte(200), LazValue::Byte(100)])).unwrap();
    assert_eq!(out, vec![LazValue::Byte(44)]);
}

#[test]
fn sum_of_unsigned_values() {
    let out = sum_of(LazValue::Array(vec![
        LazValue::Unsigned(3),
        LazValue::Unsigned(4),
    ]))
    .unwrap();
    assert_eq!(out, vec![LazValue::Unsigned(7)]);
}

#[test]
fn sum_of_unsigned_values_wraps() {
    let out = sum_of(LazValue::Array(vec![
        LazValue::Unsigned(u64::MAX),
        LazValue::Unsigned(3),
    ]))
    .unwrap();
    assert_eq!(out, vec![LazValue::Unsigned(2)]);
}

#[test]
fn sum_of_signed_values() {
    let out = sum_of(LazValue::Array(vec![
        LazValue::Signed(-5),
        LazValue::Signed(7),
    ]))
    .unwrap();
    assert_eq!(out, vec![LazValue::Signed(2)]);
}

#[test]
fn sum_of_signed_values_wraps() {
    let out = sum_of(LazValue::Array(vec![
        LazValue::Signed(i64::MAX),
        LazValue::Signed(1),
    ]))
    .unwrap();
    assert_eq!(out, vec![LazValue::Signed(i64::MIN)]);
    let out = sum_of(LazValue::Array(vec![
        LazValue::Signed(i64::MIN),
        LazValue::Signed(-1),
    ]))
    .unwrap();
    assert_eq!(out, vec![LazValue::Signed(i64::MAX)]);
}

#[test]
fn sum_of_mixed_types_fails() {
    let err = sum_of(LazValue::Array(vec![
        LazValue::Byte(1),
        LazValue::Unsigned(2),
    ]))
    .unwrap_err();
    assert_eq!(
        err,
        EvalStop::Failed(LazError::InvalidInputType {
            from: port(0, 0),
            expected: "Could not sum".to_owned(),
        })
    );
}

#[test]
fn sum_of_chars_fails() {
    let err = sum_of(LazValue::Array(vec![LazValue::Char('a')])).unwrap_err();
    assert_eq!(
        err,
        EvalStop::Failed(LazError::InvalidInputType {
            from: port(0, 0),
            expected: "Could not sum".to_owned(),
        })
    );
}

#[test]
fn sum_of_non_array_fails() {
    let err = sum_of(LazValue::Unsigned(3)).unwrap_err();
    assert_eq!(
        err,
        EvalStop::Failed(LazError::InvalidInputType {
            from: port(0, 0),
            expected: "[{num}]".to_owned(),
        })
    );
}

#[test]
fn set_input_rewires_existing_slots_only() {
    let mut constant = LazNode::Constant(ConstantNode {
        value: LazValue::Byte(1),
    });
    assert!(!constant.set_input(0, port(5, 0)));

    let mut sum = LazNode::Sum(SumNode {
        input_list: port(1, 0),
    });
    assert!(sum.set_input(0, port(2, 3)));
    assert!(!sum.set_input(1, port(2, 3)));
    assert_eq!(sum.inputs(), vec![port(2, 3)]);

    let mut read_file = LazNode::ReadFile(ReadFileNode::new(port(0, 0)));
    assert!(read_file.set_input(0, port(7, 1)));
    assert_eq!(read_file.inputs(), vec![port(7, 1)]);
}
