use laz::types::LazValue;

#[test]
fn scalar_equality_is_structural() {
    assert_eq!(LazValue::Byte(7), LazValue::Byte(7));
    assert_ne!(LazValue::Byte(7), LazValue::Byte(8));
    assert_ne!(LazValue::Byte(7), LazValue::Unsigned(7));
    assert_eq!(LazValue::Char('x'), LazValue::Char('x'));
    assert_ne!(LazValue::Char('x'), LazValue::Char('y'));
    assert_eq!(LazValue::Signed(-3), LazValue::Signed(-3));
    assert_ne!(LazValue::Signed(-3), LazValue::Unsigned(3));
    assert_eq!(
        LazValue::String("path".to_owned()),
        LazValue::String("path".to_owned())
    );
    assert_ne!(
        LazValue::String("path".to_owned()),
        LazValue::String("paths".to_owned())
    );
}

#[test]
fn array_equality_is_deep() {
    let a = LazValue::Array(vec![
        LazValue::Byte(1),
        LazValue::Array(vec![LazValue::Unsigned(2), LazValue::String("s".to_owned())]),
    ]);
    let b = LazValue::Array(vec![
        LazValue::Byte(1),
        LazValue::Array(vec![LazValue::Unsigned(2), LazValue::String("s".to_owned())]),
    ]);
    let c = LazValue::Array(vec![
        LazValue::Byte(1),
        LazValue::Array(vec![LazValue::Unsigned(2), LazValue::String("t".to_owned())]),
    ]);
    let shorter = LazValue::Array(vec![LazValue::Byte(1)]);
    assert_eq!(a, b);
    assert_ne!(a, c);
    assert_ne!(a, shorter);
    assert_ne!(LazValue::Array(vec![]), shorter);
    assert_eq!(LazValue::Array(vec![]), LazValue::Array(vec![]));
}

#[test]
fn clone_is_structural() {
    let a = LazValue::Array(vec![
        LazValue::Byte(200),
        LazValue::Array(vec![LazValue::Char('q')]),
        LazValue::String("contents".to_owned()),
    ]);
    let copy = a.clone();
    assert_eq!(a, copy);
}
