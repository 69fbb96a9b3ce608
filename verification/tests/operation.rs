use tiger_types::operation::{parse_operation, Operation as O};

#[test]
fn test_plus() {
    assert_eq!(O::Plus, parse_operation("+").expect("failed to parse"));
}

#[test]
fn test_minus() {
    assert_eq!(O::Minus, parse_operation("-").expect("failed to parse"));
}

#[test]
fn test_times() {
    assert_eq!(O::Times, parse_operation("*").expect("failed to parse"));
}

#[test]
fn test_divide() {
    assert_eq!(O::Divide, parse_operation("/").expect("failed to parse"));
}

#[test]
fn test_eq() {
    assert_eq!(O::Eq, parse_operation("=").expect("failed to parse"));
}

#[test]
fn test_neq() {
    assert_eq!(O::Neq, parse_operation("<>").expect("failed to parse"));
}

#[test]
fn test_lt() {
    assert_eq!(O::Lt, parse_operation("<").expect("failed to parse"));
}

#[test]
fn test_le() {
    assert_eq!(O::Le, parse_operation("<=").expect("failed to parse"));
}

#[test]
fn test_gt() {
    assert_eq!(O::Gt, parse_operation(">").expect("failed to parse"));
}

#[test]
fn test_ge() {
    assert_eq!(O::Ge, parse_operation(">=").expect("failed to parse"));
}

#[test]
fn test_not_an_operator() {
    assert_eq!(None, parse_operation(""));
    assert_eq!(None, parse_operation("=<"));
    assert_eq!(None, parse_operation("<=>"));
    assert_eq!(None, parse_operation("x"));
}
