use expr_lang::operations::{Expr, ExprError};

#[test]
fn basic_test() {
    let expr = vec!["1", "2", "+"];
    let expr = Expr::new(expr);
    assert_eq!(expr.eval().unwrap(), 3);

    let expr = vec!["1", "2", "-"];
    let expr = Expr::new(expr);
    assert_eq!(expr.eval().unwrap(), -1);

    let expr = vec!["1", "2", "*"];
    let expr = Expr::new(expr);
    assert_eq!(expr.eval().unwrap(), 2);

    let expr = vec!["2", "3", "+", "5", "-"];
    let expr = Expr::new(expr);
    assert_eq!(expr.eval().unwrap(), 0);

    let expr = vec!["2", "3", "+", "5", "*", "2", "+", "3", "-", "6", "/"];
    let expr = Expr::new(expr);
    assert_eq!(expr.eval().unwrap(), 4);
    let expr = vec!["2", "3", "*", "4", "+", "5", "%"];
    let expr = Expr::new(expr);
    assert_eq!(expr.eval().unwrap(), 0);
}

#[test]
fn single_operand_is_its_own_result() {
    let expr = Expr::new(vec!["42"]);
    assert_eq!(expr.eval().unwrap(), 42);

    let expr = Expr::new(vec!["-7"]);
    assert_eq!(expr.eval().unwrap(), -7);

    let expr = Expr::new(vec!["+9"]);
    assert_eq!(expr.eval().unwrap(), 9);
}

#[test]
fn negative_operands_fold_left_to_right() {
    // (-4 + 1) * -3 = 9
    let expr = Expr::new(vec!["-4", "1", "+", "-3", "*"]);
    assert_eq!(expr.eval().unwrap(), 9);
}

#[test]
fn rem_euclid_is_non_negative() {
    // (0 - 7) % 3 = rem_euclid(-7, 3) = 2
    let expr = Expr::new(vec!["0", "7", "-", "3", "%"]);
    assert_eq!(expr.eval().unwrap(), 2);
}

#[test]
fn bad_operand_is_reported() {
    let expr = Expr::new(vec!["x", "2", "+"]);
    assert!(matches!(expr.eval(), Err(ExprError::ParseOperandError)));

    let expr = Expr::new(vec![""]);
    assert!(matches!(expr.eval(), Err(ExprError::ParseOperandError)));
}

#[test]
fn bad_operator_is_reported() {
    let expr = Expr::new(vec!["1", "2", "&"]);
    assert!(matches!(expr.eval(), Err(ExprError::ParseOperatorError)));
}

#[test]
fn division_by_zero_is_a_fault() {
    let expr = Expr::new(vec!["1", "0", "/"]);
    assert!(matches!(expr.eval(), Err(ExprError::ArithmeticFault)));

    let expr = Expr::new(vec!["1", "0", "%"]);
    assert!(matches!(expr.eval(), Err(ExprError::ArithmeticFault)));
}

#[test]
fn overflow_is_a_fault() {
    let expr = Expr::new(vec!["9223372036854775807", "1", "+"]);
    assert!(matches!(expr.eval(), Err(ExprError::ArithmeticFault)));
}

#[test]
fn out_of_range_literal_is_rejected() {
    let expr = Expr::new(vec!["9223372036854775808"]);
    assert!(matches!(expr.eval(), Err(ExprError::ParseOperandError)));
}

#[test]
fn trailing_word_after_full_chain_is_ignored() {
    let expr = Expr::new(vec!["5", "6", "+", "7"]);
    assert_eq!(expr.eval().unwrap(), 11);
}
