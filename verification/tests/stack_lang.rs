use expr_lang::stack_lang::{Engine, SyntaxParseError, Variable};

#[test]
fn v1_chain_evaluates() {
    let mut engine = Engine::new();
    assert!(engine.syntax_parse("1 2 +").is_ok());
    assert!(engine.eval().is_ok());
    assert_eq!(engine.res(), 3);

    engine.reset();
    assert!(engine.syntax_parse("1 2 + 3 +").is_ok());
    assert!(engine.eval().is_ok());
    assert_eq!(engine.res(), 6);
}

#[test]
fn v1_single_literal() {
    let mut engine = Engine::new();
    assert!(engine.syntax_parse("41").is_ok());
    assert!(engine.eval().is_ok());
    assert_eq!(engine.res(), 41);
}

#[test]
fn v1_assignment_and_lookup() {
    let mut engine = Engine::new();
    assert!(engine.syntax_parse("5 x =").is_ok());
    assert!(engine.eval().is_ok());
    assert_eq!(engine.res(), 5);

    engine.reset();
    assert!(engine.syntax_parse("x").is_ok());
    assert!(engine.eval().is_ok());
    assert_eq!(engine.res(), 5);
}

#[test]
fn v1_unbalanced_statement_is_rejected() {
    let mut engine = Engine::new();
    assert!(engine.syntax_parse("1 2").is_ok());
    assert_eq!(engine.eval(), Err(SyntaxParseError::NotAValidSyntaxItem));
}

#[test]
fn v1_non_ascii_word_is_rejected() {
    let mut engine = Engine::new();
    assert_eq!(
        engine.syntax_parse("1 \u{00e9} +"),
        Err(SyntaxParseError::NotAValidSyntaxItem)
    );
}

#[test]
fn v1_division_by_zero_is_a_fault() {
    let mut engine = Engine::new();
    assert!(engine.syntax_parse("1 0 /").is_ok());
    assert_eq!(engine.eval(), Err(SyntaxParseError::ArithmeticFault));
}

#[test]
fn v1_underflow_is_a_fault() {
    let mut engine = Engine::new();
    assert!(engine.syntax_parse("1 2 -").is_ok());
    assert_eq!(engine.eval(), Err(SyntaxParseError::ArithmeticFault));
}

#[test]
fn v1_variable_new_is_empty() {
    let var = Variable::new();
    assert_eq!(var.name, String::new());
    assert_eq!(var.value, 0);
}
