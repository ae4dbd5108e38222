use expr_lang::stack_lang_2::{ExprLang, Literal, Proc, SyntaxParseError, Variable};

fn eval_line(lang: &mut ExprLang, line: &str) -> Result<usize, SyntaxParseError> {
    lang.reset();
    lang.parse_syntax_stack(line)?;
    lang.eval()
}

#[test]
fn postfix_chain_yields_rpn_result() {
    let mut lang = ExprLang::new();
    assert_eq!(eval_line(&mut lang, "2 3 +"), Ok(5));
    assert_eq!(eval_line(&mut lang, "2 3 + 4 *"), Ok(20));
    // subtraction takes the later operand minus the earlier one
    assert_eq!(eval_line(&mut lang, "4 10 -"), Ok(6));
    assert_eq!(eval_line(&mut lang, "3 2 6 * /"), Ok(4));
    assert_eq!(eval_line(&mut lang, "42"), Ok(42));
}

#[test]
fn assignment_is_single_use() {
    let mut lang = ExprLang::new();
    assert_eq!(eval_line(&mut lang, "5 x ="), Ok(5));
    assert_eq!(eval_line(&mut lang, "x"), Ok(5));
    assert_eq!(
        eval_line(&mut lang, "7 x ="),
        Err(SyntaxParseError::VarNameAlreadyExists)
    );
    assert_eq!(eval_line(&mut lang, "x"), Ok(5));
}

#[test]
fn procedure_definition_round_trips() {
    let mut lang = ExprLang::new();
    assert_eq!(eval_line(&mut lang, "Def Sq As x => x x *"), Ok(0));
    assert_eq!(eval_line(&mut lang, "4 Sq"), Ok(16));
}

#[test]
fn lone_procedure_reference_reports_its_signature() {
    let mut lang = ExprLang::new();
    assert_eq!(eval_line(&mut lang, "Def Sq As x => x x *"), Ok(0));
    assert_eq!(eval_line(&mut lang, "Sq"), Ok(0));
    let reports = lang.reports();
    assert_eq!(reports.len(), 1);
    assert_eq!(reports[0].name, "Sq".to_string());
    assert_eq!(reports[0].param.len(), 1);
    assert_eq!(reports[0].param[0].name, "x".to_string());
}

#[test]
fn procedure_names_resolve_at_call_time() {
    let mut lang = ExprLang::new();
    // A's body calls B, which does not exist yet at definition time.
    assert_eq!(eval_line(&mut lang, "Def A As n => n B"), Ok(0));
    assert_eq!(eval_line(&mut lang, "Def B As n => n 1 +"), Ok(0));
    assert_eq!(eval_line(&mut lang, "5 A"), Ok(6));
}

#[test]
fn runaway_recursion_ends_the_statement_only() {
    let mut lang = ExprLang::new();
    assert_eq!(eval_line(&mut lang, "Def Loop As n => n Loop"), Ok(0));
    assert_eq!(
        eval_line(&mut lang, "1 Loop"),
        Err(SyntaxParseError::RecursionLimitExceeded)
    );
    // the session survives
    assert_eq!(eval_line(&mut lang, "2 3 +"), Ok(5));
}

#[test]
fn conditional_selects_exactly_one_branch() {
    let mut lang = ExprLang::new();
    assert_eq!(eval_line(&mut lang, "If 0 Then 10 Else 20"), Ok(20));
    assert_eq!(eval_line(&mut lang, "If 1 Then 10 Else 20"), Ok(10));
}

#[test]
fn untaken_branch_leaves_no_trace() {
    let mut lang = ExprLang::new();
    assert_eq!(eval_line(&mut lang, "If 1 Then 5 x = Else 7 y ="), Ok(5));
    assert_eq!(eval_line(&mut lang, "x"), Ok(5));
    assert_eq!(
        eval_line(&mut lang, "y"),
        Err(SyntaxParseError::InvalidVariableName)
    );
}

#[test]
fn conditional_condition_may_use_bindings() {
    let mut lang = ExprLang::new();
    assert_eq!(eval_line(&mut lang, "3 n ="), Ok(3));
    assert_eq!(eval_line(&mut lang, "If n 2 > Then n Else 0"), Ok(3));
}

#[test]
fn empty_line_is_a_no_op() {
    let mut lang = ExprLang::new();
    assert_eq!(eval_line(&mut lang, ""), Ok(0));
    assert_eq!(eval_line(&mut lang, "   "), Ok(0));
    assert_eq!(eval_line(&mut lang, "5 x ="), Ok(5));
    assert_eq!(eval_line(&mut lang, ""), Ok(0));
    assert_eq!(eval_line(&mut lang, "x"), Ok(5));
}

#[test]
fn undefined_references_fail_and_leave_state_alone() {
    let mut lang = ExprLang::new();
    assert_eq!(
        eval_line(&mut lang, "nope"),
        Err(SyntaxParseError::InvalidVariableName)
    );
    assert_eq!(eval_line(&mut lang, "5 x ="), Ok(5));
    assert_eq!(
        eval_line(&mut lang, "nope"),
        Err(SyntaxParseError::InvalidVariableName)
    );
    assert_eq!(eval_line(&mut lang, "x"), Ok(5));
}

#[test]
fn comparison_and_logic_symbols() {
    let mut lang = ExprLang::new();
    assert_eq!(eval_line(&mut lang, "4 4 =="), Ok(1));
    assert_eq!(eval_line(&mut lang, "4 5 =="), Ok(0));
    assert_eq!(eval_line(&mut lang, "4 5 !="), Ok(1));
    // `x y >` answers whether x > y
    assert_eq!(eval_line(&mut lang, "5 3 >"), Ok(1));
    assert_eq!(eval_line(&mut lang, "3 5 >"), Ok(0));
    assert_eq!(eval_line(&mut lang, "3 5 <"), Ok(1));
    assert_eq!(eval_line(&mut lang, "5 5 <="), Ok(1));
    assert_eq!(eval_line(&mut lang, "1 2 &&"), Ok(1));
    assert_eq!(eval_line(&mut lang, "0 2 &&"), Ok(0));
    assert_eq!(eval_line(&mut lang, "0 0 ||"), Ok(0));
    assert_eq!(eval_line(&mut lang, "0 2 ||"), Ok(1));
    assert_eq!(eval_line(&mut lang, "0 !"), Ok(1));
    assert_eq!(eval_line(&mut lang, "5 !"), Ok(0));
}

#[test]
fn arithmetic_faults_end_only_the_statement() {
    let mut lang = ExprLang::new();
    // underflow: the later operand minus the earlier one
    assert_eq!(
        eval_line(&mut lang, "5 3 -"),
        Err(SyntaxParseError::ArithmeticFault)
    );
    // division by zero
    assert_eq!(
        eval_line(&mut lang, "0 1 /"),
        Err(SyntaxParseError::ArithmeticFault)
    );
    assert_eq!(
        eval_line(&mut lang, "0 1 %"),
        Err(SyntaxParseError::ArithmeticFault)
    );
    // overflow
    assert_eq!(
        eval_line(&mut lang, "18446744073709551615 1 +"),
        Err(SyntaxParseError::ArithmeticFault)
    );
    assert_eq!(eval_line(&mut lang, "2 3 +"), Ok(5));
}

#[test]
fn parse_errors_by_kind() {
    let mut lang = ExprLang::new();
    lang.reset();
    assert_eq!(
        lang.parse_syntax_stack("99999999999999999999999999"),
        Err(SyntaxParseError::InvalidLiteral)
    );
    assert_eq!(
        lang.parse_syntax_stack("Def \u{00e9} As x => x"),
        Err(SyntaxParseError::InvalidProcName)
    );
    assert_eq!(
        lang.parse_syntax_stack("Def f As \u{00e9} => 1"),
        Err(SyntaxParseError::InvalidVariableName)
    );
    assert_eq!(
        lang.parse_syntax_stack("Def f"),
        Err(SyntaxParseError::InvalidProcDefStatement)
    );
    assert_eq!(
        lang.parse_syntax_stack("Def f As"),
        Err(SyntaxParseError::InvalidProcDefStatement)
    );
    assert_eq!(
        lang.parse_syntax_stack("Def f As x =>"),
        Err(SyntaxParseError::InvalidProcDefStatement)
    );
    assert_eq!(
        lang.parse_syntax_stack("Def f x => 1"),
        Err(SyntaxParseError::InvalidProcDefStatement)
    );
    assert_eq!(
        lang.parse_syntax_stack("1 \u{00e9} +"),
        Err(SyntaxParseError::ProcNotFound)
    );
    assert_eq!(
        lang.parse_syntax_stack("\u{00e9} 1 +"),
        Err(SyntaxParseError::InvalidExprStatement)
    );
    // a failed definition is never partially registered
    assert_eq!(eval_line(&mut lang, "Def f As x => x x *"), Ok(0));
    assert_eq!(eval_line(&mut lang, "3 f"), Ok(9));
}

#[test]
fn duplicate_names_are_rejected() {
    let mut lang = ExprLang::new();
    assert_eq!(eval_line(&mut lang, "Def f As x => x"), Ok(0));
    lang.reset();
    assert_eq!(
        lang.parse_syntax_stack("Def f As y => y"),
        Err(SyntaxParseError::ProcNameAlreadyExists)
    );
    assert_eq!(eval_line(&mut lang, "5 v ="), Ok(5));
    lang.reset();
    assert_eq!(
        lang.parse_syntax_stack("Def v As y => y"),
        Err(SyntaxParseError::ProcNameAlreadyExists)
    );
}

#[test]
fn arity_errors() {
    let mut lang = ExprLang::new();
    assert_eq!(
        eval_line(&mut lang, "5 +"),
        Err(SyntaxParseError::InvalidNumberOfArguments)
    );
    assert_eq!(eval_line(&mut lang, "Def g As a b => a b +"), Ok(0));
    assert_eq!(
        eval_line(&mut lang, "1 g"),
        Err(SyntaxParseError::InvalidNumberOfArguments)
    );
    assert_eq!(eval_line(&mut lang, "1 2 g"), Ok(3));
}

#[test]
fn leftover_operands_are_malformed() {
    let mut lang = ExprLang::new();
    assert_eq!(
        eval_line(&mut lang, "5 5"),
        Err(SyntaxParseError::InvalidExprStatement)
    );
    assert_eq!(
        eval_line(&mut lang, "2 3 + 7"),
        Err(SyntaxParseError::InvalidExprStatement)
    );
}

#[test]
fn exit_is_surfaced_not_executed() {
    let mut lang = ExprLang::new();
    assert!(!lang.exit_requested());
    lang.reset();
    assert_eq!(lang.parse_syntax_stack("Exit"), Ok(()));
    assert!(lang.exit_requested());
}

#[test]
fn procedures_see_only_their_parameters() {
    let mut lang = ExprLang::new();
    assert_eq!(eval_line(&mut lang, "5 y ="), Ok(5));
    assert_eq!(eval_line(&mut lang, "Def h As x => x y +"), Ok(0));
    // y is not visible inside the call frame
    assert_eq!(
        eval_line(&mut lang, "3 h"),
        Err(SyntaxParseError::InvalidVariableName)
    );
}

#[test]
fn classifier_helpers() {
    assert!(Literal::is_literal("123"));
    assert!(Literal::is_literal(""));
    assert!(!Literal::is_literal("12a"));
    assert!(Proc::is_valid_proc_name("Sq"));
    assert!(!Proc::is_valid_proc_name(""));
    assert!(!Proc::is_valid_proc_name("\u{00e9}"));
    assert!(Variable::is_valid_var_name("x"));
    assert!(!Variable::is_valid_var_name(""));
}
