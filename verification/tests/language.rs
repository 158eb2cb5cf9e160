use tinylox::interpreter::Interpreter;
use tinylox::parser::AstFactory;
use tinylox::scanner::scan;

fn run_ok(src: &str) -> Vec<String> {
    let tokens = scan(src);
    let mut parser = AstFactory::new(tokens);
    let statements = parser.parse_statements().expect("program should parse");
    let mut interpreter = Interpreter::new();
    interpreter.interpret(&statements).expect("program should run");
    interpreter.printed().clone()
}

fn run_err(src: &str) -> String {
    let tokens = scan(src);
    let mut parser = AstFactory::new(tokens);
    let statements = parser.parse_statements().expect("program should parse");
    let mut interpreter = Interpreter::new();
    let err = interpreter
        .interpret(&statements)
        .expect_err("program should fail at runtime");
    err.message()
}

fn parse_err(src: &str) -> (usize, String) {
    let tokens = scan(src);
    let mut parser = AstFactory::new(tokens);
    let err = parser
        .parse_statements()
        .expect_err("program should fail to parse");
    (err.line, err.message)
}

#[test]
fn precedence_mul_before_add() {
    assert_eq!(run_ok("print 1 + 2 * 3;"), vec!["7".to_string()]);
}

#[test]
fn exponent_is_left_associative() {
    assert_eq!(run_ok("print 2 ^ 3 ^ 2;"), vec!["64".to_string()]);
}

#[test]
fn grouping_overrides_precedence() {
    assert_eq!(run_ok("print (1 + 2) * 3;"), vec!["9".to_string()]);
}

#[test]
fn string_concatenation() {
    assert_eq!(run_ok("print \"a\" + \"b\";"), vec!["ab".to_string()]);
}

#[test]
fn string_plus_number_is_error() {
    assert_eq!(
        run_err("print \"a\" + 1;"),
        "Operands must be two numbers or two strings"
    );
}

#[test]
fn cross_kind_equality_is_false() {
    assert_eq!(run_ok("print 1 == \"1\";"), vec!["false".to_string()]);
}

#[test]
fn shadowing_and_restoration() {
    assert_eq!(
        run_ok("var x = 1; { var x = 2; print x; } print x;"),
        vec!["2".to_string(), "1".to_string()]
    );
}

#[test]
fn assignment_reaches_outer_scope() {
    assert_eq!(run_ok("var x = 1; { x = 2; } print x;"), vec!["2".to_string()]);
}

#[test]
fn and_short_circuits() {
    assert_eq!(
        run_ok("print false and undefined_var;"),
        vec!["false".to_string()]
    );
}

#[test]
fn or_short_circuits() {
    assert_eq!(
        run_ok("print true or undefined_var;"),
        vec!["true".to_string()]
    );
}

#[test]
fn and_yields_right_operand_as_is() {
    assert_eq!(run_ok("print 1 and 2;"), vec!["2".to_string()]);
    assert_eq!(run_ok("print nil and 2;"), vec!["nil".to_string()]);
}

#[test]
fn or_yields_right_operand_as_is() {
    assert_eq!(run_ok("print false or nil;"), vec!["nil".to_string()]);
    assert_eq!(run_ok("print 0 or 2;"), vec!["0".to_string()]);
}

#[test]
fn division_by_zero_is_infinity_not_error() {
    assert_eq!(run_ok("print 1 / 0;"), vec!["inf".to_string()]);
    assert_eq!(run_ok("print -(1 / 0);"), vec!["-inf".to_string()]);
    assert_eq!(run_ok("print 0 / 0;"), vec!["NaN".to_string()]);
}

#[test]
fn nan_is_not_equal_to_itself() {
    assert_eq!(run_ok("print 0 / 0 == 0 / 0;"), vec!["false".to_string()]);
}

#[test]
fn exact_fractions() {
    assert_eq!(run_ok("print 0.5 + 0.25;"), vec!["3/4".to_string()]);
    assert_eq!(run_ok("print 10 / 4;"), vec!["5/2".to_string()]);
    assert_eq!(run_ok("print 6 / 3;"), vec!["2".to_string()]);
}

#[test]
fn comparisons() {
    assert_eq!(run_ok("print 1 < 2;"), vec!["true".to_string()]);
    assert_eq!(run_ok("print 2 <= 2;"), vec!["true".to_string()]);
    assert_eq!(run_ok("print 3 > 4;"), vec!["false".to_string()]);
    assert_eq!(run_ok("print 0.5 >= 0.25;"), vec!["true".to_string()]);
    assert_eq!(run_ok("print 1 != 2;"), vec!["true".to_string()]);
}

#[test]
fn unary_operators() {
    assert_eq!(run_ok("print !nil;"), vec!["true".to_string()]);
    assert_eq!(run_ok("print !5;"), vec!["false".to_string()]);
    assert_eq!(run_ok("print !false;"), vec!["true".to_string()]);
    assert_eq!(run_ok("print -3 + 5;"), vec!["2".to_string()]);
}

#[test]
fn negating_a_string_is_error() {
    assert_eq!(run_err("print -\"a\";"), "Operand must be a number");
}

#[test]
fn comparing_mixed_kinds_is_error() {
    assert_eq!(run_err("print 1 < \"a\";"), "Operands must be numbers");
    assert_eq!(run_err("print true + true;"), "Operands must be numbers");
}

#[test]
fn undefined_variable_read_is_error() {
    assert_eq!(run_err("print q;"), "Undefined variable 'q'.");
}

#[test]
fn assigning_undefined_variable_is_error() {
    assert_eq!(run_err("y = 5;"), "Undefined variable 'y'.");
}

#[test]
fn assignment_is_an_expression() {
    assert_eq!(run_ok("var x = 1; print x = 3;"), vec!["3".to_string()]);
}

#[test]
fn bare_var_is_nil() {
    assert_eq!(run_ok("var x; print x;"), vec!["nil".to_string()]);
}

#[test]
fn if_else_branches() {
    assert_eq!(run_ok("if (1 > 2) print 1; else print 2;"), vec!["2".to_string()]);
    assert_eq!(run_ok("if (1 < 2) print 1; else print 2;"), vec!["1".to_string()]);
}

#[test]
fn if_branches_by_truthiness() {
    assert_eq!(run_ok("if (5) print 1;"), vec!["1".to_string()]);
    assert_eq!(run_ok("if (nil) print 1; print 9;"), vec!["9".to_string()]);
}

#[test]
fn comments_are_skipped() {
    assert_eq!(
        run_ok("print 1; // the rest of this line is gone\nprint 2;"),
        vec!["1".to_string(), "2".to_string()]
    );
}

#[test]
fn keywords_need_exact_words() {
    assert_eq!(run_ok("var iff = 1; print iff;"), vec!["1".to_string()]);
}

#[test]
fn booleans_and_nil_print() {
    assert_eq!(
        run_ok("print true; print false; print nil;"),
        vec!["true".to_string(), "false".to_string(), "nil".to_string()]
    );
}

#[test]
fn printing_stops_at_the_failing_statement() {
    let tokens = scan("print 1; print q; print 2;");
    let mut parser = AstFactory::new(tokens);
    let statements = parser.parse_statements().expect("parse");
    let mut interpreter = Interpreter::new();
    let err = interpreter.interpret(&statements).expect_err("should fail");
    assert_eq!(err.message(), "Undefined variable 'q'.");
    assert_eq!(interpreter.printed().clone(), vec!["1".to_string()]);
}

#[test]
fn unbalanced_parenthesis_is_parse_error() {
    let (_, message) = parse_err("print (1 + 2;");
    assert_eq!(message, "Unescaped parenthesis");
}

#[test]
fn missing_brace_is_parse_error() {
    let (_, message) = parse_err("{ var x = 1;");
    assert_eq!(message, "Expect '}'.");
}

#[test]
fn invalid_assignment_target_is_parse_error() {
    let (_, message) = parse_err("1 = 2;");
    assert_eq!(message, "Invalid assignment target.");
}

#[test]
fn missing_expression_is_parse_error() {
    let (_, message) = parse_err("print ;");
    assert_eq!(message, "Expect expression.");
}

#[test]
fn var_needs_identifier() {
    let (_, message) = parse_err("var 5 = 3;");
    assert_eq!(message, "Expect identifier.");
}

#[test]
fn if_needs_parenthesis() {
    let (_, message) = parse_err("if true print 1;");
    assert_eq!(message, "Expect '(' after 'if'.");
}

#[test]
fn parse_error_carries_the_line() {
    let (line, message) = parse_err("print 1;\nprint ;");
    assert_eq!(message, "Expect expression.");
    assert_eq!(line, 2);
}

#[test]
fn nested_blocks_restore_in_order() {
    assert_eq!(
        run_ok("var x = 1; { var x = 2; { var x = 3; print x; } print x; } print x;"),
        vec!["3".to_string(), "2".to_string(), "1".to_string()]
    );
}

#[test]
fn block_scope_is_discarded_after_failure_inside() {
    let tokens = scan("var x = 1; { var x = 2; q; } print x;");
    let mut parser = AstFactory::new(tokens);
    let statements = parser.parse_statements().expect("parse");
    let mut interpreter = Interpreter::new();
    assert!(interpreter.interpret(&statements).is_err());
}

#[test]
fn strings_may_span_lines() {
    assert_eq!(run_ok("print \"a\nb\";"), vec!["a\nb".to_string()]);
}

#[test]
fn var_needs_separator_after_name() {
    let (_, message) = parse_err("var x 5;");
    assert_eq!(message, "Expect '=' or ';' after variable declaration.");
}

#[test]
fn if_condition_needs_closing_parenthesis() {
    let (_, message) = parse_err("if (true print 1;");
    assert_eq!(message, "Expect ')' after if condition.");
}
