use tinylox::ast::Litteral;
use tinylox::environment::{Environment, Variables};
use tinylox::interpreter::Interpreter;
use tinylox::parser::AstFactory;
use tinylox::position::Position;
use tinylox::scanner::{scan, Token, TokenType};
use tinylox::value::Num;
use tinylox::ast::Node;
use tinylox::interpreter::RuntimeError;

fn kinds(tokens: &[Token]) -> Vec<String> {
    tokens.iter().map(|t| format!("{:?}", t.token_type)).collect()
}

#[test]
fn scanner_classifies_operators() {
    let tokens = scan("1 + 2 * (3)");
    let ks = kinds(&tokens);
    assert_eq!(ks.len(), 7);
    assert!(ks[1].starts_with("Plus"));
    assert!(ks[3].starts_with("Star"));
    assert!(ks[4].starts_with("LeftParen"));
    assert!(ks[6].starts_with("RightParen"));
}

#[test]
fn scanner_prefers_two_character_operators() {
    let tokens = scan("== != <= >= = ! < >");
    let ks = kinds(&tokens);
    assert_eq!(
        ks,
        vec![
            "EqualEqual", "BangEqual", "LessEqual", "GreaterEqual", "Equal", "Bang", "Less",
            "Greater"
        ]
    );
}

#[test]
fn unterminated_string_is_one_invalid_token() {
    let tokens = scan("\"abc");
    assert_eq!(tokens.len(), 1);
    assert!(!tokens[0].is_valid());
    match &tokens[0].token_type {
        TokenType::Invalid(message) => assert_eq!(message, "Unterminated string."),
        other => panic!("expected an invalid token, got {:?}", other),
    }
}

#[test]
fn unexpected_character_is_invalid_token() {
    let tokens = scan("@");
    assert_eq!(tokens.len(), 1);
    match &tokens[0].token_type {
        TokenType::Invalid(message) => assert_eq!(message, "Unexpected character: @"),
        other => panic!("expected an invalid token, got {:?}", other),
    }
}

#[test]
fn scanning_continues_after_an_invalid_token() {
    let tokens = scan("@ 1");
    assert_eq!(tokens.len(), 2);
    assert!(!tokens[0].is_valid());
    assert!(tokens[1].is_valid());
}

#[test]
fn number_literals_are_reduced_fractions() {
    let tokens = scan("12.25");
    assert_eq!(tokens.len(), 1);
    match tokens[0].token_type {
        TokenType::Number(Num::Rat { neg, num, den }) => {
            assert!(!neg);
            assert_eq!(num, 49);
            assert_eq!(den, 4);
        },
        ref other => panic!("expected a number token, got {:?}", other),
    }
    assert_eq!(tokens[0].raw, "12.25");
}

#[test]
fn a_second_dot_ends_the_number() {
    let tokens = scan("1.2.3");
    let ks = kinds(&tokens);
    assert!(ks[0].starts_with("Number"));
    assert_eq!(ks[1], "Dot");
    assert!(ks[2].starts_with("Number"));
}

#[test]
fn token_positions_track_lines_and_columns() {
    let tokens = scan("a\n  b");
    assert_eq!(tokens.len(), 2);
    assert_eq!(tokens[0].position.from, (1, 0));
    assert_eq!(tokens[1].position.line(), 2);
    assert_eq!(tokens[1].position.from.1, 3);
}

#[test]
fn keywords_are_classified() {
    let tokens = scan("if and or print var true false nil else while");
    let ks = kinds(&tokens);
    assert_eq!(
        ks,
        vec!["If", "And", "Or", "Print", "Var", "True", "False", "Nil", "Else", "While"]
    );
}

#[test]
fn position_range_spans_both_ends() {
    let a = Position::new(1, 2, 1, 5);
    let b = Position::new(2, 0, 2, 7);
    let r = Position::range(a, b);
    assert_eq!(r.from, (1, 2));
    assert_eq!(r.to, (2, 7));
    assert_eq!(r.line(), 2);
}

#[test]
fn node_position_looks_through_groups() {
    let tokens = scan("(42)");
    let mut parser = AstFactory::new(tokens);
    let node = parser.parse_or().expect("parse");
    let p = node.position();
    assert_eq!(p.line(), 1);
}

#[test]
fn rational_arithmetic_is_exact() {
    let one = Num::from_u64(1);
    let three = Num::from_u64(3);
    let third = one.div_num(three);
    assert_eq!(third, Num::Rat { neg: false, num: 1, den: 3 });
    let one_again = third.mul_num(three);
    assert_eq!(one_again, Num::Rat { neg: false, num: 1, den: 1 });
    let sum = third.add_num(third).add_num(third);
    assert!(sum.eq_num(one));
}

#[test]
fn powers_repeat_multiplication() {
    let two = Num::from_u64(2);
    let ten = Num::from_u64(10);
    assert_eq!(two.pow_num(ten), Num::Rat { neg: false, num: 1024, den: 1 });
    let minus_one = Num::from_u64(1).neg();
    assert_eq!(two.pow_num(minus_one), Num::Rat { neg: false, num: 1, den: 2 });
    assert_eq!(two.pow_num(Num::from_u64(0)), Num::Rat { neg: false, num: 1, den: 1 });
}

#[test]
fn fractional_exponents_are_nan() {
    let two = Num::from_u64(2);
    let half = Num::from_u64(1).div_num(Num::from_u64(2));
    assert_eq!(two.pow_num(half), Num::NaN);
}

#[test]
fn nan_propagates_through_arithmetic() {
    let nan = Num::NaN;
    let five = Num::from_u64(5);
    assert_eq!(nan.add_num(five), Num::NaN);
    assert_eq!(five.mul_num(nan), Num::NaN);
    assert!(!nan.eq_num(nan));
    assert!(!nan.lt_num(five));
    assert!(!five.lt_num(nan));
}

#[test]
fn signed_zero_equals_zero() {
    let zero = Num::from_u64(0);
    let neg_zero = zero.neg();
    assert!(zero.eq_num(neg_zero));
    assert!(!neg_zero.lt_num(zero));
}

#[test]
fn number_display_forms() {
    assert_eq!(Num::from_u64(7).display_string(), "7");
    assert_eq!(Num::from_u64(7).neg().display_string(), "-7");
    let half = Num::from_u64(1).div_num(Num::from_u64(2));
    assert_eq!(half.display_string(), "1/2");
    assert_eq!(Num::NaN.display_string(), "NaN");
    assert_eq!(Num::Inf { neg: true }.display_string(), "-inf");
    assert_eq!(Num::from_u64(7).debug_string(), "7.0");
}

#[test]
fn literal_display_forms() {
    assert_eq!(Litteral::Nil.display_string(), "nil");
    assert_eq!(Litteral::Boolean(true).display_string(), "true");
    assert_eq!(Litteral::String("ab".to_string()).display_string(), "ab");
    assert_eq!(Litteral::Number(Num::from_u64(3)).display_string(), "3");
}

#[test]
fn truthiness_rules() {
    assert!(Litteral::Number(Num::from_u64(0)).is_truthy());
    assert!(Litteral::String(String::new()).is_truthy());
    assert!(!Litteral::Nil.is_truthy());
    assert!(!Litteral::Boolean(false).is_truthy());
}

#[test]
fn variables_frame_define_get_assign() {
    let mut frame = Variables::new();
    assert!(!frame.contains_var(&"x".to_string()));
    frame.define("x".to_string(), Litteral::Number(Num::from_u64(1)));
    assert!(frame.contains_var(&"x".to_string()));
    assert!(frame.assign(&"x".to_string(), Litteral::Number(Num::from_u64(2))));
    match frame.get(&"x".to_string()) {
        Some(Litteral::Number(n)) => assert_eq!(n, Num::from_u64(2)),
        other => panic!("expected the assigned number, got {:?}", other),
    }
    assert!(!frame.assign(&"y".to_string(), Litteral::Nil));
    assert!(frame.get(&"y".to_string()).is_none());
}

#[test]
fn environment_chain_shadows_and_restores() {
    let mut env = Environment::new();
    env.define("x".to_string(), Litteral::Number(Num::from_u64(1)));
    env.enter_block();
    env.define("x".to_string(), Litteral::Number(Num::from_u64(2)));
    match env.get(&"x".to_string()) {
        Some(Litteral::Number(n)) => assert_eq!(n, Num::from_u64(2)),
        other => panic!("expected the inner binding, got {:?}", other),
    }
    env.exit_block();
    match env.get(&"x".to_string()) {
        Some(Litteral::Number(n)) => assert_eq!(n, Num::from_u64(1)),
        other => panic!("expected the outer binding, got {:?}", other),
    }
}

#[test]
fn environment_assign_never_defines() {
    let mut env = Environment::new();
    assert!(!env.assign(&"x".to_string(), Litteral::Nil));
    assert!(env.get(&"x".to_string()).is_none());
}

#[test]
fn literals_evaluate_to_themselves() {
    let pos = Position::new(1, 0, 1, 1);
    let node = Node::Litteral(Litteral::Number(Num::from_u64(5)), pos);
    let mut interpreter = Interpreter::new();
    match interpreter.evaluate_expr(&node) {
        Ok(Node::Litteral(Litteral::Number(n), _)) => assert_eq!(n, Num::from_u64(5)),
        other => panic!("expected the same literal back, got {:?}", other),
    }
}

#[test]
fn evaluate_expr_reduces_to_a_literal_node() {
    let tokens = scan("1 + 2 * 3");
    let mut parser = AstFactory::new(tokens);
    let node = parser.parse_or().expect("parse");
    let mut interpreter = Interpreter::new();
    match interpreter.evaluate_expr(&node) {
        Ok(Node::Litteral(Litteral::Number(n), _)) => assert_eq!(n, Num::from_u64(7)),
        other => panic!("expected a number literal, got {:?}", other),
    }
}

#[test]
fn runtime_error_messages() {
    assert_eq!(
        RuntimeError::UndefinedVariable("spam".to_string()).message(),
        "Undefined variable 'spam'."
    );
    assert_eq!(RuntimeError::OperandsMustBeNumbers.message(), "Operands must be numbers");
}

#[test]
fn huge_integer_literals_overflow_to_infinity() {
    let tokens = scan("999999999999999999999999999999999999999999999999");
    match tokens[0].token_type {
        TokenType::Number(n) => assert_eq!(n, Num::Inf { neg: false }),
        ref other => panic!("expected a number token, got {:?}", other),
    }
}

#[test]
fn parse_equality_builds_comparison_nodes() {
    let tokens = scan("1 < 2");
    let mut parser = AstFactory::new(tokens);
    let node = parser.parse_equality().expect("parse");
    match node {
        Node::Binary { .. } => {},
        other => panic!("expected a binary node, got {:?}", other),
    }
}

#[test]
fn parse_and_or_build_logic_nodes() {
    let tokens = scan("true and false");
    let mut parser = AstFactory::new(tokens);
    assert!(parser.parse_and().is_ok());
    let tokens2 = scan("true or false");
    let mut parser2 = AstFactory::new(tokens2);
    assert!(parser2.parse_or().is_ok());
}

#[test]
fn token_describe_lines() {
    let tokens = scan("12 \"ab\" +");
    assert_eq!(tokens[0].describe(), "NUMBER 12 12.0");
    assert_eq!(tokens[1].describe(), "STRING \"ab\" ab");
    assert_eq!(tokens[2].describe(), "PLUS + null");
    let bad = scan("@");
    assert_eq!(bad[0].describe(), "[line 1]: Error: Unexpected character: @");
}

#[test]
fn canonical_text_forms() {
    let tokens = scan("1 + 2 * 3");
    let mut parser = AstFactory::new(tokens);
    let node = parser.parse_or().expect("parse");
    assert_eq!(node.text(), "(+ 1.0 (* 2.0 3.0))");
    let tokens2 = scan("(a)");
    let mut parser2 = AstFactory::new(tokens2);
    let node2 = parser2.parse_or().expect("parse");
    assert_eq!(node2.text(), "(group _a)");
}

#[test]
fn canonical_statement_forms() {
    let tokens = scan("var x = 1; print x;");
    let mut parser = AstFactory::new(tokens);
    let statements = parser.parse_statements().expect("parse");
    assert_eq!(statements[0].text(), "decl: x = 1.0");
    assert_eq!(statements[1].text(), "print: _x");
}
