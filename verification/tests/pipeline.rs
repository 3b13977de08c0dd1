use jinjer::generator::{compile, generate, CompileError};
use jinjer::parser::{parse_expr, BiOper, Error, Expr};
use jinjer::tokenizer::{TokenKind, Tokenizer};
use jinjer::VM;

fn compile_str(source: &str) -> Result<VM, CompileError> {
    compile(source.chars().collect())
}

fn run_to_single_int(source: &str) -> i32 {
    let vm = compile_str(source).unwrap();
    let result = vm.run().unwrap();
    assert_eq!(result.len(), 1, "exactly one value must be left on the stack");
    result[0].as_int().unwrap()
}

#[test]
fn additive_chain_evaluates_left_associatively() {
    assert_eq!(run_to_single_int("1 + 2 + 4"), 7);
    assert_eq!(run_to_single_int("10 - 3 - 2"), 5);
    assert_eq!(run_to_single_int("1 - 2 + 3"), 2);
    assert_eq!(run_to_single_int("42"), 42);
}

#[test]
fn let_binding_evaluates_and_releases_its_slot() {
    let mut vm = compile_str("let x = 2 in 1 + x + 4").unwrap();
    assert_eq!(vm.variables.len(), 0);
    while vm.lp < vm.instructions.len() {
        vm.step().unwrap();
    }
    assert_eq!(vm.stack.len(), 1);
    assert_eq!(vm.stack[0].as_int(), Some(7));
    assert_eq!(vm.variables.len(), 0, "the binding must not outlive the body");
}

#[test]
fn inner_binding_shadows_outer() {
    assert_eq!(run_to_single_int("let x = 1 in let x = 2 in x"), 2);
}

#[test]
fn shadowed_outer_binding_is_restored_after_inner_scope() {
    assert_eq!(run_to_single_int("let x = 1 in (let x = 2 in x) + x"), 3);
}

#[test]
fn parentheses_group_subexpressions() {
    assert_eq!(run_to_single_int("(1 + 2) + (3 + 4)"), 10);
}

#[test]
fn nested_lets_resolve_by_depth() {
    assert_eq!(run_to_single_int("let a = 1 in let b = 2 in a + b"), 3);
}

#[test]
fn unresolved_variable_is_a_compile_error() {
    match compile_str("y + 1") {
        Err(CompileError::UnresolvedVariable { name }) => assert_eq!(name, "y"),
        other => panic!("expected an unresolved-variable error, got {:?}", other),
    }
}

#[test]
fn missing_closing_parenthesis_is_reported() {
    match compile_str("(1 + 2") {
        Err(CompileError::UnexpectedToken { expected, actual }) => {
            assert_eq!(expected, "a closing parenthesis");
            assert_eq!(actual.kind, TokenKind::Eof);
        },
        other => panic!("expected a syntax error, got {:?}", other),
    }
}

#[test]
fn let_requires_a_name() {
    match compile_str("let 5 = 1 in 2") {
        Err(CompileError::UnexpectedToken { expected, actual }) => {
            assert_eq!(expected, "a name to bind");
            assert_eq!(actual.kind, TokenKind::Int(5));
        },
        other => panic!("expected a syntax error, got {:?}", other),
    }
}

#[test]
fn let_requires_equals_and_in() {
    match compile_str("let x 1 in 2") {
        Err(CompileError::UnexpectedToken { expected, .. }) => {
            assert_eq!(expected, "an equals sign");
        },
        other => panic!("expected a syntax error, got {:?}", other),
    }
    match compile_str("let x = 1 2") {
        Err(CompileError::UnexpectedToken { expected, actual }) => {
            assert_eq!(expected, "the keyword in");
            assert_eq!(actual.kind, TokenKind::Int(2));
        },
        other => panic!("expected a syntax error, got {:?}", other),
    }
}

#[test]
fn a_string_literal_is_not_an_expression() {
    match compile_str("\"Hello wordl!\"") {
        Err(CompileError::UnexpectedToken { expected, actual }) => {
            assert_eq!(expected, "an expression");
            assert_eq!(actual.kind, TokenKind::Str("Hello wordl!".to_string()));
        },
        other => panic!("expected a syntax error, got {:?}", other),
    }
}

#[test]
fn comments_are_skipped_by_the_whole_pipeline() {
    assert_eq!(run_to_single_int("let x = 1 // bound to one\nin x + 2"), 3);
}

#[test]
fn parse_expr_builds_a_left_associative_tree() {
    let mut tokenizer = Tokenizer::from_source("1 + 2 - 3".chars().collect());
    let expr = parse_expr(&mut tokenizer).unwrap();
    match expr {
        Expr::BiOper(BiOper::Sub, outer) => {
            match outer.0 {
                Expr::BiOper(BiOper::Add, inner) => {
                    assert!(matches!(inner.0, Expr::IntLiteral(1)));
                    assert!(matches!(inner.1, Expr::IntLiteral(2)));
                },
                other => panic!("expected the addition on the left, got {:?}", other),
            }
            assert!(matches!(outer.1, Expr::IntLiteral(3)));
        },
        other => panic!("expected a subtraction at the root, got {:?}", other),
    }
}

#[test]
fn parse_error_carries_the_actual_token() {
    let mut tokenizer = Tokenizer::from_source("+".chars().collect());
    match parse_expr(&mut tokenizer) {
        Err(Error::UnexpectedToken { expected, actual }) => {
            assert_eq!(expected, "an expression");
            assert_eq!(actual.kind, TokenKind::Plus);
        },
        other => panic!("expected a syntax error, got {:?}", other),
    }
}

#[test]
fn generated_division_by_zero_halts_at_runtime() {
    let expr = Expr::BiOper(
        BiOper::Div,
        Box::new((Expr::IntLiteral(1), Expr::IntLiteral(0))),
    );
    let mut vm = VM::default();
    generate(&mut vm, &expr).unwrap();
    assert_eq!(vm.run().unwrap_err(), "division by zero".to_string());
}

#[test]
fn generated_multiplication_reaches_the_machine() {
    let expr = Expr::BiOper(
        BiOper::Mul,
        Box::new((Expr::IntLiteral(6), Expr::IntLiteral(7))),
    );
    let mut vm = VM::default();
    generate(&mut vm, &expr).unwrap();
    let result = vm.run().unwrap();
    assert_eq!(result[0].as_int(), Some(42));
}

#[test]
fn wrapping_addition_of_large_literals() {
    assert_eq!(run_to_single_int("2147483647 + 1"), i32::MIN);
}

#[test]
fn operator_classification_by_token_kind() {
    assert_eq!(BiOper::from_token_kind(&TokenKind::Plus), Some(BiOper::Add));
    assert_eq!(BiOper::from_token_kind(&TokenKind::Percent), Some(BiOper::Mod));
    assert_eq!(BiOper::from_token_kind(&TokenKind::Bang), None);
    assert_eq!(BiOper::add_sub(&TokenKind::Minus), Some(BiOper::Sub));
    assert_eq!(BiOper::add_sub(&TokenKind::Star), None);
    assert_eq!(BiOper::mul_div_mod(&TokenKind::Star), Some(BiOper::Mul));
    assert_eq!(BiOper::mul_div_mod(&TokenKind::Slash), Some(BiOper::Div));
    assert_eq!(BiOper::mul_div_mod(&TokenKind::Plus), None);
}

#[test]
fn parsing_stops_at_the_first_token_outside_the_grammar() {
    // the parser folds additive operators only; what follows is left for the
    // caller, exactly as a lone expression would be
    let mut tokenizer = Tokenizer::from_source("1 2".chars().collect());
    let expr = parse_expr(&mut tokenizer).unwrap();
    assert!(matches!(expr, Expr::IntLiteral(1)));
    assert_eq!(tokenizer.pop().kind, TokenKind::Int(2));
}
