use core_lang::CoreError;
use core_lang::ast::AST;
use core_lang::ast::Boolean;
use core_lang::ast::BuiltinWord;
use core_lang::ast::Constant;
use core_lang::ast::Value;
use core_lang::evaluator::EvalError;
use core_lang::evaluator::eval;

#[test]
fn eval_define_main() {
    let ast: AST = eval("(define main 1)").unwrap();
    assert_eq!(ast.0.len(), 1);
    assert_eq!(ast.0[0].name(), Value::Reserved(BuiltinWord::Main));
    assert_eq!(ast.0[0].value(), Value::Number(1));
}

#[test]
fn eval_boolean_names() {
    let ast: AST = eval("(define enabled t)").unwrap();
    assert_eq!(ast.0[0].name(), Value::Symbol(String::from("enabled")));
    assert_eq!(ast.0[0].value(), Value::Bool(Boolean::True));

    let ast: AST = eval("(define enabled nil)").unwrap();
    assert_eq!(ast.0[0].value(), Value::Bool(Boolean::False));
}

#[test]
fn eval_well_known_names() {
    let ast: AST = eval("(define cli 1)(define t 2)(define nil 3)").unwrap();
    assert_eq!(ast.0[0].name(), Value::Reserved(BuiltinWord::Cli));
    assert_eq!(ast.0[1].name(), Value::Bool(Boolean::True));
    assert_eq!(ast.0[2].name(), Value::Bool(Boolean::False));
}

#[test]
fn eval_preserves_source_order() {
    let ast: AST = eval("(define a 1)(define b 2)(define a 3)").unwrap();
    assert_eq!(ast.0.len(), 3);
    assert_eq!(ast.0[0].name(), Value::Symbol(String::from("a")));
    assert_eq!(ast.0[0].value(), Value::Number(1));
    assert_eq!(ast.0[1].name(), Value::Symbol(String::from("b")));
    assert_eq!(ast.0[1].value(), Value::Number(2));
    assert_eq!(ast.0[2].name(), Value::Symbol(String::from("a")));
    assert_eq!(ast.0[2].value(), Value::Number(3));
}

#[test]
fn eval_concatenated_defines_count() {
    // Ten concatenated define forms with no separating whitespace.
    let mut src = String::new();
    for _ in 0..10 {
        src.push_str("(define x 7)");
    }
    let ast: AST = eval(&src).unwrap();
    assert_eq!(ast.0.len(), 10);
    for c in &ast.0 {
        assert_eq!(c.name(), Value::Symbol(String::from("x")));
        assert_eq!(c.value(), Value::Number(7));
    }
}

#[test]
fn eval_text_and_list_values() {
    let ast: AST = eval("(define msg \"hi\")").unwrap();
    assert_eq!(ast.0[0].value(), Value::Text(String::from("hi")));

    let ast: AST = eval("(define xs [1 \"a\" t])").unwrap();
    assert_eq!(
        ast.0[0].value(),
        Value::LiteralList(vec![
            Value::Number(1),
            Value::Text(String::from("a")),
            Value::Bool(Boolean::True)
        ])
    );
}

#[test]
fn eval_keyword_value() {
    let ast: AST = eval("(define op car)").unwrap();
    assert_eq!(ast.0[0].value(), Value::Reserved(BuiltinWord::Car));
}

#[test]
fn eval_nested_define_value() {
    let ast: AST = eval("(define outer (define inner 4))").unwrap();
    assert_eq!(
        ast.0[0].value(),
        Value::Binding(Box::new(Constant {
            name: Value::Symbol(String::from("inner")),
            value: Value::Number(4),
        }))
    );
}

#[test]
fn eval_lambda_value() {
    let ast: AST = eval("(define f (lambda [] (run 1)))").unwrap();
    assert_eq!(
        ast.0[0].value(),
        Value::Closure(
            vec![Value::LiteralList(vec![])],
            vec![Value::Application(vec![
                Value::Symbol(String::from("run")),
                Value::Number(1)
            ])]
        )
    );
}

#[test]
fn eval_application_value() {
    let ast: AST = eval("(define v (add 1 2))").unwrap();
    assert_eq!(
        ast.0[0].value(),
        Value::Application(vec![
            Value::Symbol(String::from("add")),
            Value::Number(1),
            Value::Number(2)
        ])
    );
}

#[test]
fn eval_define_arity_errors() {
    assert_eq!(
        eval("(define x 1 2)").unwrap_err(),
        CoreError::Eval(EvalError::TrailingElements)
    );
    assert_eq!(
        eval("(define x 1 2 3)").unwrap_err(),
        CoreError::Eval(EvalError::TrailingElements)
    );
    assert_eq!(
        eval("(define)").unwrap_err(),
        CoreError::Eval(EvalError::MissingName)
    );
    assert_eq!(
        eval("(define x)").unwrap_err(),
        CoreError::Eval(EvalError::MissingValue)
    );
}

#[test]
fn eval_invalid_name() {
    assert_eq!(
        eval("(define 5 1)").unwrap_err(),
        CoreError::Eval(EvalError::InvalidName)
    );
    assert_eq!(
        eval("(define \"x\" 1)").unwrap_err(),
        CoreError::Eval(EvalError::InvalidName)
    );
}

#[test]
fn eval_unsupported_forms() {
    assert_eq!(
        eval("(car x)").unwrap_err(),
        CoreError::Eval(EvalError::UnsupportedForm)
    );
    assert_eq!(
        eval("(define v (if t 1))").unwrap_err(),
        CoreError::Eval(EvalError::UnsupportedForm)
    );
    assert_eq!(
        eval("(define v (5 1))").unwrap_err(),
        CoreError::Eval(EvalError::UnsupportedForm)
    );
    assert_eq!(
        eval("()").unwrap_err(),
        CoreError::Eval(EvalError::MissingFunction)
    );
}

#[test]
fn eval_top_level_not_form() {
    assert_eq!(
        eval("[1 2]").unwrap_err(),
        CoreError::Eval(EvalError::TopLevelNotForm)
    );
    assert_eq!(
        eval("42").unwrap_err(),
        CoreError::Eval(EvalError::TopLevelNotForm)
    );
}

#[test]
fn eval_lambda_arity_errors() {
    assert_eq!(
        eval("(define f (lambda))").unwrap_err(),
        CoreError::Eval(EvalError::MissingParameters)
    );
    assert_eq!(
        eval("(define f (lambda x))").unwrap_err(),
        CoreError::Eval(EvalError::MissingBody)
    );
    assert_eq!(
        eval("(define f (lambda x y z))").unwrap_err(),
        CoreError::Eval(EvalError::TrailingElements)
    );
}

#[test]
fn eval_reports_syntax_errors() {
    assert!(matches!(
        eval("(define main 1"),
        Err(CoreError::Syntax(_))
    ));
}
