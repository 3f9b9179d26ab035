use core_lang::ast::Constant;
use core_lang::ast::StructureError;
use core_lang::ast::Value;

#[test]
fn car_returns_first_element() {
    let v = Value::Application(vec![Value::Number(1), Value::Number(2)]);
    assert_eq!(v.car().unwrap(), Value::Number(1));

    let v = Value::LiteralList(vec![Value::Symbol(String::from("a"))]);
    assert_eq!(v.car().unwrap(), Value::Symbol(String::from("a")));
}

#[test]
fn cdr_returns_rest_in_order() {
    let v = Value::Application(vec![
        Value::Number(1),
        Value::Number(2),
        Value::Number(3),
    ]);
    assert_eq!(v.cdr().unwrap(), vec![Value::Number(2), Value::Number(3)]);

    let v = Value::LiteralList(vec![Value::Number(9)]);
    assert_eq!(v.cdr().unwrap(), vec![]);
}

#[test]
fn car_cdr_fail_on_empty_sequences() {
    let v = Value::Application(vec![]);
    assert_eq!(v.car().unwrap_err(), StructureError::EmptySequence);
    assert_eq!(v.cdr().unwrap_err(), StructureError::EmptySequence);

    let v = Value::LiteralList(vec![]);
    assert_eq!(v.car().unwrap_err(), StructureError::EmptySequence);
    assert_eq!(v.cdr().unwrap_err(), StructureError::EmptySequence);
}

#[test]
fn car_cdr_fail_on_atoms() {
    let number = Value::Number(7);
    assert_eq!(number.car().unwrap_err(), StructureError::NotASequence);
    assert_eq!(number.cdr().unwrap_err(), StructureError::NotASequence);

    let text = Value::Text(String::from("x"));
    assert_eq!(text.car().unwrap_err(), StructureError::NotASequence);
    assert_eq!(text.cdr().unwrap_err(), StructureError::NotASequence);
}

#[test]
fn is_atom_classification() {
    assert!(Value::Number(1).is_atom());
    assert!(Value::Text(String::from("s")).is_atom());
    assert!(Value::Bool(core_lang::ast::Boolean::True).is_atom());
    assert!(Value::Reserved(core_lang::ast::BuiltinWord::Main).is_atom());
    assert!(!Value::Application(vec![]).is_atom());
    assert!(!Value::LiteralList(vec![]).is_atom());
    assert!(!Value::Symbol(String::from("w")).is_atom());
}

#[test]
fn constant_getters() {
    let c = Constant {
        name: Value::Symbol(String::from("k")),
        value: Value::Number(3),
    };
    assert_eq!(c.name(), Value::Symbol(String::from("k")));
    assert_eq!(c.value(), Value::Number(3));
}
