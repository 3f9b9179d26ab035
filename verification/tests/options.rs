use core_lang::ast::AST;
use core_lang::ast::Boolean;
use core_lang::ast::BuiltinWord;
use core_lang::ast::Constant;
use core_lang::ast::StructureError;
use core_lang::ast::Value;
use core_lang::cli::CLIOption;
use core_lang::cli::judge_cli_option;
use core_lang::cli::read_boolean;
use core_lang::evaluator::eval;

fn cli_constant(value: Value) -> Constant {
    Constant {
        name: Value::Reserved(BuiltinWord::Cli),
        value,
    }
}

fn option_form(name: &str, b: Boolean) -> Value {
    Value::Application(vec![
        Value::Symbol(String::from(name)),
        Value::Bool(b),
    ])
}

#[test]
fn options_default_to_false() {
    assert_eq!(
        CLIOption::default(),
        CLIOption {
            enable: false,
            use_clap: false
        }
    );
    let opts = judge_cli_option(&vec![]).unwrap();
    assert_eq!(opts, CLIOption::default());
}

#[test]
fn list_shape_sets_enable() {
    // An AST containing a cli constant in list-of-applications shape.
    let constants = vec![cli_constant(Value::LiteralList(vec![option_form(
        "enable",
        Boolean::True,
    )]))];
    let opts = judge_cli_option(&constants).unwrap();
    assert_eq!(opts.enable, true);
    assert_eq!(opts.use_clap, false);
}

#[test]
fn closure_shape_sets_options() {
    // An AST containing a cli constant as a single-element application
    // wrapping a closure whose body is the option-setting forms.
    let closure = Value::Closure(
        vec![Value::LiteralList(vec![])],
        vec![
            option_form("enable", Boolean::True),
            option_form("use-clap", Boolean::True),
        ],
    );
    let constants = vec![cli_constant(Value::Application(vec![closure]))];
    let opts = judge_cli_option(&constants).unwrap();
    assert_eq!(opts.enable, true);
    assert_eq!(opts.use_clap, true);
}

#[test]
fn last_write_wins_across_constants() {
    let src = "(define cli [(enable t)])(define cli [(enable nil)])";
    let ast: AST = eval(src).unwrap();
    let opts = judge_cli_option(&ast.0).unwrap();
    assert_eq!(opts.enable, false);
    assert_eq!(opts.use_clap, false);
}

#[test]
fn last_write_wins_within_one_constant() {
    let constants = vec![cli_constant(Value::LiteralList(vec![
        option_form("enable", Boolean::True),
        option_form("enable", Boolean::False),
    ]))];
    let opts = judge_cli_option(&constants).unwrap();
    assert_eq!(opts.enable, false);
}

#[test]
fn options_from_source_via_brackets() {
    let ast: AST = eval("(define cli [(enable t) (use-clap t)])").unwrap();
    let opts = judge_cli_option(&ast.0).unwrap();
    assert_eq!(opts.enable, true);
    assert_eq!(opts.use_clap, true);
}

#[test]
fn unrecognized_options_are_ignored() {
    let constants = vec![cli_constant(Value::LiteralList(vec![
        option_form("colour", Boolean::True),
        option_form("enable", Boolean::True),
    ]))];
    let opts = judge_cli_option(&constants).unwrap();
    assert_eq!(opts.enable, true);
    assert_eq!(opts.use_clap, false);
}

#[test]
fn non_cli_constants_are_skipped() {
    let constants = vec![Constant {
        name: Value::Symbol(String::from("other")),
        value: Value::Number(1),
    }];
    let opts = judge_cli_option(&constants).unwrap();
    assert_eq!(opts, CLIOption::default());
}

#[test]
fn malformed_cli_value_fails() {
    let constants = vec![cli_constant(Value::Number(1))];
    assert_eq!(
        judge_cli_option(&constants).unwrap_err(),
        StructureError::MalformedOptions
    );

    // An application that does not wrap a single closure.
    let constants = vec![cli_constant(Value::Application(vec![Value::Number(1)]))];
    assert_eq!(
        judge_cli_option(&constants).unwrap_err(),
        StructureError::MalformedOptions
    );

    let constants = vec![cli_constant(Value::Application(vec![]))];
    assert_eq!(
        judge_cli_option(&constants).unwrap_err(),
        StructureError::MalformedOptions
    );
}

#[test]
fn option_form_head_must_be_symbol() {
    let bad = Value::Application(vec![Value::Number(1), Value::Bool(Boolean::True)]);
    let constants = vec![cli_constant(Value::LiteralList(vec![bad]))];
    assert_eq!(
        judge_cli_option(&constants).unwrap_err(),
        StructureError::OptionNameNotSymbol
    );

    // A form that is itself an atom cannot even be destructured.
    let constants = vec![cli_constant(Value::LiteralList(vec![Value::Number(1)]))];
    assert_eq!(
        judge_cli_option(&constants).unwrap_err(),
        StructureError::NotASequence
    );

    let constants = vec![cli_constant(Value::LiteralList(vec![Value::Application(
        vec![],
    )]))];
    assert_eq!(
        judge_cli_option(&constants).unwrap_err(),
        StructureError::EmptySequence
    );
}

#[test]
fn option_form_arity_is_checked() {
    let bad = Value::Application(vec![
        Value::Symbol(String::from("enable")),
        Value::Bool(Boolean::True),
        Value::Bool(Boolean::False),
    ]);
    let constants = vec![cli_constant(Value::LiteralList(vec![bad]))];
    assert_eq!(
        judge_cli_option(&constants).unwrap_err(),
        StructureError::OptionArity
    );

    let bad = Value::Application(vec![Value::Symbol(String::from("enable"))]);
    let constants = vec![cli_constant(Value::LiteralList(vec![bad]))];
    assert_eq!(
        judge_cli_option(&constants).unwrap_err(),
        StructureError::OptionArity
    );
}

#[test]
fn option_value_must_be_boolean() {
    let bad = Value::Application(vec![
        Value::Symbol(String::from("enable")),
        Value::Number(1),
    ]);
    let constants = vec![cli_constant(Value::LiteralList(vec![bad]))];
    assert_eq!(
        judge_cli_option(&constants).unwrap_err(),
        StructureError::OptionNotBoolean
    );
}

#[test]
fn read_boolean_values() {
    assert_eq!(read_boolean(&Value::Bool(Boolean::True)).unwrap(), true);
    assert_eq!(read_boolean(&Value::Bool(Boolean::False)).unwrap(), false);
    assert_eq!(
        read_boolean(&Value::Number(1)).unwrap_err(),
        StructureError::OptionNotBoolean
    );
}
