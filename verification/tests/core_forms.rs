use core_lang::CoreAST;
use core_lang::CoreError;
use core_lang::eval;
use core_lang::evaluator::EvalError;
use core_lang::token::Literal;
use core_lang::token::Token;

#[test]
fn core_eval_keeps_token_shape() {
    let forms: Vec<CoreAST> = eval("(define main 1)").unwrap();
    assert_eq!(forms.len(), 1);
    assert_eq!(forms[0].function, Token::Keyword(Literal::Define));
    assert_eq!(forms[0].name, Token::Word(String::from("main")));
    assert_eq!(forms[0].value, Token::Number(1));
}

#[test]
fn core_eval_keeps_order() {
    let forms: Vec<CoreAST> = eval("(define a 1)(define b 2)").unwrap();
    assert_eq!(forms.len(), 2);
    assert_eq!(forms[0].name, Token::Word(String::from("a")));
    assert_eq!(forms[1].name, Token::Word(String::from("b")));
}

#[test]
fn core_eval_rejects_other_forms() {
    assert_eq!(
        eval("(car x)").unwrap_err(),
        CoreError::Eval(EvalError::UnsupportedForm)
    );
    assert_eq!(
        eval("()").unwrap_err(),
        CoreError::Eval(EvalError::MissingFunction)
    );
    assert_eq!(
        eval("7").unwrap_err(),
        CoreError::Eval(EvalError::TopLevelNotForm)
    );
    assert_eq!(
        eval("(define x)").unwrap_err(),
        CoreError::Eval(EvalError::MissingValue)
    );
    assert!(matches!(eval("(oops"), Err(CoreError::Syntax(_))));
}

#[test]
fn keyword_table_lookup() {
    assert_eq!(Literal::from_text("define"), Some(Literal::Define));
    assert_eq!(Literal::from_text("define-syntax"), Some(Literal::DefineSyntax));
    assert_eq!(Literal::from_text("call/cc"), Some(Literal::CallCc));
    assert_eq!(Literal::from_text("defined"), None);
    assert_eq!(Literal::from_text(""), None);
}

#[test]
fn keyword_spellings() {
    assert_eq!(Literal::Cons.spelling(), "cons");
    assert_eq!(Literal::Define.spelling(), "define");
    assert_eq!(Literal::DefineSyntax.spelling(), "define-syntax");
    assert_eq!(Literal::CallCc.spelling(), "call/cc");
}

#[test]
fn keyword_spelling_round_trip() {
    let keywords = vec![
        Literal::Cons,
        Literal::Car,
        Literal::Cdr,
        Literal::If,
        Literal::Lambda,
        Literal::Begin,
        Literal::Define,
        Literal::DefineSyntax,
        Literal::CallCc,
    ];
    for k in keywords {
        assert_eq!(Literal::from_text(k.spelling().as_str()), Some(k));
    }
}
