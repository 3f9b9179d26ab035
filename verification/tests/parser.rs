use core_lang::parser::SyntaxError;
use core_lang::parser::parse;
use core_lang::parser::strip_quotes;
use core_lang::token::Literal;
use core_lang::token::Token;

#[test]
fn parse_example() {
    // This syntax allows empty parentheses
    let token: Vec<Token> = parse("( )").unwrap();
    assert_eq!(token, vec![Token::Parenthesized(vec![])]);

    // This syntax allows empty parentheses without any spaces
    let token: Vec<Token> = parse("()").unwrap();
    assert_eq!(token, vec![Token::Parenthesized(vec![])]);

    // It can load Define syntax
    let token: Vec<Token> = parse("( define main 1 )").unwrap();
    assert_eq!(
        token,
        vec![Token::Parenthesized(vec![
            Token::Keyword(Literal::Define),
            Token::Word(String::from("main")),
            Token::Number(1)
        ])]
    );

    // It can load Define syntax
    let token: Vec<Token> = parse("(define main 1)").unwrap();
    assert_eq!(
        token,
        vec![Token::Parenthesized(vec![
            Token::Keyword(Literal::Define),
            Token::Word(String::from("main")),
            Token::Number(1)
        ])]
    );
}

#[test]
fn parse_multiline() {
    let token: Vec<Token> = parse("( ) ( )").unwrap();
    assert_eq!(
        token,
        vec![Token::Parenthesized(vec![]), Token::Parenthesized(vec![])]
    );

    let token: Vec<Token> = parse("( )\n( )").unwrap();
    assert_eq!(
        token,
        vec![Token::Parenthesized(vec![]), Token::Parenthesized(vec![])]
    );

    let token: Vec<Token> = parse("() ()").unwrap();
    assert_eq!(
        token,
        vec![Token::Parenthesized(vec![]), Token::Parenthesized(vec![])]
    );

    let token: Vec<Token> = parse("()\n()").unwrap();
    assert_eq!(
        token,
        vec![Token::Parenthesized(vec![]), Token::Parenthesized(vec![])]
    );

    let token: Vec<Token> = parse("( define main 1 ) ( define main 1 )").unwrap();
    assert_eq!(
        token,
        vec![
            Token::Parenthesized(vec![
                Token::Keyword(Literal::Define),
                Token::Word(String::from("main")),
                Token::Number(1)
            ]),
            Token::Parenthesized(vec![
                Token::Keyword(Literal::Define),
                Token::Word(String::from("main")),
                Token::Number(1)
            ])
        ]
    );

    let token: Vec<Token> = parse("( define main 1 )\n( define main 1 )").unwrap();
    assert_eq!(
        token,
        vec![
            Token::Parenthesized(vec![
                Token::Keyword(Literal::Define),
                Token::Word(String::from("main")),
                Token::Number(1)
            ]),
            Token::Parenthesized(vec![
                Token::Keyword(Literal::Define),
                Token::Word(String::from("main")),
                Token::Number(1)
            ])
        ]
    );

    let token: Vec<Token> = parse("(define main 1) (define main 1)").unwrap();
    assert_eq!(
        token,
        vec![
            Token::Parenthesized(vec![
                Token::Keyword(Literal::Define),
                Token::Word(String::from("main")),
                Token::Number(1)
            ]),
            Token::Parenthesized(vec![
                Token::Keyword(Literal::Define),
                Token::Word(String::from("main")),
                Token::Number(1)
            ])
        ]
    );

    let token: Vec<Token> = parse("(define main 1)\n(define main 1)").unwrap();
    assert_eq!(
        token,
        vec![
            Token::Parenthesized(vec![
                Token::Keyword(Literal::Define),
                Token::Word(String::from("main")),
                Token::Number(1)
            ]),
            Token::Parenthesized(vec![
                Token::Keyword(Literal::Define),
                Token::Word(String::from("main")),
                Token::Number(1)
            ])
        ]
    );
}

#[test]
fn parse_multiple_sexpr() {
    let token: Vec<Token> = parse("(define main 1)(define main 1)").unwrap();
    assert_eq!(
        token,
        vec![
            Token::Parenthesized(vec![
                Token::Keyword(Literal::Define),
                Token::Word(String::from("main")),
                Token::Number(1)
            ]),
            Token::Parenthesized(vec![
                Token::Keyword(Literal::Define),
                Token::Word(String::from("main")),
                Token::Number(1)
            ])
        ]
    );
}

#[test]
fn parse_brackets_and_nesting() {
    let token: Vec<Token> = parse("[1 2]").unwrap();
    assert_eq!(
        token,
        vec![Token::Bracketed(vec![Token::Number(1), Token::Number(2)])]
    );

    let token: Vec<Token> = parse("(a [b (c)])").unwrap();
    assert_eq!(
        token,
        vec![Token::Parenthesized(vec![
            Token::Word(String::from("a")),
            Token::Bracketed(vec![
                Token::Word(String::from("b")),
                Token::Parenthesized(vec![Token::Word(String::from("c"))])
            ])
        ])]
    );
}

#[test]
fn parse_strings() {
    let token: Vec<Token> = parse("\"hello world\"").unwrap();
    assert_eq!(token, vec![Token::Text(String::from("hello world"))]);

    let token: Vec<Token> = parse("(define msg \"hi\")").unwrap();
    assert_eq!(
        token,
        vec![Token::Parenthesized(vec![
            Token::Keyword(Literal::Define),
            Token::Word(String::from("msg")),
            Token::Text(String::from("hi"))
        ])]
    );
}

#[test]
fn parse_all_keywords() {
    let token: Vec<Token> =
        parse("cons car cdr if lambda begin define define-syntax call/cc").unwrap();
    assert_eq!(
        token,
        vec![
            Token::Keyword(Literal::Cons),
            Token::Keyword(Literal::Car),
            Token::Keyword(Literal::Cdr),
            Token::Keyword(Literal::If),
            Token::Keyword(Literal::Lambda),
            Token::Keyword(Literal::Begin),
            Token::Keyword(Literal::Define),
            Token::Keyword(Literal::DefineSyntax),
            Token::Keyword(Literal::CallCc),
        ]
    );
}

#[test]
fn parse_numbers() {
    let token: Vec<Token> = parse("0 42 18446744073709551615").unwrap();
    assert_eq!(
        token,
        vec![
            Token::Number(0),
            Token::Number(42),
            Token::Number(18446744073709551615)
        ]
    );

    // One past the unsigned 64-bit maximum must be rejected.
    let err = parse("18446744073709551616").unwrap_err();
    assert_eq!(err, SyntaxError::NumberOverflow);
}

#[test]
fn parse_unbalanced() {
    assert_eq!(parse("(").unwrap_err(), SyntaxError::UnbalancedDelimiter);
    assert_eq!(parse(")").unwrap_err(), SyntaxError::UnbalancedDelimiter);
    assert_eq!(parse("(]").unwrap_err(), SyntaxError::UnbalancedDelimiter);
    assert_eq!(parse("[)").unwrap_err(), SyntaxError::UnbalancedDelimiter);
    assert_eq!(
        parse("(define main 1").unwrap_err(),
        SyntaxError::UnbalancedDelimiter
    );
}

#[test]
fn parse_unterminated_string() {
    assert_eq!(parse("\"abc").unwrap_err(), SyntaxError::UnterminatedText);
}

#[test]
fn strip_quotes_examples() {
    assert_eq!(strip_quotes("\"abc\""), "abc");
    assert_eq!(strip_quotes("abc"), "abc");
    assert_eq!(strip_quotes("\"abc"), "\"abc");
    assert_eq!(strip_quotes("\"\""), "");
    assert_eq!(strip_quotes("\""), "\"");
}
