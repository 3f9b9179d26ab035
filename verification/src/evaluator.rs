//! The evaluator: walks the token tree of a source buffer and produces the
//! abstract syntax tree of its top-level constants.
//!
//! Every top-level token must be a parenthesized `define` form; its name is
//! resolved through the fixed well-known-name table and its value
//! recursively through value resolution. Any other function position is
//! reserved without semantics and fails loudly.

use vstd::prelude::*;

use crate::CoreError;
use crate::ast::AST;
use crate::ast::Boolean;
use crate::ast::BuiltinWord;
use crate::ast::Constant;
use crate::ast::SpecConstant;
use crate::ast::SpecValue;
use crate::ast::Value;
use crate::ast::constants_view;
use crate::ast::values_view;
use crate::parser;
use crate::parser::define_forms_text;
use crate::parser::define_forms_tokens;
use crate::parser::spec_parse;
use crate::token::Literal;
use crate::token::SpecToken;
use crate::token::Token;
use crate::token::str_eq;
use crate::token::tokens_view;

verus! {

broadcast use vstd::seq::axiom_seq_index_decreases, vstd::seq::axiom_seq_subrange_decreases, vstd::std_specs::vec::axiom_vec_decreases_to_view;

/// An evaluator failure: the token tree has no meaning under the rules of
/// the language.
#[derive(Clone, Copy, Debug, PartialEq, Eq, Structural)]
pub enum EvalError {
    /// A top-level token that is not a parenthesized form.
    TopLevelNotForm,
    /// A parenthesized form with no function position at all.
    MissingFunction,
    /// A function position that is reserved without semantics.
    UnsupportedForm,
    /// A `define` form with no name slot.
    MissingName,
    /// A `define` form with no value slot.
    MissingValue,
    /// A name token that is not a word.
    InvalidName,
    /// A `lambda` form with no parameter slot.
    MissingParameters,
    /// A `lambda` form with no body slot.
    MissingBody,
    /// A `define` or `lambda` form with elements left over after its two
    /// slots.
    TrailingElements,
}

/// The well-known value a keyword evaluates to.
pub open spec fn spec_eval_literal(l: Literal) -> SpecValue {
    match l {
        Literal::Cons => SpecValue::Reserved(BuiltinWord::Cons),
        Literal::Car => SpecValue::Reserved(BuiltinWord::Car),
        Literal::Cdr => SpecValue::Reserved(BuiltinWord::Cdr),
        Literal::If => SpecValue::Reserved(BuiltinWord::If),
        Literal::Lambda => SpecValue::Reserved(BuiltinWord::Lambda),
        Literal::Begin => SpecValue::Reserved(BuiltinWord::Begin),
        Literal::Define => SpecValue::Reserved(BuiltinWord::Define),
        Literal::DefineSyntax => SpecValue::Reserved(BuiltinWord::DefineSyntax),
        Literal::CallCc => SpecValue::Reserved(BuiltinWord::CallCc),
    }
}

/// Name resolution: the value a name token stands for. The four well-known
/// spellings resolve to dedicated values; every other word stays a symbol;
/// any non-word token is a hard error.
pub open spec fn spec_eval_name(t: SpecToken) -> Result<SpecValue, EvalError> {
    match t {
        SpecToken::Word(w) => if w == "main"@ {
            Ok(SpecValue::Reserved(BuiltinWord::Main))
        } else if w == "cli"@ {
            Ok(SpecValue::Reserved(BuiltinWord::Cli))
        } else if w == "t"@ {
            Ok(SpecValue::Bool(Boolean::True))
        } else if w == "nil"@ {
            Ok(SpecValue::Bool(Boolean::False))
        } else {
            Ok(SpecValue::Symbol(w))
        },
        _ => Err(EvalError::InvalidName),
    }
}

/// Value resolution, dispatching on the token kind.
pub open spec fn spec_eval_value(t: SpecToken) -> Result<SpecValue, EvalError>
    decreases t, 0int,
{
    match t {
        SpecToken::Text(s) => Ok(SpecValue::Text(s)),
        SpecToken::Number(n) => Ok(SpecValue::Number(n)),
        SpecToken::Bracketed(inner) => match spec_eval_list(inner) {
            Ok(vs) => Ok(SpecValue::LiteralList(vs)),
            Err(e) => Err(e),
        },
        SpecToken::Parenthesized(inner) => spec_eval_sexpr(inner),
        SpecToken::Word(_) => spec_eval_name(t),
        SpecToken::Keyword(k) => Ok(spec_eval_literal(k)),
    }
}

/// Value resolution of every element of a bracketed group, in order; the
/// first failure wins.
pub open spec fn spec_eval_list(ts: Seq<SpecToken>) -> Result<Seq<SpecValue>, EvalError>
    decreases ts, 2int,
{
    if ts.len() == 0 {
        Ok(Seq::empty())
    } else {
        match spec_eval_list(ts.drop_last()) {
            Err(e) => Err(e),
            Ok(vs) => match spec_eval_value(ts.last()) {
                Err(e) => Err(e),
                Ok(v) => Ok(vs.push(v)),
            },
        }
    }
}

/// The two-slot `define` rule applied to a whole form (keyword included):
/// a name slot, a value slot, and nothing further.
pub open spec fn spec_eval_define(inner: Seq<SpecToken>) -> Result<SpecConstant, EvalError>
    decreases inner, 0int,
{
    if inner.len() < 2 {
        Err(EvalError::MissingName)
    } else if inner.len() < 3 {
        Err(EvalError::MissingValue)
    } else {
        match spec_eval_name(inner[1]) {
            Err(e) => Err(e),
            Ok(n) => match spec_eval_value(inner[2]) {
                Err(e) => Err(e),
                Ok(v) => if inner.len() > 3 {
                    Err(EvalError::TrailingElements)
                } else {
                    Ok(SpecConstant { name: n, value: v })
                },
            },
        }
    }
}

/// Form resolution: the value of a parenthesized form, by its function
/// position. `define` yields a binding, `lambda` a closure, a word an
/// uninterpreted application; everything else is reserved without
/// semantics.
pub open spec fn spec_eval_sexpr(inner: Seq<SpecToken>) -> Result<SpecValue, EvalError>
    decreases inner, 1int,
{
    if inner.len() == 0 {
        Err(EvalError::MissingFunction)
    } else {
        match inner[0] {
            SpecToken::Keyword(Literal::Define) => match spec_eval_define(inner) {
                Err(e) => Err(e),
                Ok(c) => Ok(SpecValue::Binding(Box::new(c))),
            },
            SpecToken::Keyword(Literal::Lambda) => {
                if inner.len() < 2 {
                    Err(EvalError::MissingParameters)
                } else if inner.len() < 3 {
                    Err(EvalError::MissingBody)
                } else {
                    match spec_eval_value(inner[1]) {
                        Err(e) => Err(e),
                        Ok(params) => match spec_eval_value(inner[2]) {
                            Err(e) => Err(e),
                            Ok(body) => if inner.len() > 3 {
                                Err(EvalError::TrailingElements)
                            } else {
                                Ok(SpecValue::Closure(seq![params], seq![body]))
                            },
                        },
                    }
                }
            },
            SpecToken::Word(w) => match spec_eval_list(inner.drop_first()) {
                Err(e) => Err(e),
                Ok(vs) => Ok(SpecValue::Application(seq![SpecValue::Symbol(w)] + vs)),
            },
            _ => Err(EvalError::UnsupportedForm),
        }
    }
}

/// What one top-level token contributes to the abstract syntax tree: it
/// must be a parenthesized `define` form and yields one constant.
pub open spec fn spec_eval_top(t: SpecToken) -> Result<SpecConstant, EvalError> {
    match t {
        SpecToken::Parenthesized(inner) => if inner.len() == 0 {
            Err(EvalError::MissingFunction)
        } else {
            match inner[0] {
                SpecToken::Keyword(Literal::Define) => spec_eval_define(inner),
                _ => Err(EvalError::UnsupportedForm),
            }
        },
        _ => Err(EvalError::TopLevelNotForm),
    }
}

/// The abstract syntax tree of a whole token sequence: one constant per
/// top-level form, in source order; the first failure wins.
pub open spec fn spec_eval_tokens(ts: Seq<SpecToken>) -> Result<Seq<SpecConstant>, EvalError>
    decreases ts.len(),
{
    if ts.len() == 0 {
        Ok(Seq::empty())
    } else {
        match spec_eval_tokens(ts.drop_last()) {
            Err(e) => Err(e),
            Ok(cs) => match spec_eval_top(ts.last()) {
                Err(e) => Err(e),
                Ok(c) => Ok(cs.push(c)),
            },
        }
    }
}

/// Arity law: a `define` form with any element left over after its name
/// and value slots never yields a constant; once its two slots resolve,
/// the failure is exactly the trailing-elements error, both as a nested
/// form and at the top level.
pub proof fn lemma_define_arity(inner: Seq<SpecToken>)
    requires
        inner.len() > 3,
        inner[0] == SpecToken::Keyword(Literal::Define),
    ensures
        spec_eval_define(inner) is Err,
        spec_eval_sexpr(inner) is Err,
        spec_eval_top(SpecToken::Parenthesized(inner)) is Err,
        (spec_eval_name(inner[1]) is Ok && spec_eval_value(inner[2]) is Ok) ==> spec_eval_define(
            inner,
        ) == Err::<SpecConstant, EvalError>(EvalError::TrailingElements),
{
}

/// Order-stability law: an abstract syntax tree produced from a token
/// sequence holds exactly one constant per top-level form, and the
/// constant at each position is the one its form yields, so enumeration
/// preserves source order.
pub proof fn lemma_eval_preserves_order(ts: Seq<SpecToken>, cs: Seq<SpecConstant>)
    requires
        spec_eval_tokens(ts) == Ok::<Seq<SpecConstant>, EvalError>(cs),
    ensures
        cs.len() == ts.len(),
        forall|i: int|
            0 <= i < ts.len() ==> spec_eval_top(ts[i]) == Ok::<SpecConstant, EvalError>(
                #[trigger] cs[i],
            ),
    decreases ts.len(),
{
    if ts.len() > 0 {
        let prefix = spec_eval_tokens(ts.drop_last());
        lemma_eval_preserves_order(ts.drop_last(), prefix->Ok_0);
        assert(cs == prefix->Ok_0.push(spec_eval_top(ts.last())->Ok_0));
        assert(forall|i: int|
            0 <= i < ts.len() - 1 ==> ts.drop_last()[i] == #[trigger] ts[i] && prefix->Ok_0[i]
                == cs[i]);
    }
}

proof fn lemma_eval_define_form_token(w: Seq<char>, d: Seq<char>)
    ensures
        spec_eval_name(SpecToken::Word(w)) is Ok,
        spec_eval_top(crate::parser::define_form_token(w, d)) == Ok::<SpecConstant, EvalError>(
            SpecConstant {
                name: spec_eval_name(SpecToken::Word(w))->Ok_0,
                value: SpecValue::Number(crate::parser::digits_value(d) as u64),
            },
        ),
{
    let v = crate::parser::digits_value(d) as u64;
    let inner = seq![SpecToken::Keyword(Literal::Define), SpecToken::Word(w), SpecToken::Number(v)];
    assert(inner.len() == 3);
    assert(inner[0] == SpecToken::Keyword(Literal::Define));
    assert(inner[1] == SpecToken::Word(w));
    assert(inner[2] == SpecToken::Number(v));
    assert(spec_eval_value(inner[2]) == Ok::<SpecValue, EvalError>(SpecValue::Number(v)));
}

/// Concatenation law: for every source made of concatenated
/// `(define <name> <number>)` forms with nothing between them, each form
/// with its own name and number, where every name stays one plain word
/// and every number fits, tokenizing yields exactly one form per pair and
/// evaluating yields exactly one constant per pair, in source order, each
/// binding that form's resolved name to that form's number.
pub proof fn lemma_concatenated_defines(ps: Seq<(Seq<char>, Seq<char>)>)
    requires
        crate::parser::plain_defines(ps),
    ensures
        spec_parse(define_forms_text(ps)) == Ok::<Seq<SpecToken>, crate::parser::SyntaxError>(
            define_forms_tokens(ps),
        ),
        define_forms_tokens(ps).len() == ps.len(),
        (spec_eval_tokens(define_forms_tokens(ps)) matches Ok(cs) && cs.len() == ps.len() && (forall|
            i: int,
        |
            0 <= i < ps.len() ==> #[trigger] cs[i] == (SpecConstant {
                name: spec_eval_name(SpecToken::Word(ps[i].0))->Ok_0,
                value: SpecValue::Number(crate::parser::digits_value(ps[i].1) as u64),
            }))),
    decreases ps.len(),
{
    crate::parser::lemma_parse_concatenated_defines(ps);
    if ps.len() == 0 {
        assert(spec_eval_tokens(define_forms_tokens(ps)) == Ok::<Seq<SpecConstant>, EvalError>(
            Seq::empty(),
        ));
    } else {
        let pp = ps.drop_last();
        crate::parser::lemma_plain_defines_prefix(ps);
        lemma_concatenated_defines(pp);
        lemma_eval_define_form_token(ps.last().0, ps.last().1);
        let prev = define_forms_tokens(pp);
        let cur = define_forms_tokens(ps);
        assert(cur.drop_last() =~= prev);
        assert(cur.last() == crate::parser::define_form_token(ps.last().0, ps.last().1));
        assert(forall|i: int| 0 <= i < ps.len() - 1 ==> #[trigger] pp[i] == ps[i]);
    }
}

proof fn lemma_eval_list_error_sticky(ts: Seq<SpecToken>, i: int)
    requires
        0 <= i <= ts.len(),
        spec_eval_list(ts.take(i)) is Err,
    ensures
        spec_eval_list(ts) == spec_eval_list(ts.take(i)),
    decreases ts.len() - i,
{
    if i == ts.len() {
        assert(ts.take(i) =~= ts);
    } else {
        assert(ts.take(i + 1).drop_last() =~= ts.take(i));
        lemma_eval_list_error_sticky(ts, i + 1);
    }
}

proof fn lemma_eval_tokens_error_sticky(ts: Seq<SpecToken>, i: int)
    requires
        0 <= i <= ts.len(),
        spec_eval_tokens(ts.take(i)) is Err,
    ensures
        spec_eval_tokens(ts) == spec_eval_tokens(ts.take(i)),
    decreases ts.len() - i,
{
    if i == ts.len() {
        assert(ts.take(i) =~= ts);
    } else {
        assert(ts.take(i + 1).drop_last() =~= ts.take(i));
        lemma_eval_tokens_error_sticky(ts, i + 1);
    }
}

/// The well-known value a keyword evaluates to.
pub fn eval_literal(literal: Literal) -> (v: Value)
    ensures
        v@ == spec_eval_literal(literal),
{
    match literal {
        Literal::Cons => Value::Reserved(BuiltinWord::Cons),
        Literal::Car => Value::Reserved(BuiltinWord::Car),
        Literal::Cdr => Value::Reserved(BuiltinWord::Cdr),
        Literal::If => Value::Reserved(BuiltinWord::If),
        Literal::Lambda => Value::Reserved(BuiltinWord::Lambda),
        Literal::Begin => Value::Reserved(BuiltinWord::Begin),
        Literal::Define => Value::Reserved(BuiltinWord::Define),
        Literal::DefineSyntax => Value::Reserved(BuiltinWord::DefineSyntax),
        Literal::CallCc => Value::Reserved(BuiltinWord::CallCc),
    }
}

/// Name resolution of one token.
pub fn eval_name(token: &Token) -> (r: Result<Value, EvalError>)
    ensures
        match r {
            Ok(v) => spec_eval_name(token@) == Ok::<SpecValue, EvalError>(v@),
            Err(e) => spec_eval_name(token@) == Err::<SpecValue, EvalError>(e),
        },
{
    match token {
        Token::Word(w) => {
            if str_eq(w.as_str(), "main") {
                Ok(Value::Reserved(BuiltinWord::Main))
            } else if str_eq(w.as_str(), "cli") {
                Ok(Value::Reserved(BuiltinWord::Cli))
            } else if str_eq(w.as_str(), "t") {
                Ok(Value::Bool(Boolean::True))
            } else if str_eq(w.as_str(), "nil") {
                Ok(Value::Bool(Boolean::False))
            } else {
                Ok(Value::Symbol(w.clone()))
            }
        },
        _ => Err(EvalError::InvalidName),
    }
}

/// Value resolution of one token.
pub fn eval_value(token: &Token) -> (r: Result<Value, EvalError>)
    ensures
        match r {
            Ok(v) => spec_eval_value(token@) == Ok::<SpecValue, EvalError>(v@),
            Err(e) => spec_eval_value(token@) == Err::<SpecValue, EvalError>(e),
        },
    decreases token, 0int,
{
    match token {
        Token::Text(s) => Ok(Value::Text(s.clone())),
        Token::Number(n) => Ok(Value::Number(*n)),
        Token::Bracketed(inner) => {
            proof {
                crate::token::lemma_group_views(token);
            }
            eval_list(inner)
        },
        Token::Parenthesized(inner) => {
            proof {
                crate::token::lemma_group_views(token);
            }
            eval_sexpr(inner)
        },
        Token::Word(_) => eval_name(token),
        Token::Keyword(k) => Ok(eval_literal(*k)),
    }
}

/// Value resolution of every element from `start` on, in order.
fn eval_value_seq(tokens: &Vec<Token>, start: usize) -> (r: Result<Vec<Value>, EvalError>)
    requires
        start <= tokens@.len(),
    ensures
        match r {
            Ok(vs) => spec_eval_list(tokens_view(tokens@).skip(start as int)) == Ok::<
                Seq<SpecValue>,
                EvalError,
            >(values_view(vs@)),
            Err(e) => spec_eval_list(tokens_view(tokens@).skip(start as int)) == Err::<
                Seq<SpecValue>,
                EvalError,
            >(e),
        },
    decreases tokens, 1int,
{
    let ghost s = tokens_view(tokens@).skip(start as int);
    let mut out: Vec<Value> = Vec::new();
    let mut i: usize = start;
    proof {
        assert(s.take(0) =~= Seq::<SpecToken>::empty());
        assert(values_view(out@) =~= Seq::<SpecValue>::empty());
    }
    while i < tokens.len()
        invariant
            start <= i <= tokens@.len(),
            s == tokens_view(tokens@).skip(start as int),
            spec_eval_list(s.take(i - start)) == Ok::<Seq<SpecValue>, EvalError>(
                values_view(out@),
            ),
        decreases tokens@.len() - i,
    {
        proof {
            assert(s.take(i - start + 1).drop_last() =~= s.take(i - start));
            assert(s.take(i - start + 1).last() == tokens_view(tokens@)[i as int]);
        }
        match eval_value(&tokens[i]) {
            Ok(v) => {
                proof {
                    assert(values_view(out@.push(v)) =~= values_view(out@).push(v@));
                }
                out.push(v);
            },
            Err(e) => {
                proof {
                    lemma_eval_list_error_sticky(s, i - start + 1);
                }
                return Err(e);
            },
        }
        i = i + 1;
    }
    proof {
        assert(s.take(tokens@.len() - start) =~= s);
    }
    Ok(out)
}

/// Value resolution of a bracketed group: a literal list of its elements'
/// values.
pub fn eval_list(tokens: &Vec<Token>) -> (r: Result<Value, EvalError>)
    ensures
        match r {
            Ok(v) => spec_eval_list(tokens_view(tokens@)) matches Ok(vs) && v@
                == SpecValue::LiteralList(vs),
            Err(e) => spec_eval_list(tokens_view(tokens@)) == Err::<Seq<SpecValue>, EvalError>(e),
        },
    decreases tokens, 2int,
{
    proof {
        assert(tokens_view(tokens@).skip(0) =~= tokens_view(tokens@));
    }
    match eval_value_seq(tokens, 0) {
        Ok(vs) => {
            let v = Value::LiteralList(vs);
            proof {
                crate::ast::lemma_value_group_views(&v);
            }
            Ok(v)
        },
        Err(e) => Err(e),
    }
}

/// The two-slot `define` rule applied to a whole form (keyword included).
fn eval_define(tokens: &Vec<Token>) -> (r: Result<Constant, EvalError>)
    ensures
        match r {
            Ok(c) => spec_eval_define(tokens_view(tokens@)) == Ok::<SpecConstant, EvalError>(c@),
            Err(e) => spec_eval_define(tokens_view(tokens@)) == Err::<SpecConstant, EvalError>(e),
        },
    decreases tokens, 0int,
{
    if tokens.len() < 2 {
        Err(EvalError::MissingName)
    } else if tokens.len() < 3 {
        Err(EvalError::MissingValue)
    } else {
        match eval_name(&tokens[1]) {
            Err(e) => Err(e),
            Ok(n) => match eval_value(&tokens[2]) {
                Err(e) => Err(e),
                Ok(v) => if tokens.len() > 3 {
                    Err(EvalError::TrailingElements)
                } else {
                    Ok(Constant { name: n, value: v })
                },
            },
        }
    }
}

/// Form resolution: the value of a parenthesized form.
pub fn eval_sexpr(tokens: &Vec<Token>) -> (r: Result<Value, EvalError>)
    ensures
        match r {
            Ok(v) => spec_eval_sexpr(tokens_view(tokens@)) == Ok::<SpecValue, EvalError>(v@),
            Err(e) => spec_eval_sexpr(tokens_view(tokens@)) == Err::<SpecValue, EvalError>(e),
        },
    decreases tokens, 3int,
{
    if tokens.len() == 0 {
        return Err(EvalError::MissingFunction);
    }
    match &tokens[0] {
        Token::Keyword(Literal::Define) => {
            match eval_define(tokens) {
                Err(e) => Err(e),
                Ok(c) => {
                    let v = Value::Binding(Box::new(c));
                    proof {
                        crate::ast::lemma_value_group_views(&v);
                    }
                    Ok(v)
                },
            }
        },
        Token::Keyword(Literal::Lambda) => {
            if tokens.len() < 2 {
                Err(EvalError::MissingParameters)
            } else if tokens.len() < 3 {
                Err(EvalError::MissingBody)
            } else {
                match eval_value(&tokens[1]) {
                    Err(e) => Err(e),
                    Ok(params) => match eval_value(&tokens[2]) {
                        Err(e) => Err(e),
                        Ok(body) => if tokens.len() > 3 {
                            Err(EvalError::TrailingElements)
                        } else {
                            let mut ps: Vec<Value> = Vec::new();
                            let mut bs: Vec<Value> = Vec::new();
                            ps.push(params);
                            bs.push(body);
                            let v = Value::Closure(ps, bs);
                            proof {
                                crate::ast::lemma_value_group_views(&v);
                                assert(values_view(v->Closure_0@) =~= seq![
                                    spec_eval_value(tokens_view(tokens@)[1])->Ok_0,
                                ]);
                                assert(values_view(v->Closure_1@) =~= seq![
                                    spec_eval_value(tokens_view(tokens@)[2])->Ok_0,
                                ]);
                            }
                            Ok(v)
                        },
                    },
                }
            }
        },
        Token::Word(w) => {
            match eval_value_seq(tokens, 1) {
                Err(e) => {
                    proof {
                        assert(tokens_view(tokens@).drop_first() =~= tokens_view(tokens@).skip(1));
                    }
                    Err(e)
                },
                Ok(mut vs) => {
                    let ghost tail = values_view(vs@);
                    vs.insert(0, Value::Symbol(w.clone()));
                    let v = Value::Application(vs);
                    proof {
                        crate::ast::lemma_value_group_views(&v);
                        assert(tokens_view(tokens@).drop_first() =~= tokens_view(tokens@).skip(1));
                        assert(values_view(v->Application_0@) =~= seq![
                            SpecValue::Symbol(w@),
                        ] + tail);
                    }
                    Ok(v)
                },
            }
        },
        _ => Err(EvalError::UnsupportedForm),
    }
}

/// What one top-level token contributes to the abstract syntax tree.
fn eval_top(token: &Token) -> (r: Result<Constant, EvalError>)
    ensures
        match r {
            Ok(c) => spec_eval_top(token@) == Ok::<SpecConstant, EvalError>(c@),
            Err(e) => spec_eval_top(token@) == Err::<SpecConstant, EvalError>(e),
        },
{
    match token {
        Token::Parenthesized(inner) => {
            proof {
                crate::token::lemma_group_views(token);
            }
            if inner.len() == 0 {
                return Err(EvalError::MissingFunction);
            }
            match &inner[0] {
                Token::Keyword(Literal::Define) => eval_define(inner),
                _ => Err(EvalError::UnsupportedForm),
            }
        },
        _ => Err(EvalError::TopLevelNotForm),
    }
}

/// Parses a whole source buffer and evaluates it to its abstract syntax
/// tree: one constant per top-level `define` form, in source order, or the
/// first failure of the tokenizer or of the evaluator.
pub fn eval(program: &str) -> (r: Result<AST, CoreError>)
    ensures
        match r {
            Ok(ast) => spec_parse(program@) matches Ok(ts) && spec_eval_tokens(ts) == Ok::<
                Seq<SpecConstant>,
                EvalError,
            >(ast@),
            Err(CoreError::Syntax(e)) => spec_parse(program@) == Err::<
                Seq<SpecToken>,
                crate::parser::SyntaxError,
            >(e),
            Err(CoreError::Eval(e)) => spec_parse(program@) matches Ok(ts) && spec_eval_tokens(ts)
                == Err::<Seq<SpecConstant>, EvalError>(e),
        },
{
    let tokens = match parser::parse(program) {
        Ok(ts) => ts,
        Err(e) => {
            return Err(CoreError::Syntax(e));
        },
    };
    let ghost tv = tokens_view(tokens@);
    let mut context: Vec<Constant> = Vec::new();
    let mut i: usize = 0;
    proof {
        assert(tv.take(0) =~= Seq::<SpecToken>::empty());
        assert(constants_view(context@) =~= Seq::<SpecConstant>::empty());
    }
    while i < tokens.len()
        invariant
            i <= tokens@.len(),
            tv == tokens_view(tokens@),
            spec_parse(program@) == Ok::<Seq<SpecToken>, crate::parser::SyntaxError>(tv),
            spec_eval_tokens(tv.take(i as int)) == Ok::<Seq<SpecConstant>, EvalError>(
                constants_view(context@),
            ),
        decreases tokens@.len() - i,
    {
        proof {
            assert(tv.take(i + 1).drop_last() =~= tv.take(i as int));
            assert(tv.take(i + 1).last() == tv[i as int]);
        }
        match eval_top(&tokens[i]) {
            Ok(c) => {
                proof {
                    assert(constants_view(context@.push(c)) =~= constants_view(context@).push(c@));
                }
                context.push(c);
            },
            Err(e) => {
                proof {
                    lemma_eval_tokens_error_sticky(tv, i + 1);
                }
                return Err(CoreError::Eval(e));
            },
        }
        i = i + 1;
    }
    proof {
        assert(tv.take(tokens@.len() as int) =~= tv);
    }
    Ok(AST(context))
}

} // verus!
