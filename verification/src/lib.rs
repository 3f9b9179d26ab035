//! An embedded configuration language: a small S-expression dialect that is
//! parsed from text, reduced to an abstract syntax tree of named constants,
//! and queried by command-line tooling to decide runtime behaviour.

use vstd::prelude::*;

pub mod token;
pub mod parser;
pub mod ast;
pub mod evaluator;
pub mod cli;

verus! {

/// Any failure of the front end: the tokenizer rejected the source, or the
/// evaluator rejected the token tree.
#[derive(Clone, Copy, Debug, PartialEq, Eq, Structural)]
pub enum CoreError {
    Syntax(parser::SyntaxError),
    Eval(evaluator::EvalError),
}

/// A top-level `define` form kept in token shape: its function position,
/// its name token and its value token, untouched by value resolution.
#[derive(Debug, PartialEq, Eq)]
pub struct CoreAST {
    pub function: token::Token,
    pub name: token::Token,
    pub value: token::Token,
}

/// The mathematical shape of a `CoreAST`.
pub struct SpecCoreAST {
    pub function: token::SpecToken,
    pub name: token::SpecToken,
    pub value: token::SpecToken,
}

impl View for CoreAST {
    type V = SpecCoreAST;

    open spec fn view(&self) -> SpecCoreAST {
        SpecCoreAST { function: self.function@, name: self.name@, value: self.value@ }
    }
}

/// The views of a sequence of token-shaped forms, in order.
pub open spec fn core_asts_view(cs: Seq<CoreAST>) -> Seq<SpecCoreAST> {
    Seq::new(cs.len(), |i: int| cs[i]@)
}

/// What one top-level token contributes in token shape: it must be a
/// parenthesized `define` form with a name slot and a value slot; any
/// elements beyond the two slots are left behind.
pub open spec fn spec_core_of_form(t: token::SpecToken) -> Result<SpecCoreAST, evaluator::EvalError> {
    match t {
        token::SpecToken::Parenthesized(inner) => if inner.len() == 0 {
            Err(evaluator::EvalError::MissingFunction)
        } else {
            match inner[0] {
                token::SpecToken::Keyword(token::Literal::Define) => if inner.len() < 2 {
                    Err(evaluator::EvalError::MissingName)
                } else if inner.len() < 3 {
                    Err(evaluator::EvalError::MissingValue)
                } else {
                    Ok(SpecCoreAST { function: inner[0], name: inner[1], value: inner[2] })
                },
                _ => Err(evaluator::EvalError::UnsupportedForm),
            }
        },
        _ => Err(evaluator::EvalError::TopLevelNotForm),
    }
}

/// The token-shaped forms of a whole token sequence, in source order; the
/// first failure wins.
pub open spec fn spec_core_eval(ts: Seq<token::SpecToken>) -> Result<
    Seq<SpecCoreAST>,
    evaluator::EvalError,
>
    decreases ts.len(),
{
    if ts.len() == 0 {
        Ok(Seq::empty())
    } else {
        match spec_core_eval(ts.drop_last()) {
            Err(e) => Err(e),
            Ok(cs) => match spec_core_of_form(ts.last()) {
                Err(e) => Err(e),
                Ok(c) => Ok(cs.push(c)),
            },
        }
    }
}

proof fn lemma_core_eval_error_sticky(ts: Seq<token::SpecToken>, i: int)
    requires
        0 <= i <= ts.len(),
        spec_core_eval(ts.take(i)) is Err,
    ensures
        spec_core_eval(ts) == spec_core_eval(ts.take(i)),
    decreases ts.len() - i,
{
    if i == ts.len() {
        assert(ts.take(i) =~= ts);
    } else {
        assert(ts.take(i + 1).drop_last() =~= ts.take(i));
        lemma_core_eval_error_sticky(ts, i + 1);
    }
}

fn eval_sexpr(t: &token::Token) -> (r: Result<CoreAST, evaluator::EvalError>)
    ensures
        match r {
            Ok(c) => spec_core_of_form(t@) == Ok::<SpecCoreAST, evaluator::EvalError>(c@),
            Err(e) => spec_core_of_form(t@) == Err::<SpecCoreAST, evaluator::EvalError>(e),
        },
{
    match t {
        token::Token::Parenthesized(inner) => {
            proof {
                token::lemma_group_views(t);
            }
            if inner.len() == 0 {
                return Err(evaluator::EvalError::MissingFunction);
            }
            match &inner[0] {
                token::Token::Keyword(token::Literal::Define) => {
                    if inner.len() < 2 {
                        Err(evaluator::EvalError::MissingName)
                    } else if inner.len() < 3 {
                        Err(evaluator::EvalError::MissingValue)
                    } else {
                        Ok(
                            CoreAST {
                                function: inner[0].clone(),
                                name: inner[1].clone(),
                                value: inner[2].clone(),
                            },
                        )
                    }
                },
                _ => Err(evaluator::EvalError::UnsupportedForm),
            }
        },
        _ => Err(evaluator::EvalError::TopLevelNotForm),
    }
}

/// Parses a whole source buffer and keeps each top-level `define` form in
/// token shape, in source order, or reports the first failure.
pub fn eval(source: &str) -> (r: Result<Vec<CoreAST>, CoreError>)
    ensures
        match r {
            Ok(cs) => parser::spec_parse(source@) matches Ok(ts) && spec_core_eval(ts) == Ok::<
                Seq<SpecCoreAST>,
                evaluator::EvalError,
            >(core_asts_view(cs@)),
            Err(CoreError::Syntax(e)) => parser::spec_parse(source@) == Err::<
                Seq<token::SpecToken>,
                parser::SyntaxError,
            >(e),
            Err(CoreError::Eval(e)) => parser::spec_parse(source@) matches Ok(ts)
                && spec_core_eval(ts) == Err::<Seq<SpecCoreAST>, evaluator::EvalError>(e),
        },
{
    let tokens = match parser::parse(source) {
        Ok(ts) => ts,
        Err(e) => {
            return Err(CoreError::Syntax(e));
        },
    };
    let ghost tv = token::tokens_view(tokens@);
    let mut result: Vec<CoreAST> = Vec::new();
    let mut i: usize = 0;
    proof {
        assert(tv.take(0) =~= Seq::<token::SpecToken>::empty());
        assert(core_asts_view(result@) =~= Seq::<SpecCoreAST>::empty());
    }
    while i < tokens.len()
        invariant
            i <= tokens@.len(),
            tv == token::tokens_view(tokens@),
            parser::spec_parse(source@) == Ok::<Seq<token::SpecToken>, parser::SyntaxError>(tv),
            spec_core_eval(tv.take(i as int)) == Ok::<Seq<SpecCoreAST>, evaluator::EvalError>(
                core_asts_view(result@),
            ),
        decreases tokens@.len() - i,
    {
        proof {
            assert(tv.take(i + 1).drop_last() =~= tv.take(i as int));
            assert(tv.take(i + 1).last() == tv[i as int]);
        }
        match eval_sexpr(&tokens[i]) {
            Ok(c) => {
                proof {
                    assert(core_asts_view(result@.push(c)) =~= core_asts_view(result@).push(c@));
                }
                result.push(c);
            },
            Err(e) => {
                proof {
                    lemma_core_eval_error_sticky(tv, i + 1);
                }
                return Err(CoreError::Eval(e));
            },
        }
        i = i + 1;
    }
    proof {
        assert(tv.take(tokens@.len() as int) =~= tv);
    }
    Ok(result)
}

} // verus!
