//! The settings-extraction protocol: reads every `cli`-named constant of an
//! abstract syntax tree into a record of boolean command-line options.
//!
//! A `cli` constant's value must be either a single-element application
//! wrapping a closure whose body is a sequence of option-setting forms, or
//! a literal list of such forms. Each form carries a symbol head and
//! exactly one boolean value. Recognized names set their option;
//! unrecognized names are ignored for forward compatibility; later
//! constants overwrite earlier ones.

use vstd::prelude::*;

use crate::ast::Boolean;
use crate::ast::BuiltinWord;
use crate::ast::Constant;
use crate::ast::SpecConstant;
use crate::ast::SpecValue;
use crate::ast::StructureError;
use crate::ast::Value;
use crate::ast::constants_view;
use crate::ast::spec_car;
use crate::ast::spec_cdr;
use crate::ast::values_view;
use crate::token::str_eq;

verus! {

/// The options record handed to the command-line layer: whether that layer
/// is activated at all, and whether a full argument parser is constructed.
#[derive(Clone, Copy, Debug, PartialEq, Eq, Structural)]
pub struct CLIOption {
    pub enable: bool,
    pub use_clap: bool,
}

/// Every option defaults to off.
pub open spec fn spec_default_options() -> CLIOption {
    CLIOption { enable: false, use_clap: false }
}

impl Default for CLIOption {
    fn default() -> (o: CLIOption)
        ensures
            o == spec_default_options(),
    {
        CLIOption { enable: false, use_clap: false }
    }
}

/// The boolean an option-setting form's value atom stands for; anything
/// but a boolean is a hard error.
pub open spec fn spec_read_boolean(v: SpecValue) -> Result<bool, StructureError> {
    match v {
        SpecValue::Bool(Boolean::True) => Ok(true),
        SpecValue::Bool(Boolean::False) => Ok(false),
        _ => Err(StructureError::OptionNotBoolean),
    }
}

/// The effect of one option-setting form on the options record: its head
/// must be a symbol and its tail exactly one boolean; a recognized name
/// sets that option, an unrecognized one changes nothing.
pub open spec fn spec_apply_option(o: CLIOption, form: SpecValue) -> Result<
    CLIOption,
    StructureError,
> {
    match spec_car(form) {
        Err(e) => Err(e),
        Ok(head) => match head {
            SpecValue::Symbol(name) => match spec_cdr(form) {
                Err(e) => Err(e),
                Ok(tail) => if tail.len() != 1 {
                    Err(StructureError::OptionArity)
                } else {
                    match spec_read_boolean(tail[0]) {
                        Err(e) => Err(e),
                        Ok(b) => if name == "enable"@ {
                            Ok(CLIOption { enable: b, use_clap: o.use_clap })
                        } else if name == "use-clap"@ {
                            Ok(CLIOption { enable: o.enable, use_clap: b })
                        } else {
                            Ok(o)
                        },
                    }
                },
            },
            _ => Err(StructureError::OptionNameNotSymbol),
        },
    }
}

/// The effect of a sequence of option-setting forms, applied in order:
/// later forms overwrite earlier ones.
pub open spec fn spec_apply_options(o: CLIOption, forms: Seq<SpecValue>) -> Result<
    CLIOption,
    StructureError,
>
    decreases forms.len(),
{
    if forms.len() == 0 {
        Ok(o)
    } else {
        match spec_apply_options(o, forms.drop_last()) {
            Err(e) => Err(e),
            Ok(o2) => spec_apply_option(o2, forms.last()),
        }
    }
}

/// The option-setting forms a `cli` constant's value carries: the body of
/// a single wrapped closure, or the elements of a literal list; any other
/// shape is a hard error.
pub open spec fn spec_cli_forms(v: SpecValue) -> Result<Seq<SpecValue>, StructureError> {
    match v {
        SpecValue::Application(vs) => if vs.len() == 1 && vs[0] is Closure {
            Ok(vs[0]->Closure_1)
        } else {
            Err(StructureError::MalformedOptions)
        },
        SpecValue::LiteralList(vs) => Ok(vs),
        _ => Err(StructureError::MalformedOptions),
    }
}

/// The options record a whole abstract syntax tree yields: every
/// `cli`-named constant's forms applied in source order over the defaults,
/// so that the last write to an option wins.
pub open spec fn spec_judge(cs: Seq<SpecConstant>) -> Result<CLIOption, StructureError>
    decreases cs.len(),
{
    if cs.len() == 0 {
        Ok(spec_default_options())
    } else {
        match spec_judge(cs.drop_last()) {
            Err(e) => Err(e),
            Ok(o) => if cs.last().name == SpecValue::Reserved(BuiltinWord::Cli) {
                match spec_cli_forms(cs.last().value) {
                    Err(e) => Err(e),
                    Ok(forms) => spec_apply_options(o, forms),
                }
            } else {
                Ok(o)
            },
        }
    }
}

/// Last-write-wins law: whatever the constants seen so far made of the
/// options record, appending one more `cli` constant whose single form
/// sets `enable` to a boolean leaves `enable` equal to that boolean and
/// every other option untouched.
pub proof fn lemma_cli_last_write_wins(
    cs: Seq<SpecConstant>,
    c: SpecConstant,
    b: Boolean,
    o: CLIOption,
)
    requires
        spec_judge(cs) == Ok::<CLIOption, StructureError>(o),
        c.name == SpecValue::Reserved(BuiltinWord::Cli),
        c.value == SpecValue::LiteralList(
            seq![
                SpecValue::Application(seq![SpecValue::Symbol("enable"@), SpecValue::Bool(b)]),
            ],
        ),
    ensures
        spec_judge(cs.push(c)) == Ok::<CLIOption, StructureError>(
            CLIOption { enable: b == Boolean::True, use_clap: o.use_clap },
        ),
{
    assert(cs.push(c).drop_last() =~= cs);
    assert(cs.push(c).last() == c);
    let vs = seq![SpecValue::Symbol("enable"@), SpecValue::Bool(b)];
    let forms = spec_cli_forms(c.value)->Ok_0;
    assert(forms == seq![SpecValue::Application(vs)]);
    assert(forms.len() == 1);
    assert(forms.drop_last() =~= Seq::<SpecValue>::empty());
    assert(spec_apply_options(o, forms.drop_last()) == Ok::<CLIOption, StructureError>(o));
    let form = forms.last();
    assert(form == SpecValue::Application(vs));
    assert(vs[0] == SpecValue::Symbol("enable"@));
    assert(spec_car(form) == Ok::<SpecValue, StructureError>(vs[0]));
    let tail = spec_cdr(form)->Ok_0;
    assert(tail =~= seq![SpecValue::Bool(b)]);
    assert(tail.len() == 1 && tail[0] == SpecValue::Bool(b));
    if b == Boolean::True {
        assert(spec_read_boolean(tail[0]) == Ok::<bool, StructureError>(true));
    } else {
        assert(b == Boolean::False);
        assert(spec_read_boolean(tail[0]) == Ok::<bool, StructureError>(false));
    }
    assert(spec_apply_option(o, form) == Ok::<CLIOption, StructureError>(
        CLIOption { enable: b == Boolean::True, use_clap: o.use_clap },
    ));
}

proof fn lemma_apply_options_error_sticky(o: CLIOption, forms: Seq<SpecValue>, i: int)
    requires
        0 <= i <= forms.len(),
        spec_apply_options(o, forms.take(i)) is Err,
    ensures
        spec_apply_options(o, forms) == spec_apply_options(o, forms.take(i)),
    decreases forms.len() - i,
{
    if i == forms.len() {
        assert(forms.take(i) =~= forms);
    } else {
        assert(forms.take(i + 1).drop_last() =~= forms.take(i));
        lemma_apply_options_error_sticky(o, forms, i + 1);
    }
}

proof fn lemma_judge_error_sticky(cs: Seq<SpecConstant>, i: int)
    requires
        0 <= i <= cs.len(),
        spec_judge(cs.take(i)) is Err,
    ensures
        spec_judge(cs) == spec_judge(cs.take(i)),
    decreases cs.len() - i,
{
    if i == cs.len() {
        assert(cs.take(i) =~= cs);
    } else {
        assert(cs.take(i + 1).drop_last() =~= cs.take(i));
        lemma_judge_error_sticky(cs, i + 1);
    }
}

/// Reads the boolean an option-setting form's value atom stands for.
pub fn read_boolean(value: &Value) -> (r: Result<bool, StructureError>)
    ensures
        match r {
            Ok(b) => spec_read_boolean(value@) == Ok::<bool, StructureError>(b),
            Err(e) => spec_read_boolean(value@) == Err::<bool, StructureError>(e),
        },
{
    match value {
        Value::Bool(Boolean::True) => Ok(true),
        Value::Bool(Boolean::False) => Ok(false),
        _ => Err(StructureError::OptionNotBoolean),
    }
}

fn apply_option(o: CLIOption, form: &Value) -> (r: Result<CLIOption, StructureError>)
    ensures
        match r {
            Ok(o2) => spec_apply_option(o, form@) == Ok::<CLIOption, StructureError>(o2),
            Err(e) => spec_apply_option(o, form@) == Err::<CLIOption, StructureError>(e),
        },
{
    let head = match form.car() {
        Ok(h) => h,
        Err(e) => {
            return Err(e);
        },
    };
    match &head {
        Value::Symbol(name) => {
            let tail = match form.cdr() {
                Ok(t) => t,
                Err(e) => {
                    return Err(e);
                },
            };
            if tail.len() != 1 {
                return Err(StructureError::OptionArity);
            }
            let b = match read_boolean(&tail[0]) {
                Ok(b) => b,
                Err(e) => {
                    return Err(e);
                },
            };
            if str_eq(name.as_str(), "enable") {
                Ok(CLIOption { enable: b, use_clap: o.use_clap })
            } else if str_eq(name.as_str(), "use-clap") {
                Ok(CLIOption { enable: o.enable, use_clap: b })
            } else {
                Ok(o)
            }
        },
        _ => Err(StructureError::OptionNameNotSymbol),
    }
}

fn apply_options(o: CLIOption, forms: &Vec<Value>) -> (r: Result<CLIOption, StructureError>)
    ensures
        match r {
            Ok(o2) => spec_apply_options(o, values_view(forms@)) == Ok::<CLIOption, StructureError>(
                o2,
            ),
            Err(e) => spec_apply_options(o, values_view(forms@)) == Err::<
                CLIOption,
                StructureError,
            >(e),
        },
{
    let ghost fv = values_view(forms@);
    let mut cur = o;
    let mut i: usize = 0;
    proof {
        assert(fv.take(0) =~= Seq::<SpecValue>::empty());
    }
    while i < forms.len()
        invariant
            i <= forms@.len(),
            fv == values_view(forms@),
            spec_apply_options(o, fv.take(i as int)) == Ok::<CLIOption, StructureError>(cur),
        decreases forms@.len() - i,
    {
        proof {
            assert(fv.take(i + 1).drop_last() =~= fv.take(i as int));
            assert(fv.take(i + 1).last() == fv[i as int]);
        }
        match apply_option(cur, &forms[i]) {
            Ok(o2) => {
                cur = o2;
            },
            Err(e) => {
                proof {
                    lemma_apply_options_error_sticky(o, fv, i + 1);
                }
                return Err(e);
            },
        }
        i = i + 1;
    }
    proof {
        assert(fv.take(forms@.len() as int) =~= fv);
    }
    Ok(cur)
}

/// Scans the constants of an abstract syntax tree in order and extracts
/// the options record of every `cli`-named constant, last write winning;
/// fails on the first malformed `cli` value or option-setting form.
pub fn judge_cli_option(constants: &Vec<Constant>) -> (r: Result<CLIOption, StructureError>)
    ensures
        match r {
            Ok(o) => spec_judge(constants_view(constants@)) == Ok::<CLIOption, StructureError>(o),
            Err(e) => spec_judge(constants_view(constants@)) == Err::<CLIOption, StructureError>(e),
        },
{
    let ghost cv = constants_view(constants@);
    let mut cur = CLIOption::default();
    let mut i: usize = 0;
    proof {
        assert(cv.take(0) =~= Seq::<SpecConstant>::empty());
    }
    while i < constants.len()
        invariant
            i <= constants@.len(),
            cv == constants_view(constants@),
            spec_judge(cv.take(i as int)) == Ok::<CLIOption, StructureError>(cur),
        decreases constants@.len() - i,
    {
        proof {
            assert(cv.take(i + 1).drop_last() =~= cv.take(i as int));
            assert(cv.take(i + 1).last() == cv[i as int]);
        }
        let c = &constants[i];
        let is_cli = match &c.name {
            Value::Reserved(BuiltinWord::Cli) => true,
            _ => false,
        };
        if is_cli {
            proof {
                crate::ast::lemma_value_group_views(&c.value);
            }
            let step = match &c.value {
                Value::Application(vs) => {
                    if vs.len() == 1 {
                        match &vs[0] {
                            Value::Closure(_params, body) => {
                                proof {
                                    crate::ast::lemma_value_group_views(&vs[0]);
                                    assert(values_view(vs@)[0] == vs@[0]@);
                                }
                                apply_options(cur, body)
                            },
                            _ => Err(StructureError::MalformedOptions),
                        }
                    } else {
                        Err(StructureError::MalformedOptions)
                    }
                },
                Value::LiteralList(vs) => apply_options(cur, vs),
                _ => Err(StructureError::MalformedOptions),
            };
            match step {
                Ok(o2) => {
                    cur = o2;
                },
                Err(e) => {
                    proof {
                        lemma_judge_error_sticky(cv, i + 1);
                    }
                    return Err(e);
                },
            }
        }
        i = i + 1;
    }
    proof {
        assert(cv.take(constants@.len() as int) =~= cv);
    }
    Ok(cur)
}

} // verus!
