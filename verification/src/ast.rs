//! The semantic data model: evaluated values, named constants, and the
//! abstract syntax tree of top-level bindings, together with the structural
//! accessors used by the settings-extraction protocol.

use vstd::prelude::*;

verus! {

broadcast use vstd::seq::axiom_seq_index_decreases, vstd::std_specs::vec::axiom_vec_decreases_to_view;

/// The two boolean values of the language, written `t` and `nil`.
#[derive(Clone, Copy, Debug, PartialEq, Eq, Structural)]
pub enum Boolean {
    True,
    False,
}

/// A well-known name resolved by the evaluator: the two special top-level
/// names and the nine reserved keywords.
#[derive(Clone, Copy, Debug, PartialEq, Eq, Structural)]
pub enum BuiltinWord {
    Main,
    Cli,
    Cons,
    Car,
    Cdr,
    If,
    Lambda,
    Begin,
    Define,
    DefineSyntax,
    CallCc,
}

/// An evaluated value.
#[derive(Debug, PartialEq, Eq)]
pub enum Value {
    /// An evaluated parenthesized form, recorded but not executed.
    Application(Vec<Value>),
    /// A nested definition evaluated as a value.
    Binding(Box<Constant>),
    /// An evaluated bracketed group.
    LiteralList(Vec<Value>),
    Number(u64),
    /// A `lambda` form: its parameter values and its body values.
    Closure(Vec<Value>, Vec<Value>),
    Text(String),
    Bool(Boolean),
    /// An identifier with no special meaning.
    Symbol(String),
    /// A well-known name or reserved keyword.
    Reserved(BuiltinWord),
}

/// A top-level binding: a resolved name and its resolved value.
#[derive(Debug, PartialEq, Eq)]
pub struct Constant {
    pub name: Value,
    pub value: Value,
}

/// The abstract syntax tree: every top-level constant of a source buffer,
/// in source order. Duplicate names are legal; the sequence is a log, not a
/// map.
#[derive(Debug)]
pub struct AST(pub Vec<Constant>);

/// The mathematical shape of a `Value`.
pub enum SpecValue {
    Application(Seq<SpecValue>),
    Binding(Box<SpecConstant>),
    LiteralList(Seq<SpecValue>),
    Number(u64),
    Closure(Seq<SpecValue>, Seq<SpecValue>),
    Text(Seq<char>),
    Bool(Boolean),
    Symbol(Seq<char>),
    Reserved(BuiltinWord),
}

/// The mathematical shape of a `Constant`.
pub struct SpecConstant {
    pub name: SpecValue,
    pub value: SpecValue,
}

/// The mathematical shape of one value.
pub open spec fn spec_value_view(v: Value) -> SpecValue
    decreases v,
{
    match v {
        Value::Application(vs) => SpecValue::Application(
            Seq::new(vs@.len(), |i: int| if 0 <= i < vs@.len() {
                spec_value_view(vs@[i])
            } else {
                vstd::pervasive::arbitrary()
            }),
        ),
        Value::Binding(c) => SpecValue::Binding(
            Box::new(
                SpecConstant { name: spec_value_view(c.name), value: spec_value_view(c.value) },
            ),
        ),
        Value::LiteralList(vs) => SpecValue::LiteralList(
            Seq::new(vs@.len(), |i: int| if 0 <= i < vs@.len() {
                spec_value_view(vs@[i])
            } else {
                vstd::pervasive::arbitrary()
            }),
        ),
        Value::Number(n) => SpecValue::Number(n),
        Value::Closure(params, body) => SpecValue::Closure(
            Seq::new(params@.len(), |i: int| if 0 <= i < params@.len() {
                spec_value_view(params@[i])
            } else {
                vstd::pervasive::arbitrary()
            }),
            Seq::new(body@.len(), |i: int| if 0 <= i < body@.len() {
                spec_value_view(body@[i])
            } else {
                vstd::pervasive::arbitrary()
            }),
        ),
        Value::Text(s) => SpecValue::Text(s@),
        Value::Bool(b) => SpecValue::Bool(b),
        Value::Symbol(s) => SpecValue::Symbol(s@),
        Value::Reserved(w) => SpecValue::Reserved(w),
    }
}

impl View for Value {
    type V = SpecValue;

    open spec fn view(&self) -> SpecValue {
        spec_value_view(*self)
    }
}

/// The mathematical shape of one constant.
pub open spec fn spec_constant_view(c: Constant) -> SpecConstant {
    SpecConstant { name: spec_value_view(c.name), value: spec_value_view(c.value) }
}

impl View for Constant {
    type V = SpecConstant;

    open spec fn view(&self) -> SpecConstant {
        spec_constant_view(*self)
    }
}

/// The views of a sequence of values, in order.
pub open spec fn values_view(vs: Seq<Value>) -> Seq<SpecValue> {
    Seq::new(vs.len(), |i: int| vs[i]@)
}

/// The views of a sequence of constants, in order.
pub open spec fn constants_view(cs: Seq<Constant>) -> Seq<SpecConstant> {
    Seq::new(cs.len(), |i: int| cs[i]@)
}

impl View for AST {
    type V = Seq<SpecConstant>;

    open spec fn view(&self) -> Seq<SpecConstant> {
        constants_view(self.0@)
    }
}

/// The views of groups, bindings and closures are the views of their
/// parts.
pub proof fn lemma_value_group_views(v: &Value)
    ensures
        match v {
            Value::Application(vs) => v@ == SpecValue::Application(values_view(vs@)),
            Value::LiteralList(vs) => v@ == SpecValue::LiteralList(values_view(vs@)),
            Value::Closure(params, body) => v@ == SpecValue::Closure(
                values_view(params@),
                values_view(body@),
            ),
            Value::Binding(c) => v@ == SpecValue::Binding(Box::new(spec_constant_view(**c))),
            _ => true,
        },
{
    match v {
        Value::Application(vs) => {
            assert(v@->Application_0 =~= values_view(vs@));
        },
        Value::LiteralList(vs) => {
            assert(v@->LiteralList_0 =~= values_view(vs@));
        },
        Value::Closure(params, body) => {
            assert(v@->Closure_0 =~= values_view(params@));
            assert(v@->Closure_1 =~= values_view(body@));
        },
        Value::Binding(c) => {
        },
        _ => {},
    }
}

fn clone_values(vs: &Vec<Value>) -> (r: Vec<Value>)
    ensures
        values_view(r@) == values_view(vs@),
    decreases vs,
{
    let mut r: Vec<Value> = Vec::new();
    let mut i: usize = 0;
    while i < vs.len()
        invariant
            i <= vs@.len(),
            r@.len() == i,
            forall|j: int| 0 <= j < i ==> #[trigger] r@[j]@ == vs@[j]@,
        decreases vs@.len() - i,
    {
        r.push(vs[i].clone());
        i = i + 1;
    }
    proof {
        assert(values_view(r@) =~= values_view(vs@));
    }
    r
}

impl Clone for Value {
    /// A deep copy with the same mathematical shape.
    fn clone(&self) -> (r: Value)
        ensures
            r@ == self@,
        decreases self,
    {
        proof {
            lemma_value_group_views(self);
        }
        let r = match self {
            Value::Application(vs) => Value::Application(clone_values(vs)),
            Value::Binding(c) => Value::Binding(
                Box::new(Constant { name: c.name.clone(), value: c.value.clone() }),
            ),
            Value::LiteralList(vs) => Value::LiteralList(clone_values(vs)),
            Value::Number(n) => Value::Number(*n),
            Value::Closure(params, body) => Value::Closure(clone_values(params), clone_values(body)),
            Value::Text(s) => Value::Text(s.clone()),
            Value::Bool(b) => Value::Bool(*b),
            Value::Symbol(s) => Value::Symbol(s.clone()),
            Value::Reserved(w) => Value::Reserved(*w),
        };
        proof {
            lemma_value_group_views(&r);
        }
        r
    }
}

impl Clone for Constant {
    /// A deep copy with the same mathematical shape.
    fn clone(&self) -> (r: Constant)
        ensures
            r@ == self@,
    {
        Constant { name: self.name.clone(), value: self.value.clone() }
    }
}

impl Constant {
    /// The resolved name of this binding.
    pub fn name(&self) -> (r: Value)
        ensures
            r@ == self.name@,
    {
        self.name.clone()
    }

    /// The resolved value of this binding.
    pub fn value(&self) -> (r: Value)
        ensures
            r@ == self.value@,
    {
        self.value.clone()
    }
}

/// The first element of an `Application` or `LiteralList`, or the failure
/// `head` meets on any other shape.
pub open spec fn spec_car(v: SpecValue) -> Result<SpecValue, StructureError> {
    match v {
        SpecValue::Application(vs) => if vs.len() > 0 {
            Ok(vs[0])
        } else {
            Err(StructureError::EmptySequence)
        },
        SpecValue::LiteralList(vs) => if vs.len() > 0 {
            Ok(vs[0])
        } else {
            Err(StructureError::EmptySequence)
        },
        _ => Err(StructureError::NotASequence),
    }
}

/// Every element but the first of an `Application` or `LiteralList`, in
/// order, or the failure `tail` meets on any other shape.
pub open spec fn spec_cdr(v: SpecValue) -> Result<Seq<SpecValue>, StructureError> {
    match v {
        SpecValue::Application(vs) => if vs.len() > 0 {
            Ok(vs.drop_first())
        } else {
            Err(StructureError::EmptySequence)
        },
        SpecValue::LiteralList(vs) => if vs.len() > 0 {
            Ok(vs.drop_first())
        } else {
            Err(StructureError::EmptySequence)
        },
        _ => Err(StructureError::NotASequence),
    }
}

/// Whether a value is a literal atom.
pub open spec fn spec_is_atom(v: SpecValue) -> bool {
    match v {
        SpecValue::Number(_) => true,
        SpecValue::Text(_) => true,
        SpecValue::Bool(_) => true,
        SpecValue::Reserved(_) => true,
        _ => false,
    }
}

impl Value {
    /// `head`: the first element of an `Application` or `LiteralList`;
    /// fails with a `StructureError` on any other variant and on an empty
    /// sequence.
    pub fn car(&self) -> (r: Result<Value, StructureError>)
        ensures
            match r {
                Ok(v) => spec_car(self@) == Ok::<SpecValue, StructureError>(v@),
                Err(e) => spec_car(self@) == Err::<SpecValue, StructureError>(e),
            },
    {
        proof {
            lemma_value_group_views(self);
        }
        match self {
            Value::Application(vs) => {
                if vs.len() > 0 {
                    Ok(vs[0].clone())
                } else {
                    Err(StructureError::EmptySequence)
                }
            },
            Value::LiteralList(vs) => {
                if vs.len() > 0 {
                    Ok(vs[0].clone())
                } else {
                    Err(StructureError::EmptySequence)
                }
            },
            _ => Err(StructureError::NotASequence),
        }
    }

    /// `tail`: every element but the first of an `Application` or
    /// `LiteralList`, preserving order; fails with a `StructureError` on
    /// any other variant and on an empty sequence.
    pub fn cdr(&self) -> (r: Result<Vec<Value>, StructureError>)
        ensures
            match r {
                Ok(vs) => spec_cdr(self@) == Ok::<Seq<SpecValue>, StructureError>(values_view(vs@)),
                Err(e) => spec_cdr(self@) == Err::<Seq<SpecValue>, StructureError>(e),
            },
    {
        proof {
            lemma_value_group_views(self);
        }
        match self {
            Value::Application(vs) => {
                if vs.len() > 0 {
                    Ok(Self::tail_of(vs))
                } else {
                    Err(StructureError::EmptySequence)
                }
            },
            Value::LiteralList(vs) => {
                if vs.len() > 0 {
                    Ok(Self::tail_of(vs))
                } else {
                    Err(StructureError::EmptySequence)
                }
            },
            _ => Err(StructureError::NotASequence),
        }
    }

    fn tail_of(vs: &Vec<Value>) -> (r: Vec<Value>)
        requires
            vs@.len() > 0,
        ensures
            values_view(r@) == values_view(vs@).drop_first(),
    {
        let mut r: Vec<Value> = Vec::new();
        let mut i: usize = 1;
        while i < vs.len()
            invariant
                1 <= i <= vs@.len(),
                r@.len() == i - 1,
                forall|j: int| 0 <= j < i - 1 ==> #[trigger] r@[j]@ == vs@[j + 1]@,
            decreases vs@.len() - i,
        {
            r.push(vs[i].clone());
            i = i + 1;
        }
        proof {
            assert(values_view(r@) =~= values_view(vs@).drop_first());
        }
        r
    }

    /// Whether this value is a literal atom: a number, a text, a boolean
    /// or a reserved word.
    pub fn is_atom(&self) -> (r: bool)
        ensures
            r == spec_is_atom(self@),
    {
        match self {
            Value::Number(_) => true,
            Value::Text(_) => true,
            Value::Bool(_) => true,
            Value::Reserved(_) => true,
            _ => false,
        }
    }
}

/// Accessor-failure law: `head` and `tail` on an empty `Application` or
/// `LiteralList` always fail with the empty-sequence error, and on any
/// atom — a number, a text, a boolean or a reserved word — always fail
/// with the not-a-sequence error; they never succeed there.
pub proof fn lemma_accessors_fail(v: SpecValue)
    ensures
        (v matches SpecValue::Application(vs) && vs.len() == 0) ==> spec_car(v) == Err::<
            SpecValue,
            StructureError,
        >(StructureError::EmptySequence) && spec_cdr(v) == Err::<Seq<SpecValue>, StructureError>(
            StructureError::EmptySequence,
        ),
        (v matches SpecValue::LiteralList(vs) && vs.len() == 0) ==> spec_car(v) == Err::<
            SpecValue,
            StructureError,
        >(StructureError::EmptySequence) && spec_cdr(v) == Err::<Seq<SpecValue>, StructureError>(
            StructureError::EmptySequence,
        ),
        spec_is_atom(v) ==> spec_car(v) == Err::<SpecValue, StructureError>(
            StructureError::NotASequence,
        ) && spec_cdr(v) == Err::<Seq<SpecValue>, StructureError>(StructureError::NotASequence),
{
}

/// A structural-accessor or settings-extraction failure.
#[derive(Clone, Copy, Debug, PartialEq, Eq, Structural)]
pub enum StructureError {
    /// `car`/`cdr` on a value that is not an `Application` or a
    /// `LiteralList`.
    NotASequence,
    /// `car`/`cdr` on an empty `Application` or `LiteralList`.
    EmptySequence,
    /// A `cli` constant whose value has neither of the two accepted shapes.
    MalformedOptions,
    /// An option-setting form whose head is not a `Symbol`.
    OptionNameNotSymbol,
    /// An option-setting form with no trailing element or more than one.
    OptionArity,
    /// An option-setting form whose trailing element is not a boolean.
    OptionNotBoolean,
}

} // verus!
