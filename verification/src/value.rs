//! The host-visible result values: a plain tagged union with no closures,
//! macros, or native functions; those collapse to opaque placeholders.
use vstd::prelude::*;

verus! {

use crate::env::ModelId;
use crate::expr::{Expr, ExprV, exprs_view, lemma_exprs_view};
use vstd::string::StringExecFns;

/// A value as surfaced to the host.  A double keeps the text of its literal;
/// the host converts it to its own floating-point type.
#[derive(Debug, PartialEq)]
pub enum Value {
    Integer(i64),
    Double(String),
    Stl(ModelId),
    String(String),
    Symbol(String),
    List(Vec<Value>),
}

/// The mathematical model of a host-visible value.
pub enum ValueV {
    Integer(i64),
    Double(Seq<char>),
    Stl(ModelId),
    String(Seq<char>),
    Symbol(Seq<char>),
    List(Seq<ValueV>),
}

pub open spec fn values_view(s: Seq<Value>) -> Seq<ValueV>
    decreases s,
{
    if s.len() == 0 {
        Seq::empty()
    } else {
        values_view(s.drop_last()).push(value_view(s.last()))
    }
}

pub open spec fn value_view(v: Value) -> ValueV
    decreases v,
{
    match v {
        Value::Integer(n) => ValueV::Integer(n),
        Value::Double(t) => ValueV::Double(t@),
        Value::Stl(id) => ValueV::Stl(id),
        Value::String(s) => ValueV::String(s@),
        Value::Symbol(s) => ValueV::Symbol(s@),
        Value::List(vs) => ValueV::List(values_view(vs@)),
    }
}

impl View for Value {
    type V = ValueV;

    open spec fn view(&self) -> ValueV {
        value_view(*self)
    }
}

/// `values_view` is the element-wise view of the sequence.
pub broadcast proof fn lemma_values_view(s: Seq<Value>)
    ensures
        (#[trigger] values_view(s)).len() == s.len(),
        forall|i: int| 0 <= i < s.len() ==> values_view(s)[i] == value_view(s[i]),
    decreases s,
{
    if s.len() > 0 {
        lemma_values_view(s.drop_last());
    }
}

/// What casting an evaluated expression to a host value yields.
pub open spec fn spec_cast(e: ExprV) -> ValueV
    decreases e,
{
    match e {
        ExprV::Integer { value, .. } => ValueV::Integer(value),
        ExprV::Double { text, .. } => ValueV::Double(text),
        ExprV::Model { id, .. } => ValueV::Stl(id),
        ExprV::String { value, .. } => ValueV::String(value),
        ExprV::Symbol { name, .. } => ValueV::Symbol(name),
        ExprV::List { elements, .. } => ValueV::List(spec_cast_seq(elements)),
        ExprV::Quote { expr, .. } => spec_cast(*expr),
        ExprV::Quasiquote { expr, .. } => spec_cast(*expr),
        ExprV::Unquote { expr, .. } => spec_cast(*expr),
        ExprV::Builtin { name } => ValueV::Symbol("<builtin "@ + name + ">"@),
        ExprV::SpecialForm { name } => ValueV::Symbol("<special form "@ + name + ">"@),
        ExprV::Clausure { .. } => ValueV::Symbol("<closure>"@),
        ExprV::Macro { .. } => ValueV::Symbol("<macro>"@),
    }
}

pub open spec fn spec_cast_seq(s: Seq<ExprV>) -> Seq<ValueV>
    decreases s,
{
    if s.len() == 0 {
        Seq::empty()
    } else {
        spec_cast_seq(s.drop_last()).push(spec_cast(s.last()))
    }
}

proof fn lemma_spec_cast_seq(s: Seq<ExprV>)
    ensures
        spec_cast_seq(s).len() == s.len(),
        forall|i: int| 0 <= i < s.len() ==> spec_cast_seq(s)[i] == spec_cast(s[i]),
    decreases s,
{
    if s.len() > 0 {
        lemma_spec_cast_seq(s.drop_last());
    }
}

/// Casts an evaluated expression to the host-visible value.
#[verifier::loop_isolation(false)]
pub fn cast_evaled(expr: &Expr) -> (r: Value)
    ensures
        r@ == spec_cast(expr@),
    decreases expr,
{
    broadcast use lemma_exprs_view, lemma_values_view;

    match expr {
        Expr::Integer { value, .. } => Value::Integer(*value),
        Expr::Double { text, .. } => Value::Double(text.clone()),
        Expr::Model { id, .. } => Value::Stl(*id),
        Expr::String { value, .. } => Value::String(value.clone()),
        Expr::Symbol { name, .. } => Value::Symbol(name.clone()),
        Expr::List { elements, .. } => {
            let ghost ev = exprs_view(elements@);
            let mut out: Vec<Value> = Vec::new();
            let mut i: usize = 0;
            proof {
                lemma_spec_cast_seq(ev);
                assert(values_view(out@) =~= spec_cast_seq(ev.subrange(0, 0)));
            }
            while i < elements.len()
                invariant
                    i <= elements@.len() == ev.len(),
                    values_view(out@) == spec_cast_seq(ev.subrange(0, i as int)),
                decreases elements@.len() - i,
            {
                let v = cast_evaled(&elements[i]);
                let ghost prevout = out@;
                out.push(v);
                proof {
                    assert(values_view(out@) =~= values_view(prevout).push(value_view(
                        out@.last(),
                    )));
                    assert(ev.subrange(0, i + 1 as int).drop_last() =~= ev.subrange(0, i as int));
                    assert(ev.subrange(0, i + 1 as int).last() == ev[i as int]);
                }
                i = i + 1;
            }
            proof {
                assert(ev.subrange(0, ev.len() as int) =~= ev);
            }
            Value::List(out)
        },
        Expr::Quote { expr: inner, .. } => cast_evaled(inner),
        Expr::Quasiquote { expr: inner, .. } => cast_evaled(inner),
        Expr::Unquote { expr: inner, .. } => cast_evaled(inner),
        Expr::Builtin { name } => {
            let s = String::from_str("<builtin ").concat(name.as_str()).concat(">");
            Value::Symbol(s)
        },
        Expr::SpecialForm { name } => {
            let s = String::from_str("<special form ").concat(name.as_str()).concat(">");
            Value::Symbol(s)
        },
        Expr::Clausure { .. } => Value::Symbol(String::from_str("<closure>")),
        Expr::Macro { .. } => Value::Symbol(String::from_str("<macro>")),
    }
}

/// The outcome of one evaluation run, as handed to the host: the last
/// expression's value, the current frame's mesh store entries, and its
/// preview worklist.
#[derive(Debug)]
pub struct Evaled {
    pub value: Value,
    pub polys: Vec<(ModelId, u64)>,
    pub previews: Vec<ModelId>,
}

} // verus!
