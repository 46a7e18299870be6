//! Runtime values and failures.
use vstd::prelude::*;

use crate::func::{copy_func, func_model, Func, FuncModel};
use crate::types::{Type, TypeModel};

verus! {

broadcast use vstd::std_specs::vec::group_vec_axioms;

/// A runtime value.
#[derive(Debug)]
pub enum Value {
    Num(i64),
    Str(String),
    List(Vec<Value>),
    Type(Type),
    Func(Func),
}

/// The mathematical value of a `Value`.
pub enum ValueModel {
    Num(int),
    Str(Seq<char>),
    List(Seq<ValueModel>),
    Type(TypeModel),
    Func(FuncModel),
}

pub open spec fn value_model(v: Value) -> ValueModel
    decreases v,
{
    match v {
        Value::Num(n) => ValueModel::Num(n as int),
        Value::Str(s) => ValueModel::Str(s@),
        Value::List(vs) => ValueModel::List(
            Seq::new(
                vs@.len(),
                |i: int|
                    if 0 <= i < vs@.len() {
                        value_model(vs@[i])
                    } else {
                        ValueModel::Num(0)
                    },
            ),
        ),
        Value::Type(t) => ValueModel::Type(t@),
        Value::Func(f) => ValueModel::Func(func_model(f)),
    }
}

impl View for Value {
    type V = ValueModel;

    open spec fn view(&self) -> ValueModel {
        value_model(*self)
    }
}

/// The models of a list of values.
pub open spec fn values_model(vs: Seq<Value>) -> Seq<ValueModel> {
    Seq::new(vs.len(), |i: int| vs[i]@)
}

pub proof fn lemma_list_model(vs: Vec<Value>)
    ensures
        Value::List(vs)@ == ValueModel::List(values_model(vs@)),
{
    let m = Value::List(vs)@;
    assert(m->List_0 =~= values_model(vs@));
}

/// A copy of `v` with the same model.
pub fn copy_value(v: &Value) -> (r: Value)
    ensures
        r@ == v@,
    decreases v,
{
    match v {
        Value::Num(n) => Value::Num(*n),
        Value::Str(s) => Value::Str(s.clone()),
        Value::List(vs) => {
            let mut out: Vec<Value> = Vec::new();
            let mut k: usize = 0;
            assert(values_model(out@) =~= values_model(vs@).take(0));
            while k < vs.len()
                invariant
                    *v == Value::List(*vs),
                    k <= vs.len(),
                    values_model(out@) == values_model(vs@).take(k as int),
                decreases vs.len() - k,
            {
                proof {
                    assert(decreases_to!(*v => v->List_0));
                    assert(decreases_to!(*vs => vs@[k as int]));
                }
                let ghost before = values_model(out@);
                out.push(copy_value(&vs[k]));
                assert(values_model(out@) =~= values_model(vs@).take(k + 1)) by {
                    assert(values_model(out@).drop_last() =~= before);
                }
                k = k + 1;
            }
            proof {
                assert(values_model(vs@).take(vs.len() as int) =~= values_model(vs@));
                lemma_list_model(out);
                lemma_list_model(*vs);
            }
            Value::List(out)
        },
        Value::Type(t) => Value::Type(t.clone()),
        Value::Func(f) => Value::Func(copy_func(f)),
    }
}

impl Clone for Value {
    fn clone(&self) -> (r: Self)
        ensures
            r@ == self@,
    {
        copy_value(self)
    }
}

/// Why an operation failed.
#[derive(Debug)]
pub enum Fault {
    /// Malformed annotation, lambda or type text, or an invalid identifier.
    Syntax,
    /// Wrong number of arguments to a built-in.
    ArgLen,
    /// A name that is not bound.
    Refer(String),
    /// An effect-registered name used while the context is pure.
    Pure(String),
    /// A value that does not have the expected shape, and the type expected.
    Type(Value, Type),
}

/// The runtime type of a value.
pub open spec fn type_of_model(v: ValueModel) -> TypeModel {
    match v {
        ValueModel::Num(_) => TypeModel::Num,
        ValueModel::Str(_) => TypeModel::Str,
        ValueModel::List(_) => TypeModel::List(None),
        ValueModel::Type(_) => TypeModel::Kind,
        ValueModel::Func(FuncModel::UserDefined(_, _, t)) => t,
        ValueModel::Func(FuncModel::BuiltIn(_)) => TypeModel::Func(None, crate::types::Mode::Pure),
    }
}

impl Value {
    /// The runtime type of the value.
    pub fn type_of(&self) -> (r: Type)
        ensures
            r@ == type_of_model(self@),
    {
        match self {
            Value::Num(n) => {
                assert(self@ == ValueModel::Num(*n as int));
                Type::Num
            },
            Value::Str(_) => Type::Str,
            Value::List(vs) => {
                proof {
                    lemma_list_model(*vs);
                }
                Type::List(None)
            },
            Value::Type(_) => Type::Kind,
            Value::Func(f) => {
                assert(self@ == ValueModel::Func(f@));
                match f {
                    Func::UserDefined(_, _, t) => t.clone(),
                    Func::BuiltIn(_) => Type::Func(None, crate::types::Mode::Pure),
                }
            },
        }
    }
}

} // verus!
