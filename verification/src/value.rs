//! The value a cell evaluates to, and the binding shapes a formula's
//! variables can take.
use vstd::prelude::*;

verus! {

/// What one evaluation of a formula yields: nothing, an integer, a piece of
/// text, or an error message.
#[derive(Debug, PartialEq, Eq)]
pub enum Value {
    Empty,
    Int(i64),
    Text(String),
    Error(String),
}

/// The mathematical shape of a `Value`.
pub enum ValueModel {
    Empty,
    Int(int),
    Text(Seq<char>),
    Error(Seq<char>),
}

impl View for Value {
    type V = ValueModel;

    open spec fn view(&self) -> ValueModel {
        match self {
            Value::Empty => ValueModel::Empty,
            Value::Int(i) => ValueModel::Int(*i as int),
            Value::Text(s) => ValueModel::Text(s@),
            Value::Error(e) => ValueModel::Error(e@),
        }
    }
}

impl Value {
    /// A structural copy; `Value` owns strings, so `Clone` alone would say
    /// nothing about the result.
    pub fn duplicate(&self) -> (r: Value)
        ensures
            r@ == self@,
    {
        match self {
            Value::Empty => Value::Empty,
            Value::Int(i) => Value::Int(*i),
            Value::Text(s) => Value::Text(s.clone()),
            Value::Error(e) => Value::Error(e.clone()),
        }
    }
}

/// The views of a sequence of values.
pub open spec fn views_of(s: Seq<Value>) -> Seq<ValueModel> {
    s.map_values(|v: Value| v@)
}

/// The views of a grid of values, row by row.
pub open spec fn grid_views(s: Seq<Vec<Value>>) -> Seq<Seq<ValueModel>> {
    s.map_values(|row: Vec<Value>| views_of(row@))
}

/// The views of a sequence of strings.
pub open spec fn strs_of(s: Seq<String>) -> Seq<Seq<char>> {
    s.map_values(|t: String| t@)
}

/// The binding a formula variable receives: one value, a line of values, or
/// a rectangle of values.
pub enum ArgModel {
    Scalar(ValueModel),
    Vector(Seq<ValueModel>),
    Matrix(Seq<Seq<ValueModel>>),
}

/// The message carried by the error value that marks a circular reference.
pub open spec fn circular_message() -> Seq<char> {
    "Circular dependency detected"@
}

/// The error value the evaluator stores when it re-enters a cell that is
/// already on the active resolution path.
pub fn circular_error() -> (r: Value)
    ensures
        r@ == ValueModel::Error(circular_message()),
{
    Value::Error("Circular dependency detected".to_owned())
}

} // verus!
