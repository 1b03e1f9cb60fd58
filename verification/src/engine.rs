//! The boundary to the outside formula engine. The engine parses a formula
//! text into the variable names it references and evaluates it under given
//! bindings; both are functions of their arguments alone, so their results
//! are named here and everything downstream is proved against those names.
use rsheet_lib::command_runner::{CellArgument, CellValue, CommandRunner};
use std::collections::HashMap;
use vstd::prelude::*;

use crate::value::{grid_views, strs_of, views_of, ArgModel, Value, ValueModel};

verus! {

/// The variable names the formula engine finds in a formula text, in the
/// order it reports them.
pub uninterp spec fn vars_of(expr: Seq<char>) -> Seq<Seq<char>>;

/// Whether the formula engine can return `result` when it runs a formula
/// text under given variable bindings. The engine's formula language can
/// reach more than its arguments (its standard library includes clock
/// functions), so its result is not named as a function of the inputs:
/// each run yields some value in this relation, and two runs on the same
/// arguments may yield different ones.
pub uninterp spec fn eval_outcome(
    expr: Seq<char>,
    binds: Map<Seq<char>, ArgModel>,
    result: ValueModel,
) -> bool;

/// The bindings a `Bindings` currently holds.
pub uninterp spec fn bindings_model(b: Bindings) -> Map<Seq<char>, ArgModel>;

/// Variable bindings in the form the formula engine takes them.
#[verifier::external_body]
pub struct Bindings {
    inner: HashMap<String, CellArgument>,
}

impl Bindings {
    /// Relies on std's `HashMap::new`: the new map is empty.
    #[verifier::external_body]
    pub fn new() -> (r: Bindings)
        ensures
            bindings_model(r) == (Map::<Seq<char>, ArgModel>::empty()),
    {
        Bindings { inner: HashMap::new() }
    }

    /// Relies on std's `HashMap::insert`: binds the name to the value,
    /// replacing any earlier binding.
    #[verifier::external_body]
    pub fn insert_value(&mut self, name: String, v: Value)
        ensures
            bindings_model(*final(self)) == bindings_model(*old(self)).insert(
                name@,
                ArgModel::Scalar(v@),
            ),
    {
        let cv = match v {
            Value::Empty => CellValue::None,
            Value::Int(i) => CellValue::Int(i),
            Value::Text(s) => CellValue::String(s),
            Value::Error(e) => CellValue::Error(e),
        };
        self.inner.insert(name, CellArgument::Value(cv));
    }

    /// Relies on std's `HashMap::insert`: binds the name to the vector,
    /// replacing any earlier binding.
    #[verifier::external_body]
    pub fn insert_vector(&mut self, name: String, vs: Vec<Value>)
        ensures
            bindings_model(*final(self)) == bindings_model(*old(self)).insert(
                name@,
                ArgModel::Vector(views_of(vs@)),
            ),
    {
        let items: Vec<CellValue> = vs.into_iter().map(|v| match v {
            Value::Empty => CellValue::None,
            Value::Int(i) => CellValue::Int(i),
            Value::Text(s) => CellValue::String(s),
            Value::Error(e) => CellValue::Error(e),
        }).collect();
        self.inner.insert(name, CellArgument::Vector(items));
    }

    /// Relies on std's `HashMap::insert`: binds the name to the matrix,
    /// replacing any earlier binding.
    #[verifier::external_body]
    pub fn insert_matrix(&mut self, name: String, m: Vec<Vec<Value>>)
        ensures
            bindings_model(*final(self)) == bindings_model(*old(self)).insert(
                name@,
                ArgModel::Matrix(grid_views(m@)),
            ),
    {
        let items: Vec<Vec<CellValue>> = m.into_iter().map(|row| row.into_iter().map(|v| match v {
            Value::Empty => CellValue::None,
            Value::Int(i) => CellValue::Int(i),
            Value::Text(s) => CellValue::String(s),
            Value::Error(e) => CellValue::Error(e),
        }).collect()).collect();
        self.inner.insert(name, CellArgument::Matrix(items));
    }
}

/// Relies on rsheet_lib's `CommandRunner::new` and `find_variables`: the
/// names found depend on the formula text alone.
#[verifier::external_body]
pub(crate) fn find_variables(expr: &str) -> (r: Vec<String>)
    ensures
        strs_of(r@) == vars_of(expr@),
{
    CommandRunner::new(expr).find_variables()
}

/// Relies on rsheet_lib's `CommandRunner::new` and `run`: one run of the
/// engine on this formula text and these bindings, whose result is one
/// outcome of that run. The engine's own helper functions may also panic
/// (unchecked sums) or sleep at the formula's request; nothing here
/// promises otherwise.
#[verifier::external_body]
pub(crate) fn eval(expr: &str, binds: &Bindings) -> (r: Value)
    ensures
        eval_outcome(expr@, bindings_model(*binds), r@),
{
    match CommandRunner::new(expr).run(&binds.inner) {
        CellValue::None => Value::Empty,
        CellValue::Int(i) => Value::Int(i),
        CellValue::String(s) => Value::Text(s),
        CellValue::Error(e) => Value::Error(e),
    }
}

} // verus!
