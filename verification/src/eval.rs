//! The evaluator: resolves a cell's value from the current formula set.
//! Every variable a formula references is bound first — a plain name by
//! resolving that cell recursively, a range name by resolving each cell of
//! the span — and the formula engine is then asked for the value. A name
//! re-entered while it is still being resolved yields the circular error.
//!
//! The engine's result is not a function of its arguments (its formula
//! language can reach the clock), so the model here is a relation: what a
//! resolution *can* yield. Every run of the evaluator yields a value in
//! that relation for the formula set it ran against.
use vstd::prelude::*;

use crate::engine;
use crate::engine::{bindings_model, eval_outcome, vars_of, Bindings};
use crate::names::{cell_name, cell_name_of, parse_range, parse_range_name};
use crate::store::{StrMap, Visited};
use crate::value::{circular_message, views_of, Value, ValueModel};
use crate::value::{grid_views, ArgModel};

verus! {

/// How many formulas are not yet on the active resolution path; every step
/// deeper moves one name onto the path, so resolution bottoms out.
pub open spec fn metric(exprs: Map<Seq<char>, Seq<char>>, visited: Set<Seq<char>>) -> nat {
    exprs.dom().difference(visited).len()
}

pub open spec fn wf_state(exprs: Map<Seq<char>, Seq<char>>, visited: Set<Seq<char>>) -> bool {
    exprs.dom().finite() && visited.finite()
}

/// Whether resolving the cell `name` under the formula set `exprs` can
/// yield `v`, with `visited` the names already on the active resolution
/// path: the circular error on re-entry, the empty value where no formula
/// is stored, and otherwise an engine outcome for the stored formula under
/// bindings built for every name it references.
pub open spec fn resolves_to(
    exprs: Map<Seq<char>, Seq<char>>,
    name: Seq<char>,
    visited: Set<Seq<char>>,
    v: ValueModel,
) -> bool
    decreases metric(exprs, visited), 0nat, 0nat,
        when wf_state(exprs, visited)
        via resolves_to_decreases
{
    if visited.contains(name) {
        v == ValueModel::Error(circular_message())
    } else if exprs.dom().contains(name) {
        exists|binds: Map<Seq<char>, ArgModel>|
            binds_to(exprs, vars_of(exprs[name]), visited.insert(name), binds) && #[trigger] eval_outcome(
                exprs[name],
                binds,
                v,
            )
    } else {
        v == ValueModel::Empty
    }
}

#[via_fn]
proof fn resolves_to_decreases(
    exprs: Map<Seq<char>, Seq<char>>,
    name: Seq<char>,
    visited: Set<Seq<char>>,
    v: ValueModel,
) {
    if !visited.contains(name) && exprs.dom().contains(name) {
        exprs.dom().lemma_set_insert_diff_decreases(visited, name);
    }
}

/// Whether `vs` is a possible line of values down one column, rows `r1`
/// through `r2`.
pub open spec fn col_line_to(
    exprs: Map<Seq<char>, Seq<char>>,
    col: int,
    r1: int,
    r2: int,
    visited: Set<Seq<char>>,
    vs: Seq<ValueModel>,
) -> bool
    decreases metric(exprs, visited), 1nat, 0nat,
        when wf_state(exprs, visited)
{
    vs.len() == (if r1 <= r2 { r2 - r1 + 1 } else { 0 }) && forall|i: int|
        0 <= i < vs.len() ==> resolves_to(
            exprs,
            cell_name(col as nat, (r1 + i) as nat),
            visited,
            #[trigger] vs[i],
        )
}

/// Whether `vs` is a possible line of values along one row, columns `c1`
/// through `c2`.
pub open spec fn row_line_to(
    exprs: Map<Seq<char>, Seq<char>>,
    c1: int,
    c2: int,
    row: int,
    visited: Set<Seq<char>>,
    vs: Seq<ValueModel>,
) -> bool
    decreases metric(exprs, visited), 1nat, 0nat,
        when wf_state(exprs, visited)
{
    vs.len() == (if c1 <= c2 { c2 - c1 + 1 } else { 0 }) && forall|i: int|
        0 <= i < vs.len() ==> resolves_to(
            exprs,
            cell_name((c1 + i) as nat, row as nat),
            visited,
            #[trigger] vs[i],
        )
}

/// The one-dimensional binding a range can yield when its endpoints share
/// a column or a row: down the column if the columns agree, else along the
/// row of the first endpoint.
pub open spec fn vector_to(
    exprs: Map<Seq<char>, Seq<char>>,
    c1: u32,
    r1: u32,
    c2: u32,
    r2: u32,
    visited: Set<Seq<char>>,
    vs: Seq<ValueModel>,
) -> bool
    decreases metric(exprs, visited), 2nat, 0nat,
        when wf_state(exprs, visited)
{
    if c1 == c2 {
        col_line_to(exprs, c1 as int, r1 as int, r2 as int, visited, vs)
    } else {
        row_line_to(exprs, c1 as int, c2 as int, r1 as int, visited, vs)
    }
}

/// The two-dimensional binding a rectangular range can yield: rows `r1`
/// through `r2`, each a row line over columns `c1` through `c2`.
pub open spec fn matrix_to(
    exprs: Map<Seq<char>, Seq<char>>,
    c1: int,
    c2: int,
    r1: int,
    r2: int,
    visited: Set<Seq<char>>,
    rows: Seq<Seq<ValueModel>>,
) -> bool
    decreases metric(exprs, visited), 2nat, 0nat,
        when wf_state(exprs, visited)
{
    rows.len() == (if r1 <= r2 { r2 - r1 + 1 } else { 0 }) && forall|i: int|
        0 <= i < rows.len() ==> row_line_to(exprs, c1, c2, r1 + i, visited, #[trigger] rows[i])
}

/// Whether `a` is a possible binding for one referenced name: a vector or
/// matrix where the name reads as a range, else the resolved value of that
/// single cell.
pub open spec fn binding_to(
    exprs: Map<Seq<char>, Seq<char>>,
    var: Seq<char>,
    visited: Set<Seq<char>>,
    a: ArgModel,
) -> bool
    decreases metric(exprs, visited), 3nat, 0nat,
        when wf_state(exprs, visited)
{
    match parse_range(var) {
        Some(((c1, r1), (c2, r2))) => {
            if c1 == c2 || r1 == r2 {
                a matches ArgModel::Vector(vs) && vector_to(exprs, c1, r1, c2, r2, visited, vs)
            } else {
                a matches ArgModel::Matrix(rows) && matrix_to(
                    exprs,
                    c1 as int,
                    c2 as int,
                    r1 as int,
                    r2 as int,
                    visited,
                    rows,
                )
            }
        },
        None => a matches ArgModel::Scalar(v) && resolves_to(exprs, var, visited, v),
    }
}

/// Whether `binds` is a possible set of bindings for a list of referenced
/// names: exactly those names are bound, each to a possible binding for
/// itself.
pub open spec fn binds_to(
    exprs: Map<Seq<char>, Seq<char>>,
    vars: Seq<Seq<char>>,
    visited: Set<Seq<char>>,
    binds: Map<Seq<char>, ArgModel>,
) -> bool
    decreases metric(exprs, visited), 4nat, 0nat,
        when wf_state(exprs, visited)
{
    (forall|x: Seq<char>| #[trigger] binds.dom().contains(x) <==> vars.contains(x)) && forall|
        i: int,
    |
        0 <= i < vars.len() ==> binding_to(exprs, vars[i], visited, #[trigger] binds[vars[i]])
}

/// An engine outcome under well-formed bindings is a resolution of the
/// cell: the introduction form of `resolves_to` for a cell that holds a
/// formula and is not yet on the path.
pub proof fn lemma_resolves_to_fold(
    exprs: Map<Seq<char>, Seq<char>>,
    name: Seq<char>,
    visited: Set<Seq<char>>,
    binds: Map<Seq<char>, ArgModel>,
    v: ValueModel,
)
    requires
        exprs.dom().finite(),
        visited.finite(),
        !visited.contains(name),
        exprs.dom().contains(name),
        binds_to(exprs, vars_of(exprs[name]), visited.insert(name), binds),
        eval_outcome(exprs[name], binds, v),
    ensures
        resolves_to(exprs, name, visited, v),
{
    assert(exists|b0: Map<Seq<char>, ArgModel>|
        binds_to(exprs, vars_of(exprs[name]), visited.insert(name), b0) && #[trigger] eval_outcome(
            exprs[name],
            b0,
            v,
        ));
    assert(resolves_to(exprs, name, visited, v));
}

/// Every resolution of a cell that holds a formula and is not yet on the
/// path passes through some well-formed bindings and an engine outcome for
/// them: the elimination form of `resolves_to`.
pub proof fn lemma_resolves_to_unfold(
    exprs: Map<Seq<char>, Seq<char>>,
    name: Seq<char>,
    visited: Set<Seq<char>>,
    v: ValueModel,
) -> (binds: Map<Seq<char>, ArgModel>)
    requires
        exprs.dom().finite(),
        visited.finite(),
        !visited.contains(name),
        exprs.dom().contains(name),
        resolves_to(exprs, name, visited, v),
    ensures
        binds_to(exprs, vars_of(exprs[name]), visited.insert(name), binds),
        eval_outcome(exprs[name], binds, v),
{
    choose|binds: Map<Seq<char>, ArgModel>|
        binds_to(exprs, vars_of(exprs[name]), visited.insert(name), binds) && #[trigger] eval_outcome(
            exprs[name],
            binds,
            v,
        )
}

/// Resolve one cell recursively; the result is a possible resolution under
/// the formula set as it stands, and the visited set comes back exactly as
/// it went in.
pub fn calculate_cell_value(exprs: &StrMap<String>, name: &str, visited: &mut Visited) -> (v:
    Value)
    requires
        old(visited).wf(),
    ensures
        resolves_to(exprs@, name@, old(visited)@, v@),
        final(visited)@ == old(visited)@,
        final(visited).wf(),
    decreases metric(exprs@, visited@), 0nat, 0nat,
{
    proof {
        exprs.lemma_dom_finite();
        visited.lemma_finite();
    }
    if visited.contains(name) {
        return crate::value::circular_error();
    }
    match exprs.get(name) {
        None => Value::Empty,
        Some(e) => {
            let expr = e.clone();
            proof {
                exprs@.dom().lemma_set_insert_diff_decreases(old(visited)@, name@);
            }
            visited.insert(name.to_owned());
            let binds = calculate_variables(exprs, expr.as_str(), visited);
            visited.remove(name);
            proof {
                assert(final(visited)@ =~= old(visited)@);
            }
            let v = engine::eval(expr.as_str(), &binds);
            proof {
                assert(binds_to(
                    exprs@,
                    vars_of(exprs@[name@]),
                    old(visited)@.insert(name@),
                    bindings_model(binds),
                ) && eval_outcome(exprs@[name@], bindings_model(binds), v@));
                lemma_resolves_to_fold(
                    exprs@,
                    name@,
                    old(visited)@,
                    bindings_model(binds),
                    v@,
                );
            }
            v
        },
    }
}

/// Build bindings for every name the formula references.
fn calculate_variables(exprs: &StrMap<String>, expression: &str, visited: &mut Visited) -> (b:
    Bindings)
    requires
        old(visited).wf(),
    ensures
        binds_to(exprs@, vars_of(expression@), old(visited)@, bindings_model(b)),
        final(visited)@ == old(visited)@,
        final(visited).wf(),
    decreases metric(exprs@, visited@), 4nat, 0nat,
{
    proof {
        exprs.lemma_dom_finite();
        visited.lemma_finite();
    }
    let vars = engine::find_variables(expression);
    let ghost vs = vars_of(expression@);
    let mut b = Bindings::new();
    let mut i: usize = 0;
    while i < vars.len()
        invariant
            0 <= i <= vars@.len(),
            crate::value::strs_of(vars@) == vs,
            vs == vars_of(expression@),
            visited@ == old(visited)@,
            visited.wf(),
            exprs@.dom().finite(),
            old(visited)@.finite(),
            forall|x: Seq<char>| #[trigger] bindings_model(b).dom().contains(x) <==> vs.take(
                i as int,
            ).contains(x),
            forall|j: int|
                0 <= j < i ==> binding_to(
                    exprs@,
                    vs[j],
                    old(visited)@,
                    #[trigger] bindings_model(b)[vs[j]],
                ),
        decreases vars@.len() - i,
    {
        let var = vars[i].clone();
        proof {
            assert(vs[i as int] == var@);
        }
        let ghost m0 = bindings_model(b);
        match parse_range_name(var.as_str()) {
            Some(((c1, r1), (c2, r2))) => {
                if c1 == c2 || r1 == r2 {
                    let vals = get_vector_value(exprs, c1, r1, c2, r2, visited);
                    b.insert_vector(var, vals);
                } else {
                    let m = get_matrix_value(exprs, c1, r1, c2, r2, visited);
                    b.insert_matrix(var, m);
                }
            },
            None => {
                let v = calculate_cell_value(exprs, var.as_str(), visited);
                b.insert_value(var, v);
            },
        }
        proof {
            assert(binding_to(exprs@, vs[i as int], old(visited)@, bindings_model(b)[vs[i as int]]));
            assert forall|x: Seq<char>| #[trigger] bindings_model(b).dom().contains(x) <==> vs.take(
                i as int + 1,
            ).contains(x) by {
                if bindings_model(b).dom().contains(x) && x != vs[i as int] {
                    let j = vs.take(i as int).index_of(x);
                    assert(vs.take(i as int + 1)[j] == x);
                }
                if x == vs[i as int] {
                    assert(vs.take(i as int + 1)[i as int] == x);
                }
                if vs.take(i as int + 1).contains(x) {
                    let j = vs.take(i as int + 1).index_of(x);
                    if j < i && x != vs[i as int] {
                        assert(vs.take(i as int)[j] == x);
                    }
                }
            }
            assert forall|j: int|
                0 <= j < i + 1 implies binding_to(
                exprs@,
                vs[j],
                old(visited)@,
                #[trigger] bindings_model(b)[vs[j]],
            ) by {
                if vs[j] == vs[i as int] {
                    assert(bindings_model(b)[vs[j]] == bindings_model(b)[vs[i as int]]);
                } else {
                    assert(bindings_model(b)[vs[j]] == m0[vs[j]]);
                }
            }
        }
        i = i + 1;
    }
    proof {
        assert(vs.take(vars@.len() as int) =~= vs);
    }
    b
}

/// Read the values of a line range, cell by cell: down the column when the
/// endpoints share one, else along the row of the first endpoint.
fn get_vector_value(
    exprs: &StrMap<String>,
    col_start: u32,
    row_start: u32,
    col_end: u32,
    row_end: u32,
    visited: &mut Visited,
) -> (r: Vec<Value>)
    requires
        old(visited).wf(),
    ensures
        vector_to(exprs@, col_start, row_start, col_end, row_end, old(visited)@, views_of(r@)),
        final(visited)@ == old(visited)@,
        final(visited).wf(),
    decreases metric(exprs@, visited@), 2nat, 0nat,
{
    proof {
        exprs.lemma_dom_finite();
        visited.lemma_finite();
    }
    let mut out: Vec<Value> = Vec::new();
    if col_start == col_end {
        let mut row: u64 = row_start as u64;
        while row <= row_end as u64
            invariant
                row_start as u64 <= row,
                row <= row_end as u64 + 1 || row == row_start as u64,
                visited@ == old(visited)@,
                visited.wf(),
                exprs@.dom().finite(),
                old(visited)@.finite(),
                out@.len() == row - row_start as u64,
                forall|j: int|
                    0 <= j < out@.len() ==> resolves_to(
                        exprs@,
                        cell_name(col_start as nat, (row_start + j) as nat),
                        old(visited)@,
                        #[trigger] out@[j]@,
                    ),
            decreases row_end as u64 + 1 - row,
        {
            let name = cell_name_of(col_start, row as u32);
            let v = calculate_cell_value(exprs, name.as_str(), visited);
            out.push(v);
            row = row + 1;
        }
    } else {
        let mut col: u64 = col_start as u64;
        while col <= col_end as u64
            invariant
                col_start as u64 <= col,
                col <= col_end as u64 + 1 || col == col_start as u64,
                visited@ == old(visited)@,
                visited.wf(),
                exprs@.dom().finite(),
                old(visited)@.finite(),
                out@.len() == col - col_start as u64,
                forall|j: int|
                    0 <= j < out@.len() ==> resolves_to(
                        exprs@,
                        cell_name((col_start + j) as nat, row_start as nat),
                        old(visited)@,
                        #[trigger] out@[j]@,
                    ),
            decreases col_end as u64 + 1 - col,
        {
            let name = cell_name_of(col as u32, row_start);
            let v = calculate_cell_value(exprs, name.as_str(), visited);
            out.push(v);
            col = col + 1;
        }
    }
    proof {
        assert(forall|j: int| 0 <= j < out@.len() ==> views_of(out@)[j] == #[trigger] out@[j]@);
    }
    out
}

/// Read the values of a rectangular range, row line by row line.
fn get_matrix_value(
    exprs: &StrMap<String>,
    col_start: u32,
    row_start: u32,
    col_end: u32,
    row_end: u32,
    visited: &mut Visited,
) -> (r: Vec<Vec<Value>>)
    requires
        old(visited).wf(),
        col_start != col_end,
    ensures
        matrix_to(
            exprs@,
            col_start as int,
            col_end as int,
            row_start as int,
            row_end as int,
            old(visited)@,
            grid_views(r@),
        ),
        final(visited)@ == old(visited)@,
        final(visited).wf(),
    decreases metric(exprs@, visited@), 3nat, 0nat,
{
    proof {
        exprs.lemma_dom_finite();
        visited.lemma_finite();
    }
    let mut out: Vec<Vec<Value>> = Vec::new();
    let mut row: u64 = row_start as u64;
    while row <= row_end as u64
        invariant
            row_start as u64 <= row,
            row <= row_end as u64 + 1 || row == row_start as u64,
            col_start != col_end,
            visited@ == old(visited)@,
            visited.wf(),
            exprs@.dom().finite(),
            old(visited)@.finite(),
            out@.len() == row - row_start as u64,
            forall|j: int|
                0 <= j < out@.len() ==> row_line_to(
                    exprs@,
                    col_start as int,
                    col_end as int,
                    row_start + j,
                    old(visited)@,
                    #[trigger] views_of(out@[j]@),
                ),
        decreases row_end as u64 + 1 - row,
    {
        let line = get_vector_value(exprs, col_start, row as u32, col_end, row as u32, visited);
        out.push(line);
        row = row + 1;
    }
    proof {
        assert(forall|j: int|
            0 <= j < out@.len() ==> grid_views(out@)[j] == views_of(#[trigger] out@[j]@));
    }
    out
}

/// Resolve one cell with a fresh visited set: the whole of one evaluation
/// call, as the store runs it on a write and on each step of a sweep.
pub fn resolve_cell(exprs: &StrMap<String>, name: &str) -> (v: Value)
    ensures
        resolves_to(exprs@, name@, Set::empty(), v@),
{
    let mut visited = Visited::new();
    calculate_cell_value(exprs, name, &mut visited)
}

} // verus!
