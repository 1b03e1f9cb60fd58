//! The cell store: the formula map and the value map, with the write path
//! (store, evaluate the written cell at once) and the sweep that recomputes
//! every other cell after a change.
use vstd::prelude::*;

use crate::eval::{resolves_to, resolve_cell};
use crate::store::StrMap;
use crate::value::{Value, ValueModel};

verus! {

/// The formula-per-cell and value-per-cell maps.
pub struct Coordinator {
    expressions: StrMap<String>,
    cell_values: StrMap<Value>,
}

impl Coordinator {
    /// The stored formulas, by cell name.
    pub closed spec fn formulas(&self) -> Map<Seq<char>, Seq<char>> {
        self.expressions@
    }

    /// The stored values, by cell name.
    pub closed spec fn values(&self) -> Map<Seq<char>, ValueModel> {
        self.cell_values@
    }

    /// Both key sets are finite: each map holds finitely many entries.
    /// Callers need this to apply the evaluator's laws to a live store.
    pub proof fn lemma_maps_finite(&self)
        ensures
            self.formulas().dom().finite(),
            self.values().dom().finite(),
    {
        self.expressions.lemma_dom_finite();
        self.cell_values.lemma_dom_finite();
    }

    pub fn new() -> (r: Self)
        ensures
            r.formulas() == (Map::<Seq<char>, Seq<char>>::empty()),
            r.values() == (Map::<Seq<char>, ValueModel>::empty()),
    {
        Coordinator { expressions: StrMap::new(), cell_values: StrMap::new() }
    }

    /// A snapshot read of the value map; the empty value where no value has
    /// ever been stored. Never recomputes anything.
    pub fn get_cell(&self, cell_name: &str) -> (v: Value)
        ensures
            v@ == if self.values().dom().contains(cell_name@) {
                self.values()[cell_name@]
            } else {
                ValueModel::Empty
            },
    {
        match self.cell_values.get(cell_name) {
            Some(v) => v.duplicate(),
            None => Value::Empty,
        }
    }

    /// Store the formula, evaluate the written cell against the updated
    /// formula set at once, and store its value. Other cells are left to
    /// the sweep.
    pub fn set_cell(&mut self, cell_name: &str, expression: &str)
        ensures
            final(self).formulas() == old(self).formulas().insert(cell_name@, expression@),
            final(self).values() == old(self).values().insert(
                cell_name@,
                final(self).values()[cell_name@],
            ),
            resolves_to(
                final(self).formulas(),
                cell_name@,
                Set::empty(),
                final(self).values()[cell_name@],
            ),
    {
        self.expressions.insert(cell_name.to_owned(), expression.to_owned());
        let value = resolve_cell(&self.expressions, cell_name);
        self.cell_values.insert(cell_name.to_owned(), value);
    }

    /// One full sweep: recompute and store the value of every cell that has
    /// a formula, except the cell just changed (the write already stored its
    /// fresh value); cells without formulas keep whatever value they had.
    pub fn update_cell_values(&mut self, the_cell_name: &str)
        ensures
            final(self).formulas() == old(self).formulas(),
            forall|x: Seq<char>|
                #[trigger] final(self).values().dom().contains(x) <==> (old(self).values().dom().contains(x)
                    || (old(self).formulas().dom().contains(x) && x != the_cell_name@)),
            forall|x: Seq<char>|
                old(self).formulas().dom().contains(x) && x != the_cell_name@
                    ==> resolves_to(old(self).formulas(), x, Set::empty(), #[trigger] final(self).values()[x]),
            forall|x: Seq<char>|
                !(old(self).formulas().dom().contains(x) && x != the_cell_name@)
                    && old(self).values().dom().contains(x)
                    ==> #[trigger] final(self).values()[x] == old(self).values()[x],
    {
        let changed = the_cell_name.to_owned();
        let keys = self.expressions.keys();
        let ghost ks = keys@;
        let mut i: usize = 0;
        while i < keys.len()
            invariant
                0 <= i <= ks.len(),
                keys@ == ks,
                changed@ == the_cell_name@,
                self.expressions@ == old(self).formulas(),
                forall|j: int| 0 <= j < ks.len() ==> self.expressions@.dom().contains(
                    #[trigger] ks[j]@,
                ),
                forall|x: Seq<char>|
                    self.expressions@.dom().contains(x) ==> exists|j: int|
                        0 <= j < ks.len() && ks[j]@ == x,
                forall|x: Seq<char>|
                    #[trigger] self.cell_values@.dom().contains(x) <==> (old(self).values().dom().contains(x)
                        || (exists|j: int| 0 <= j < i && ks[j]@ == x && x != the_cell_name@)),
                forall|x: Seq<char>|
                    (exists|j: int| 0 <= j < i && ks[j]@ == x && x != the_cell_name@)
                        ==> resolves_to(old(self).formulas(), x, Set::empty(), #[trigger] self.cell_values@[x]),
                forall|x: Seq<char>|
                    !(exists|j: int| 0 <= j < i && ks[j]@ == x && x != the_cell_name@)
                        && old(self).values().dom().contains(x)
                        ==> #[trigger] self.cell_values@[x] == old(self).values()[x],
            decreases ks.len() - i,
        {
            let key = keys[i].clone();
            if !(key == changed) {
                let value = resolve_cell(&self.expressions, key.as_str());
                self.cell_values.insert(key, value);
            }
            i = i + 1;
        }
    }
}

} // verus!
