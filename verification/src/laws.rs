//! Laws of the evaluator, stated and proved against its model: what a
//! formula without references can resolve to, what self-references and
//! mutual references earn, what an unset cell reads as, and that a
//! repeated write stores nothing new. The engine's result is a relation,
//! not a function, so each law characterises the possible resolutions.
use vstd::prelude::*;

use crate::engine::{eval_outcome, vars_of};
use crate::eval::{
    binding_to, binds_to, lemma_resolves_to_fold, lemma_resolves_to_unfold, resolves_to,
};
use crate::names::parse_range;
use crate::value::{circular_message, ArgModel, ValueModel};

verus! {

/// A one-name list contains exactly that name.
proof fn lemma_singleton_vars(vars: Seq<Seq<char>>, a: Seq<char>)
    requires
        vars == seq![a],
    ensures
        forall|x: Seq<char>| #[trigger] vars.contains(x) <==> x == a,
{
    assert(vars[0] == a);
    assert forall|x: Seq<char>| #[trigger] vars.contains(x) implies x == a by {
        let j = vars.index_of(x);
        assert(vars[j] == x);
    }
    assert forall|x: Seq<char>| x == a implies #[trigger] vars.contains(x) by {
        assert(vars[0] == x);
    }
}

/// A formula that references no cells resolves to exactly the engine's
/// direct outcomes for its text under no bindings, whatever else is
/// stored: binding construction contributes nothing.
pub proof fn lemma_plain_formula(exprs: Map<Seq<char>, Seq<char>>, name: Seq<char>, f: Seq<char>)
    requires
        exprs.dom().finite(),
        vars_of(f).len() == 0,
    ensures
        forall|v: ValueModel|
            resolves_to(exprs.insert(name, f), name, Set::empty(), v) <==> eval_outcome(
                f,
                Map::empty(),
                v,
            ),
{
    let e2 = exprs.insert(name, f);
    let vis = Set::<Seq<char>>::empty().insert(name);
    let none: Map<Seq<char>, ArgModel> = Map::empty();
    assert(e2[name] == f);
    assert forall|v: ValueModel|
        resolves_to(e2, name, Set::empty(), v) <==> eval_outcome(f, none, v) by {
        if resolves_to(e2, name, Set::empty(), v) {
            let binds = lemma_resolves_to_unfold(e2, name, Set::empty(), v);
            assert(binds =~= none) by {
                assert forall|x: Seq<char>| !(#[trigger] binds.dom().contains(x)) by {
                    if binds.dom().contains(x) {
                        let j = vars_of(f).index_of(x);
                    }
                }
            }
        }
        if eval_outcome(f, none, v) {
            assert(binds_to(e2, vars_of(f), vis, none)) by {
                assert forall|x: Seq<char>| !(#[trigger] vars_of(f).contains(x)) by {
                    if vars_of(f).contains(x) {
                        let j = vars_of(f).index_of(x);
                    }
                }
            }
            lemma_resolves_to_fold(e2, name, Set::empty(), none, v);
        }
    }
}

/// A cell whose formula references the cell itself is evaluated with its
/// own name bound to the circular-dependency error value, not to the empty
/// value: its possible resolutions are exactly the engine's outcomes under
/// that one binding.
pub proof fn lemma_self_reference(exprs: Map<Seq<char>, Seq<char>>, name: Seq<char>, f: Seq<char>)
    requires
        exprs.dom().finite(),
        vars_of(f) == seq![name],
        parse_range(name) is None,
    ensures
        forall|v: ValueModel|
            resolves_to(exprs.insert(name, f), name, Set::empty(), v) <==> eval_outcome(
                f,
                map![name => ArgModel::Scalar(ValueModel::Error(circular_message()))],
                v,
            ),
{
    let e2 = exprs.insert(name, f);
    let vis = Set::<Seq<char>>::empty().insert(name);
    let circ = ArgModel::Scalar(ValueModel::Error(circular_message()));
    let cb: Map<Seq<char>, ArgModel> = map![name => circ];
    assert(e2[name] == f);
    lemma_singleton_vars(vars_of(f), name);
    assert forall|v: ValueModel|
        resolves_to(e2, name, Set::empty(), v) <==> eval_outcome(f, cb, v) by {
        if resolves_to(e2, name, Set::empty(), v) {
            let binds = lemma_resolves_to_unfold(e2, name, Set::empty(), v);
            assert(vars_of(f)[0] == name);
            assert(binding_to(e2, name, vis, binds[name]));
            assert(binds[name] matches ArgModel::Scalar(w) && resolves_to(e2, name, vis, w));
            assert(binds[name] == circ);
            assert(binds =~= cb);
        }
        if eval_outcome(f, cb, v) {
            assert(resolves_to(e2, name, vis, ValueModel::Error(circular_message())));
            assert(binding_to(e2, name, vis, circ));
            assert(binds_to(e2, vars_of(f), vis, cb)) by {
                assert(forall|x: Seq<char>| #[trigger] cb.dom().contains(x) <==> x == name);
                assert(forall|i: int| 0 <= i < 1 ==> vars_of(f)[i] == name);
            }
            lemma_resolves_to_fold(e2, name, Set::empty(), cb, v);
        }
    }
}

/// Two cells whose formulas reference each other both resolve through the
/// circular error: a resolution of the first is an engine outcome for its
/// formula with the second bound to an engine outcome computed with the
/// circular error standing for the first.
pub proof fn lemma_indirect_cycle(exprs: Map<Seq<char>, Seq<char>>, a: Seq<char>, b: Seq<char>)
    requires
        exprs.dom().finite(),
        exprs.dom().contains(a),
        exprs.dom().contains(b),
        vars_of(exprs[a]) == seq![b],
        vars_of(exprs[b]) == seq![a],
        parse_range(a) is None,
        parse_range(b) is None,
        a != b,
    ensures
        forall|v: ValueModel|
            resolves_to(exprs, a, Set::empty(), v) <==> exists|inner: ValueModel|
                #[trigger] eval_outcome(
                    exprs[b],
                    map![a => ArgModel::Scalar(ValueModel::Error(circular_message()))],
                    inner,
                ) && eval_outcome(exprs[a], map![b => ArgModel::Scalar(inner)], v),
{
    let fa = exprs[a];
    let fb = exprs[b];
    let va = Set::<Seq<char>>::empty().insert(a);
    let vab = va.insert(b);
    let circ = ArgModel::Scalar(ValueModel::Error(circular_message()));
    let cb: Map<Seq<char>, ArgModel> = map![a => circ];
    lemma_singleton_vars(vars_of(fa), b);
    lemma_singleton_vars(vars_of(fb), a);
    assert forall|v: ValueModel|
        resolves_to(exprs, a, Set::empty(), v) <==> exists|inner: ValueModel|
            #[trigger] eval_outcome(fb, cb, inner) && eval_outcome(
                fa,
                map![b => ArgModel::Scalar(inner)],
                v,
            ) by {
        if resolves_to(exprs, a, Set::empty(), v) {
            let binds1 = lemma_resolves_to_unfold(exprs, a, Set::empty(), v);
            assert(vars_of(fa)[0] == b);
            assert(binding_to(exprs, b, va, binds1[b]));
            assert(binds1[b] matches ArgModel::Scalar(w) && resolves_to(exprs, b, va, w));
            let inner = binds1[b]->Scalar_0;
            let binds2 = lemma_resolves_to_unfold(exprs, b, va, inner);
            assert(vars_of(fb)[0] == a);
            assert(binding_to(exprs, a, vab, binds2[a]));
            assert(binds2[a] matches ArgModel::Scalar(w2) && resolves_to(exprs, a, vab, w2));
            assert(binds2[a] == circ);
            assert(binds2 =~= cb);
            assert(binds1 =~= map![b => ArgModel::Scalar(inner)]);
            assert(eval_outcome(fb, cb, inner) && eval_outcome(
                fa,
                map![b => ArgModel::Scalar(inner)],
                v,
            ));
        }
        if exists|inner: ValueModel|
            #[trigger] eval_outcome(fb, cb, inner) && eval_outcome(
                fa,
                map![b => ArgModel::Scalar(inner)],
                v,
            ) {
            let inner = choose|inner: ValueModel|
                #[trigger] eval_outcome(fb, cb, inner) && eval_outcome(
                    fa,
                    map![b => ArgModel::Scalar(inner)],
                    v,
                );
            assert(resolves_to(exprs, a, vab, ValueModel::Error(circular_message())));
            assert(binding_to(exprs, a, vab, circ));
            assert(binds_to(exprs, vars_of(fb), vab, cb)) by {
                assert(forall|x: Seq<char>| #[trigger] cb.dom().contains(x) <==> x == a);
                assert(forall|i: int| 0 <= i < 1 ==> vars_of(fb)[i] == a);
            }
            lemma_resolves_to_fold(exprs, b, va, cb, inner);
            assert(binding_to(exprs, b, va, ArgModel::Scalar(inner)));
            let sb: Map<Seq<char>, ArgModel> = map![b => ArgModel::Scalar(inner)];
            assert(binds_to(exprs, vars_of(fa), va, sb)) by {
                assert(forall|x: Seq<char>| #[trigger] sb.dom().contains(x) <==> x == b);
                assert(forall|i: int| 0 <= i < 1 ==> vars_of(fa)[i] == b);
            }
            lemma_resolves_to_fold(exprs, a, Set::empty(), sb, v);
        }
    }
}

/// A cell with no stored formula resolves to the empty value and nothing
/// else.
pub proof fn lemma_unset_cell(exprs: Map<Seq<char>, Seq<char>>, name: Seq<char>)
    requires
        exprs.dom().finite(),
        !exprs.dom().contains(name),
    ensures
        forall|v: ValueModel|
            resolves_to(exprs, name, Set::empty(), v) <==> v == ValueModel::Empty,
{
}

/// The write path is idempotent in all that the store pins down: storing
/// the same formula for the same cell a second time leaves the formula map
/// exactly as the first store left it, the possible resolutions of the
/// cell unchanged, and the value map in a state one store alone also
/// reaches — the second stored value simply replaces the first. Which
/// value each evaluation yields is the engine's to pick.
pub proof fn lemma_write_idempotent(
    formulas: Map<Seq<char>, Seq<char>>,
    values: Map<Seq<char>, ValueModel>,
    name: Seq<char>,
    f: Seq<char>,
    v1: ValueModel,
    v2: ValueModel,
)
    ensures
        formulas.insert(name, f).insert(name, f) == formulas.insert(name, f),
        forall|v: ValueModel|
            resolves_to(formulas.insert(name, f).insert(name, f), name, Set::empty(), v)
                <==> resolves_to(formulas.insert(name, f), name, Set::empty(), v),
        values.insert(name, v1).insert(name, v2) == values.insert(name, v2),
{
    assert(formulas.insert(name, f).insert(name, f) =~= formulas.insert(name, f));
    assert(values.insert(name, v1).insert(name, v2) =~= values.insert(name, v2));
}

} // verus!
