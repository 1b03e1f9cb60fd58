//! The two stores the engine keeps: an association map from cell names to
//! owned values, and the set of names on the active resolution path.
use vstd::map::*;
use vstd::prelude::*;

verus! {

/// A map keyed by cell-name strings, kept as a vector of entries; a later
/// entry for the same key shadows an earlier one.
pub struct StrMap<V> {
    entries: Vec<(String, V)>,
}

/// The map a sequence of entries denotes, later entries winning.
spec fn entries_map<V: View>(s: Seq<(String, V)>) -> Map<Seq<char>, V::V>
    decreases s.len(),
{
    if s.len() == 0 {
        Map::empty()
    } else {
        entries_map(s.drop_last()).insert(s.last().0@, s.last().1@)
    }
}

proof fn lemma_entries_map_last_match<V: View>(s: Seq<(String, V)>, i: int, x: Seq<char>)
    requires
        0 <= i < s.len(),
        s[i].0@ == x,
        forall|j: int| i < j < s.len() ==> s[j].0@ != x,
    ensures
        entries_map(s).dom().contains(x),
        entries_map(s)[x] == s[i].1@,
    decreases s.len(),
{
    if i < s.len() - 1 {
        lemma_entries_map_last_match(s.drop_last(), i, x);
    }
}

proof fn lemma_entries_map_absent<V: View>(s: Seq<(String, V)>, x: Seq<char>)
    requires
        forall|j: int| 0 <= j < s.len() ==> s[j].0@ != x,
    ensures
        !entries_map(s).dom().contains(x),
    decreases s.len(),
{
    if s.len() > 0 {
        lemma_entries_map_absent(s.drop_last(), x);
    }
}

proof fn lemma_entries_map_dom<V: View>(s: Seq<(String, V)>, x: Seq<char>)
    ensures
        entries_map(s).dom().contains(x) <==> exists|j: int|
            0 <= j < s.len() && s[j].0@ == x,
    decreases s.len(),
{
    if s.len() > 0 {
        lemma_entries_map_dom(s.drop_last(), x);
        if entries_map(s).dom().contains(x) && x != s.last().0@ {
            let j = choose|j: int| 0 <= j < s.len() - 1 && s.drop_last()[j].0@ == x;
            assert(s[j].0@ == x);
        }
        if exists|j: int| 0 <= j < s.len() && s[j].0@ == x {
            let j = choose|j: int| 0 <= j < s.len() && s[j].0@ == x;
            if j < s.len() - 1 {
                assert(s.drop_last()[j].0@ == x);
            }
        }
    }
}

proof fn lemma_entries_map_dom_finite<V: View>(s: Seq<(String, V)>)
    ensures
        entries_map(s).dom().finite(),
    decreases s.len(),
{
    if s.len() > 0 {
        lemma_entries_map_dom_finite(s.drop_last());
    }
}

/// Removing one entry for a key changes the map at that key alone.
proof fn lemma_entries_map_remove<V: View>(s: Seq<(String, V)>, i: int, x: Seq<char>)
    requires
        0 <= i < s.len(),
        x != s[i].0@,
    ensures
        entries_map(s.remove(i)).dom().contains(x) <==> entries_map(s).dom().contains(x),
        entries_map(s).dom().contains(x) ==> entries_map(s.remove(i))[x] == entries_map(s)[x],
    decreases s.len(),
{
    if i == s.len() - 1 {
        assert(s.remove(i) =~= s.drop_last());
        lemma_entries_map_dom(s.drop_last(), x);
    } else {
        assert(s.remove(i).drop_last() =~= s.drop_last().remove(i));
        assert(s.remove(i).last() == s.last());
        lemma_entries_map_remove(s.drop_last(), i, x);
    }
}

impl<V: View> View for StrMap<V> {
    type V = Map<Seq<char>, V::V>;

    closed spec fn view(&self) -> Map<Seq<char>, V::V> {
        entries_map(self.entries@)
    }
}

impl<V: View> StrMap<V> {
    pub fn new() -> (r: Self)
        ensures
            r@ == Map::<Seq<char>, V::V>::empty(),
    {
        StrMap { entries: Vec::new() }
    }

    /// The key set is finite: the map holds finitely many entries.
    pub proof fn lemma_dom_finite(&self)
        ensures
            self@.dom().finite(),
    {
        lemma_entries_map_dom_finite(self.entries@);
    }

    /// Look the key up; `None` exactly when the map has no entry for it.
    pub fn get<'a>(&'a self, k: &str) -> (r: Option<&'a V>)
        ensures
            match r {
                Some(v) => self@.dom().contains(k@) && v@ == self@[k@],
                None => !self@.dom().contains(k@),
            },
    {
        let ks = k.to_owned();
        let mut i = self.entries.len();
        loop
            invariant_except_break
                forall|j: int| i <= j < self.entries@.len() ==> self.entries@[j].0@ != k@,
            invariant
                0 <= i <= self.entries@.len(),
                ks@ == k@,
            ensures
                (0 <= i < self.entries@.len() && self.entries@[i as int].0@ == k@ && forall|
                    j: int,
                |
                    i < j < self.entries@.len() ==> self.entries@[j].0@ != k@) || (i == 0
                    && forall|j: int|
                    0 <= j < self.entries@.len() ==> self.entries@[j].0@ != k@),
            decreases i,
        {
            if i == 0 {
                break;
            }
            i = i - 1;
            if self.entries[i].0 == ks {
                break;
            }
        }
        if i < self.entries.len() && self.entries[i].0 == ks {
            proof {
                lemma_entries_map_last_match(self.entries@, i as int, k@);
            }
            Some(&self.entries[i].1)
        } else {
            proof {
                lemma_entries_map_absent(self.entries@, k@);
            }
            None
        }
    }

    /// Bind the key to the value, dropping any entry it had before.
    pub fn insert(&mut self, k: String, v: V)
        ensures
            final(self)@ == old(self)@.insert(k@, v@),
    {
        let ghost s0 = self.entries@;
        let mut i: usize = 0;
        let mut found = false;
        loop
            invariant
                self.entries@ == s0,
                0 <= i <= s0.len(),
                !found ==> forall|j: int| 0 <= j < i ==> s0[j].0@ != k@,
                found ==> i < s0.len() && s0[i as int].0@ == k@,
            ensures
                self.entries@ == s0,
                found ==> 0 <= i < s0.len() && s0[i as int].0@ == k@,
                !found ==> forall|j: int| 0 <= j < s0.len() ==> s0[j].0@ != k@,
            decreases s0.len() - i + (if found { 0int } else { 1int }),
        {
            if found || i >= self.entries.len() {
                break;
            }
            if self.entries[i].0 == k {
                found = true;
            } else {
                i = i + 1;
            }
        }
        if found {
            self.entries.remove(i);
        }
        let ghost s1 = self.entries@;
        self.entries.push((k, v));
        proof {
            assert(self.entries@.drop_last() =~= s1);
            assert_maps_equal!(entries_map::<V>(self.entries@), entries_map::<V>(s0).insert(k@, v@), x => {
                if x != k@ && found {
                    lemma_entries_map_remove(s0, i as int, x);
                }
            });
        }
    }

    /// Every key currently bound, as owned strings.
    pub fn keys(&self) -> (r: Vec<String>)
        ensures
            forall|j: int| 0 <= j < r@.len() ==> self@.dom().contains(#[trigger] r@[j]@),
            forall|x: Seq<char>|
                self@.dom().contains(x) ==> exists|j: int| 0 <= j < r@.len() && r@[j]@ == x,
    {
        let mut r: Vec<String> = Vec::new();
        let mut i: usize = 0;
        while i < self.entries.len()
            invariant
                0 <= i <= self.entries@.len(),
                r@.len() == i,
                forall|j: int| 0 <= j < i ==> r@[j]@ == self.entries@[j].0@,
            decreases self.entries@.len() - i,
        {
            r.push(self.entries[i].0.clone());
            i = i + 1;
        }
        proof {
            assert forall|j: int| 0 <= j < r@.len() implies self@.dom().contains(
                #[trigger] r@[j]@,
            ) by {
                lemma_entries_map_dom(self.entries@, r@[j]@);
            }
            assert forall|x: Seq<char>| self@.dom().contains(x) implies exists|j: int|
                0 <= j < r@.len() && r@[j]@ == x by {
                lemma_entries_map_dom(self.entries@, x);
                let j = choose|j: int| 0 <= j < self.entries@.len() && self.entries@[j].0@ == x;
                assert(r@[j]@ == x);
            }
        }
        r
    }
}

/// The set of cell names on the active resolution path.
pub struct Visited {
    names: Vec<String>,
}

spec fn names_set(s: Seq<String>) -> Set<Seq<char>>
    decreases s.len(),
{
    if s.len() == 0 {
        Set::empty()
    } else {
        names_set(s.drop_last()).insert(s.last()@)
    }
}

proof fn lemma_names_set_contains(s: Seq<String>, x: Seq<char>)
    ensures
        names_set(s).contains(x) <==> exists|j: int| 0 <= j < s.len() && s[j]@ == x,
    decreases s.len(),
{
    if s.len() > 0 {
        lemma_names_set_contains(s.drop_last(), x);
        if names_set(s).contains(x) && x != s.last()@ {
            let j = choose|j: int| 0 <= j < s.len() - 1 && s.drop_last()[j]@ == x;
            assert(s[j]@ == x);
        }
        if exists|j: int| 0 <= j < s.len() && s[j]@ == x {
            let j = choose|j: int| 0 <= j < s.len() && s[j]@ == x;
            if j < s.len() - 1 {
                assert(s.drop_last()[j]@ == x);
            }
        }
    }
}

proof fn lemma_names_set_finite(s: Seq<String>)
    ensures
        names_set(s).finite(),
    decreases s.len(),
{
    if s.len() > 0 {
        lemma_names_set_finite(s.drop_last());
    }
}

proof fn lemma_names_set_remove(s: Seq<String>, i: int)
    requires
        0 <= i < s.len(),
        forall|p: int, q: int| 0 <= p < q < s.len() ==> s[p]@ != s[q]@,
    ensures
        names_set(s.remove(i)) == names_set(s).remove(s[i]@),
    decreases s.len(),
{
    if i == s.len() - 1 {
        assert(s.remove(i) =~= s.drop_last());
        lemma_names_set_contains(s.drop_last(), s[i]@);
        assert(names_set(s.drop_last()) =~= names_set(s).remove(s[i]@));
    } else {
        assert(s.remove(i).drop_last() =~= s.drop_last().remove(i));
        lemma_names_set_remove(s.drop_last(), i);
        assert(names_set(s.remove(i)) =~= names_set(s).remove(s[i]@));
    }
}

impl View for Visited {
    type V = Set<Seq<char>>;

    closed spec fn view(&self) -> Set<Seq<char>> {
        names_set(self.names@)
    }
}

impl Visited {
    /// No name sits on the path twice; re-entry is caught before insertion.
    pub closed spec fn wf(&self) -> bool {
        forall|p: int, q: int| 0 <= p < q < self.names@.len() ==> self.names@[p]@
            != self.names@[q]@
    }

    pub fn new() -> (r: Self)
        ensures
            r@ == Set::<Seq<char>>::empty(),
            r.wf(),
    {
        Visited { names: Vec::new() }
    }

    pub proof fn lemma_finite(&self)
        ensures
            self@.finite(),
    {
        lemma_names_set_finite(self.names@);
    }

    pub fn contains(&self, k: &str) -> (r: bool)
        ensures
            r == self@.contains(k@),
    {
        let ks = k.to_owned();
        let mut i: usize = 0;
        while i < self.names.len()
            invariant
                0 <= i <= self.names@.len(),
                ks@ == k@,
                forall|j: int| 0 <= j < i ==> self.names@[j]@ != k@,
            decreases self.names@.len() - i,
        {
            if self.names[i] == ks {
                proof {
                    lemma_names_set_contains(self.names@, k@);
                }
                return true;
            }
            i = i + 1;
        }
        proof {
            lemma_names_set_contains(self.names@, k@);
        }
        false
    }

    pub fn insert(&mut self, k: String)
        requires
            old(self).wf(),
            !old(self)@.contains(k@),
        ensures
            final(self)@ == old(self)@.insert(k@),
            final(self).wf(),
    {
        proof {
            lemma_names_set_contains(self.names@, k@);
        }
        self.names.push(k);
        proof {
            assert(self.names@.drop_last() =~= old(self).names@);
        }
    }

    /// Take the name back off the path.
    pub fn remove(&mut self, k: &str)
        requires
            old(self).wf(),
        ensures
            final(self)@ == old(self)@.remove(k@),
            final(self).wf(),
    {
        let ks = k.to_owned();
        let ghost s0 = self.names@;
        let mut i: usize = 0;
        while i < self.names.len()
            invariant
                self.names@ == s0,
                old(self).names@ == s0,
                forall|p: int, q: int| 0 <= p < q < s0.len() ==> s0[p]@ != s0[q]@,
                ks@ == k@,
                0 <= i <= s0.len(),
                forall|j: int| 0 <= j < i ==> s0[j]@ != k@,
            decreases s0.len() - i,
        {
            if self.names[i] == ks {
                self.names.remove(i);
                proof {
                    lemma_names_set_remove(s0, i as int);
                    assert forall|p: int, q: int|
                        0 <= p < q < self.names@.len() implies self.names@[p]@
                        != self.names@[q]@ by {
                        assert(self.names@[p] == if p < i { s0[p] } else { s0[p + 1] });
                        assert(self.names@[q] == if q < i { s0[q] } else { s0[q + 1] });
                    }
                }
                return ;
            }
            i = i + 1;
        }
        proof {
            lemma_names_set_contains(s0, k@);
            assert(names_set(s0) =~= names_set(s0).remove(k@));
        }
    }
}

} // verus!
