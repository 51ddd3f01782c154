//! Constraint sets: the type class requirements on type variables.
//!
//! During type inference, operations add constraints to type variables:
//! arithmetic adds `Numeric`, indexing adds `Indexable`, map keys add
//! `Hashable`. Once unification has resolved the variables, the constraints
//! are checked against the concrete types.
use crate::parser::Span;
use crate::types::type_class::TypeClassId;
use vstd::prelude::*;
use vstd::std_specs::btree::{increasing_seq, spec_btree_map_iter};
use vstd::std_specs::cmp::OrdSpec;
use vstd::std_specs::iter::IteratorSpec;
use std::collections::BTreeMap;

verus! {

broadcast use {
    vstd::std_specs::vec::group_vec_axioms,
    vstd::std_specs::btree::group_btree_axioms,
    vstd::laws_cmp::group_laws_cmp,
};

/// A requirement that a type variable belong to a type class.
#[derive(Debug, Clone, PartialEq, Eq)]
pub struct Constraint {
    /// The type class that must be implemented.
    pub type_class: TypeClassId,
    /// Where the requirement comes from, for error reports.
    pub span: Span,
}

impl Constraint {
    /// Creates a constraint.
    pub fn new(type_class: TypeClassId, span: Span) -> (c: Self)
        ensures
            c.type_class == type_class,
            c.span == span,
    {
        Constraint { type_class, span }
    }

    fn duplicate(&self) -> (c: Self)
        ensures
            c == *self,
    {
        Constraint { type_class: self.type_class, span: self.span.clone() }
    }
}

/// Whether the keys of a list of pairs strictly increase.
pub open spec fn keys_increase(s: Seq<(u16, Seq<Constraint>)>) -> bool {
    forall|i: int, j: int| 0 <= i < j < s.len() ==> s[i].0 < s[j].0
}

/// Whether `k` is the key of some pair.
pub open spec fn has_key(s: Seq<(u16, Seq<Constraint>)>, k: u16) -> bool {
    exists|i: int| 0 <= i < s.len() && s[i].0 == k
}

/// The list paired with `k`, or the empty list.
pub open spec fn lookup(s: Seq<(u16, Seq<Constraint>)>, k: u16) -> Seq<Constraint> {
    if has_key(s, k) {
        s[choose|i: int| 0 <= i < s.len() && s[i].0 == k].1
    } else {
        Seq::empty()
    }
}

proof fn lemma_lookup_at(s: Seq<(u16, Seq<Constraint>)>, i: int)
    requires
        keys_increase(s),
        0 <= i < s.len(),
    ensures
        has_key(s, s[i].0),
        lookup(s, s[i].0) == s[i].1,
{
    assert(0 <= i < s.len() && s[i].0 == s[i].0);
    let j = choose|j: int| 0 <= j < s.len() && s[j].0 == s[i].0;
    if j < i {
        assert(s[j].0 < s[i].0);
    } else if j > i {
        assert(s[i].0 < s[j].0);
    }
}

/// With increasing keys, a prefix holds `k` only where the whole does, and
/// maps it alike.
proof fn lemma_lookup_prefix(s: Seq<(u16, Seq<Constraint>)>, a: int, k: u16)
    requires
        keys_increase(s),
        0 <= a < s.len(),
        s[a].0 != k,
    ensures
        lookup(s.take(a + 1), k) == lookup(s.take(a), k),
{
    let t1 = s.take(a + 1);
    let t0 = s.take(a);
    if has_key(t1, k) {
        let j = choose|j: int| 0 <= j < t1.len() && t1[j].0 == k;
        assert(j < a);
        assert(t0[j] == t1[j]);
        lemma_lookup_at(t1, j);
        lemma_lookup_at(t0, j);
    } else {
        assert forall|j: int| 0 <= j < t0.len() implies t0[j].0 != k by {
            assert(t0[j] == t1[j]);
        }
    }
}

/// In a sequence that the ordering of `u16` finds increasing, an earlier
/// element is smaller.
proof fn lemma_increasing(ks: Seq<u16>, i: int, j: int)
    requires
        increasing_seq(ks),
        0 <= i < j < ks.len(),
    ensures
        ks[i] < ks[j],
{
    assert(ks[i].cmp_spec(&ks[j]) is Less);
}

/// The constraints on each type variable, in the order they were added.
///
/// Type variables are kept in a `BTreeMap`, so that iteration is
/// deterministic.
#[derive(Debug)]
pub struct ConstraintSet {
    constraints: BTreeMap<u16, Vec<Constraint>>,
}

/// The constraints of `k` in a map from type variables to constraints.
pub open spec fn constraints_in(m: Map<u16, Seq<Constraint>>, k: u16) -> Seq<Constraint> {
    if m.contains_key(k) {
        m[k]
    } else {
        Seq::empty()
    }
}

/// The constraints of two sets together: for each type variable, those of
/// the first set followed by those of the second.
pub open spec fn merged(a: Map<u16, Seq<Constraint>>, b: Map<u16, Seq<Constraint>>) -> Map<
    u16,
    Seq<Constraint>,
> {
    Map::new(
        |k: u16| a.contains_key(k) || b.contains_key(k),
        |k: u16| constraints_in(a, k) + constraints_in(b, k),
    )
}

/// A listing of type variables and their constraints, each list by its view.
pub open spec fn pairs_of(v: Seq<(u16, &[Constraint])>) -> Seq<(u16, Seq<Constraint>)> {
    v.map_values(|e: (u16, &[Constraint])| (e.0, e.1@))
}

impl View for ConstraintSet {
    type V = Map<u16, Seq<Constraint>>;

    closed spec fn view(&self) -> Map<u16, Seq<Constraint>> {
        self.constraints@.map_values(|l: Vec<Constraint>| l@)
    }
}

impl ConstraintSet {
    /// Every type variable present has at least one constraint.
    #[verifier::type_invariant]
    spec fn well_formed(&self) -> bool {
        forall|k: u16| #[trigger] self.constraints@.contains_key(k) ==> self.constraints@[k].len() > 0
    }

    /// The type variables of the view are those of the map, finitely many.
    proof fn lemma_dom(&self)
        ensures
            self@.dom() == self.constraints@.dom(),
            self@.dom().finite(),
    {
        assert(self@.dom() =~= self.constraints@.dom());
    }

    /// Creates an empty constraint set.
    pub fn new() -> (cs: Self)
        ensures
            cs@ == Map::<u16, Seq<Constraint>>::empty(),
    {
        let cs = ConstraintSet { constraints: BTreeMap::new() };
        assert(cs@ =~= Map::<u16, Seq<Constraint>>::empty());
        cs
    }

    /// Adds a constraint to a type variable, after those it already has.
    pub fn add(&mut self, type_var: u16, type_class: TypeClassId, span: Span)
        ensures
            final(self)@ == old(self)@.insert(
                type_var,
                constraints_in(old(self)@, type_var).push(Constraint { type_class, span }),
            ),
            final(self)@.dom().len() == old(self)@.dom().len() + if old(self)@.contains_key(
                type_var,
            ) {
                0nat
            } else {
                1nat
            },
    {
        let c = Constraint::new(type_class, span);
        self.add_constraint(type_var, c);
        proof {
            old(self).lemma_dom();
            self.lemma_dom();
            assert(self@.dom() =~= old(self)@.dom().insert(type_var));
        }
    }

    fn add_constraint(&mut self, type_var: u16, c: Constraint)
        ensures
            final(self)@ == old(self)@.insert(
                type_var,
                constraints_in(old(self)@, type_var).push(c),
            ),
    {
        proof {
            use_type_invariant(&*self);
        }
        let mut m = BTreeMap::new();
        std::mem::swap(&mut m, &mut self.constraints);
        let ghost m0 = m@;
        let mut list = match m.remove(&type_var) {
            Some(l) => l,
            None => Vec::new(),
        };
        assert(list@ == constraints_in(old(self)@, type_var));
        list.push(c);
        m.insert(type_var, list);
        assert(m@ == m0.insert(type_var, list));
        self.constraints = m;
        proof {
            assert(self@ =~= old(self)@.insert(
                type_var,
                constraints_in(old(self)@, type_var).push(c),
            ));
        }
    }

    /// The constraints of a type variable, in the order they were added;
    /// empty if it has none.
    pub fn get(&self, type_var: u16) -> (r: &[Constraint])
        ensures
            r@ == constraints_in(self@, type_var),
    {
        match self.constraints.get(&type_var) {
            Some(l) => l.as_slice(),
            None => {
                let empty: &[Constraint] = &[];
                assert(empty@ =~= Seq::<Constraint>::empty());
                empty
            },
        }
    }

    /// Each type variable with its constraints, in ascending order.
    fn listing(&self) -> (v: Vec<(u16, &[Constraint])>)
        ensures
            keys_increase(pairs_of(v@)),
            forall|k: u16| #[trigger] self@.contains_key(k) == has_key(pairs_of(v@), k),
            forall|k: u16| #[trigger] constraints_in(self@, k) == lookup(pairs_of(v@), k),
            v@.len() == self@.dom().len(),
            forall|i: int| 0 <= i < v@.len() ==> (#[trigger] v@[i]).1@.len() > 0,
    {
        proof {
            use_type_invariant(self);
        }
        let ghost all = spec_btree_map_iter(&self.constraints).remaining();
        let ghost m = self.constraints@;
        let mut out: Vec<(u16, &[Constraint])> = Vec::new();
        for kv in iter: self.constraints.iter()
            invariant
                iter.seq() == all,
                m == self.constraints@,
                out@.len() == iter.index(),
                forall|j: int|
                    0 <= j < out@.len() ==> (#[trigger] out@[j]).0 == *all[j].0 && out@[j].1@
                        == all[j].1@,
        {
            out.push((*kv.0, kv.1.as_slice()));
        }
        proof {
            assert(increasing_seq(all.map_values(|kv: (&u16, &Vec<Constraint>)| *kv.0)));
        }
        proof {
            let ks = all.map_values(|kv: (&u16, &Vec<Constraint>)| *kv.0);
            let s = pairs_of(out@);
            assert(forall|j: int| 0 <= j < s.len() ==> s[j].0 == ks[j]);
            assert(keys_increase(s)) by {
                assert forall|i: int, j: int| 0 <= i < j < s.len() implies s[i].0 < s[j].0 by {
                    lemma_increasing(ks, i, j);
                }
            }
            assert forall|j: int| 0 <= j < s.len() implies self@.contains_key(s[j].0) && self@[s[j].0]
                == s[j].1 by {
                assert(m.contains_key(*all[j].0) && m[*all[j].0] == *all[j].1);
            }
            assert forall|k: u16| #[trigger] self@.contains_key(k) == has_key(s, k) by {
                if self@.contains_key(k) {
                    assert(m.contains_key(k));
                    assert(all.contains((&k, &m[k])));
                    let j = choose|j: int| 0 <= j < all.len() && all[j] == (&k, &m[k]);
                    assert(s[j].0 == k);
                }
                if has_key(s, k) {
                    let j = choose|j: int| 0 <= j < s.len() && s[j].0 == k;
                }
            }
            assert forall|k: u16| #[trigger] constraints_in(self@, k) == lookup(s, k) by {
                if has_key(s, k) {
                    let j = choose|j: int| 0 <= j < s.len() && s[j].0 == k;
                    lemma_lookup_at(s, j);
                }
            }
            self.lemma_dom();
            assert forall|i: int| 0 <= i < out@.len() implies (#[trigger] out@[i]).1@.len() > 0 by {
                assert(m.contains_key(*all[i].0));
            }
        }
        out
    }

    /// Each type variable with its constraints, in ascending order of type
    /// variable.
    pub fn iter(&self) -> (it: std::vec::IntoIter<(u16, &[Constraint])>)
        ensures
            IteratorSpec::remaining(&it).len() == self@.dom().len(),
            forall|i: int|
                0 <= i < IteratorSpec::remaining(&it).len() ==> self@.contains_key(
                    (#[trigger] IteratorSpec::remaining(&it)[i]).0,
                ) && IteratorSpec::remaining(&it)[i].1@ == self@[IteratorSpec::remaining(&it)[i].0]
                    && IteratorSpec::remaining(&it)[i].1@.len() > 0,
            forall|i: int, j: int|
                0 <= i < j < IteratorSpec::remaining(&it).len() ==> IteratorSpec::remaining(
                    &it,
                )[i].0 < IteratorSpec::remaining(&it)[j].0,
            forall|k: u16|
                #[trigger] self@.contains_key(k) ==> exists|i: int|
                    0 <= i < IteratorSpec::remaining(&it).len() && IteratorSpec::remaining(&it)[i].0
                        == k,
    {
        let v = self.listing();
        proof {
            let s = pairs_of(v@);
            assert forall|i: int| 0 <= i < v@.len() implies self@.contains_key(
                (#[trigger] v@[i]).0,
            ) && v@[i].1@ == self@[v@[i].0] by {
                assert(s[i].0 == v@[i].0);
                lemma_lookup_at(s, i);
                assert(constraints_in(self@, v@[i].0) == lookup(s, v@[i].0));
            }
            assert forall|k: u16| #[trigger] self@.contains_key(k) implies exists|i: int|
                0 <= i < v@.len() && v@[i].0 == k by {
                assert(has_key(s, k));
                let j = choose|j: int| 0 <= j < s.len() && s[j].0 == k;
                assert(v@[j].0 == k);
            }
            assert forall|i: int, j: int| 0 <= i < j < v@.len() implies v@[i].0 < v@[j].0 by {
                assert(s[i].0 < s[j].0);
            }
        }
        v.into_iter()
    }

    /// Whether no type variable has constraints.
    pub fn is_empty(&self) -> (b: bool)
        ensures
            b == (self@ == Map::<u16, Seq<Constraint>>::empty()),
    {
        let b = self.constraints.is_empty();
        proof {
            self.lemma_dom();
            if b {
                assert(self@ =~= Map::<u16, Seq<Constraint>>::empty());
            } else {
                assert(self.constraints@.dom() != Set::<u16>::empty());
                assert(self@.dom() != Map::<u16, Seq<Constraint>>::empty().dom());
            }
        }
        b
    }

    /// The number of type variables that have constraints.
    pub fn len(&self) -> (n: usize)
        ensures
            n == self@.dom().len(),
    {
        proof {
            self.lemma_dom();
        }
        self.constraints.len()
    }

    /// Removes every constraint.
    pub fn clear(&mut self)
        ensures
            final(self)@ == Map::<u16, Seq<Constraint>>::empty(),
    {
        self.constraints = BTreeMap::new();
        assert(self@ =~= Map::<u16, Seq<Constraint>>::empty());
    }

    /// Adds the constraints of `other` to this set, after those each type
    /// variable already has.
    pub fn merge(&mut self, other: &ConstraintSet)
        ensures
            final(self)@ == merged(old(self)@, other@),
    {
        let ghost start = self@;
        let items = other.listing();
        let ghost s = pairs_of(items@);
        let n = items.len();
        for a in 0..n
            invariant
                n == s.len(),
                s == pairs_of(items@),
                forall|k: u16| #[trigger] other@.contains_key(k) == has_key(s, k),
                forall|k: u16| #[trigger] constraints_in(other@, k) == lookup(s, k),
                keys_increase(s),
                forall|i: int| 0 <= i < items@.len() ==> (#[trigger] items@[i]).1@.len() > 0,
                        forall|k: u16|
                    #[trigger] constraints_in(self@, k) == constraints_in(start, k) + lookup(
                        s.take(a as int),
                        k,
                    ),
                forall|k: u16|
                    #[trigger] self@.contains_key(k) == (start.contains_key(k) || has_key(
                        s.take(a as int),
                        k,
                    )),
        {
            let list = &items[a];
            let var = list.0;
            let m = list.1.len();
            for b in 0..m
                invariant
                    n == s.len(),
                    s == pairs_of(items@),
                forall|k: u16| #[trigger] other@.contains_key(k) == has_key(s, k),
                forall|k: u16| #[trigger] constraints_in(other@, k) == lookup(s, k),
                keys_increase(s),
                forall|i: int| 0 <= i < items@.len() ==> (#[trigger] items@[i]).1@.len() > 0,
                    0 <= a < n,
                    var == s[a as int].0,
                    m == s[a as int].1.len(),
                    list.1@ == s[a as int].1,
                                    forall|k: u16|
                        #[trigger] constraints_in(self@, k) == constraints_in(start, k) + lookup(
                            s.take(a as int),
                            k,
                        ) + if k == var {
                            s[a as int].1.take(b as int)
                        } else {
                            Seq::empty()
                        },
                    forall|k: u16|
                        #[trigger] self@.contains_key(k) == (start.contains_key(k) || has_key(
                            s.take(a as int),
                            k,
                        ) || (k == var && b > 0)),
            {
                let c = list.1[b].duplicate();
                let ghost before = self@;
                self.add_constraint(var, c);
                proof {
                    assert forall|k: u16|
                        #[trigger] constraints_in(self@, k) == constraints_in(start, k) + lookup(
                            s.take(a as int),
                            k,
                        ) + if k == var {
                            s[a as int].1.take(b + 1)
                        } else {
                            Seq::empty()
                        } by {
                        if k == var {
                            assert(s[a as int].1.take(b + 1) =~= s[a as int].1.take(b as int).push(
                                c,
                            ));
                            assert(constraints_in(before, k) == constraints_in(start, k) + lookup(
                                s.take(a as int),
                                k,
                            ) + s[a as int].1.take(b as int));
                            assert(constraints_in(self@, k) =~= constraints_in(start, k) + lookup(
                                s.take(a as int),
                                k,
                            ) + s[a as int].1.take(b + 1));
                        } else {
                            assert(constraints_in(before, k) == constraints_in(start, k) + lookup(
                                s.take(a as int),
                                k,
                            ) + Seq::<Constraint>::empty());
                        }
                    }
                }
            }
            proof {
                assert(s[a as int].1.take(m as int) =~= s[a as int].1);
                assert forall|k: u16|
                    #[trigger] constraints_in(self@, k) == constraints_in(start, k) + lookup(
                        s.take(a + 1),
                        k,
                    ) by {
                    if k == var {
                        assert(!has_key(s.take(a as int), k)) by {
                            if has_key(s.take(a as int), k) {
                                let j = choose|j: int|
                                    0 <= j < s.take(a as int).len() && s.take(a as int)[j].0 == k;
                                assert(s[j].0 < s[a as int].0);
                            }
                        }
                        assert(keys_increase(s.take(a + 1)));
                        assert(s.take(a + 1)[a as int] == s[a as int]);
                        lemma_lookup_at(s.take(a + 1), a as int);
                        assert(constraints_in(self@, k) =~= constraints_in(start, k) + lookup(
                            s.take(a + 1),
                            k,
                        ));
                    } else {
                        lemma_lookup_prefix(s, a as int, k);
                        assert(constraints_in(self@, k) =~= constraints_in(start, k) + lookup(
                            s.take(a + 1),
                            k,
                        ));
                    }
                }
                assert forall|k: u16|
                    #[trigger] self@.contains_key(k) == (start.contains_key(k) || has_key(
                        s.take(a + 1),
                        k,
                    )) by {
                    assert(s.take(a + 1)[a as int] == s[a as int]);
                    if has_key(s.take(a as int), k) {
                        let j = choose|j: int|
                            0 <= j < s.take(a as int).len() && s.take(a as int)[j].0 == k;
                        assert(s.take(a + 1)[j] == s[j]);
                    }
                    let t1 = s.take(a + 1);
                    if has_key(t1, k) {
                        let j = choose|j: int| 0 <= j < t1.len() && t1[j].0 == k;
                        if j < a {
                            assert(s.take(a as int)[j] == s[j]);
                        }
                    }
                    assert(m > 0) by {
                        assert(items@[a as int].1@.len() > 0);
                    }
                }
            }
        }
        proof {
            assert(s.take(n as int) =~= s);
            let m = merged(start, other@);
            assert forall|k: u16| #[trigger] self@.contains_key(k) == m.contains_key(k) by {
                assert(other@.contains_key(k) == has_key(s, k));
            }
            assert forall|k: u16| #[trigger] self@.contains_key(k) implies self@[k] == m[k] by {
                assert(constraints_in(other@, k) == lookup(s, k));
                assert(constraints_in(self@, k) == self@[k]);
            }
            assert(self@ =~= m);
        }
    }
}

impl Clone for ConstraintSet {
    fn clone(&self) -> (cs: Self)
        ensures
            cs@ == self@,
    {
        proof {
            use_type_invariant(self);
        }
        ConstraintSet { constraints: self.constraints.clone() }
    }
}

impl Default for ConstraintSet {
    fn default() -> (cs: Self)
        ensures
            cs@ == Map::<u16, Seq<Constraint>>::empty(),
    {
        ConstraintSet::new()
    }
}

/// Merging into an empty set gives the other set; merging an empty set
/// changes nothing.
pub proof fn law_merge_empty(m: Map<u16, Seq<Constraint>>)
    ensures
        merged(Map::empty(), m) == m,
        merged(m, Map::empty()) == m,
{
    assert(merged(Map::empty(), m) =~= m);
    assert(merged(m, Map::empty()) =~= m);
}

/// Adding constraints one by one keeps them in the order they were added.
pub proof fn law_add_order(m: Map<u16, Seq<Constraint>>, k: u16, c1: Constraint, c2: Constraint)
    ensures
        ({
            let m1 = m.insert(k, constraints_in(m, k).push(c1));
            let m2 = m1.insert(k, constraints_in(m1, k).push(c2));
            constraints_in(m2, k) == constraints_in(m, k) + seq![c1, c2]
        }),
{
    let m1 = m.insert(k, constraints_in(m, k).push(c1));
    let m2 = m1.insert(k, constraints_in(m1, k).push(c2));
    assert(constraints_in(m2, k) =~= constraints_in(m, k) + seq![c1, c2]);
}

} // verus!
