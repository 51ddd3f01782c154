//! Sets of type variables, held in a `hashbrown` hash set.
use hashbrown::HashSet;
use vstd::prelude::*;

verus! {

/// A set of type variables.
#[verifier::external_body]
pub struct VarSet {
    set: HashSet<u16>,
}

/// The type variables in a set.
pub uninterp spec fn var_set(s: VarSet) -> Set<u16>;

impl VarSet {
    /// `hashbrown::HashSet::new`: an empty set.
    #[verifier::external_body]
    fn empty_set() -> (r: VarSet)
        ensures
            var_set(r) == Set::<u16>::empty(),
    {
        VarSet { set: HashSet::new() }
    }

    /// `hashbrown::HashSet::insert`: adds `v`.
    #[verifier::external_body]
    fn add(&mut self, v: u16)
        ensures
            var_set(*final(self)) == var_set(*old(self)).insert(v),
    {
        self.set.insert(v);
    }

    /// `hashbrown::HashSet::contains`: whether `v` is in the set.
    #[verifier::external_body]
    fn has(&self, v: u16) -> (r: bool)
        ensures
            r == var_set(*self).contains(v),
    {
        self.set.contains(&v)
    }

    /// `hashbrown::HashSet::iter`: the elements, each once, in the order the
    /// hash table holds them.
    #[verifier::external_body]
    fn elements(&self) -> (r: Vec<u16>)
        ensures
            r@.to_set() == var_set(*self),
            r@.no_duplicates(),
    {
        self.set.iter().copied().collect()
    }

    /// An empty set.
    pub fn new() -> (r: VarSet)
        ensures
            var_set(r) == Set::<u16>::empty(),
    {
        VarSet::empty_set()
    }

    /// Adds a type variable.
    pub fn insert(&mut self, v: u16)
        ensures
            var_set(*final(self)) == var_set(*old(self)).insert(v),
    {
        self.add(v);
    }

    /// Whether a type variable is in the set.
    pub fn contains(&self, v: u16) -> (r: bool)
        ensures
            r == var_set(*self).contains(v),
    {
        self.has(v)
    }

    /// The type variables of the set, each once, in no particular order.
    pub fn to_vec(&self) -> (r: Vec<u16>)
        ensures
            r@.to_set() == var_set(*self),
            r@.no_duplicates(),
    {
        self.elements()
    }

    /// The number of type variables in the set.
    pub fn len(&self) -> (n: usize)
        ensures
            n == var_set(*self).len(),
            var_set(*self).finite(),
    {
        let v = self.elements();
        proof {
            v@.unique_seq_to_set();
        }
        v.len()
    }

    /// Whether the set is empty.
    pub fn is_empty(&self) -> (b: bool)
        ensures
            b == (var_set(*self) == Set::<u16>::empty()),
    {
        let v = self.elements();
        if v.len() == 0 {
            assert(v@.to_set() =~= Set::<u16>::empty());
            true
        } else {
            assert(var_set(*self).contains(v@[0]));
            false
        }
    }
}

/// Sorts distinct type variables in ascending order.
pub fn sort_vars(v: Vec<u16>) -> (r: Vec<u16>)
    requires
        v@.no_duplicates(),
    ensures
        r@.to_set() == v@.to_set(),
        r@.len() == v@.len(),
        forall|i: int, j: int| 0 <= i < j < r@.len() ==> r@[i] < r@[j],
{
    let mut res: Vec<u16> = Vec::new();
    let n = v.len();
    for i in 0..n
        invariant
            n == v@.len(),
            v@.no_duplicates(),
            res@.len() == i,
            res@.to_set() == v@.take(i as int).to_set(),
            forall|a: int, b: int| 0 <= a < b < res@.len() ==> res@[a] < res@[b],
    {
        let x = v[i];
        assert(!res@.to_set().contains(x)) by {
            if res@.to_set().contains(x) {
                assert(v@.take(i as int).to_set().contains(x));
                let t0 = v@.take(i as int);
                let k = choose|k: int| 0 <= k < t0.len() && t0[k] == x;
                assert(v@[k] == v@[i as int]);
            }
        }
        let mut j = res.len();
        while j > 0 && x < res[j - 1]
            invariant
                0 <= j <= res@.len(),
                forall|k: int| j <= k < res@.len() ==> x < #[trigger] res@[k],
            decreases j,
        {
            j -= 1;
        }
        let ghost before = res@;
        proof {
            if j > 0 {
                assert(res@[j - 1] != x) by {
                    assert(res@.to_set().contains(res@[j - 1]));
                }
            }
        }
        res.insert(j, x);
        proof {
            assert(res@ =~= before.take(j as int) + seq![x] + before.skip(j as int));
            assert forall|a: int, b: int| 0 <= a < b < res@.len() implies res@[a] < res@[b] by {
                if b < j {
                    assert(res@[a] == before[a] && res@[b] == before[b]);
                } else if b == j {
                    assert(res@[a] == before[a]);
                } else if a < j {
                    assert(res@[a] == before[a] && res@[b] == before[b - 1]);
                } else if a == j {
                    assert(res@[b] == before[b - 1]);
                } else {
                    assert(res@[a] == before[a - 1] && res@[b] == before[b - 1]);
                }
            }
            let t1 = v@.take(i + 1);
            let t0 = v@.take(i as int);
            assert(t1 =~= t0.push(x));
            assert forall|y: u16| #[trigger] res@.to_set().contains(y) <==> v@.take(i + 1).to_set().contains(y) by {
                if res@.to_set().contains(y) {
                    let k = choose|k: int| 0 <= k < res@.len() && res@[k] == y;
                    if k < j {
                        assert(before.to_set().contains(before[k]));
                        assert(res@[k] == before[k]);
                    } else if k > j {
                        assert(res@[k] == before[k - 1]);
                        assert(before.to_set().contains(before[k - 1]));
                    }
                    if y != x {
                        assert(t0.to_set().contains(y));
                        let m = choose|m: int| 0 <= m < t0.len() && t0[m] == y;
                        assert(t1[m] == y);
                    } else {
                        assert(t1[i as int] == x);
                    }
                }
                if t1.to_set().contains(y) {
                    let m = choose|m: int| 0 <= m < t1.len() && t1[m] == y;
                    if m < i {
                        assert(t0[m] == y);
                        assert(t0.to_set().contains(y));
                        assert(before.to_set().contains(y));
                        let k = choose|k: int| 0 <= k < before.len() && before[k] == y;
                        if k < j {
                            assert(res@[k] == y);
                        } else {
                            assert(res@[k + 1] == y);
                        }
                    } else {
                        assert(res@[j as int] == x);
                    }
                }
            }
            assert(res@.to_set() =~= t1.to_set());
        }
    }
    assert(v@.take(n as int) =~= v@);
    res
}

} // verus!
