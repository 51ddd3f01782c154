//! Making types: fresh type variables, and copies of a type with its type
//! variables renamed to fresh ones.
use crate::types::types::{SpecType, Type, fields_model, types_model};
use crate::types::unification::model::{
    apply, lemma_occurs_fields, lemma_occurs_list, occurs, occurs_fields, occurs_list,
};
use crate::types::unification::unify::{TypeMap, Unification, bound_types, fresh_vars};
use vstd::prelude::*;

verus! {

/// Hands out type variables: each fresh one is numbered after the last.
pub struct TypeManager {
    next_type_var: u16,
}

/// The type variables of `t` in the order of their first occurrence, after
/// those already in `seen`: left to right, a map's key before its value, a
/// function's parameters before its return type.
pub open spec fn first_order(t: SpecType, seen: Seq<u16>) -> Seq<u16>
    decreases t,
{
    match t {
        SpecType::TypeVar(v) => if seen.contains(v) {
            seen
        } else {
            seen.push(v)
        },
        SpecType::Array(e) => first_order(*e, seen),
        SpecType::MapOf(k, x) => first_order(*x, first_order(*k, seen)),
        SpecType::Record(fs) => first_order_fields(fs, seen),
        SpecType::Function(ps, r) => first_order(*r, first_order_list(ps, seen)),
        _ => seen,
    }
}

pub open spec fn first_order_list(ps: Seq<SpecType>, seen: Seq<u16>) -> Seq<u16>
    decreases ps,
{
    if ps.len() == 0 {
        seen
    } else {
        first_order(ps[ps.len() - 1], first_order_list(ps.subrange(0, ps.len() - 1), seen))
    }
}

pub open spec fn first_order_fields(fs: Seq<(Seq<char>, SpecType)>, seen: Seq<u16>) -> Seq<u16>
    decreases fs,
{
    if fs.len() == 0 {
        seen
    } else {
        first_order(fs[fs.len() - 1].1, first_order_fields(fs.subrange(0, fs.len() - 1), seen))
    }
}

/// `t` with its type variables renamed to fresh ones numbered from `start`,
/// in the order of their first occurrence.
pub open spec fn renamed(t: SpecType, start: nat) -> SpecType {
    apply(fresh_vars(first_order(t, Seq::empty()), start), t)
}

/// Whether `v` occurs in `seen`; a plain scan.
fn contains_var(seen: &Vec<u16>, v: u16) -> (b: bool)
    ensures
        b == seen@.contains(v),
{
    let n = seen.len();
    for i in 0..n
        invariant
            n == seen@.len(),
            forall|j: int| 0 <= j < i ==> seen@[j] != v,
    {
        if seen[i] == v {
            return true;
        }
    }
    false
}

/// Appends to `seen` the type variables of `t` that it does not hold yet,
/// in the order of their first occurrence.
fn collect_order(t: &Type, seen: &mut Vec<u16>)
    ensures
        final(seen)@ == first_order(t@, old(seen)@),
    decreases t,
{
    match t {
        Type::TypeVar(v) => {
            if !contains_var(seen, *v) {
                seen.push(*v);
            }
        },
        Type::Array(e) => collect_order(e, seen),
        Type::MapOf(k, x) => {
            collect_order(k, seen);
            collect_order(x, seen);
        },
        Type::Record(fs) => {
            let ghost start = seen@;
            let ghost m = fields_model(fs@);
            proof {
                crate::types::types::lemma_fields_model(fs@);
            }
            let n = fs.len();
            for i in 0..n
                invariant
                    n == fs@.len(),
                    m == fields_model(fs@),
                    m.len() == n,
                    forall|j: int| 0 <= j < n ==> #[trigger] m[j] == (fs@[j].0@, fs@[j].1@),
                    seen@ == first_order_fields(m.subrange(0, i as int), start),
                    *t == Type::Record(*fs),
            {
                proof {
                    assert(decreases_to!(*t => (*t)->Record_0));
                    assert(decreases_to!((*t)->Record_0 => (*t)->Record_0@));
                    assert(decreases_to!((*t)->Record_0@ => (*t)->Record_0@[i as int]));
                    assert(decreases_to!((*t)->Record_0@[i as int] => (*t)->Record_0@[i as int].1));
                }
                collect_order(&fs[i].1, seen);
                proof {
                    let p = m.subrange(0, i + 1);
                    assert(p.subrange(0, p.len() - 1) =~= m.subrange(0, i as int));
                    assert(p[p.len() - 1].1 == fs@[i as int].1@);
                }
            }
            assert(m.subrange(0, n as int) =~= m);
        },
        Type::Function { params, ret } => {
            let ghost start = seen@;
            let ghost m = types_model(params@);
            proof {
                crate::types::types::lemma_types_model(params@);
            }
            let n = params.len();
            for i in 0..n
                invariant
                    n == params@.len(),
                    m == types_model(params@),
                    m.len() == n,
                    forall|j: int| 0 <= j < n ==> #[trigger] m[j] == params@[j]@,
                    seen@ == first_order_list(m.subrange(0, i as int), start),
                    *t == (Type::Function { params: *params, ret: *ret }),
            {
                proof {
                    assert(decreases_to!(*t => (*t)->params));
                    assert(decreases_to!((*t)->params => (*t)->params@));
                    assert(decreases_to!((*t)->params@ => (*t)->params@[i as int]));
                }
                collect_order(&params[i], seen);
                proof {
                    let p = m.subrange(0, i + 1);
                    assert(p.subrange(0, p.len() - 1) =~= m.subrange(0, i as int));
                }
            }
            assert(m.subrange(0, n as int) =~= m);
            collect_order(ret, seen);
        },
        _ => {},
    }
}

impl TypeManager {
    /// The number the next fresh type variable gets.
    pub closed spec fn next_var(&self) -> nat {
        self.next_type_var as nat
    }

    /// A manager whose first fresh type variable is `_0`.
    pub fn new() -> (m: Self)
        ensures
            m.next_var() == 0,
    {
        TypeManager { next_type_var: 0 }
    }

    /// A fresh type variable: the next number.
    pub fn fresh_type_var(&mut self) -> (t: Type)
        requires
            old(self).next_var() < u16::MAX,
        ensures
            t@ == SpecType::TypeVar(old(self).next_var() as u16),
            final(self).next_var() == old(self).next_var() + 1,
    {
        let id = self.next_type_var;
        self.next_type_var = id + 1;
        Type::TypeVar(id)
    }

    /// A copy of `ty` whose type variables are replaced by fresh ones:
    /// every occurrence of one variable by the same fresh variable, distinct
    /// variables by distinct fresh ones, numbered in the order in which the
    /// variables first occur.
    pub fn alpha_convert(&mut self, ty: &Type) -> (r: Type)
        requires
            old(self).next_var() + first_order(ty@, Seq::empty()).len() <= u16::MAX,
        ensures
            r@ == renamed(ty@, old(self).next_var()),
            final(self).next_var() == old(self).next_var() + first_order(
                ty@,
                Seq::empty(),
            ).len(),
    {
        let mut order: Vec<u16> = Vec::new();
        collect_order(ty, &mut order);
        let ghost start = self.next_type_var as nat;
        let ghost qs = order@;
        let mut fresh = TypeMap::new();
        let n = order.len();
        for i in 0..n
            invariant
                n == qs.len(),
                qs == order@,
                qs == first_order(ty@, Seq::empty()),
                start + n <= u16::MAX,
                self.next_var() == start + i,
                bound_types(fresh) == fresh_vars(qs.take(i as int), start),
        {
            let v = self.fresh_type_var();
            fresh.insert(order[i], v);
            assert(qs.take(i + 1).drop_last() =~= qs.take(i as int));
        }
        assert(qs.take(n as int) =~= qs);
        let plain = Unification::new();
        plain.substitute(ty, &fresh)
    }

    /// A copy, made by this manager, of a type that another manager made:
    /// its type variables are renamed to fresh ones of this manager, as
    /// `alpha_convert` renames them.
    pub fn adopt(&mut self, other: &TypeManager, ty: &Type) -> (r: Type)
        requires
            old(self).next_var() + first_order(ty@, Seq::empty()).len() <= u16::MAX,
        ensures
            r@ == renamed(ty@, old(self).next_var()),
            final(self).next_var() == old(self).next_var() + first_order(
                ty@,
                Seq::empty(),
            ).len(),
    {
        self.alpha_convert(ty)
    }
}

/// The order of first occurrence extends what was seen: it keeps `seen` as
/// its beginning, lists each variable once, and holds exactly the variables
/// seen or occurring in the type.
proof fn lemma_first_order(t: SpecType, seen: Seq<u16>)
    requires
        seen.no_duplicates(),
    ensures
        ({
            let r = first_order(t, seen);
            &&& r.no_duplicates()
            &&& r.len() >= seen.len()
            &&& r.subrange(0, seen.len() as int) == seen
            &&& forall|v: u16| #[trigger] r.contains(v) <==> seen.contains(v) || occurs(v, t)
        }),
    decreases t, 1nat,
{
    match t {
        SpecType::TypeVar(v) => {
            let r = first_order(t, seen);
            assert(r.subrange(0, seen.len() as int) =~= seen);
            if !seen.contains(v) {
                assert forall|w: u16| #[trigger] r.contains(w) <==> seen.contains(w) || occurs(w, t) by {
                    if r.contains(w) && !seen.contains(w) {
                        let j = choose|j: int| 0 <= j < r.len() && r[j] == w;
                        assert(j == seen.len());
                    }
                    if w == v {
                        assert(r[seen.len() as int] == v);
                    }
                    if seen.contains(w) {
                        let j = choose|j: int| 0 <= j < seen.len() && seen[j] == w;
                        assert(r[j] == w);
                    }
                }
            }
        },
        SpecType::Array(e) => {
            lemma_first_order(*e, seen);
        },
        SpecType::MapOf(k, x) => {
            lemma_first_order(*k, seen);
            let mid = first_order(*k, seen);
            lemma_first_order(*x, mid);
            let r = first_order(*x, mid);
            assert(r.subrange(0, seen.len() as int) =~= mid.subrange(0, seen.len() as int)) by {
                assert forall|j: int| 0 <= j < seen.len() implies r[j] == mid[j] by {
                    assert(r.subrange(0, mid.len() as int)[j] == mid[j]);
                }
            }
        },
        SpecType::Record(fs) => {
            lemma_first_order_fields(fs, seen);
        },
        SpecType::Function(ps, ret) => {
            lemma_first_order_list(ps, seen);
            let mid = first_order_list(ps, seen);
            lemma_first_order(*ret, mid);
            let r = first_order(*ret, mid);
            assert(r.subrange(0, seen.len() as int) =~= mid.subrange(0, seen.len() as int)) by {
                assert forall|j: int| 0 <= j < seen.len() implies r[j] == mid[j] by {
                    assert(r.subrange(0, mid.len() as int)[j] == mid[j]);
                }
            }
        },
        _ => {
            assert(seen.subrange(0, seen.len() as int) =~= seen);
        },
    }
}

proof fn lemma_first_order_list(ps: Seq<SpecType>, seen: Seq<u16>)
    requires
        seen.no_duplicates(),
    ensures
        ({
            let r = first_order_list(ps, seen);
            &&& r.no_duplicates()
            &&& r.len() >= seen.len()
            &&& r.subrange(0, seen.len() as int) == seen
            &&& forall|v: u16| #[trigger] r.contains(v) <==> seen.contains(v) || occurs_list(v, ps)
        }),
    decreases ps, 0nat,
{
    if ps.len() == 0 {
        assert(seen.subrange(0, seen.len() as int) =~= seen);
    } else {
        let init = ps.subrange(0, ps.len() - 1);
        let last = ps[ps.len() - 1];
        assert(decreases_to!(ps => init));
        lemma_first_order_list(init, seen);
        let mid = first_order_list(init, seen);
        lemma_first_order(last, mid);
        let r = first_order(last, mid);
        assert forall|v: u16| #[trigger] r.contains(v) <==> seen.contains(v) || occurs_list(v, ps) by {
            lemma_occurs_list(v, ps);
            lemma_occurs_list(v, init);
            if occurs_list(v, ps) {
                let j = choose|j: int| 0 <= j < ps.len() && #[trigger] occurs(v, ps[j]);
                if j < ps.len() - 1 {
                    assert(init[j] == ps[j]);
                }
            }
            if occurs_list(v, init) {
                let j = choose|j: int| 0 <= j < init.len() && #[trigger] occurs(v, init[j]);
                assert(ps[j] == init[j]);
            }
        }
        assert(r.subrange(0, seen.len() as int) =~= mid.subrange(0, seen.len() as int)) by {
            assert forall|j: int| 0 <= j < seen.len() implies r[j] == mid[j] by {
                assert(r.subrange(0, mid.len() as int)[j] == mid[j]);
            }
        }
    }
}

proof fn lemma_first_order_fields(fs: Seq<(Seq<char>, SpecType)>, seen: Seq<u16>)
    requires
        seen.no_duplicates(),
    ensures
        ({
            let r = first_order_fields(fs, seen);
            &&& r.no_duplicates()
            &&& r.len() >= seen.len()
            &&& r.subrange(0, seen.len() as int) == seen
            &&& forall|v: u16| #[trigger] r.contains(v) <==> seen.contains(v) || occurs_fields(v, fs)
        }),
    decreases fs, 0nat,
{
    if fs.len() == 0 {
        assert(seen.subrange(0, seen.len() as int) =~= seen);
    } else {
        let init = fs.subrange(0, fs.len() - 1);
        let last = fs[fs.len() - 1].1;
        assert(decreases_to!(fs => init));
        assert(decreases_to!(fs => fs[fs.len() - 1]));
        lemma_first_order_fields(init, seen);
        let mid = first_order_fields(init, seen);
        lemma_first_order(last, mid);
        let r = first_order(last, mid);
        assert forall|v: u16| #[trigger] r.contains(v) <==> seen.contains(v) || occurs_fields(v, fs) by {
            lemma_occurs_fields(v, fs);
            lemma_occurs_fields(v, init);
            if occurs_fields(v, fs) {
                let j = choose|j: int| 0 <= j < fs.len() && #[trigger] occurs(v, fs[j].1);
                if j < fs.len() - 1 {
                    assert(init[j] == fs[j]);
                }
            }
            if occurs_fields(v, init) {
                let j = choose|j: int| 0 <= j < init.len() && #[trigger] occurs(v, init[j].1);
                assert(fs[j] == init[j]);
            }
        }
        assert(r.subrange(0, seen.len() as int) =~= mid.subrange(0, seen.len() as int)) by {
            assert forall|j: int| 0 <= j < seen.len() implies r[j] == mid[j] by {
                assert(r.subrange(0, mid.len() as int)[j] == mid[j]);
            }
        }
    }
}

/// Over a list without repeats, the fresh variables map the `i`-th listed
/// variable to `start + i` and nothing else.
proof fn lemma_fresh_vars(qs: Seq<u16>, start: nat)
    requires
        qs.no_duplicates(),
    ensures
        forall|v: u16| #[trigger] fresh_vars(qs, start).contains_key(v) <==> qs.contains(v),
        forall|i: int|
            0 <= i < qs.len() ==> fresh_vars(qs, start)[#[trigger] qs[i]] == SpecType::TypeVar(
                (start + i) as u16,
            ),
    decreases qs.len(),
{
    if qs.len() > 0 {
        let init = qs.drop_last();
        assert(init.no_duplicates());
        lemma_fresh_vars(init, start);
        assert forall|v: u16| #[trigger] fresh_vars(qs, start).contains_key(v) <==> qs.contains(v) by {
            if init.contains(v) {
                let j = choose|j: int| 0 <= j < init.len() && init[j] == v;
                assert(qs[j] == v);
            }
            if qs.contains(v) && v != qs.last() {
                let j = choose|j: int| 0 <= j < qs.len() && qs[j] == v;
                assert(init[j] == v);
            }
        }
        assert forall|i: int| 0 <= i < qs.len() implies fresh_vars(qs, start)[#[trigger] qs[i]]
            == SpecType::TypeVar((start + i) as u16) by {
            if i < qs.len() - 1 {
                assert(init[i] == qs[i]);
                assert(qs[i] != qs.last());
            }
        }
    }
}

/// Alpha conversion renames every type variable of the type, and distinct
/// variables to distinct fresh ones.
pub proof fn law_alpha_convert_renames_apart(t: SpecType, start: nat, v: u16, w: u16)
    requires
        occurs(v, t),
        occurs(w, t),
        v != w,
        start + first_order(t, Seq::empty()).len() <= u16::MAX,
    ensures
        fresh_vars(first_order(t, Seq::empty()), start).contains_key(v),
        fresh_vars(first_order(t, Seq::empty()), start).contains_key(w),
        fresh_vars(first_order(t, Seq::empty()), start)[v] != fresh_vars(
            first_order(t, Seq::empty()),
            start,
        )[w],
{
    let qs = first_order(t, Seq::empty());
    lemma_first_order(t, Seq::empty());
    lemma_fresh_vars(qs, start);
    assert(qs.contains(v) && qs.contains(w));
    let i = choose|i: int| 0 <= i < qs.len() && qs[i] == v;
    let j = choose|j: int| 0 <= j < qs.len() && qs[j] == w;
    assert(fresh_vars(qs, start)[qs[i]] == SpecType::TypeVar((start + i) as u16));
    assert(fresh_vars(qs, start)[qs[j]] == SpecType::TypeVar((start + j) as u16));
}

/// Alpha conversion numbers the distinct type variables of the type from
/// `start` on, one number each, and no others: the variables in the order
/// of first occurrence are each listed once and are exactly those that
/// occur, and the `i`-th of them becomes `start + i`.
pub proof fn law_alpha_convert_numbering(t: SpecType, start: nat)
    requires
        start + first_order(t, Seq::empty()).len() <= u16::MAX,
    ensures
        ({
            let qs = first_order(t, Seq::empty());
            let f = fresh_vars(qs, start);
            &&& qs.no_duplicates()
            &&& forall|v: u16| #[trigger] qs.contains(v) <==> occurs(v, t)
            &&& forall|v: u16| #[trigger] f.contains_key(v) <==> occurs(v, t)
            &&& forall|i: int| 0 <= i < qs.len() ==> f[#[trigger] qs[i]] == SpecType::TypeVar((start + i) as u16)
            &&& t matches SpecType::TypeVar(v) ==> renamed(t, start) == SpecType::TypeVar(start as u16)
        }),
{
    let qs = first_order(t, Seq::empty());
    lemma_first_order(t, Seq::empty());
    lemma_fresh_vars(qs, start);
    if t is TypeVar {
        assert(qs[0] == t->TypeVar_0);
    }
}

} // verus!
