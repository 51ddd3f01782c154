//! Substitutions on types: applying them, sizes, occurrences.
use crate::types::types::SpecType;
use vstd::prelude::*;

verus! {

/// `t` with each variable bound in `f` replaced by its binding (once, not
/// again inside the replacement).
pub open spec fn apply(f: Map<u16, SpecType>, t: SpecType) -> SpecType
    decreases t,
{
    match t {
        SpecType::TypeVar(v) => if f.contains_key(v) {
            f[v]
        } else {
            t
        },
        SpecType::Array(e) => SpecType::Array(Box::new(apply(f, *e))),
        SpecType::MapOf(k, x) => SpecType::MapOf(Box::new(apply(f, *k)), Box::new(apply(f, *x))),
        SpecType::Record(fs) => SpecType::Record(apply_fields(f, fs)),
        SpecType::Function(ps, r) => SpecType::Function(apply_list(f, ps), Box::new(apply(f, *r))),
        _ => t,
    }
}

pub open spec fn apply_list(f: Map<u16, SpecType>, ps: Seq<SpecType>) -> Seq<SpecType>
    decreases ps,
{
    if ps.len() == 0 {
        Seq::empty()
    } else {
        seq![apply(f, ps[0])] + apply_list(f, ps.drop_first())
    }
}

pub open spec fn apply_fields(f: Map<u16, SpecType>, fs: Seq<(Seq<char>, SpecType)>) -> Seq<
    (Seq<char>, SpecType),
>
    decreases fs,
{
    if fs.len() == 0 {
        Seq::empty()
    } else {
        seq![(fs[0].0, apply(f, fs[0].1))] + apply_fields(f, fs.drop_first())
    }
}

/// The number of type constructors and variables in a type.
pub open spec fn size(t: SpecType) -> nat
    decreases t,
{
    match t {
        SpecType::Array(e) => 1 + size(*e),
        SpecType::MapOf(k, x) => 1 + size(*k) + size(*x),
        SpecType::Record(fs) => 1 + size_fields(fs),
        SpecType::Function(ps, r) => 1 + size_list(ps) + size(*r),
        _ => 1,
    }
}

pub open spec fn size_list(ps: Seq<SpecType>) -> nat
    decreases ps,
{
    if ps.len() == 0 {
        0
    } else {
        size(ps[0]) + size_list(ps.drop_first())
    }
}

pub open spec fn size_fields(fs: Seq<(Seq<char>, SpecType)>) -> nat
    decreases fs,
{
    if fs.len() == 0 {
        0
    } else {
        size(fs[0].1) + size_fields(fs.drop_first())
    }
}

/// Whether type variable `v` occurs in `t`.
pub open spec fn occurs(v: u16, t: SpecType) -> bool
    decreases t,
{
    match t {
        SpecType::TypeVar(w) => w == v,
        SpecType::Array(e) => occurs(v, *e),
        SpecType::MapOf(k, x) => occurs(v, *k) || occurs(v, *x),
        SpecType::Record(fs) => occurs_fields(v, fs),
        SpecType::Function(ps, r) => occurs_list(v, ps) || occurs(v, *r),
        _ => false,
    }
}

pub open spec fn occurs_list(v: u16, ps: Seq<SpecType>) -> bool
    decreases ps,
{
    ps.len() > 0 && (occurs(v, ps[0]) || occurs_list(v, ps.drop_first()))
}

pub open spec fn occurs_fields(v: u16, fs: Seq<(Seq<char>, SpecType)>) -> bool
    decreases fs,
{
    fs.len() > 0 && (occurs(v, fs[0].1) || occurs_fields(v, fs.drop_first()))
}

/// No variable bound in `f` occurs in `t`.
pub open spec fn free_of(f: Map<u16, SpecType>, t: SpecType) -> bool {
    forall|w: u16| #[trigger] f.contains_key(w) ==> !occurs(w, t)
}

/// `f` followed by binding `id` to `t`: every binding of `f` gets `id`
/// replaced by `t`.
pub open spec fn extend(f: Map<u16, SpecType>, id: u16, t: SpecType) -> Map<u16, SpecType> {
    Map::new(
        |v: u16| f.contains_key(v) || v == id,
        |v: u16| if v == id {
            t
        } else {
            apply(map![id => t], f[v])
        },
    )
}

// ---------------------------------------------------------------------------
// Lists, element by element
// ---------------------------------------------------------------------------

pub proof fn lemma_apply_list(f: Map<u16, SpecType>, ps: Seq<SpecType>)
    ensures
        apply_list(f, ps).len() == ps.len(),
        forall|i: int| 0 <= i < ps.len() ==> #[trigger] apply_list(f, ps)[i] == apply(f, ps[i]),
    decreases ps.len(),
{
    if ps.len() > 0 {
        lemma_apply_list(f, ps.drop_first());
        assert forall|i: int| 0 <= i < ps.len() implies #[trigger] apply_list(f, ps)[i] == apply(
            f,
            ps[i],
        ) by {
            if i > 0 {
                assert(ps.drop_first()[i - 1] == ps[i]);
            }
        }
    }
}

pub proof fn lemma_apply_fields(f: Map<u16, SpecType>, fs: Seq<(Seq<char>, SpecType)>)
    ensures
        apply_fields(f, fs).len() == fs.len(),
        forall|i: int|
            0 <= i < fs.len() ==> #[trigger] apply_fields(f, fs)[i] == (fs[i].0, apply(f, fs[i].1)),
    decreases fs.len(),
{
    if fs.len() > 0 {
        lemma_apply_fields(f, fs.drop_first());
        assert forall|i: int| 0 <= i < fs.len() implies #[trigger] apply_fields(f, fs)[i] == (
            fs[i].0,
            apply(f, fs[i].1),
        ) by {
            if i > 0 {
                assert(fs.drop_first()[i - 1] == fs[i]);
            }
        }
    }
}

pub proof fn lemma_size_list(ps: Seq<SpecType>)
    ensures
        forall|i: int| 0 <= i < ps.len() ==> size(#[trigger] ps[i]) <= size_list(ps),
    decreases ps.len(),
{
    if ps.len() > 0 {
        lemma_size_list(ps.drop_first());
        assert forall|i: int| 0 <= i < ps.len() implies size(#[trigger] ps[i]) <= size_list(ps) by {
            if i > 0 {
                assert(ps.drop_first()[i - 1] == ps[i]);
            }
        }
    }
}

pub proof fn lemma_size_fields(fs: Seq<(Seq<char>, SpecType)>)
    ensures
        forall|i: int| 0 <= i < fs.len() ==> size(#[trigger] fs[i].1) <= size_fields(fs),
    decreases fs.len(),
{
    if fs.len() > 0 {
        lemma_size_fields(fs.drop_first());
        assert forall|i: int| 0 <= i < fs.len() implies size(#[trigger] fs[i].1) <= size_fields(
            fs,
        ) by {
            if i > 0 {
                assert(fs.drop_first()[i - 1] == fs[i]);
            }
        }
    }
}

pub proof fn lemma_occurs_list(v: u16, ps: Seq<SpecType>)
    ensures
        occurs_list(v, ps) <==> exists|i: int| 0 <= i < ps.len() && #[trigger] occurs(v, ps[i]),
    decreases ps.len(),
{
    if ps.len() > 0 {
        let d = ps.drop_first();
        lemma_occurs_list(v, d);
        if occurs_list(v, ps) {
            if occurs(v, ps[0]) {
                assert(0 <= 0 < ps.len() && occurs(v, ps[0]));
            } else {
                assert(occurs_list(v, d));
                let i = choose|i: int| 0 <= i < d.len() && #[trigger] occurs(v, d[i]);
                assert(d[i] == ps[i + 1]);
                assert(0 <= i + 1 < ps.len() && occurs(v, ps[i + 1]));
            }
        }
        if exists|i: int| 0 <= i < ps.len() && #[trigger] occurs(v, ps[i]) {
            let i = choose|i: int| 0 <= i < ps.len() && #[trigger] occurs(v, ps[i]);
            if i > 0 {
                assert(d[i - 1] == ps[i]);
                assert(0 <= i - 1 < d.len() && occurs(v, d[i - 1]));
                assert(occurs_list(v, d));
            }
            assert(occurs_list(v, ps));
        }
    }
}

pub proof fn lemma_occurs_fields(v: u16, fs: Seq<(Seq<char>, SpecType)>)
    ensures
        occurs_fields(v, fs) <==> exists|i: int| 0 <= i < fs.len() && #[trigger] occurs(v, fs[i].1),
    decreases fs.len(),
{
    if fs.len() > 0 {
        let d = fs.drop_first();
        lemma_occurs_fields(v, d);
        if occurs_fields(v, fs) {
            if occurs(v, fs[0].1) {
                assert(0 <= 0 < fs.len() && occurs(v, fs[0].1));
            } else {
                assert(occurs_fields(v, d));
                let i = choose|i: int| 0 <= i < d.len() && #[trigger] occurs(v, d[i].1);
                assert(d[i] == fs[i + 1]);
                assert(0 <= i + 1 < fs.len() && occurs(v, fs[i + 1].1));
            }
        }
        if exists|i: int| 0 <= i < fs.len() && #[trigger] occurs(v, fs[i].1) {
            let i = choose|i: int| 0 <= i < fs.len() && #[trigger] occurs(v, fs[i].1);
            if i > 0 {
                assert(d[i - 1] == fs[i]);
                assert(0 <= i - 1 < d.len() && occurs(v, d[i - 1].1));
                assert(occurs_fields(v, d));
            }
            assert(occurs_fields(v, fs));
        }
    }
}

// ---------------------------------------------------------------------------
// Applying substitutions
// ---------------------------------------------------------------------------

/// Applying a substitution to a type in which none of its variables occurs
/// changes nothing.
pub proof fn lemma_apply_free(f: Map<u16, SpecType>, t: SpecType)
    requires
        free_of(f, t),
    ensures
        apply(f, t) == t,
    decreases t, 1nat,
{
    match t {
        SpecType::Record(fs) => {
            assert forall|w: u16| #[trigger] f.contains_key(w) implies !occurs_fields(w, fs) by {
                assert(!occurs(w, t));
            }
            lemma_apply_free_fields(f, fs);
        },
        SpecType::Function(ps, r) => {
            assert forall|w: u16| #[trigger] f.contains_key(w) implies !occurs_list(w, ps) && !occurs(
                w,
                *r,
            ) by {
                assert(!occurs(w, t));
            }
            lemma_apply_free_list(f, ps);
            lemma_apply_free(f, *r);
        },
        SpecType::Array(e) => {
            assert forall|w: u16| #[trigger] f.contains_key(w) implies !occurs(w, *e) by {
                assert(!occurs(w, t));
            }
            lemma_apply_free(f, *e);
        },
        SpecType::MapOf(k, x) => {
            assert forall|w: u16| #[trigger] f.contains_key(w) implies !occurs(w, *k) && !occurs(
                w,
                *x,
            ) by {
                assert(!occurs(w, t));
            }
            lemma_apply_free(f, *k);
            lemma_apply_free(f, *x);
        },
        SpecType::TypeVar(v) => {
            if f.contains_key(v) {
                assert(!occurs(v, t));
            }
        },
        _ => {},
    }
}

proof fn lemma_apply_free_list(f: Map<u16, SpecType>, ps: Seq<SpecType>)
    requires
        forall|w: u16| #[trigger] f.contains_key(w) ==> !occurs_list(w, ps),
    ensures
        apply_list(f, ps) == ps,
    decreases ps, 0nat,
{
    if ps.len() > 0 {
        assert forall|w: u16| #[trigger] f.contains_key(w) implies !occurs(w, ps[0])
            && !occurs_list(w, ps.drop_first()) by {
            assert(!occurs_list(w, ps));
        }
        lemma_apply_free(f, ps[0]);
        lemma_apply_free_list(f, ps.drop_first());
        assert(seq![ps[0]] + ps.drop_first() =~= ps);
    } else {
        assert(ps =~= Seq::<SpecType>::empty());
    }
}

proof fn lemma_apply_free_fields(f: Map<u16, SpecType>, fs: Seq<(Seq<char>, SpecType)>)
    requires
        forall|w: u16| #[trigger] f.contains_key(w) ==> !occurs_fields(w, fs),
    ensures
        apply_fields(f, fs) == fs,
    decreases fs, 0nat,
{
    if fs.len() > 0 {
        assert forall|w: u16| #[trigger] f.contains_key(w) implies !occurs(w, fs[0].1)
            && !occurs_fields(w, fs.drop_first()) by {
            assert(!occurs_fields(w, fs));
        }
        lemma_apply_free(f, fs[0].1);
        lemma_apply_free_fields(f, fs.drop_first());
        assert(seq![(fs[0].0, fs[0].1)] + fs.drop_first() =~= fs);
    } else {
        assert(fs =~= Seq::<(Seq<char>, SpecType)>::empty());
    }
}

/// A variable in the result of applying `f` comes from `t`, where `f` does
/// not bind it, or from a binding of `f` for a variable of `t`.
pub proof fn lemma_occurs_apply(f: Map<u16, SpecType>, t: SpecType, w: u16)
    ensures
        occurs(w, apply(f, t)) ==> (occurs(w, t) && !f.contains_key(w)) || exists|v: u16|
            f.contains_key(v) && occurs(v, t) && #[trigger] occurs(w, f[v]),
    decreases t, 1nat,
{
    match t {
        SpecType::TypeVar(v) => {
            if f.contains_key(v) {
                assert(occurs(v, t));
            }
        },
        SpecType::Array(e) => {
            lemma_occurs_apply(f, *e, w);
        },
        SpecType::MapOf(k, x) => {
            lemma_occurs_apply(f, *k, w);
            lemma_occurs_apply(f, *x, w);
        },
        SpecType::Record(fs) => {
            lemma_occurs_apply_fields(f, fs, w);
        },
        SpecType::Function(ps, r) => {
            lemma_occurs_apply_list(f, ps, w);
            lemma_occurs_apply(f, *r, w);
        },
        _ => {},
    }
}

proof fn lemma_occurs_apply_list(f: Map<u16, SpecType>, ps: Seq<SpecType>, w: u16)
    ensures
        occurs_list(w, apply_list(f, ps)) ==> (occurs_list(w, ps) && !f.contains_key(w)) || exists|
            v: u16,
        | f.contains_key(v) && occurs_list(v, ps) && #[trigger] occurs(w, f[v]),
    decreases ps, 0nat,
{
    if ps.len() > 0 {
        lemma_occurs_apply(f, ps[0], w);
        lemma_occurs_apply_list(f, ps.drop_first(), w);
        assert(apply_list(f, ps).drop_first() == apply_list(f, ps.drop_first()));
    }
}

proof fn lemma_occurs_apply_fields(f: Map<u16, SpecType>, fs: Seq<(Seq<char>, SpecType)>, w: u16)
    ensures
        occurs_fields(w, apply_fields(f, fs)) ==> (occurs_fields(w, fs) && !f.contains_key(w))
            || exists|v: u16| f.contains_key(v) && occurs_fields(v, fs) && #[trigger] occurs(w, f[v]),
    decreases fs, 0nat,
{
    if fs.len() > 0 {
        lemma_occurs_apply(f, fs[0].1, w);
        lemma_occurs_apply_fields(f, fs.drop_first(), w);
        assert(apply_fields(f, fs).drop_first() == apply_fields(f, fs.drop_first()));
    }
}

/// Applying `extend(f, id, s)` is applying `f`, then binding `id` to `s`.
pub proof fn lemma_apply_extend(f: Map<u16, SpecType>, id: u16, s: SpecType, t: SpecType)
    requires
        !f.contains_key(id),
    ensures
        apply(extend(f, id, s), t) == apply(map![id => s], apply(f, t)),
    decreases t, 1nat,
{
    match t {
        SpecType::Array(e) => lemma_apply_extend(f, id, s, *e),
        SpecType::MapOf(k, x) => {
            lemma_apply_extend(f, id, s, *k);
            lemma_apply_extend(f, id, s, *x);
        },
        SpecType::Record(fs) => lemma_apply_extend_fields(f, id, s, fs),
        SpecType::Function(ps, r) => {
            lemma_apply_extend_list(f, id, s, ps);
            lemma_apply_extend(f, id, s, *r);
        },
        _ => {},
    }
}

proof fn lemma_apply_extend_list(f: Map<u16, SpecType>, id: u16, s: SpecType, ps: Seq<SpecType>)
    requires
        !f.contains_key(id),
    ensures
        apply_list(extend(f, id, s), ps) == apply_list(map![id => s], apply_list(f, ps)),
    decreases ps, 0nat,
{
    if ps.len() > 0 {
        lemma_apply_extend(f, id, s, ps[0]);
        lemma_apply_extend_list(f, id, s, ps.drop_first());
        let a = apply_list(f, ps);
        assert(a[0] == apply(f, ps[0]));
        assert(a.drop_first() == apply_list(f, ps.drop_first()));
        assert(apply_list(map![id => s], a) =~= seq![apply(map![id => s], a[0])] + apply_list(
            map![id => s],
            a.drop_first(),
        ));
    }
}

proof fn lemma_apply_extend_fields(
    f: Map<u16, SpecType>,
    id: u16,
    s: SpecType,
    fs: Seq<(Seq<char>, SpecType)>,
)
    requires
        !f.contains_key(id),
    ensures
        apply_fields(extend(f, id, s), fs) == apply_fields(map![id => s], apply_fields(f, fs)),
    decreases fs, 0nat,
{
    if fs.len() > 0 {
        lemma_apply_extend(f, id, s, fs[0].1);
        lemma_apply_extend_fields(f, id, s, fs.drop_first());
        let a = apply_fields(f, fs);
        assert(a[0] == (fs[0].0, apply(f, fs[0].1)));
        assert(a.drop_first() == apply_fields(f, fs.drop_first()));
        assert(apply_fields(map![id => s], a) =~= seq![(a[0].0, apply(map![id => s], a[0].1))]
            + apply_fields(map![id => s], a.drop_first()));
    }
}

/// A finite set of 16-bit numbers has at most 65536 elements.
pub proof fn lemma_u16_set_bound(d: Set<u16>)
    requires
        d.finite(),
    ensures
        d.len() <= 65536,
{
    let f = |x: u16| x as int;
    let img = d.map(f);
    assert(vstd::relations::injective_on(f, d)) by {
        assert forall|x: u16, y: u16| d.contains(x) && d.contains(y) && #[trigger] f(x) == #[trigger] f(y) implies x == y by {}
    }
    vstd::set_lib::lemma_map_size(d, img, f);
    vstd::set_lib::lemma_int_range(0, 65536);
    assert(img.subset_of(vstd::set_lib::set_int_range(0, 65536))) by {
        assert forall|i: int| img.contains(i) implies vstd::set_lib::set_int_range(0, 65536).contains(i) by {
            let x = choose|x: u16| d.contains(x) && f(x) == i;
        }
    }
    vstd::set_lib::lemma_len_subset(img, vstd::set_lib::set_int_range(0, 65536));
}

// ---------------------------------------------------------------------------
// Unifiers
// ---------------------------------------------------------------------------

/// Replacing `id` by a type that `sigma` maps to the same image as `id`
/// changes no image under `sigma`.
pub proof fn lemma_subst_invariant(sigma: Map<u16, SpecType>, id: u16, b: SpecType, y: SpecType)
    requires
        apply(sigma, b) == apply(sigma, SpecType::TypeVar(id)),
    ensures
        apply(sigma, apply(map![id => b], y)) == apply(sigma, y),
    decreases y, 1nat,
{
    match y {
        SpecType::Array(e) => lemma_subst_invariant(sigma, id, b, *e),
        SpecType::MapOf(k, x) => {
            lemma_subst_invariant(sigma, id, b, *k);
            lemma_subst_invariant(sigma, id, b, *x);
        },
        SpecType::Record(fs) => lemma_subst_invariant_fields(sigma, id, b, fs),
        SpecType::Function(ps, r) => {
            lemma_subst_invariant_list(sigma, id, b, ps);
            lemma_subst_invariant(sigma, id, b, *r);
        },
        _ => {},
    }
}

proof fn lemma_subst_invariant_list(
    sigma: Map<u16, SpecType>,
    id: u16,
    b: SpecType,
    ps: Seq<SpecType>,
)
    requires
        apply(sigma, b) == apply(sigma, SpecType::TypeVar(id)),
    ensures
        apply_list(sigma, apply_list(map![id => b], ps)) == apply_list(sigma, ps),
    decreases ps, 0nat,
{
    if ps.len() > 0 {
        lemma_subst_invariant(sigma, id, b, ps[0]);
        lemma_subst_invariant_list(sigma, id, b, ps.drop_first());
        let a = apply_list(map![id => b], ps);
        assert(a[0] == apply(map![id => b], ps[0]));
        assert(a.drop_first() == apply_list(map![id => b], ps.drop_first()));
        assert(apply_list(sigma, a) =~= seq![apply(sigma, a[0])] + apply_list(
            sigma,
            a.drop_first(),
        ));
    }
}

proof fn lemma_subst_invariant_fields(
    sigma: Map<u16, SpecType>,
    id: u16,
    b: SpecType,
    fs: Seq<(Seq<char>, SpecType)>,
)
    requires
        apply(sigma, b) == apply(sigma, SpecType::TypeVar(id)),
    ensures
        apply_fields(sigma, apply_fields(map![id => b], fs)) == apply_fields(sigma, fs),
    decreases fs, 0nat,
{
    if fs.len() > 0 {
        lemma_subst_invariant(sigma, id, b, fs[0].1);
        lemma_subst_invariant_fields(sigma, id, b, fs.drop_first());
        let a = apply_fields(map![id => b], fs);
        assert(a[0] == (fs[0].0, apply(map![id => b], fs[0].1)));
        assert(a.drop_first() == apply_fields(map![id => b], fs.drop_first()));
        assert(apply_fields(sigma, a) =~= seq![(a[0].0, apply(sigma, a[0].1))] + apply_fields(
            sigma,
            a.drop_first(),
        ));
    }
}

/// A type in which `v` occurs is at least as large, under any substitution,
/// as `v` itself, and larger unless it is `v`.
pub proof fn lemma_occurs_size(sigma: Map<u16, SpecType>, v: u16, t: SpecType)
    requires
        occurs(v, t),
    ensures
        size(apply(sigma, t)) >= size(apply(sigma, SpecType::TypeVar(v))),
        !(t is TypeVar) ==> size(apply(sigma, t)) > size(apply(sigma, SpecType::TypeVar(v))),
    decreases t, 1nat,
{
    match t {
        SpecType::Array(e) => lemma_occurs_size(sigma, v, *e),
        SpecType::MapOf(k, x) => {
            if occurs(v, *k) {
                lemma_occurs_size(sigma, v, *k);
            } else {
                lemma_occurs_size(sigma, v, *x);
            }
        },
        SpecType::Record(fs) => lemma_occurs_size_fields(sigma, v, fs),
        SpecType::Function(ps, r) => {
            if occurs_list(v, ps) {
                lemma_occurs_size_list(sigma, v, ps);
            } else {
                lemma_occurs_size(sigma, v, *r);
            }
        },
        _ => {},
    }
}

proof fn lemma_occurs_size_list(sigma: Map<u16, SpecType>, v: u16, ps: Seq<SpecType>)
    requires
        occurs_list(v, ps),
    ensures
        size_list(apply_list(sigma, ps)) >= size(apply(sigma, SpecType::TypeVar(v))),
    decreases ps, 0nat,
{
    let a = apply_list(sigma, ps);
    assert(a[0] == apply(sigma, ps[0]));
    assert(a.drop_first() == apply_list(sigma, ps.drop_first()));
    if occurs(v, ps[0]) {
        lemma_occurs_size(sigma, v, ps[0]);
    } else {
        lemma_occurs_size_list(sigma, v, ps.drop_first());
    }
}

proof fn lemma_occurs_size_fields(sigma: Map<u16, SpecType>, v: u16, fs: Seq<(Seq<char>, SpecType)>)
    requires
        occurs_fields(v, fs),
    ensures
        size_fields(apply_fields(sigma, fs)) >= size(apply(sigma, SpecType::TypeVar(v))),
    decreases fs, 0nat,
{
    let a = apply_fields(sigma, fs);
    assert(a[0] == (fs[0].0, apply(sigma, fs[0].1)));
    assert(a.drop_first() == apply_fields(sigma, fs.drop_first()));
    if occurs(v, fs[0].1) {
        lemma_occurs_size(sigma, v, fs[0].1);
    } else {
        lemma_occurs_size_fields(sigma, v, fs.drop_first());
    }
}

} // verus!
