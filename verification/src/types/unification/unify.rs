//! Hindley-Milner unification over types.
use crate::types::compare::{clone_type, types_equal};
use crate::types::traits::{display_text, display_type};
use crate::types::types::{
    SpecType, Type, fields_model, lemma_fields_model, lemma_fields_model_push, lemma_types_model,
    lemma_types_model_push, types_model,
};
use crate::types::type_scheme::TypeScheme;
use crate::types::manager::TypeManager;
use crate::types::unification::var_set::{VarSet, sort_vars, var_set};
use hashbrown::HashMap;
use crate::types::unification::model::{
    lemma_occurs_size, lemma_subst_invariant,
    apply, apply_fields, apply_list, extend, free_of, lemma_apply_extend, lemma_apply_fields,
    lemma_apply_free, lemma_apply_list, lemma_occurs_apply, lemma_occurs_fields,
    lemma_occurs_list, lemma_size_fields, lemma_size_list, lemma_u16_set_bound, occurs, occurs_fields,
    occurs_list, size, size_fields,
};
use vstd::prelude::*;

verus! {

/// A map from type variables to types.
#[verifier::external_body]
pub struct TypeMap {
    map: HashMap<u16, Type>,
}

/// What each type variable in the map is mapped to.
pub uninterp spec fn bound_types(b: TypeMap) -> Map<u16, SpecType>;

impl TypeMap {
    /// `hashbrown::HashMap::new`: an empty map.
    #[verifier::external_body]
    fn empty_map() -> (r: TypeMap)
        ensures
            bound_types(r).dom() == Set::<u16>::empty(),
    {
        TypeMap { map: HashMap::new() }
    }

    /// `hashbrown::HashMap::get`: the type that `k` is mapped to, if any.
    #[verifier::external_body]
    fn lookup(&self, k: u16) -> (r: Option<&Type>)
        ensures
            bound_types(*self).contains_key(k) == r is Some,
            r matches Some(t) ==> t@ == bound_types(*self)[k],
    {
        self.map.get(&k)
    }

    /// `hashbrown::HashMap::insert`: maps `k` to `t`, in place of any
    /// previous type.
    #[verifier::external_body]
    fn put(&mut self, k: u16, t: Type)
        ensures
            bound_types(*final(self)) == bound_types(*old(self)).insert(k, t@),
    {
        self.map.insert(k, t);
    }

    /// `hashbrown::HashMap::keys`: the mapped variables, each once, in the
    /// order the hash table holds them.
    #[verifier::external_body]
    fn key_list(&self) -> (r: Vec<u16>)
        ensures
            r@.to_set() == bound_types(*self).dom(),
            r@.no_duplicates(),
    {
        self.map.keys().copied().collect()
    }

    /// An empty map.
    pub fn new() -> (r: TypeMap)
        ensures
            bound_types(r).dom() == Set::<u16>::empty(),
    {
        TypeMap::empty_map()
    }

    /// The type that `k` is mapped to, if any.
    pub fn get(&self, k: u16) -> (r: Option<&Type>)
        ensures
            bound_types(*self).contains_key(k) == r is Some,
            r matches Some(t) ==> t@ == bound_types(*self)[k],
    {
        self.lookup(k)
    }

    /// Maps `k` to `t`.
    pub fn insert(&mut self, k: u16, t: Type)
        ensures
            bound_types(*final(self)) == bound_types(*old(self)).insert(k, t@),
    {
        self.put(k, t);
    }

    /// The mapped variables, each once, in no particular order.
    pub fn keys(&self) -> (r: Vec<u16>)
        ensures
            r@.to_set() == bound_types(*self).dom(),
            r@.no_duplicates(),
    {
        self.key_list()
    }
}

/// Why two types do not unify.
#[derive(Debug)]
pub enum Error {
    /// A type variable would have to contain itself.
    OccursCheckFailed { type_var: String, ty: String },
    /// Records with different numbers of fields.
    FieldCountMismatch { expected: usize, found: usize },
    /// Records whose fields differ in name at the same position.
    FieldNameMismatch { expected: String, found: String },
    /// Functions with different numbers of parameters.
    FunctionParamCountMismatch { expected: usize, found: usize },
    /// Types of different kinds, or different symbols.
    TypeMismatch { left: String, right: String },
}

/// The type variables that occur in a type.
pub open spec fn vars_of(t: SpecType) -> Set<u16> {
    Set::new(|v: u16| occurs(v, t))
}

/// One step along the bindings: a bound variable's binding, anything else
/// unchanged.
pub open spec fn step(s: Map<u16, SpecType>, t: SpecType) -> SpecType {
    match t {
        SpecType::TypeVar(v) => if s.contains_key(v) {
            s[v]
        } else {
            t
        },
        _ => t,
    }
}

/// `n` steps along the bindings.
pub open spec fn follow(s: Map<u16, SpecType>, t: SpecType, n: nat) -> SpecType
    decreases n,
{
    if n == 0 {
        t
    } else {
        step(s, follow(s, t, (n - 1) as nat))
    }
}

/// Whether `t` is a variable that the bindings bind.
pub open spec fn is_bound_var(s: Map<u16, SpecType>, t: SpecType) -> bool {
    match t {
        SpecType::TypeVar(v) => s.contains_key(v),
        _ => false,
    }
}

/// The state of a unification: the bindings made so far.
pub struct Unification {
    subst: TypeMap,
    /// Each bound variable with its binding fully expanded.
    full: Ghost<Map<u16, SpecType>>,
    /// Bindings of a variable to another bound variable lead to a lower rank.
    rank: Ghost<Map<u16, int>>,
    /// Below every rank given out so far.
    floor: Ghost<int>,
}

/// `b` is `a` with bindings added: the bindings of `a` stay, and expanding
/// a type in `b` is expanding its expansion in `a`.
/// The fresh variables of an instantiation: the `i`-th quantified variable
/// maps to variable `start + i`; where a variable is listed twice, its last
/// place counts.
pub open spec fn fresh_vars(qs: Seq<u16>, start: nat) -> Map<u16, SpecType>
    decreases qs.len(),
{
    if qs.len() == 0 {
        Map::empty()
    } else {
        fresh_vars(qs.drop_last(), start).insert(
            qs.last(),
            SpecType::TypeVar((start + qs.len() - 1) as u16),
        )
    }
}

/// Which constructor a type is built with.
pub open spec fn kind_of(t: SpecType) -> nat {
    match t {
        SpecType::TypeVar(_) => 0,
        SpecType::Int => 1,
        SpecType::Float => 2,
        SpecType::Bool => 3,
        SpecType::Str => 4,
        SpecType::Bytes => 5,
        SpecType::Array(_) => 6,
        SpecType::MapOf(_, _) => 7,
        SpecType::Record(_) => 8,
        SpecType::Function(_, _) => 9,
        SpecType::Symbol(_) => 10,
    }
}

/// What unifying two types owes, judged by the outermost constructors of
/// their expansions `a` and `b`: success where they are already equal or
/// where one is a variable that does not occur in the other; an occurs-check
/// failure where a variable occurs inside the other type; a mismatch where
/// the constructors differ, records differ in field count, functions in
/// parameter count, or symbols differ.
pub open spec fn unify_outcome(a: SpecType, b: SpecType, r: Result<Type, Error>) -> bool {
    &&& a == b ==> r is Ok
    &&& (a is TypeVar && !occurs(a->TypeVar_0, b)) ==> r is Ok
    &&& (b is TypeVar && !occurs(b->TypeVar_0, a)) ==> r is Ok
    &&& (a is TypeVar && a != b && occurs(a->TypeVar_0, b)) ==> (r is Err && r->Err_0 is OccursCheckFailed)
    &&& (!(a is TypeVar) && b is TypeVar && occurs(b->TypeVar_0, a)) ==> (r is Err && r->Err_0 is OccursCheckFailed)
    &&& (!(a is TypeVar) && !(b is TypeVar) && kind_of(a) != kind_of(b)) ==> (r is Err && r->Err_0 is TypeMismatch)
    &&& (a is Record && b is Record && a->Record_0.len() != b->Record_0.len()) ==> r
        == Err::<Type, Error>(
        Error::FieldCountMismatch {
            expected: a->Record_0.len() as usize,
            found: b->Record_0.len() as usize,
        },
    )
    &&& (a is Function && b is Function && a->Function_0.len() != b->Function_0.len()) ==> r
        == Err::<Type, Error>(
        Error::FunctionParamCountMismatch {
            expected: a->Function_0.len() as usize,
            found: b->Function_0.len() as usize,
        },
    )
    &&& (a is Symbol && b is Symbol && a != b) ==> (r is Err && r->Err_0 is TypeMismatch)
}

/// `sigma` agrees with the bindings of `u`: expanding a type first does not
/// change its image under `sigma`.
pub open spec fn respects(sigma: Map<u16, SpecType>, u: Unification) -> bool {
    forall|x: SpecType| #[trigger] apply(sigma, u.expand(x)) == apply(sigma, x)
}

/// `sigma` unifies `a` and `b` in the state `u`: it agrees with the
/// bindings of `u` and maps the expansions of `a` and `b` to one type.
pub open spec fn is_unifier(sigma: Map<u16, SpecType>, u: Unification, a: SpecType, b: SpecType) -> bool {
    respects(sigma, u) && apply(sigma, u.expand(a)) == apply(sigma, u.expand(b))
}

/// A type made only of primitive types, symbols, arrays and maps: no type
/// variable, record or function.
pub open spec fn plain_type(t: SpecType) -> bool
    decreases t,
{
    match t {
        SpecType::Array(e) => plain_type(*e),
        SpecType::MapOf(k, v) => plain_type(*k) && plain_type(*v),
        SpecType::TypeVar(_) | SpecType::Record(_) | SpecType::Function(_, _) => false,
        _ => true,
    }
}

/// Where the bindings `s` lead from `t`: the first type along the chain of
/// bindings that is not a bound variable.
pub open spec fn resolved(s: Map<u16, SpecType>, t: SpecType) -> SpecType {
    choose|x: SpecType| !is_bound_var(s, x) && exists|n: nat| x == follow(s, t, n)
}

/// The errors that unifying owes at the outermost level, where `x1` and `x2`
/// are where the bindings lead from the two types and `a` and `b` their
/// expansions: an occurs-check failure names the variable and the type as
/// printed; a mismatch of constructors, or of symbols, names both types as
/// printed.
pub open spec fn top_errors(
    x1: SpecType,
    x2: SpecType,
    a: SpecType,
    b: SpecType,
    r: Result<Type, Error>,
) -> bool {
    &&& (x1 is TypeVar && x1 != x2 && occurs(x1->TypeVar_0, b)) ==> (r is Err
        && r->Err_0 is OccursCheckFailed && r->Err_0->type_var@ == display_text(x1)
        && r->Err_0->ty@ == display_text(x2))
    &&& (!(x1 is TypeVar) && x2 is TypeVar && occurs(x2->TypeVar_0, a)) ==> (r is Err
        && r->Err_0 is OccursCheckFailed && r->Err_0->type_var@ == display_text(x2)
        && r->Err_0->ty@ == display_text(x1))
    &&& (!(x1 is TypeVar) && !(x2 is TypeVar) && (kind_of(x1) != kind_of(x2) || (x1 is Symbol
        && x1 != x2))) ==> (r is Err && r->Err_0 is TypeMismatch && r->Err_0->left@
        == display_text(x1) && r->Err_0->right@ == display_text(x2))
}

/// Whether unifying fails at the outermost level, before any binding: an
/// occurs-check failure or a mismatch of constructors or symbols.
pub open spec fn top_failure(x1: SpecType, x2: SpecType, a: SpecType, b: SpecType) -> bool {
    ||| x1 is TypeVar && x1 != x2 && occurs(x1->TypeVar_0, b)
    ||| !(x1 is TypeVar) && x2 is TypeVar && occurs(x2->TypeVar_0, a)
    ||| !(x1 is TypeVar) && !(x2 is TypeVar) && (kind_of(x1) != kind_of(x2) || (x1 is Symbol
        && x1 != x2))
}

/// Past a type that is not a bound variable, following bindings stays put.
proof fn lemma_follow_stays(s: Map<u16, SpecType>, t: SpecType, n: nat, k: nat)
    requires
        !is_bound_var(s, follow(s, t, n)),
    ensures
        follow(s, t, n + k) == follow(s, t, n),
    decreases k,
{
    if k > 0 {
        lemma_follow_stays(s, t, n, (k - 1) as nat);
        assert(follow(s, t, n + k) == step(s, follow(s, t, (n + k - 1) as nat)));
    }
}

/// A type reached by following bindings that is not a bound variable is
/// where the bindings lead.
pub proof fn lemma_resolved(s: Map<u16, SpecType>, t: SpecType, r: SpecType)
    requires
        !is_bound_var(s, r),
        exists|n: nat| r == follow(s, t, n),
    ensures
        resolved(s, t) == r,
{
    let n = choose|n: nat| r == follow(s, t, n);
    let x = resolved(s, t);
    assert(!is_bound_var(s, x) && exists|m: nat| x == follow(s, t, m));
    let m = choose|m: nat| x == follow(s, t, m);
    if n <= m {
        lemma_follow_stays(s, t, n, (m - n) as nat);
    } else {
        lemma_follow_stays(s, t, m, (n - m) as nat);
    }
}

pub open spec fn grows(a: Unification, b: Unification) -> bool {
    &&& b.wf()
    &&& forall|k: u16| #[trigger]
        a.bindings().contains_key(k) ==> b.bindings().contains_key(k) && b.bindings()[k]
            == a.bindings()[k]
    &&& b.bindings().dom().len() >= a.bindings().dom().len()
    &&& b.bindings().dom().len() == a.bindings().dom().len() ==> b.bindings() == a.bindings()
        && b.expansions() == a.expansions()
    &&& forall|x: SpecType| #[trigger] b.expand(a.expand(x)) == b.expand(x)
}

impl Unification {
    /// What each bound type variable is bound to.
    pub closed spec fn bindings(&self) -> Map<u16, SpecType> {
        bound_types(self.subst)
    }

    /// Each bound type variable with its binding fully expanded: every bound
    /// variable in it replaced, again and again, until none is left.
    pub closed spec fn expansions(&self) -> Map<u16, SpecType> {
        self.full@
    }

    /// A type with every bound variable replaced by its full expansion.
    pub open spec fn expand(&self, t: SpecType) -> SpecType {
        apply(self.expansions(), t)
    }

    /// The bindings hold no cycle, and the expansions are what the
    /// bindings expand to.
    pub closed spec fn wf(&self) -> bool {
        let s = self.bindings();
        let f = self.full@;
        &&& s.dom().finite()
        &&& f.dom() == s.dom()
        &&& forall|v: u16| #[trigger] s.contains_key(v) ==> free_of(f, f[v])
        &&& forall|v: u16| #[trigger] s.contains_key(v) ==> f[v] == apply(f, s[v])
        &&& forall|v: u16| #[trigger]
            s.contains_key(v) ==> self.rank@.contains_key(v) && self.rank@[v] > self.floor@
        &&& forall|v: u16| #[trigger]
            s.contains_key(v) ==> (is_bound_var(s, s[v]) ==> self.rank@[s[v]->TypeVar_0]
                < self.rank@[v])
    }

    spec fn chain_measure(&self, t: SpecType) -> nat {
        match t {
            SpecType::TypeVar(v) => if self.bindings().contains_key(v) {
                (self.rank@[v] - self.floor@) as nat
            } else {
                0
            },
            _ => 0,
        }
    }

    /// A unification with no binding.
    pub fn new() -> (u: Self)
        ensures
            u.wf(),
            u.bindings() == Map::<u16, SpecType>::empty(),
            forall|t: SpecType| #[trigger] u.expand(t) == t,
    {
        let u = Unification {
            subst: TypeMap::new(),
            full: Ghost(Map::empty()),
            rank: Ghost(Map::empty()),
            floor: Ghost(0),
        };
        assert(u.full@.dom() =~= u.bindings().dom());
        assert forall|t: SpecType| #[trigger] u.expand(t) == t by {
            lemma_apply_free(u.full@, t);
        }
        u
    }

    /// Expanded types mention no bound variable.
    proof fn lemma_expand_free(&self, t: SpecType)
        requires
            self.wf(),
        ensures
            free_of(self.expansions(), self.expand(t)),
            self.expand(self.expand(t)) == self.expand(t),
    {
        let f = self.full@;
        assert forall|w: u16| #[trigger] f.contains_key(w) implies !occurs(w, apply(f, t)) by {
            lemma_occurs_apply(f, t, w);
            if exists|v: u16| f.contains_key(v) && occurs(v, t) && #[trigger] occurs(w, f[v]) {
                let v = choose|v: u16| f.contains_key(v) && occurs(v, t) && #[trigger] occurs(w, f[v]);
                assert(self.bindings().contains_key(v));
                assert(free_of(f, f[v]));
            }
        }
        lemma_apply_free(f, apply(f, t));
    }

    /// The expansions are given for exactly the bound variables: a variable
    /// with no binding expands to itself.
    pub proof fn lemma_expansions_cover_bindings(&self)
        requires
            self.wf(),
        ensures
            self.expansions().dom() == self.bindings().dom(),
            forall|v: u16|
                !#[trigger] self.bindings().contains_key(v) ==> self.expand(SpecType::TypeVar(v))
                    == SpecType::TypeVar(v),
    {
    }

    /// Follows the bindings from `t` to a type that is not a bound variable.
    pub fn resolve<'a>(&'a self, t: &'a Type) -> (r: &'a Type)
        requires
            self.wf(),
        ensures
            !is_bound_var(self.bindings(), r@),
            exists|n: nat| r@ == follow(self.bindings(), t@, n),
            self.expand(r@) == self.expand(t@),
            r@ is TypeVar ==> self.expand(r@) == r@,
    {
        proof {
            self.lemma_expansions_cover_bindings();
        }
        let mut cur: &'a Type = t;
        let ghost mut n: nat = 0;
        loop
            invariant
                self.wf(),
                cur@ == follow(self.bindings(), t@, n),
                self.expand(cur@) == self.expand(t@),
            ensures
                !is_bound_var(self.bindings(), cur@),
                cur@ == follow(self.bindings(), t@, n),
                self.expand(cur@) == self.expand(t@),
            decreases self.chain_measure(cur@),
        {
            match cur {
                Type::TypeVar(v) => {
                    match self.subst.get(*v) {
                        Some(next) => {
                            proof {
                                let s = self.bindings();
                                assert(s.contains_key(*v));
                                assert(follow(s, t@, n + 1) == step(s, cur@));
                                n = n + 1;
                            }
                            cur = next;
                        },
                        None => {
                            break ;
                        },
                    }
                },
                _ => {
                    break ;
                },
            }
        }
        cur
    }

    /// Whether variable `id`, which is not bound, occurs in `t` once bindings
    /// are followed.
    fn occurs_in(&self, id: u16, t: &Type) -> (b: bool)
        requires
            self.wf(),
            !self.bindings().contains_key(id),
        ensures
            b == occurs(id, self.expand(t@)),
        decreases size(self.expand(t@)),
    {
        let r = self.resolve(t);
        let ghost f = self.full@;
        match r {
            Type::TypeVar(v) => *v == id,
            Type::Array(e) => self.occurs_in(id, e),
            Type::MapOf(k, v) => self.occurs_in(id, k) || self.occurs_in(id, v),
            Type::Record(fs) => {
                let ghost m = fields_model(fs@);
                proof {
                    lemma_fields_model(fs@);
                    lemma_apply_fields(f, m);
                    lemma_size_fields(apply_fields(f, m));
                    lemma_occurs_fields(id, apply_fields(f, m));
                }
                let n = fs.len();
                for i in 0..n
                    invariant
                        self.wf(),
                        !self.bindings().contains_key(id),
                        f == self.full@,
                        n == fs@.len(),
                        m == fields_model(fs@),
                        m.len() == n,
                        forall|j: int| 0 <= j < n ==> #[trigger] m[j] == (fs@[j].0@, fs@[j].1@),
                        apply_fields(f, m).len() == n,
                        forall|j: int|
                            0 <= j < n ==> #[trigger] apply_fields(f, m)[j] == (
                                m[j].0,
                                apply(f, m[j].1),
                            ),
                        forall|j: int|
                            0 <= j < n ==> size(#[trigger] apply_fields(f, m)[j].1) < size(
                                self.expand(t@),
                            ),
                        forall|j: int| 0 <= j < i ==> !occurs(id, apply(f, m[j].1)),
                        occurs(id, self.expand(t@)) == occurs_fields(id, apply_fields(f, m)),
                        occurs_fields(id, apply_fields(f, m)) <==> exists|j: int|
                            0 <= j < n && #[trigger] occurs(id, apply_fields(f, m)[j].1),
                {
                    assert(size(apply_fields(f, m)[i as int].1) < size(self.expand(t@)));
                    if self.occurs_in(id, &fs[i].1) {
                        assert(occurs(id, apply_fields(f, m)[i as int].1));
                        return true;
                    }
                }
                assert forall|j: int| 0 <= j < n implies !occurs(
                    id,
                    #[trigger] apply_fields(f, m)[j].1,
                ) by {}
                false
            },
            Type::Function { params, ret } => {
                let ghost m = types_model(params@);
                proof {
                    lemma_types_model(params@);
                    lemma_apply_list(f, m);
                    lemma_size_list(apply_list(f, m));
                    lemma_occurs_list(id, apply_list(f, m));
                }
                let n = params.len();
                for i in 0..n
                    invariant
                        self.wf(),
                        !self.bindings().contains_key(id),
                        f == self.full@,
                        n == params@.len(),
                        m == types_model(params@),
                        m.len() == n,
                        forall|j: int| 0 <= j < n ==> #[trigger] m[j] == params@[j]@,
                        apply_list(f, m).len() == n,
                        forall|j: int|
                            0 <= j < n ==> #[trigger] apply_list(f, m)[j] == apply(f, m[j]),
                        forall|j: int|
                            0 <= j < n ==> size(#[trigger] apply_list(f, m)[j]) < size(
                                self.expand(t@),
                            ),
                        forall|j: int| 0 <= j < i ==> !occurs(id, apply(f, m[j])),
                        occurs_list(id, apply_list(f, m)) <==> exists|j: int|
                            0 <= j < n && #[trigger] occurs(id, apply_list(f, m)[j]),
                        occurs(id, self.expand(t@)) == (occurs_list(id, apply_list(f, m))
                            || occurs(id, self.expand(ret@))),
                {
                    assert(size(apply_list(f, m)[i as int]) < size(self.expand(t@)));
                    if self.occurs_in(id, &params[i]) {
                        assert(occurs(id, apply_list(f, m)[i as int]));
                        return true;
                    }
                }
                assert forall|j: int| 0 <= j < n implies !occurs(
                    id,
                    #[trigger] apply_list(f, m)[j],
                ) by {}
                self.occurs_in(id, ret)
            },
            _ => false,
        }
    }

    /// Binds `id` to `t`.
    fn bind(&mut self, id: u16, t: Type)
        requires
            old(self).wf(),
            !old(self).bindings().contains_key(id),
            !occurs(id, old(self).expand(t@)),
            !is_bound_var(old(self).bindings(), t@),
            t@ != SpecType::TypeVar(id),
        ensures
            grows(*old(self), *final(self)),
            final(self).bindings() == old(self).bindings().insert(id, t@),
            final(self).expand(SpecType::TypeVar(id)) == old(self).expand(t@),
            final(self).expand(t@) == old(self).expand(t@),
            forall|x: SpecType| #[trigger] final(self).expand(x) == apply(
                map![id => old(self).expand(t@)],
                old(self).expand(x),
            ),
    {
        let ghost s = self.bindings();
        let ghost f = self.full@;
        let ghost big = self.expand(t@);
        let ghost g = map![id => big];
        let ghost f2 = extend(f, id, big);
        let ghost tv = t@;
        proof {
            self.lemma_expand_free(tv);
        }
        self.subst.insert(id, t);
        self.full = Ghost(f2);
        self.rank = Ghost(self.rank@.insert(id, self.floor@));
        self.floor = Ghost(self.floor@ - 1);
        proof {
            let s2 = self.bindings();
            assert(s2 == s.insert(id, tv));
            assert(f2.dom() =~= s2.dom());
            // Applying the new expansions: the old ones, then the new binding.
            assert forall|x: SpecType| #[trigger] apply(f2, x) == apply(g, apply(f, x)) by {
                lemma_apply_extend(f, id, big, x);
            }
            assert(free_of(g, big)) by {
                assert forall|w: u16| #[trigger] g.contains_key(w) implies !occurs(w, big) by {}
            }
            lemma_apply_free(g, big);
            // Expansions mention no bound variable.
            assert forall|v: u16| #[trigger] s2.contains_key(v) implies free_of(f2, f2[v]) by {
                assert forall|w: u16| #[trigger] f2.contains_key(w) implies !occurs(w, f2[v]) by {
                    if v == id {
                        if w != id {
                            assert(f.contains_key(w));
                        }
                    } else {
                        lemma_occurs_apply(g, f[v], w);
                        assert(free_of(f, f[v]));
                        if w != id {
                            assert(f.contains_key(w));
                        }
                    }
                }
            }
            // Expansions are what bindings expand to.
            assert forall|v: u16| #[trigger] s2.contains_key(v) implies f2[v] == apply(f2, s2[v]) by {
                if v == id {
                    assert(apply(f2, tv) == apply(g, big));
                } else {
                    assert(apply(f2, s[v]) == apply(g, apply(f, s[v])));
                }
            }
            // Chains of variables go down in rank.
            assert forall|v: u16| #[trigger] s2.contains_key(v) implies (is_bound_var(s2, s2[v])
                ==> self.rank@[s2[v]->TypeVar_0] < self.rank@[v]) by {
                if v != id && is_bound_var(s2, s2[v]) {
                    let w = s2[v]->TypeVar_0;
                    if w != id {
                        assert(is_bound_var(s, s[v]));
                    }
                }
            }
            assert(self.wf());
            // Growth.
            assert forall|x: SpecType| #[trigger] apply(f2, apply(f, x)) == apply(f2, x) by {
                old(self).lemma_expand_free(x);
                assert(apply(f2, apply(f, x)) == apply(g, apply(f, apply(f, x))));
            }
            assert(s2.dom().len() == s.dom().len() + 1);
            assert(apply(f2, SpecType::TypeVar(id)) == big);
            assert(apply(f2, tv) == apply(g, big));
        }
    }

    /// Replaces, in a type with its bindings followed, each variable that
    /// `inst` maps by the type it is mapped to.
    pub fn substitute(&self, ty: &Type, inst: &TypeMap) -> (r: Type)
        requires
            self.wf(),
        ensures
            r@ == apply(bound_types(*inst), self.expand(ty@)),
        decreases size(self.expand(ty@)),
    {
        let resolved = self.resolve(ty);
        let ghost f = self.full@;
        let ghost g = bound_types(*inst);
        match resolved {
            Type::TypeVar(id) => {
                match inst.get(*id) {
                    Some(t) => clone_type(t),
                    None => clone_type(resolved),
                }
            },
            Type::Array(e) => Type::Array(Box::new(self.substitute(e, inst))),
            Type::MapOf(k, v) => Type::MapOf(
                Box::new(self.substitute(k, inst)),
                Box::new(self.substitute(v, inst)),
            ),
            Type::Record(fs) => {
                let ghost m = fields_model(fs@);
                proof {
                    lemma_fields_model(fs@);
                    lemma_apply_fields(f, m);
                    lemma_apply_fields(g, apply_fields(f, m));
                    lemma_size_fields(apply_fields(f, m));
                }
                let n = fs.len();
                let mut out: Vec<(String, Type)> = Vec::new();
                for i in 0..n
                    invariant
                        self.wf(),
                        f == self.full@,
                        g == bound_types(*inst),
                        n == fs@.len(),
                        m == fields_model(fs@),
                        m.len() == n,
                        forall|j: int| 0 <= j < n ==> #[trigger] m[j] == (fs@[j].0@, fs@[j].1@),
                        apply_fields(f, m).len() == n,
                        forall|j: int|
                            0 <= j < n ==> #[trigger] apply_fields(f, m)[j] == (
                                m[j].0,
                                apply(f, m[j].1),
                            ),
                        forall|j: int|
                            0 <= j < n ==> size(#[trigger] apply_fields(f, m)[j].1) < size(
                                self.expand(ty@),
                            ),
                        fields_model(out@) == apply_fields(g, apply_fields(f, m)).take(i as int),
                        apply_fields(g, apply_fields(f, m)).len() == n,
                        forall|j: int|
                            0 <= j < n ==> #[trigger] apply_fields(g, apply_fields(f, m))[j] == (
                                apply_fields(f, m)[j].0,
                                apply(g, apply_fields(f, m)[j].1),
                            ),
                {
                    assert(size(apply_fields(f, m)[i as int].1) < size(self.expand(ty@)));
                    let ghost before = out@;
                    let name = fs[i].0.clone();
                    let t = self.substitute(&fs[i].1, inst);
                    out.push((name, t));
                    proof {
                        lemma_fields_model_push(before, (name, t));
                        assert(fields_model(out@) =~= apply_fields(g, apply_fields(f, m)).take(
                            i + 1,
                        ));
                    }
                }
                assert(apply_fields(g, apply_fields(f, m)).take(n as int) =~= apply_fields(
                    g,
                    apply_fields(f, m),
                ));
                Type::Record(out)
            },
            Type::Function { params, ret } => {
                let ghost m = types_model(params@);
                proof {
                    lemma_types_model(params@);
                    lemma_apply_list(f, m);
                    lemma_apply_list(g, apply_list(f, m));
                    lemma_size_list(apply_list(f, m));
                }
                let n = params.len();
                let mut out: Vec<Type> = Vec::new();
                for i in 0..n
                    invariant
                        self.wf(),
                        f == self.full@,
                        g == bound_types(*inst),
                        n == params@.len(),
                        m == types_model(params@),
                        m.len() == n,
                        forall|j: int| 0 <= j < n ==> #[trigger] m[j] == params@[j]@,
                        apply_list(f, m).len() == n,
                        forall|j: int|
                            0 <= j < n ==> #[trigger] apply_list(f, m)[j] == apply(f, m[j]),
                        forall|j: int|
                            0 <= j < n ==> size(#[trigger] apply_list(f, m)[j]) < size(
                                self.expand(ty@),
                            ),
                        types_model(out@) == apply_list(g, apply_list(f, m)).take(i as int),
                        apply_list(g, apply_list(f, m)).len() == n,
                        forall|j: int|
                            0 <= j < n ==> #[trigger] apply_list(g, apply_list(f, m))[j] == apply(
                                g,
                                apply_list(f, m)[j],
                            ),
                {
                    assert(size(apply_list(f, m)[i as int]) < size(self.expand(ty@)));
                    let ghost before = out@;
                    let t = self.substitute(&params[i], inst);
                    out.push(t);
                    proof {
                        lemma_types_model_push(before, t);
                        assert(types_model(out@) =~= apply_list(g, apply_list(f, m)).take(i + 1));
                    }
                }
                assert(apply_list(g, apply_list(f, m)).take(n as int) =~= apply_list(
                    g,
                    apply_list(f, m),
                ));
                let r = self.substitute(ret, inst);
                Type::Function { params: out, ret: Box::new(r) }
            },
            _ => clone_type(resolved),
        }
    }

    /// The type variables that occur in a type once bindings are followed.
    pub fn free_type_vars(&self, ty: &Type) -> (r: VarSet)
        requires
            self.wf(),
        ensures
            var_set(r) == vars_of(self.expand(ty@)),
    {
        let mut vars = VarSet::new();
        self.collect_free_vars(ty, &mut vars);
        assert(var_set(vars) =~= vars_of(self.expand(ty@)));
        vars
    }

    fn collect_free_vars(&self, ty: &Type, vars: &mut VarSet)
        requires
            self.wf(),
        ensures
            var_set(*final(vars)) == var_set(*old(vars)).union(vars_of(self.expand(ty@))),
        decreases size(self.expand(ty@)),
    {
        let r = self.resolve(ty);
        let ghost f = self.full@;
        let ghost start = var_set(*vars);
        match r {
            Type::TypeVar(id) => {
                vars.insert(*id);
                assert(var_set(*vars) =~= start.union(vars_of(self.expand(ty@))));
            },
            Type::Array(e) => {
                self.collect_free_vars(e, vars);
                assert(var_set(*vars) =~= start.union(vars_of(self.expand(ty@))));
            },
            Type::MapOf(k, v) => {
                self.collect_free_vars(k, vars);
                self.collect_free_vars(v, vars);
                assert(var_set(*vars) =~= start.union(vars_of(self.expand(ty@))));
            },
            Type::Record(fs) => {
                let ghost m = fields_model(fs@);
                proof {
                    lemma_fields_model(fs@);
                    lemma_apply_fields(f, m);
                    lemma_size_fields(apply_fields(f, m));
                }
                let n = fs.len();
                for i in 0..n
                    invariant
                        self.wf(),
                        f == self.full@,
                        n == fs@.len(),
                        m == fields_model(fs@),
                        m.len() == n,
                        forall|j: int| 0 <= j < n ==> #[trigger] m[j] == (fs@[j].0@, fs@[j].1@),
                        apply_fields(f, m).len() == n,
                        forall|j: int|
                            0 <= j < n ==> #[trigger] apply_fields(f, m)[j] == (
                                m[j].0,
                                apply(f, m[j].1),
                            ),
                        forall|j: int|
                            0 <= j < n ==> size(#[trigger] apply_fields(f, m)[j].1) < size(
                                self.expand(ty@),
                            ),
                        var_set(*vars) == start.union(
                            Set::new(
                                |v: u16|
                                    exists|j: int|
                                        0 <= j < i && #[trigger] occurs(v, apply(f, m[j].1)),
                            ),
                        ),
                {
                    let ghost before = var_set(*vars);
                    assert(size(apply_fields(f, m)[i as int].1) < size(self.expand(ty@)));
                    self.collect_free_vars(&fs[i].1, vars);
                    proof {
                        assert forall|v: u16| #[trigger] var_set(*vars).contains(v) == start.union(
                            Set::new(
                                |v: u16|
                                    exists|j: int|
                                        0 <= j < i + 1 && #[trigger] occurs(v, apply(f, m[j].1)),
                            ),
                        ).contains(v) by {
                            if occurs(v, apply(f, m[i as int].1)) {
                                assert(0 <= i < i + 1 && occurs(v, apply(f, m[i as int].1)));
                            }
                        }
                        assert(var_set(*vars) =~= start.union(
                            Set::new(
                                |v: u16|
                                    exists|j: int|
                                        0 <= j < i + 1 && #[trigger] occurs(v, apply(f, m[j].1)),
                            ),
                        ));
                    }
                }
                proof {
                    assert forall|v: u16| #[trigger] vars_of(self.expand(ty@)).contains(v) == (exists|
                        j: int,
                    | 0 <= j < n && #[trigger] occurs(v, apply(f, m[j].1))) by {
                        lemma_occurs_fields(v, apply_fields(f, m));
                        if exists|j: int| 0 <= j < n && #[trigger] occurs(v, apply(f, m[j].1)) {
                            let j = choose|j: int| 0 <= j < n && #[trigger] occurs(v, apply(f, m[j].1));
                            assert(occurs(v, apply_fields(f, m)[j].1));
                        }
                        if occurs_fields(v, apply_fields(f, m)) {
                            let j = choose|j: int|
                                0 <= j < n && #[trigger] occurs(v, apply_fields(f, m)[j].1);
                            assert(occurs(v, apply(f, m[j].1)));
                        }
                    }
                    assert(var_set(*vars) =~= start.union(vars_of(self.expand(ty@))));
                }
            },
            Type::Function { params, ret } => {
                let ghost m = types_model(params@);
                proof {
                    lemma_types_model(params@);
                    lemma_apply_list(f, m);
                    lemma_size_list(apply_list(f, m));
                }
                let n = params.len();
                for i in 0..n
                    invariant
                        self.wf(),
                        f == self.full@,
                        n == params@.len(),
                        m == types_model(params@),
                        m.len() == n,
                        forall|j: int| 0 <= j < n ==> #[trigger] m[j] == params@[j]@,
                        apply_list(f, m).len() == n,
                        forall|j: int|
                            0 <= j < n ==> #[trigger] apply_list(f, m)[j] == apply(f, m[j]),
                        forall|j: int|
                            0 <= j < n ==> size(#[trigger] apply_list(f, m)[j]) < size(
                                self.expand(ty@),
                            ),
                        var_set(*vars) == start.union(
                            Set::new(
                                |v: u16|
                                    exists|j: int| 0 <= j < i && #[trigger] occurs(v, apply(f, m[j])),
                            ),
                        ),
                {
                    assert(size(apply_list(f, m)[i as int]) < size(self.expand(ty@)));
                    self.collect_free_vars(&params[i], vars);
                    proof {
                        assert forall|v: u16| #[trigger] var_set(*vars).contains(v) == start.union(
                            Set::new(
                                |v: u16|
                                    exists|j: int|
                                        0 <= j < i + 1 && #[trigger] occurs(v, apply(f, m[j])),
                            ),
                        ).contains(v) by {
                            if occurs(v, apply(f, m[i as int])) {
                                assert(0 <= i < i + 1 && occurs(v, apply(f, m[i as int])));
                            }
                        }
                        assert(var_set(*vars) =~= start.union(
                            Set::new(
                                |v: u16|
                                    exists|j: int|
                                        0 <= j < i + 1 && #[trigger] occurs(v, apply(f, m[j])),
                            ),
                        ));
                    }
                }
                let ghost mid = var_set(*vars);
                self.collect_free_vars(ret, vars);
                proof {
                    assert forall|v: u16| #[trigger] vars_of(self.expand(ty@)).contains(v) == ((exists|
                        j: int,
                    | 0 <= j < n && #[trigger] occurs(v, apply(f, m[j]))) || occurs(
                        v,
                        self.expand(ret@),
                    )) by {
                        lemma_occurs_list(v, apply_list(f, m));
                        if exists|j: int| 0 <= j < n && #[trigger] occurs(v, apply(f, m[j])) {
                            let j = choose|j: int| 0 <= j < n && #[trigger] occurs(v, apply(f, m[j]));
                            assert(occurs(v, apply_list(f, m)[j]));
                        }
                        if occurs_list(v, apply_list(f, m)) {
                            let j = choose|j: int|
                                0 <= j < n && #[trigger] occurs(v, apply_list(f, m)[j]);
                            assert(occurs(v, apply(f, m[j])));
                        }
                    }
                    assert(var_set(*vars) =~= start.union(vars_of(self.expand(ty@))));
                }
            },
            _ => {
                assert(var_set(*vars) =~= start.union(vars_of(self.expand(ty@))));
            },
        }
    }

    /// Generalizes a type into a type scheme: quantifies the type variables
    /// that occur in it, once bindings are followed, and not in `env_vars`,
    /// in ascending order.
    pub fn generalize(&self, ty: &Type, env_vars: &VarSet) -> (r: TypeScheme)
        requires
            self.wf(),
        ensures
            r.quantified@.to_set() == vars_of(self.expand(ty@)).difference(var_set(*env_vars)),
            forall|i: int, j: int|
                0 <= i < j < r.quantified@.len() ==> r.quantified@[i] < r.quantified@[j],
            r.ty@ == ty@,
    {
        let free = self.free_type_vars(ty);
        let all = free.to_vec();
        let mut keep: Vec<u16> = Vec::new();
        let n = all.len();
        for i in 0..n
            invariant
                n == all@.len(),
                all@.no_duplicates(),
                keep@.no_duplicates(),
                forall|k: int| 0 <= k < keep@.len() ==> all@.take(i as int).contains(#[trigger] keep@[k]),
                keep@.to_set() == all@.take(i as int).to_set().difference(var_set(*env_vars)),
        {
            let x = all[i];
            let ghost before = keep@;
            proof {
                assert(all@.take(i + 1) =~= all@.take(i as int).push(x));
            }
            if !env_vars.contains(x) {
                proof {
                    assert(!before.contains(x)) by {
                        if before.contains(x) {
                            let k = choose|k: int| 0 <= k < before.len() && before[k] == x;
                            assert(all@.take(i as int).contains(x));
                            let m = choose|m: int| 0 <= m < i && all@.take(i as int)[m] == x;
                            assert(all@[m] == all@[i as int]);
                        }
                    }
                }
                keep.push(x);
                proof {
                    assert forall|a: int, b: int|
                        0 <= a < keep@.len() && 0 <= b < keep@.len() && a != b implies keep@[a]
                        != keep@[b] by {
                        if a == before.len() {
                            assert(before.contains(keep@[b]));
                        } else if b == before.len() {
                            assert(before.contains(keep@[a]));
                        }
                    }
                }
            }
            proof {
                assert forall|k: int| 0 <= k < keep@.len() implies all@.take(i + 1).contains(
                    #[trigger] keep@[k],
                ) by {
                    if k < before.len() {
                        assert(all@.take(i as int).contains(before[k]));
                        let m = choose|m: int| 0 <= m < i && all@.take(i as int)[m] == before[k];
                        assert(all@.take(i + 1)[m] == before[k]);
                    } else {
                        assert(all@.take(i + 1)[i as int] == x);
                    }
                }
                let t0 = all@.take(i as int);
                let t1 = all@.take(i + 1);
                assert forall|y: u16| #[trigger] keep@.to_set().contains(y) == t1.to_set().difference(
                    var_set(*env_vars),
                ).contains(y) by {
                    if keep@.to_set().contains(y) {
                        let k = choose|k: int| 0 <= k < keep@.len() && keep@[k] == y;
                        if k < before.len() {
                            assert(before.to_set().contains(y));
                            assert(t0.to_set().contains(y));
                            let m = choose|m: int| 0 <= m < t0.len() && t0[m] == y;
                            assert(t1[m] == y);
                        } else {
                            assert(t1[i as int] == x);
                        }
                    }
                    if t1.to_set().difference(var_set(*env_vars)).contains(y) {
                        let m = choose|m: int| 0 <= m < t1.len() && t1[m] == y;
                        if m < i {
                            assert(t0[m] == y);
                            assert(t0.to_set().contains(y));
                            assert(before.to_set().contains(y));
                            let k = choose|k: int| 0 <= k < before.len() && before[k] == y;
                            assert(keep@[k] == y);
                        } else {
                            assert(keep@[keep@.len() - 1] == x);
                        }
                    }
                }
                assert(keep@.to_set() =~= t1.to_set().difference(var_set(*env_vars)));
            }
        }
        proof {
            assert(all@.take(n as int) =~= all@);
        }
        let sorted = sort_vars(keep);
        TypeScheme::new(sorted, clone_type(ty))
    }

    /// Instantiates a type scheme: each quantified variable is replaced by a
    /// fresh type variable of `types`, given out in the order the variables
    /// are quantified. A monomorphic scheme gives its type unchanged.
    pub fn instantiate(&self, scheme: &TypeScheme, types: &mut TypeManager) -> (r: Type)
        requires
            self.wf(),
            old(types).next_var() + scheme.quantified@.len() <= u16::MAX,
        ensures
            final(types).next_var() == old(types).next_var() + scheme.quantified@.len(),
            scheme.quantified@.len() == 0 ==> r@ == scheme.ty@,
            scheme.quantified@.len() > 0 ==> r@ == apply(
                fresh_vars(scheme.quantified@, old(types).next_var()),
                self.expand(scheme.ty@),
            ),
    {
        if scheme.is_monomorphic() {
            return clone_type(&scheme.ty);
        }
        let mut inst = TypeMap::new();
        let n = scheme.quantified.len();
        let ghost start = types.next_var();
        let ghost qs = scheme.quantified@;
        for i in 0..n
            invariant
                n == qs.len(),
                qs == scheme.quantified@,
                start + n <= u16::MAX,
                types.next_var() == start + i,
                bound_types(inst) == fresh_vars(qs.take(i as int), start),
        {
            let var_id = scheme.quantified[i];
            let fresh = types.fresh_type_var();
            inst.insert(var_id, fresh);
            assert(qs.take(i + 1).drop_last() =~= qs.take(i as int));
        }
        assert(qs.take(n as int) =~= qs);
        self.substitute(&scheme.ty, &inst)
    }

    /// Unifies two types: binds type variables so that both types expand to
    /// the same type, and returns that type, with every bound variable
    /// replaced by its binding.
    ///
    /// A type variable unifies with any type it does not occur in; primitive
    /// types unify with themselves; arrays, maps, records (field by field,
    /// names in the same order) and functions (parameter by parameter, then
    /// the return type) unify component-wise; symbols unify with equal
    /// symbols. Bindings made before an error stay.
    ///
    /// Unification succeeds exactly when the two types have a unifier that
    /// agrees with the bindings already made, and what it binds is most
    /// general: every such unifier agrees with the bindings afterwards too.
    pub fn unifies_to(&mut self, t1: &Type, t2: &Type) -> (r: Result<Type, Error>)
        requires
            old(self).wf(),
        ensures
            grows(*old(self), *final(self)),
            r matches Ok(u) ==> final(self).expand(t1@) == final(self).expand(t2@) && u@
                == final(self).expand(t1@),
            unify_outcome(old(self).expand(t1@), old(self).expand(t2@), r),
            old(self).expand(t1@) == old(self).expand(t2@) ==> *final(self) == *old(self),
            forall|sigma: Map<u16, SpecType>| #[trigger]
                is_unifier(sigma, *old(self), t1@, t2@) ==> r is Ok && respects(
                    sigma,
                    *final(self),
                ),
            r is Ok <==> exists|sigma: Map<u16, SpecType>| is_unifier(sigma, *old(self), t1@, t2@),
            plain_type(old(self).expand(t1@)) && plain_type(old(self).expand(t2@)) ==> *final(self)
                == *old(self) && (r is Ok <==> old(self).expand(t1@) == old(self).expand(t2@)) && (
            r is Err ==> r->Err_0 is TypeMismatch),
            top_errors(
                resolved(old(self).bindings(), t1@),
                resolved(old(self).bindings(), t2@),
                old(self).expand(t1@),
                old(self).expand(t2@),
                r,
            ),
            top_failure(
                resolved(old(self).bindings(), t1@),
                resolved(old(self).bindings(), t2@),
                old(self).expand(t1@),
                old(self).expand(t2@),
            ) ==> *final(self) == *old(self),
    {
        let ghost entry = *self;
        let res = self.unify_step(t1, t2);
        match res {
            Ok(_) => {
                let none = TypeMap::new();
                let u = self.substitute(t1, &none);
                proof {
                    lemma_apply_free(bound_types(none), self.expand(t1@));
                }
                Ok(u)
            },
            Err(e) => Err(e),
        }
    }

    /// Unifies two types, as `unifies_to` does, and returns a type that
    /// expands to the unified type.
    fn unify_step(&mut self, t1: &Type, t2: &Type) -> (r: Result<Type, Error>)
        requires
            old(self).wf(),
        ensures
            grows(*old(self), *final(self)),
            r matches Ok(u) ==> final(self).expand(t1@) == final(self).expand(t2@)
                && final(self).expand(u@) == final(self).expand(t1@),
            unify_outcome(old(self).expand(t1@), old(self).expand(t2@), r),
            old(self).expand(t1@) == old(self).expand(t2@) ==> *final(self) == *old(self),
            forall|sigma: Map<u16, SpecType>| #[trigger]
                is_unifier(sigma, *old(self), t1@, t2@) ==> r is Ok && respects(
                    sigma,
                    *final(self),
                ),
            r is Ok <==> exists|sigma: Map<u16, SpecType>| is_unifier(sigma, *old(self), t1@, t2@),
            plain_type(old(self).expand(t1@)) && plain_type(old(self).expand(t2@)) ==> *final(self)
                == *old(self) && (r is Ok <==> old(self).expand(t1@) == old(self).expand(t2@)) && (
            r is Err ==> r->Err_0 is TypeMismatch),
            top_errors(
                resolved(old(self).bindings(), t1@),
                resolved(old(self).bindings(), t2@),
                old(self).expand(t1@),
                old(self).expand(t2@),
                r,
            ),
            top_failure(
                resolved(old(self).bindings(), t1@),
                resolved(old(self).bindings(), t2@),
                old(self).expand(t1@),
                old(self).expand(t2@),
            ) ==> *final(self) == *old(self),
        decreases 65536 - old(self).bindings().dom().len(), size(old(self).expand(t1@)) + size(
            old(self).expand(t2@),
        ), 2nat,
    {
        let ghost entry = *self;
        proof {
            lemma_u16_set_bound(entry.bindings().dom());
        }
        let r1 = clone_type(self.resolve(t1));
        let r2 = clone_type(self.resolve(t2));
        proof {
            lemma_resolved(entry.bindings(), t1@, r1@);
            lemma_resolved(entry.bindings(), t2@, r2@);
        }
        let res = self.unify_resolved(&r1, &r2);
        proof {
            lemma_persist(entry, *self, t1@, r1@);
            lemma_persist(entry, *self, t2@, r2@);
            assert forall|sigma: Map<u16, SpecType>| #[trigger] is_unifier(sigma, entry, t1@, t2@)
                implies res is Ok && respects(sigma, *self) by {
                assert(is_unifier(sigma, entry, r1@, r2@));
            }
            if res is Ok {
                let sigma = self.expansions();
                assert forall|x: SpecType| #[trigger] apply(sigma, entry.expand(x)) == apply(sigma, x) by {
                    assert(self.expand(entry.expand(x)) == self.expand(x));
                }
                assert(respects(sigma, entry));
                assert(is_unifier(sigma, entry, t1@, t2@));
            }
        }
        res
    }

    /// Unifies two types that are not bound variables.
    fn unify_resolved(&mut self, r1: &Type, r2: &Type) -> (r: Result<Type, Error>)
        requires
            old(self).wf(),
            !is_bound_var(old(self).bindings(), r1@),
            !is_bound_var(old(self).bindings(), r2@),
        ensures
            grows(*old(self), *final(self)),
            r matches Ok(u) ==> final(self).expand(r1@) == final(self).expand(r2@)
                && final(self).expand(u@) == final(self).expand(r1@),
            unify_outcome(old(self).expand(r1@), old(self).expand(r2@), r),
            old(self).expand(r1@) == old(self).expand(r2@) ==> *final(self) == *old(self),
            forall|sigma: Map<u16, SpecType>| #[trigger]
                is_unifier(sigma, *old(self), r1@, r2@) ==> r is Ok && respects(
                    sigma,
                    *final(self),
                ),
            plain_type(old(self).expand(r1@)) && plain_type(old(self).expand(r2@)) ==> *final(self)
                == *old(self) && (r is Ok <==> old(self).expand(r1@) == old(self).expand(r2@)) && (
            r is Err ==> r->Err_0 is TypeMismatch),
            top_errors(r1@, r2@, old(self).expand(r1@), old(self).expand(r2@), r),
            top_failure(r1@, r2@, old(self).expand(r1@), old(self).expand(r2@)) ==> *final(self)
                == *old(self),
        decreases 65536 - old(self).bindings().dom().len(), size(old(self).expand(r1@)) + size(
            old(self).expand(r2@),
        ), 1nat,
    {
        let ghost entry = *self;
        proof {
            lemma_grows_refl(entry);
            lemma_u16_set_bound(entry.bindings().dom());
        }
        if types_equal(r1, r2) {
            return Ok(clone_type(r1));
        }
        match (r1, r2) {
            (Type::TypeVar(id), _) => {
                if self.occurs_in(*id, r2) {
                    proof {
                        assert forall|sigma: Map<u16, SpecType>| #![trigger is_unifier(sigma, entry, r1@, r2@)]
                        is_unifier(sigma, entry, r1@, r2@) implies false by {
                            lemma_expand_free_var(entry, *id);
                            if let Type::TypeVar(w) = r2 {
                                lemma_expand_free_var(entry, *w);
                            }
                            lemma_occurs_size(sigma, *id, entry.expand(r2@));
                        }
                    }
                    return Err(
                        Error::OccursCheckFailed { type_var: display_type(r1), ty: display_type(r2) },
                    );
                }
                let bound = clone_type(r2);
                self.bind(*id, bound);
                proof {
                    assert forall|sigma: Map<u16, SpecType>| #[trigger]
                        is_unifier(sigma, entry, r1@, r2@) implies respects(sigma, *self) by {
                        lemma_expand_free_var(entry, *id);
                        lemma_respects_bind(sigma, entry, *self, *id, entry.expand(r2@));
                    }
                }
                Ok(clone_type(r2))
            },
            (_, Type::TypeVar(id)) => {
                if self.occurs_in(*id, r1) {
                    proof {
                        assert forall|sigma: Map<u16, SpecType>| #![trigger is_unifier(sigma, entry, r1@, r2@)]
                        is_unifier(sigma, entry, r1@, r2@) implies false by {
                            lemma_expand_free_var(entry, *id);
                            lemma_occurs_size(sigma, *id, entry.expand(r1@));
                        }
                    }
                    return Err(
                        Error::OccursCheckFailed { type_var: display_type(r2), ty: display_type(r1) },
                    );
                }
                let bound = clone_type(r1);
                self.bind(*id, bound);
                proof {
                    assert forall|sigma: Map<u16, SpecType>| #[trigger]
                        is_unifier(sigma, entry, r1@, r2@) implies respects(sigma, *self) by {
                        lemma_expand_free_var(entry, *id);
                        lemma_respects_bind(sigma, entry, *self, *id, entry.expand(r1@));
                    }
                }
                Ok(clone_type(r1))
            },
            (Type::Int, Type::Int) | (Type::Float, Type::Float) | (Type::Bool, Type::Bool) | (
                Type::Str,
                Type::Str,
            ) | (Type::Bytes, Type::Bytes) => Ok(clone_type(r1)),
            (Type::Array(e1), Type::Array(e2)) => {
                let elem = match self.unify_step(e1, e2) {
                    Ok(u) => u,
                    Err(e) => {
                        proof {
                            assert forall|sigma: Map<u16, SpecType>| #![trigger is_unifier(sigma, entry, r1@, r2@)]
                            is_unifier(sigma, entry, r1@, r2@) implies false by {
                                assert(is_unifier(sigma, entry, e1@, e2@));
                            }
                        }
                        return Err(e);
                    },
                };
                proof {
                    assert forall|sigma: Map<u16, SpecType>| #[trigger]
                        is_unifier(sigma, entry, r1@, r2@) implies respects(sigma, *self) by {
                        assert(is_unifier(sigma, entry, e1@, e2@));
                    }
                }
                Ok(Type::Array(Box::new(elem)))
            },
            (Type::MapOf(k1, v1), Type::MapOf(k2, v2)) => {
                let k = match self.unify_step(k1, k2) {
                    Ok(u) => u,
                    Err(e) => {
                        proof {
                            assert forall|sigma: Map<u16, SpecType>| #![trigger is_unifier(sigma, entry, r1@, r2@)]
                            is_unifier(sigma, entry, r1@, r2@) implies false by {
                                assert(is_unifier(sigma, entry, k1@, k2@));
                            }
                        }
                        return Err(e);
                    },
                };
                let ghost mid = *self;
                proof {
                    lemma_u16_set_bound(mid.bindings().dom());
                    if entry.expand(r1@) == entry.expand(r2@) {
                        lemma_persist(entry, mid, v1@, v2@);
                    }
                }
                let v = match self.unify_step(v1, v2) {
                    Ok(u) => u,
                    Err(e) => {
                        proof {
                            lemma_grows_trans(entry, mid, *self);
                            assert forall|sigma: Map<u16, SpecType>| #![trigger is_unifier(sigma, entry, r1@, r2@)]
                            is_unifier(sigma, entry, r1@, r2@) implies false by {
                                assert(is_unifier(sigma, entry, k1@, k2@));
                                lemma_unifier_moves(sigma, entry, mid, v1@, v2@);
                            }
                        }
                        return Err(e);
                    },
                };
                proof {
                    lemma_grows_trans(entry, mid, *self);
                    lemma_persist(mid, *self, k1@, k2@);
                    lemma_persist(mid, *self, k@, k1@);
                    assert forall|sigma: Map<u16, SpecType>| #[trigger]
                        is_unifier(sigma, entry, r1@, r2@) implies respects(sigma, *self) by {
                        assert(is_unifier(sigma, entry, k1@, k2@));
                        lemma_unifier_moves(sigma, entry, mid, v1@, v2@);
                    }
                }
                Ok(Type::MapOf(Box::new(k), Box::new(v)))
            },
            (Type::Record(f1), Type::Record(f2)) => {
                proof {
                    lemma_fields_model(f1@);
                    lemma_fields_model(f2@);
                    lemma_apply_fields(entry.expansions(), fields_model(f1@));
                    lemma_apply_fields(entry.expansions(), fields_model(f2@));
                }
                if f1.len() != f2.len() {
                    proof {
                        assert forall|sigma: Map<u16, SpecType>| #![trigger is_unifier(sigma, entry, r1@, r2@)]
                        is_unifier(sigma, entry, r1@, r2@) implies false by {
                            lemma_apply_fields(sigma, apply_fields(entry.expansions(), fields_model(f1@)));
                            lemma_apply_fields(sigma, apply_fields(entry.expansions(), fields_model(f2@)));
                        }
                    }
                    return Err(Error::FieldCountMismatch { expected: f1.len(), found: f2.len() });
                }
                let out = match self.unify_fields(f1, f2) {
                    Ok(out) => out,
                    Err(e) => {
                        proof {
                            assert forall|sigma: Map<u16, SpecType>| #![trigger is_unifier(sigma, entry, r1@, r2@)]
                            is_unifier(sigma, entry, r1@, r2@) implies false by {
                                assert(is_unifier(sigma, entry, SpecType::Record(fields_model(f1@)), SpecType::Record(fields_model(f2@))));
                            }
                        }
                        return Err(e);
                    },
                };
                proof {
                    assert forall|sigma: Map<u16, SpecType>| #[trigger]
                        is_unifier(sigma, entry, r1@, r2@) implies respects(sigma, *self) by {
                        assert(is_unifier(sigma, entry, SpecType::Record(fields_model(f1@)), SpecType::Record(fields_model(f2@))));
                    }
                }
                Ok(Type::Record(out))
            },
            (
                Type::Function { params: p1, ret: ret1 },
                Type::Function { params: p2, ret: ret2 },
            ) => {
                proof {
                    lemma_types_model(p1@);
                    lemma_types_model(p2@);
                    lemma_apply_list(entry.expansions(), types_model(p1@));
                    lemma_apply_list(entry.expansions(), types_model(p2@));
                }
                if p1.len() != p2.len() {
                    proof {
                        assert forall|sigma: Map<u16, SpecType>| #![trigger is_unifier(sigma, entry, r1@, r2@)]
                        is_unifier(sigma, entry, r1@, r2@) implies false by {
                            lemma_apply_list(sigma, apply_list(entry.expansions(), types_model(p1@)));
                            lemma_apply_list(sigma, apply_list(entry.expansions(), types_model(p2@)));
                        }
                    }
                    return Err(
                        Error::FunctionParamCountMismatch { expected: p1.len(), found: p2.len() },
                    );
                }
                let res = self.unify_functions(p1, ret1, p2, ret2);
                proof {
                    assert forall|sigma: Map<u16, SpecType>| #[trigger]
                        is_unifier(sigma, entry, r1@, r2@) implies res is Ok && respects(sigma, *self) by {
                        assert(is_unifier(sigma, entry, SpecType::Function(types_model(p1@), Box::new(ret1@)), SpecType::Function(types_model(p2@), Box::new(ret2@))));
                    }
                }
                res
            },
            (Type::Symbol(_), Type::Symbol(_)) => {
                if types_equal(r1, r2) {
                    Ok(clone_type(r1))
                } else {
                    proof {
                        assert forall|sigma: Map<u16, SpecType>| #![trigger is_unifier(sigma, entry, r1@, r2@)]
                        is_unifier(sigma, entry, r1@, r2@) implies false by {
                        }
                    }
                    Err(Error::TypeMismatch { left: display_type(r1), right: display_type(r2) })
                }
            },
            _ => {
                proof {
                    assert forall|sigma: Map<u16, SpecType>| #![trigger is_unifier(sigma, entry, r1@, r2@)]
                        is_unifier(sigma, entry, r1@, r2@) implies false by {
                        assert(kind_of(apply(sigma, entry.expand(r1@))) == kind_of(r1@));
                        assert(kind_of(apply(sigma, entry.expand(r2@))) == kind_of(r2@));
                    }
                }
                Err(Error::TypeMismatch { left: display_type(r1), right: display_type(r2) })
            },
        }
    }

    /// Unifies two lists of record fields of the same length, field by field.
    fn unify_fields(&mut self, f1: &Vec<(String, Type)>, f2: &Vec<(String, Type)>) -> (r: Result<
        Vec<(String, Type)>,
        Error,
    >)
        requires
            old(self).wf(),
            f1@.len() == f2@.len(),
        ensures
            grows(*old(self), *final(self)),
            r matches Ok(out) ==> final(self).expand(SpecType::Record(fields_model(f1@)))
                == final(self).expand(SpecType::Record(fields_model(f2@))) && final(self).expand(
                SpecType::Record(fields_model(out@)),
            ) == final(self).expand(SpecType::Record(fields_model(f1@))),
            old(self).expand(SpecType::Record(fields_model(f1@))) == old(self).expand(
                SpecType::Record(fields_model(f2@)),
            ) ==> r is Ok && *final(self) == *old(self),
            forall|sigma: Map<u16, SpecType>| #[trigger]
                is_unifier(
                    sigma,
                    *old(self),
                    SpecType::Record(fields_model(f1@)),
                    SpecType::Record(fields_model(f2@)),
                ) ==> r is Ok && respects(sigma, *final(self)),
        decreases 65536 - old(self).bindings().dom().len(), size(
            old(self).expand(SpecType::Record(fields_model(f1@))),
        ) + size(old(self).expand(SpecType::Record(fields_model(f2@)))), 0nat,
    {
        let ghost entry = *self;
        let ghost f = self.full@;
        let ghost m1 = fields_model(f1@);
        let ghost m2 = fields_model(f2@);
        let ghost total = size(entry.expand(SpecType::Record(m1))) + size(
            entry.expand(SpecType::Record(m2)),
        );
        proof {
            lemma_grows_refl(entry);
            lemma_fields_model(f1@);
            lemma_fields_model(f2@);
            lemma_apply_fields(f, m1);
            lemma_apply_fields(f, m2);
            lemma_size_fields(apply_fields(f, m1));
            lemma_size_fields(apply_fields(f, m2));
            assert forall|j: int| 0 <= j < m1.len() implies size(#[trigger] apply(f, m1[j].1)) + size(
                apply(f, m2[j].1),
            ) < total by {
                assert(apply_fields(f, m1)[j] == (m1[j].0, apply(f, m1[j].1)));
                assert(apply_fields(f, m2)[j] == (m2[j].0, apply(f, m2[j].1)));
                assert(size(apply_fields(f, m1)[j].1) <= size_fields(apply_fields(f, m1)));
                assert(size(apply_fields(f, m2)[j].1) <= size_fields(apply_fields(f, m2)));
            }
        }
        let ghost eq = entry.expand(SpecType::Record(m1)) == entry.expand(SpecType::Record(m2));
        proof {
            if eq {
                assert forall|j: int| 0 <= j < m1.len() implies m1[j].0 == m2[j].0 && entry.expand(
                    #[trigger] m1[j].1,
                ) == entry.expand(m2[j].1) by {
                    assert(apply_fields(f, m1)[j] == apply_fields(f, m2)[j]);
                }
            }
        }
        proof {
            assert forall|sigma: Map<u16, SpecType>| #[trigger] is_unifier(sigma, entry, SpecType::Record(m1), SpecType::Record(m2)) implies forall|j: int|
                #![trigger m1[j]]
                0 <= j < m1.len() ==> m1[j].0 == m2[j].0 && apply(sigma, entry.expand(m1[j].1))
                    == apply(sigma, entry.expand(m2[j].1)) by {
                lemma_apply_fields(sigma, apply_fields(f, m1));
                lemma_apply_fields(sigma, apply_fields(f, m2));
                assert forall|j: int| #![trigger m1[j]] 0 <= j < m1.len() implies m1[j].0 == m2[j].0
                    && apply(sigma, entry.expand(m1[j].1)) == apply(sigma, entry.expand(m2[j].1)) by {
                    assert(apply_fields(sigma, apply_fields(f, m1))[j] == apply_fields(
                        sigma,
                        apply_fields(f, m2),
                    )[j]);
                }
            }
        }
        let n = f1.len();
        let mut out: Vec<(String, Type)> = Vec::new();
        for i in 0..n
            invariant
                forall|sigma: Map<u16, SpecType>| #[trigger] is_unifier(sigma, entry, SpecType::Record(m1), SpecType::Record(m2)) ==> forall|j: int|
                    #![trigger m1[j]]
                    0 <= j < m1.len() ==> m1[j].0 == m2[j].0 && apply(sigma, entry.expand(m1[j].1))
                        == apply(sigma, entry.expand(m2[j].1)),
                forall|sigma: Map<u16, SpecType>| #[trigger] is_unifier(sigma, entry, SpecType::Record(m1), SpecType::Record(m2)) ==> respects(sigma, *self),
                eq == (entry.expand(SpecType::Record(m1)) == entry.expand(SpecType::Record(m2))),
                eq ==> forall|j: int|
                    0 <= j < n ==> m1[j].0 == m2[j].0 && entry.expand(#[trigger] m1[j].1)
                        == entry.expand(m2[j].1),
                eq ==> *self == entry,
                n == f1@.len(),
                n == f2@.len(),
                m1 == fields_model(f1@),
                m2 == fields_model(f2@),
                m1.len() == n,
                m2.len() == n,
                forall|j: int| 0 <= j < n ==> #[trigger] m1[j] == (f1@[j].0@, f1@[j].1@),
                forall|j: int| 0 <= j < n ==> #[trigger] m2[j] == (f2@[j].0@, f2@[j].1@),
                f == entry.expansions(),
                entry == *old(self),
                total == size(entry.expand(SpecType::Record(m1))) + size(
                    entry.expand(SpecType::Record(m2)),
                ),
                forall|j: int|
                    0 <= j < n ==> size(#[trigger] apply(f, m1[j].1)) + size(apply(f, m2[j].1))
                        < total,
                grows(entry, *self),
                out@.len() == i,
                forall|j: int| 0 <= j < i ==> #[trigger] out@[j].0@ == m1[j].0,
                forall|j: int| 0 <= j < i ==> m1[j].0 == m2[j].0,
                forall|j: int|
                    0 <= j < i ==> self.expand(#[trigger] out@[j].1@) == self.expand(m1[j].1),
                forall|j: int| 0 <= j < i ==> self.expand(m2[j].1) == self.expand(#[trigger] m1[j].1),
        {
            proof {
                if eq {
                    assert(m1[i as int].0 == m2[i as int].0);
                }
            }
            if f1[i].0 != f2[i].0 {
                proof {
                    assert forall|sigma: Map<u16, SpecType>| #![trigger is_unifier(sigma, entry, SpecType::Record(m1), SpecType::Record(m2))]
                        is_unifier(sigma, entry, SpecType::Record(m1), SpecType::Record(m2)) implies false by {
                        assert(m1[i as int].0 == m2[i as int].0);
                    }
                }
                return Err(
                    Error::FieldNameMismatch { expected: f1[i].0.clone(), found: f2[i].0.clone() },
                );
            }
            let ghost before = *self;
            let ghost before_out = out@;
            proof {
                lemma_u16_set_bound(before.bindings().dom());
                assert(size(apply(f, m1[i as int].1)) + size(apply(f, m2[i as int].1)) < total);
                assert(before.bindings().dom().len() > entry.bindings().dom().len() || (
                before.expansions() == f && size(before.expand(f1@[i as int].1@)) + size(
                    before.expand(f2@[i as int].1@),
                ) < total));
                if eq {
                    assert(entry.expand(m1[i as int].1) == entry.expand(m2[i as int].1));
                    lemma_persist(entry, before, f1@[i as int].1@, f2@[i as int].1@);
                }
            }
            proof {
                assert forall|sigma: Map<u16, SpecType>| #[trigger] is_unifier(sigma, entry, SpecType::Record(m1), SpecType::Record(m2)) implies is_unifier(
                    sigma,
                    before,
                    f1@[i as int].1@,
                    f2@[i as int].1@,
                ) by {
                    assert(m1[i as int].1 == f1@[i as int].1@);
                    assert(m2[i as int].1 == f2@[i as int].1@);
                    assert(respects(sigma, entry));
                    assert(is_unifier(sigma, entry, f1@[i as int].1@, f2@[i as int].1@));
                    lemma_unifier_moves(sigma, entry, before, f1@[i as int].1@, f2@[i as int].1@);
                }
            }
            let u = match self.unify_step(&f1[i].1, &f2[i].1) {
                Ok(u) => u,
                Err(e) => {
                    proof {
                        lemma_grows_trans(entry, before, *self);
                        assert forall|sigma: Map<u16, SpecType>| #![trigger is_unifier(sigma, entry, SpecType::Record(m1), SpecType::Record(m2))]
                            is_unifier(sigma, entry, SpecType::Record(m1), SpecType::Record(m2)) implies false by {
                            assert(is_unifier(sigma, before, f1@[i as int].1@, f2@[i as int].1@));
                        }
                    }
                    return Err(e);
                },
            };
            proof {
                assert forall|sigma: Map<u16, SpecType>|
                    #[trigger] is_unifier(sigma, entry, SpecType::Record(m1), SpecType::Record(m2))
                    implies respects(sigma, *self) by {
                    assert(is_unifier(sigma, before, f1@[i as int].1@, f2@[i as int].1@));
                }
            }
            let name = f1[i].0.clone();
            out.push((name, u));
            proof {
                lemma_grows_trans(entry, before, *self);
                assert forall|j: int| 0 <= j < i + 1 implies self.expand(#[trigger] out@[j].1@)
                    == self.expand(m1[j].1) by {
                    if j < i {
                        assert(out@[j] == before_out[j]);
                        lemma_persist(before, *self, before_out[j].1@, m1[j].1);
                    }
                }
                assert forall|j: int| 0 <= j < i + 1 implies self.expand(m2[j].1) == self.expand(
                    #[trigger] m1[j].1,
                ) by {
                    if j < i {
                        lemma_persist(before, *self, m2[j].1, m1[j].1);
                    }
                }
                assert forall|j: int| 0 <= j < i + 1 implies #[trigger] out@[j].0@ == m1[j].0 by {
                    if j < i {
                        assert(out@[j] == before_out[j]);
                    }
                }
            }
        }
        proof {
            let ff = self.expansions();
            let mo = fields_model(out@);
            lemma_fields_model(out@);
            lemma_apply_fields(ff, mo);
            lemma_apply_fields(ff, m1);
            lemma_apply_fields(ff, m2);
            assert forall|j: int| 0 <= j < n implies #[trigger] apply_fields(ff, mo)[j] == apply_fields(
                ff,
                m1,
            )[j] && apply_fields(ff, m2)[j] == apply_fields(ff, m1)[j] by {
                assert(mo[j] == (out@[j].0@, out@[j].1@));
                assert(self.expand(out@[j].1@) == self.expand(m1[j].1));
                assert(self.expand(m2[j].1) == self.expand(m1[j].1));
            }
            assert(apply_fields(ff, mo) =~= apply_fields(ff, m1));
            assert(apply_fields(ff, m2) =~= apply_fields(ff, m1));
        }
        Ok(out)
    }

    /// Unifies two function types with as many parameters: parameter by
    /// parameter, then the return types.
    fn unify_functions(&mut self, p1: &Vec<Type>, ret1: &Type, p2: &Vec<Type>, ret2: &Type) -> (r:
        Result<Type, Error>)
        requires
            old(self).wf(),
            p1@.len() == p2@.len(),
        ensures
            grows(*old(self), *final(self)),
            r matches Ok(u) ==> final(self).expand(
                SpecType::Function(types_model(p1@), Box::new(ret1@)),
            ) == final(self).expand(SpecType::Function(types_model(p2@), Box::new(ret2@)))
                && final(self).expand(u@) == final(self).expand(
                SpecType::Function(types_model(p1@), Box::new(ret1@)),
            ),
            old(self).expand(SpecType::Function(types_model(p1@), Box::new(ret1@))) == old(
                self,
            ).expand(SpecType::Function(types_model(p2@), Box::new(ret2@))) ==> r is Ok
                && *final(self) == *old(self),
            forall|sigma: Map<u16, SpecType>| #[trigger]
                is_unifier(
                    sigma,
                    *old(self),
                    SpecType::Function(types_model(p1@), Box::new(ret1@)),
                    SpecType::Function(types_model(p2@), Box::new(ret2@)),
                ) ==> r is Ok && respects(sigma, *final(self)),
        decreases 65536 - old(self).bindings().dom().len(), size(
            old(self).expand(SpecType::Function(types_model(p1@), Box::new(ret1@))),
        ) + size(old(self).expand(SpecType::Function(types_model(p2@), Box::new(ret2@)))), 0nat,
    {
        let ghost entry = *self;
        let ghost f = self.full@;
        let ghost m1 = types_model(p1@);
        let ghost m2 = types_model(p2@);
        let ghost total = size(entry.expand(SpecType::Function(m1, Box::new(ret1@)))) + size(
            entry.expand(SpecType::Function(m2, Box::new(ret2@))),
        );
        proof {
            lemma_grows_refl(entry);
            lemma_types_model(p1@);
            lemma_types_model(p2@);
            lemma_apply_list(f, m1);
            lemma_apply_list(f, m2);
            lemma_size_list(apply_list(f, m1));
            lemma_size_list(apply_list(f, m2));
            assert forall|j: int| 0 <= j < m1.len() implies size(#[trigger] apply(f, m1[j])) + size(
                apply(f, m2[j]),
            ) < total by {
                assert(apply_list(f, m1)[j] == apply(f, m1[j]));
                assert(apply_list(f, m2)[j] == apply(f, m2[j]));
            }
        }
        let ghost eq = entry.expand(SpecType::Function(m1, Box::new(ret1@))) == entry.expand(
            SpecType::Function(m2, Box::new(ret2@)),
        );
        proof {
            if eq {
                assert forall|j: int| 0 <= j < m1.len() implies entry.expand(#[trigger] m1[j])
                    == entry.expand(m2[j]) by {
                    assert(apply_list(f, m1)[j] == apply_list(f, m2)[j]);
                }
            }
        }
        proof {
            assert forall|sigma: Map<u16, SpecType>| #[trigger] is_unifier(sigma, entry, SpecType::Function(m1, Box::new(ret1@)), SpecType::Function(m2, Box::new(ret2@))) implies (forall|j: int|
                #![trigger m1[j]]
                0 <= j < m1.len() ==> apply(sigma, entry.expand(m1[j])) == apply(
                    sigma,
                    entry.expand(m2[j]),
                )) && apply(sigma, entry.expand(ret1@)) == apply(sigma, entry.expand(ret2@)) by {
                lemma_apply_list(sigma, apply_list(f, m1));
                lemma_apply_list(sigma, apply_list(f, m2));
                assert forall|j: int| #![trigger m1[j]] 0 <= j < m1.len() implies apply(
                    sigma,
                    entry.expand(m1[j]),
                ) == apply(sigma, entry.expand(m2[j])) by {
                    assert(apply_list(sigma, apply_list(f, m1))[j] == apply_list(
                        sigma,
                        apply_list(f, m2),
                    )[j]);
                }
            }
        }
        let n = p1.len();
        let mut out: Vec<Type> = Vec::new();
        for i in 0..n
            invariant
                forall|sigma: Map<u16, SpecType>| #[trigger] is_unifier(sigma, entry, SpecType::Function(m1, Box::new(ret1@)), SpecType::Function(m2, Box::new(ret2@))) ==> (forall|j: int|
                    #![trigger m1[j]]
                    0 <= j < m1.len() ==> apply(sigma, entry.expand(m1[j])) == apply(
                        sigma,
                        entry.expand(m2[j]),
                    )) && apply(sigma, entry.expand(ret1@)) == apply(sigma, entry.expand(ret2@)),
                forall|sigma: Map<u16, SpecType>| #[trigger] is_unifier(sigma, entry, SpecType::Function(m1, Box::new(ret1@)), SpecType::Function(m2, Box::new(ret2@))) ==> respects(sigma, *self),
                eq == (entry.expand(SpecType::Function(m1, Box::new(ret1@))) == entry.expand(
                    SpecType::Function(m2, Box::new(ret2@)),
                )),
                eq ==> forall|j: int|
                    0 <= j < n ==> entry.expand(#[trigger] m1[j]) == entry.expand(m2[j]),
                eq ==> *self == entry,
                n == p1@.len(),
                n == p2@.len(),
                m1 == types_model(p1@),
                m2 == types_model(p2@),
                m1.len() == n,
                m2.len() == n,
                forall|j: int| 0 <= j < n ==> #[trigger] m1[j] == p1@[j]@,
                forall|j: int| 0 <= j < n ==> #[trigger] m2[j] == p2@[j]@,
                f == entry.expansions(),
                entry == *old(self),
                total == size(entry.expand(SpecType::Function(m1, Box::new(ret1@)))) + size(
                    entry.expand(SpecType::Function(m2, Box::new(ret2@))),
                ),
                forall|j: int|
                    0 <= j < n ==> size(#[trigger] apply(f, m1[j])) + size(apply(f, m2[j]))
                        < total,
                grows(entry, *self),
                out@.len() == i,
                forall|j: int| 0 <= j < i ==> self.expand(#[trigger] out@[j]@) == self.expand(m1[j]),
                forall|j: int| 0 <= j < i ==> self.expand(m2[j]) == self.expand(#[trigger] m1[j]),
        {
            let ghost before = *self;
            let ghost before_out = out@;
            proof {
                lemma_u16_set_bound(before.bindings().dom());
                assert(size(apply(f, m1[i as int])) + size(apply(f, m2[i as int])) < total);
                assert(before.bindings().dom().len() > entry.bindings().dom().len() || (
                before.expansions() == f && size(before.expand(p1@[i as int]@)) + size(
                    before.expand(p2@[i as int]@),
                ) < total));
                if eq {
                    assert(entry.expand(m1[i as int]) == entry.expand(m2[i as int]));
                    lemma_persist(entry, before, p1@[i as int]@, p2@[i as int]@);
                }
            }
            proof {
                assert forall|sigma: Map<u16, SpecType>| #[trigger] is_unifier(sigma, entry, SpecType::Function(m1, Box::new(ret1@)), SpecType::Function(m2, Box::new(ret2@))) implies is_unifier(
                    sigma,
                    before,
                    p1@[i as int]@,
                    p2@[i as int]@,
                ) by {
                    assert(m1[i as int] == p1@[i as int]@);
                    assert(m2[i as int] == p2@[i as int]@);
                    assert(respects(sigma, entry));
                    assert(is_unifier(sigma, entry, p1@[i as int]@, p2@[i as int]@));
                    lemma_unifier_moves(sigma, entry, before, p1@[i as int]@, p2@[i as int]@);
                }
            }
            let u = match self.unify_step(&p1[i], &p2[i]) {
                Ok(u) => u,
                Err(e) => {
                    proof {
                        lemma_grows_trans(entry, before, *self);
                        assert forall|sigma: Map<u16, SpecType>| #![trigger is_unifier(sigma, entry, SpecType::Function(m1, Box::new(ret1@)), SpecType::Function(m2, Box::new(ret2@)))]
                            is_unifier(sigma, entry, SpecType::Function(m1, Box::new(ret1@)), SpecType::Function(m2, Box::new(ret2@))) implies false by {
                            assert(is_unifier(sigma, before, p1@[i as int]@, p2@[i as int]@));
                        }
                    }
                    return Err(e);
                },
            };
            proof {
                assert forall|sigma: Map<u16, SpecType>|
                    #[trigger] is_unifier(sigma, entry, SpecType::Function(m1, Box::new(ret1@)), SpecType::Function(m2, Box::new(ret2@)))
                    implies respects(sigma, *self) by {
                    assert(is_unifier(sigma, before, p1@[i as int]@, p2@[i as int]@));
                }
            }
            out.push(u);
            proof {
                lemma_grows_trans(entry, before, *self);
                assert forall|j: int| 0 <= j < i + 1 implies self.expand(#[trigger] out@[j]@)
                    == self.expand(m1[j]) by {
                    if j < i {
                        assert(out@[j] == before_out[j]);
                        lemma_persist(before, *self, before_out[j]@, m1[j]);
                    }
                }
                assert forall|j: int| 0 <= j < i + 1 implies self.expand(m2[j]) == self.expand(
                    #[trigger] m1[j],
                ) by {
                    if j < i {
                        lemma_persist(before, *self, m2[j], m1[j]);
                    }
                }
            }
        }
        let ghost before = *self;
        proof {
            lemma_u16_set_bound(before.bindings().dom());
            assert(size(apply(f, ret1@)) + size(apply(f, ret2@)) < total);
            if eq {
                lemma_persist(entry, before, ret1@, ret2@);
            }
        }
        proof {
            assert forall|sigma: Map<u16, SpecType>| #[trigger] is_unifier(sigma, entry, SpecType::Function(m1, Box::new(ret1@)), SpecType::Function(m2, Box::new(ret2@))) implies is_unifier(
                sigma,
                before,
                ret1@,
                ret2@,
            ) by {
                assert(respects(sigma, entry));
                assert(is_unifier(sigma, entry, ret1@, ret2@));
                lemma_unifier_moves(sigma, entry, before, ret1@, ret2@);
            }
        }
        let r = match self.unify_step(ret1, ret2) {
            Ok(u) => u,
            Err(e) => {
                proof {
                    lemma_grows_trans(entry, before, *self);
                    assert forall|sigma: Map<u16, SpecType>| #![trigger is_unifier(sigma, entry, SpecType::Function(m1, Box::new(ret1@)), SpecType::Function(m2, Box::new(ret2@)))]
                        is_unifier(sigma, entry, SpecType::Function(m1, Box::new(ret1@)), SpecType::Function(m2, Box::new(ret2@))) implies false by {
                        assert(is_unifier(sigma, before, ret1@, ret2@));
                    }
                }
                return Err(e);
            },
        };
        proof {
            assert forall|sigma: Map<u16, SpecType>|
                #[trigger] is_unifier(sigma, entry, SpecType::Function(m1, Box::new(ret1@)), SpecType::Function(m2, Box::new(ret2@)))
                implies respects(sigma, *self) by {
                assert(is_unifier(sigma, before, ret1@, ret2@));
            }
        }
        proof {
            lemma_grows_trans(entry, before, *self);
            let ff = self.expansions();
            let mo = types_model(out@);
            lemma_types_model(out@);
            assert forall|j: int| 0 <= j < n implies self.expand(#[trigger] out@[j]@) == self.expand(
                m1[j],
            ) && self.expand(m2[j]) == self.expand(m1[j]) by {
                lemma_persist(before, *self, out@[j]@, m1[j]);
                lemma_persist(before, *self, m2[j], m1[j]);
            }
            lemma_apply_list(ff, mo);
            lemma_apply_list(ff, m1);
            lemma_apply_list(ff, m2);
            assert forall|j: int| 0 <= j < n implies #[trigger] apply_list(ff, mo)[j] == apply_list(
                ff,
                m1,
            )[j] && apply_list(ff, m2)[j] == apply_list(ff, m1)[j] by {
                assert(mo[j] == out@[j]@);
            }
            assert(apply_list(ff, mo) =~= apply_list(ff, m1));
            assert(apply_list(ff, m2) =~= apply_list(ff, m1));
        }
        Ok(Type::Function { params: out, ret: Box::new(r) })
    }
}


/// A state grows into itself.
pub proof fn lemma_grows_refl(a: Unification)
    requires
        a.wf(),
    ensures
        grows(a, a),
{
    assert forall|x: SpecType| #[trigger] a.expand(a.expand(x)) == a.expand(x) by {
        a.lemma_expand_free(x);
    }
}

/// Growing is transitive.
pub proof fn lemma_grows_trans(a: Unification, b: Unification, c: Unification)
    requires
        grows(a, b),
        grows(b, c),
    ensures
        grows(a, c),
{
    assert forall|x: SpecType| #[trigger] c.expand(a.expand(x)) == c.expand(x) by {
        assert(c.expand(b.expand(a.expand(x))) == c.expand(a.expand(x)));
        assert(b.expand(a.expand(x)) == b.expand(x));
        assert(c.expand(b.expand(x)) == c.expand(x));
    }
}

/// Types that expand alike keep expanding alike as bindings are added.
pub proof fn lemma_persist(a: Unification, b: Unification, x: SpecType, y: SpecType)
    requires
        grows(a, b),
        a.expand(x) == a.expand(y),
    ensures
        b.expand(x) == b.expand(y),
{
    assert(b.expand(a.expand(x)) == b.expand(x));
    assert(b.expand(a.expand(y)) == b.expand(y));
}

/// A variable without binding expands to itself.
pub proof fn lemma_expand_free_var(u: Unification, v: u16)
    requires
        u.wf(),
        !u.bindings().contains_key(v),
    ensures
        u.expand(SpecType::TypeVar(v)) == SpecType::TypeVar(v),
{
}

/// Expanding a type a second time changes nothing, and a bound variable
/// expands as its binding does.
pub proof fn law_expand(u: Unification, t: SpecType, v: u16)
    requires
        u.wf(),
    ensures
        u.expand(u.expand(t)) == u.expand(t),
        u.bindings().contains_key(v) ==> u.expand(SpecType::TypeVar(v)) == u.expand(
            u.bindings()[v],
        ),
{
    u.lemma_expand_free(t);
}

/// After binding `id` to a type that `sigma` maps to the image of `id`,
/// `sigma` still agrees with the bindings.
proof fn lemma_respects_bind(
    sigma: Map<u16, SpecType>,
    a: Unification,
    b: Unification,
    id: u16,
    t: SpecType,
)
    requires
        respects(sigma, a),
        apply(sigma, t) == apply(sigma, SpecType::TypeVar(id)),
        forall|x: SpecType| #[trigger] b.expand(x) == apply(map![id => t], a.expand(x)),
    ensures
        respects(sigma, b),
{
    assert forall|x: SpecType| #[trigger] apply(sigma, b.expand(x)) == apply(sigma, x) by {
        lemma_subst_invariant(sigma, id, t, a.expand(x));
        assert(apply(sigma, a.expand(x)) == apply(sigma, x));
    }
}

/// A unifier in one state that agrees with a later state unifies there too.
pub proof fn lemma_unifier_moves(
    sigma: Map<u16, SpecType>,
    a: Unification,
    b: Unification,
    x: SpecType,
    y: SpecType,
)
    requires
        is_unifier(sigma, a, x, y),
        respects(sigma, b),
    ensures
        is_unifier(sigma, b, x, y),
{
    assert(apply(sigma, a.expand(x)) == apply(sigma, x));
    assert(apply(sigma, a.expand(y)) == apply(sigma, y));
    assert(apply(sigma, b.expand(x)) == apply(sigma, x));
    assert(apply(sigma, b.expand(y)) == apply(sigma, y));
}

} // verus!
