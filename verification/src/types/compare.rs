//! Copying and comparing types.
use crate::types::types::{
    SpecType, Type, fields_model, lemma_fields_model, lemma_fields_model_push, lemma_types_model,
    lemma_types_model_push, strings_model, types_model,
};
use vstd::prelude::*;

verus! {

/// A copy of a type.
pub fn clone_type(t: &Type) -> (r: Type)
    ensures
        r@ == t@,
    decreases t,
{
    match t {
        Type::TypeVar(id) => Type::TypeVar(*id),
        Type::Int => Type::Int,
        Type::Float => Type::Float,
        Type::Bool => Type::Bool,
        Type::Str => Type::Str,
        Type::Bytes => Type::Bytes,
        Type::Array(e) => Type::Array(Box::new(clone_type(e))),
        Type::MapOf(k, v) => Type::MapOf(Box::new(clone_type(k)), Box::new(clone_type(v))),
        Type::Record(fs) => {
            let mut out: Vec<(String, Type)> = Vec::new();
            let n = fs.len();
            proof {
                lemma_fields_model(fs@);
                assert(fields_model(out@) =~= fields_model(fs@).take(0));
            }
            for i in 0..n
                invariant
                    n == fs@.len(),
                    *t == Type::Record(*fs),
                    fields_model(fs@).len() == n,
                    forall|j: int|
                        0 <= j < n ==> #[trigger] fields_model(fs@)[j] == (fs@[j].0@, fs@[j].1@),
                    fields_model(out@) == fields_model(fs@).take(i as int),
            {
                proof {
                    let g = (*t)->Record_0;
                    assert(decreases_to!(*t => *fs));
                    assert(decreases_to!(*fs => fs@));
                    assert(decreases_to!(fs@ => fs@[i as int]));
                    assert(decreases_to!(fs@[i as int] => fs@[i as int].1));
                }
                let ghost before = out@;
                let name = fs[i].0.clone();
                let ty = clone_type(&fs[i].1);
                out.push((name, ty));
                proof {
                    lemma_fields_model_push(before, (name, ty));
                    assert(fields_model(out@) =~= fields_model(fs@).take(i + 1));
                }
            }
            assert(fields_model(fs@).take(n as int) =~= fields_model(fs@));
            Type::Record(out)
        },
        Type::Function { params, ret } => {
            let mut out: Vec<Type> = Vec::new();
            let n = params.len();
            proof {
                lemma_types_model(params@);
                assert(types_model(out@) =~= types_model(params@).take(0));
            }
            for i in 0..n
                invariant
                    n == params@.len(),
                    *t == (Type::Function { params: *params, ret: *ret }),
                    types_model(params@).len() == n,
                    forall|j: int|
                        0 <= j < n ==> #[trigger] types_model(params@)[j] == params@[j]@,
                    types_model(out@) == types_model(params@).take(i as int),
            {
                proof {
                    let g = (*t)->Function_params;
                    assert(decreases_to!(*t => *params));
                    assert(decreases_to!(*params => params@));
                    assert(decreases_to!(params@ => params@[i as int]));
                }
                let ghost before = out@;
                let p = clone_type(&params[i]);
                out.push(p);
                proof {
                    lemma_types_model_push(before, p);
                    assert(types_model(out@) =~= types_model(params@).take(i + 1));
                }
            }
            assert(types_model(params@).take(n as int) =~= types_model(params@));
            let r = clone_type(ret);
            Type::Function { params: out, ret: Box::new(r) }
        },
        Type::Symbol(parts) => {
            let mut out: Vec<String> = Vec::new();
            let n = parts.len();
            for i in 0..n
                invariant
                    n == parts@.len(),
                    out@.len() == i,
                    forall|j: int| 0 <= j < i ==> #[trigger] out@[j]@ == parts@[j]@,
            {
                let ghost before = out@;
                let c = parts[i].clone();
                out.push(c);
                assert(out@[i as int] == c);
            }
            assert(strings_model(out@) =~= strings_model(parts@));
            Type::Symbol(out)
        },
    }
}

/// Whether two types are the same type.
pub fn types_equal(a: &Type, b: &Type) -> (r: bool)
    ensures
        r == (a@ == b@),
    decreases a,
{
    match (a, b) {
        (Type::TypeVar(x), Type::TypeVar(y)) => *x == *y,
        (Type::Int, Type::Int) => true,
        (Type::Float, Type::Float) => true,
        (Type::Bool, Type::Bool) => true,
        (Type::Str, Type::Str) => true,
        (Type::Bytes, Type::Bytes) => true,
        (Type::Array(x), Type::Array(y)) => types_equal(x, y),
        (Type::MapOf(k1, v1), Type::MapOf(k2, v2)) => types_equal(k1, k2) && types_equal(v1, v2),
        (Type::Record(f1), Type::Record(f2)) => {
            let n = f1.len();
            if n != f2.len() {
                proof {
                    lemma_fields_model(f1@);
                    lemma_fields_model(f2@);
                }
                return false;
            }
            let ghost m1 = fields_model(f1@);
            let ghost m2 = fields_model(f2@);
            proof {
                lemma_fields_model(f1@);
                lemma_fields_model(f2@);
            }
            for i in 0..n
                invariant
                    n == f1@.len(),
                    n == f2@.len(),
                    *a == Type::Record(*f1),
                    *b == Type::Record(*f2),
                    m1 == fields_model(f1@),
                    m2 == fields_model(f2@),
                    m1.len() == n,
                    m2.len() == n,
                    forall|j: int| 0 <= j < n ==> #[trigger] m1[j] == (f1@[j].0@, f1@[j].1@),
                    forall|j: int| 0 <= j < n ==> #[trigger] m2[j] == (f2@[j].0@, f2@[j].1@),
                    forall|j: int| 0 <= j < i ==> m1[j] == m2[j],
            {
                proof {
                    let g = (*a)->Record_0;
                    assert(decreases_to!(*a => *f1));
                    assert(decreases_to!(*f1 => f1@));
                    assert(decreases_to!(f1@ => f1@[i as int]));
                    assert(decreases_to!(f1@[i as int] => f1@[i as int].1));
                }
                if f1[i].0 != f2[i].0 || !types_equal(&f1[i].1, &f2[i].1) {
                    assert(m1[i as int] != m2[i as int]);
                    return false;
                }
            }
            assert(m1 =~= m2);
            true
        },
        (Type::Function { params: p1, ret: r1 }, Type::Function { params: p2, ret: r2 }) => {
            let n = p1.len();
            proof {
                lemma_types_model(p1@);
                lemma_types_model(p2@);
            }
            if n != p2.len() {
                return false;
            }
            let ghost m1 = types_model(p1@);
            let ghost m2 = types_model(p2@);
            for i in 0..n
                invariant
                    n == p1@.len(),
                    n == p2@.len(),
                    *a == (Type::Function { params: *p1, ret: *r1 }),
                    *b == (Type::Function { params: *p2, ret: *r2 }),
                    m1 == types_model(p1@),
                    m2 == types_model(p2@),
                    m1.len() == n,
                    m2.len() == n,
                    forall|j: int| 0 <= j < n ==> #[trigger] m1[j] == p1@[j]@,
                    forall|j: int| 0 <= j < n ==> #[trigger] m2[j] == p2@[j]@,
                    forall|j: int| 0 <= j < i ==> m1[j] == m2[j],
            {
                proof {
                    let g = (*a)->Function_params;
                    assert(decreases_to!(*a => *p1));
                    assert(decreases_to!(*p1 => p1@));
                    assert(decreases_to!(p1@ => p1@[i as int]));
                }
                if !types_equal(&p1[i], &p2[i]) {
                    assert(m1[i as int] != m2[i as int]);
                    return false;
                }
            }
            assert(m1 =~= m2);
            types_equal(r1, r2)
        },
        (Type::Symbol(s1), Type::Symbol(s2)) => {
            let n = s1.len();
            if n != s2.len() {
                assert(strings_model(s1@).len() != strings_model(s2@).len());
                return false;
            }
            for i in 0..n
                invariant
                    n == s1@.len(),
                    n == s2@.len(),
                    forall|j: int| 0 <= j < i ==> s1@[j]@ == s2@[j]@,
                    *a == Type::Symbol(*s1),
                    *b == Type::Symbol(*s2),
            {
                if s1[i] != s2[i] {
                    assert(strings_model(s1@)[i as int] != strings_model(s2@)[i as int]);
                    return false;
                }
            }
            assert(strings_model(s1@) =~= strings_model(s2@));
            true
        },
        _ => false,
    }
}

} // verus!
