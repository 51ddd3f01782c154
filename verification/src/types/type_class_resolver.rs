//! Resolving type class constraints once types are known.
//!
//! Constraints relate several types: `container[index] => result` for
//! indexing, `left op right => result` for arithmetic. Resolving one follows
//! the bindings of a unification to the concrete types and unifies the
//! associated types as the type class instance demands.
use crate::parser::Span;
use crate::types::compare::clone_type;
use crate::types::traits::{display_text, display_type};
use crate::types::type_class::TypeClassId;
use crate::types::types::{SpecType, Type};
use crate::types::unification::model::{occurs, occurs_fields, occurs_list, apply, lemma_occurs_fields, lemma_occurs_list};
use crate::types::unification::unify::{
    TypeMap, bound_types, follow, grows, is_bound_var, is_unifier, kind_of, lemma_expand_free_var,
    lemma_grows_refl, lemma_grows_trans, lemma_persist, lemma_unifier_moves, respects,
};
use crate::types::types::{fields_model, lemma_fields_model, lemma_types_model, types_model};
use crate::types::unification::Unification;
use vstd::prelude::*;

verus! {

/// A constraint that a type did not satisfy.
#[derive(Debug, Clone, PartialEq, Eq)]
pub struct ConstraintError {
    /// The type, as text.
    pub ty: String,
    /// The type class it should belong to.
    pub type_class: TypeClassId,
    /// Where the requirement comes from.
    pub span: Span,
}

/// A type class constraint on types.
#[derive(Debug)]
pub enum TypeClassConstraint {
    /// `left op right => result` for an arithmetic operator.
    Numeric { left: Type, right: Type, result: Type, span: Span },
    /// `container[index] => result`.
    Indexable { container: Type, index: Type, result: Type, span: Span },
    /// `ty` can be a map key.
    Hashable { ty: Type, span: Span },
    /// `ty` can be ordered.
    Ord { ty: Type, span: Span },
}

/// `r` is where the bindings of `s` lead from `t`: not a bound variable,
/// reached by following bindings.
pub open spec fn resolves_to(s: Map<u16, SpecType>, t: SpecType, r: SpecType) -> bool {
    !is_bound_var(s, r) && exists|n: nat| r == follow(s, t, n)
}

/// `sigma` solves an indexing constraint in the state `u`: it agrees with
/// the bindings of `u` and maps the container to an array of the result
/// indexed by `Int`, to a map from the index to the result, or to bytes
/// indexed by `Int` giving `Int`.
pub open spec fn index_solution(
    sigma: Map<u16, SpecType>,
    u: Unification,
    container: SpecType,
    index: SpecType,
    result: SpecType,
) -> bool {
    let c = apply(sigma, u.expand(container));
    let i = apply(sigma, u.expand(index));
    let o = apply(sigma, u.expand(result));
    &&& respects(sigma, u)
    &&& {
        ||| c == SpecType::Array(Box::new(o)) && i == SpecType::Int
        ||| c == SpecType::MapOf(Box::new(i), Box::new(o))
        ||| c == SpecType::Bytes && i == SpecType::Int && o == SpecType::Int
    }
}

/// `sigma` solves a numeric constraint in the state `u`: it agrees with the
/// bindings of `u`, maps the operands and the result to one type, and that
/// type is `Int`, `Float` or still a type variable.
pub open spec fn numeric_solution(
    sigma: Map<u16, SpecType>,
    u: Unification,
    left: SpecType,
    right: SpecType,
    result: SpecType,
) -> bool {
    let t = apply(sigma, u.expand(left));
    &&& respects(sigma, u)
    &&& apply(sigma, u.expand(right)) == t
    &&& apply(sigma, u.expand(result)) == t
    &&& (t is Int || t is Float || t is TypeVar)
}

/// What resolving `container[index] => result` does from the state `u0`,
/// ending in the state `u1` with the result `r`.
pub open spec fn indexable_outcome(
    u0: Unification,
    u1: Unification,
    container: SpecType,
    index: SpecType,
    result: SpecType,
    span: Span,
    r: Result<(), ConstraintError>,
) -> bool {
    let a = u0.expand(container);
    let i = u0.expand(index);
    let o = u0.expand(result);
    &&& grows(u0, u1)
    &&& match r {
        Ok(()) => exists|c: SpecType|
            resolves_to(u0.bindings(), container, c) && match c {
                SpecType::Array(_) => u1.expand(index) == SpecType::Int && u1.expand(container)
                    == SpecType::Array(Box::new(u1.expand(result))),
                SpecType::MapOf(_, _) => u1.expand(container) == SpecType::MapOf(
                    Box::new(u1.expand(index)),
                    Box::new(u1.expand(result)),
                ),
                SpecType::Bytes => u1.expand(index) == SpecType::Int && u1.expand(result)
                    == SpecType::Int,
                SpecType::TypeVar(_) => true,
                _ => false,
            },
        Err(e) => e.type_class == TypeClassId::Indexable && e.span == span && exists|c: SpecType|
            resolves_to(u0.bindings(), container, c) && e.ty@ == display_text(c) && !(c is TypeVar),
    }
    &&& (a is TypeVar || !(a is Array || a is MapOf || a is Bytes)) ==> u1 == u0
    &&& ((a == SpecType::Array(Box::new(o)) && i == SpecType::Int) || a == SpecType::MapOf(
        Box::new(i),
        Box::new(o),
    ) || (a is Bytes && i == SpecType::Int && o == SpecType::Int)) ==> r is Ok && u1 == u0
    &&& ((a is Array || a is Bytes) && !(i is TypeVar) && !(i is Int)) ==> r is Err
    &&& r is Ok <==> (a is TypeVar || exists|sigma: Map<u16, SpecType>|
        index_solution(sigma, u0, container, index, result))
}

/// What resolving `left op right => result` does from the state `u0`,
/// ending in the state `u1` with the result `r`.
pub open spec fn numeric_outcome(
    u0: Unification,
    u1: Unification,
    left: SpecType,
    right: SpecType,
    result: SpecType,
    span: Span,
    r: Result<(), ConstraintError>,
) -> bool {
    let a = u0.expand(left);
    let b = u0.expand(right);
    &&& grows(u0, u1)
    &&& match r {
        Ok(()) => u1.expand(left) == u1.expand(right) && u1.expand(result) == u1.expand(left) && (
        u1.expand(left) is Int || u1.expand(left) is Float || u1.expand(left) is TypeVar),
        Err(e) => e.type_class == TypeClassId::Numeric && e.span == span,
    }
    &&& (!(a is TypeVar) && !(b is TypeVar) && kind_of(a) != kind_of(b)) ==> r is Err
    &&& (a == b && a == u0.expand(result)) ==> u1 == u0 && (r is Ok <==> (a is Int || a is Float
        || a is TypeVar))
    &&& r is Ok <==> exists|sigma: Map<u16, SpecType>| numeric_solution(sigma, u0, left, right, result)
}

/// What resolving "`ty` belongs to `class`" does from the state `u0`, ending
/// in the state `u1` with the result `r`: the bindings are not touched; a
/// type that is still a variable is left for later; any other type belongs
/// to the class exactly when `has_instance` said so.
pub open spec fn instance_outcome<F: Fn(&Type, TypeClassId) -> bool>(
    u0: Unification,
    u1: Unification,
    ty: SpecType,
    class: TypeClassId,
    span: Span,
    r: Result<(), ConstraintError>,
    has_instance: F,
) -> bool {
    &&& u1 == u0
    &&& exists|c: Type|
        #![trigger resolves_to(u0.bindings(), ty, c@)]
        resolves_to(u0.bindings(), ty, c@) && if c@ is TypeVar {
            r is Ok
        } else {
            match r {
                Ok(()) => call_ensures(has_instance, (&c, class), true),
                Err(e) => call_ensures(has_instance, (&c, class), false) && e.ty@ == display_text(
                    c@,
                ) && e.type_class == class && e.span == span,
            }
        }
}

/// What resolving the constraint `c` does from the state `u0`, ending in the
/// state `u1` with the result `r`.
pub open spec fn constraint_outcome<F: Fn(&Type, TypeClassId) -> bool>(
    u0: Unification,
    u1: Unification,
    c: TypeClassConstraint,
    r: Result<(), ConstraintError>,
    has_instance: F,
) -> bool {
    match c {
        TypeClassConstraint::Indexable { container, index, result, span } => indexable_outcome(
            u0,
            u1,
            container@,
            index@,
            result@,
            span,
            r,
        ),
        TypeClassConstraint::Numeric { left, right, result, span } => numeric_outcome(
            u0,
            u1,
            left@,
            right@,
            result@,
            span,
            r,
        ),
        TypeClassConstraint::Hashable { ty, span } => instance_outcome(
            u0,
            u1,
            ty@,
            TypeClassId::Hashable,
            span,
            r,
            has_instance,
        ),
        TypeClassConstraint::Ord { ty, span } => instance_outcome(
            u0,
            u1,
            ty@,
            TypeClassId::Ord,
            span,
            r,
            has_instance,
        ),
    }
}

/// The errors among some results, in order.
pub open spec fn errors_of(outs: Seq<Result<(), ConstraintError>>) -> Seq<ConstraintError>
    decreases outs.len(),
{
    if outs.len() == 0 {
        Seq::empty()
    } else {
        let rest = errors_of(outs.drop_last());
        match outs.last() {
            Ok(()) => rest,
            Err(e) => rest.push(e),
        }
    }
}

/// Resolving the constraints `cs` one after the other passes through the
/// states `states`, the one before each constraint and the last, and gives
/// the results `outs`.
pub open spec fn resolved_in_turn<F: Fn(&Type, TypeClassId) -> bool>(
    cs: Seq<TypeClassConstraint>,
    states: Seq<Unification>,
    outs: Seq<Result<(), ConstraintError>>,
    has_instance: F,
) -> bool {
    &&& states.len() == cs.len() + 1
    &&& outs.len() == cs.len()
    &&& forall|i: int|
        0 <= i < cs.len() ==> #[trigger] constraint_outcome(
            states[i],
            states[i + 1],
            cs[i],
            outs[i],
            has_instance,
        )
}

/// The constraints gathered during type inference.
pub struct TypeClassResolver {
    constraints: Vec<TypeClassConstraint>,
}

impl View for TypeClassResolver {
    type V = Seq<TypeClassConstraint>;

    closed spec fn view(&self) -> Seq<TypeClassConstraint> {
        self.constraints@
    }
}

impl TypeClassResolver {
    /// A resolver with no constraint.
    pub fn new() -> (r: Self)
        ensures
            r@ == Seq::<TypeClassConstraint>::empty(),
    {
        TypeClassResolver { constraints: Vec::new() }
    }

    /// Adds the constraint `container[index] => result`.
    pub fn add_indexable_constraint(&mut self, container: Type, index: Type, result: Type, span: Span)
        ensures
            final(self)@ == old(self)@.push(
                TypeClassConstraint::Indexable { container, index, result, span },
            ),
    {
        self.constraints.push(TypeClassConstraint::Indexable { container, index, result, span });
    }

    /// Adds the constraint `left op right => result`.
    pub fn add_numeric_constraint(&mut self, left: Type, right: Type, result: Type, span: Span)
        ensures
            final(self)@ == old(self)@.push(
                TypeClassConstraint::Numeric { left, right, result, span },
            ),
    {
        self.constraints.push(TypeClassConstraint::Numeric { left, right, result, span });
    }

    /// Adds the constraint that `ty` can be a map key.
    pub fn add_hashable_constraint(&mut self, ty: Type, span: Span)
        ensures
            final(self)@ == old(self)@.push(TypeClassConstraint::Hashable { ty, span }),
    {
        self.constraints.push(TypeClassConstraint::Hashable { ty, span });
    }

    /// Adds the constraint that `ty` can be ordered.
    pub fn add_ord_constraint(&mut self, ty: Type, span: Span)
        ensures
            final(self)@ == old(self)@.push(TypeClassConstraint::Ord { ty, span }),
    {
        self.constraints.push(TypeClassConstraint::Ord { ty, span });
    }

    /// The constraints, in the order they were added.
    pub fn constraint_set(&self) -> (r: &[TypeClassConstraint])
        ensures
            r@ == self@,
    {
        self.constraints.as_slice()
    }

    /// Removes every constraint.
    pub fn clear(&mut self)
        ensures
            final(self)@ == Seq::<TypeClassConstraint>::empty(),
    {
        self.constraints.clear();
    }

    /// Resolves `container[index] => result`: an array is indexed by `Int`
    /// and gives its elements, a map is indexed by its keys and gives its
    /// values, bytes are indexed by `Int` and give `Int`; a container that is
    /// still a type variable is left for later; any other type is not
    /// indexable.
    pub fn resolve_indexable(
        &self,
        container: &Type,
        index: &Type,
        result: &Type,
        unification: &mut Unification,
        span: &Span,
    ) -> (r: Result<(), ConstraintError>)
        requires
            old(unification).wf(),
        ensures
            indexable_outcome(
                *old(unification),
                *final(unification),
                container@,
                index@,
                result@,
                *span,
                r,
            ),
    {
        let ghost entry = *unification;
        let container_resolved = clone_type(unification.resolve(container));
        let index_resolved = clone_type(unification.resolve(index));
        let result_resolved = clone_type(unification.resolve(result));
        let ghost c = container_resolved@;
        proof {
            lemma_grows_refl(entry);
            assert(resolves_to(entry.bindings(), container@, c));
        }
        match &container_resolved {
            Type::Array(elem) => {
                let int_ty = Type::Int;
                if unification.unifies_to(&index_resolved, &int_ty).is_err() {
                    proof {
                        assert forall|sigma: Map<u16, SpecType>|
                            #![trigger index_solution(sigma, entry, container@, index@, result@)]
                            index_solution(sigma, entry, container@, index@, result@) implies false by {
                            assert(is_unifier(sigma, entry, index_resolved@, int_ty@));
                        }
                    }
                    return Err(
                        ConstraintError {
                            ty: display_type(&container_resolved),
                            type_class: TypeClassId::Indexable,
                            span: span.clone(),
                        },
                    );
                }
                let ghost mid = *unification;
                if unification.unifies_to(&result_resolved, elem).is_err() {
                    proof {
                        lemma_grows_trans(entry, mid, *unification);
                        assert forall|sigma: Map<u16, SpecType>|
                            #![trigger index_solution(sigma, entry, container@, index@, result@)]
                            index_solution(sigma, entry, container@, index@, result@) implies false by {
                            assert(is_unifier(sigma, entry, index_resolved@, int_ty@));
                            assert(is_unifier(sigma, entry, result_resolved@, elem@));
                            lemma_unifier_moves(sigma, entry, mid, result_resolved@, elem@);
                        }
                    }
                    return Err(
                        ConstraintError {
                            ty: display_type(&container_resolved),
                            type_class: TypeClassId::Indexable,
                            span: span.clone(),
                        },
                    );
                }
                proof {
                    let fin = *unification;
                    lemma_grows_trans(entry, mid, fin);
                    lemma_persist(mid, fin, index_resolved@, SpecType::Int);
                    lemma_persist(entry, fin, index@, index_resolved@);
                    lemma_persist(entry, fin, result@, result_resolved@);
                    lemma_persist(entry, fin, container@, c);
                }
                proof {
                    let sigma = unification.expansions();
                    assert forall|x: SpecType| #[trigger] apply(sigma, entry.expand(x)) == apply(sigma, x) by {
                        assert(unification.expand(entry.expand(x)) == unification.expand(x));
                    }
                    assert(index_solution(sigma, entry, container@, index@, result@));
                }
                Ok(())
            },
            Type::MapOf(key_ty, value_ty) => {
                if unification.unifies_to(&index_resolved, key_ty).is_err() {
                    proof {
                        assert forall|sigma: Map<u16, SpecType>|
                            #![trigger index_solution(sigma, entry, container@, index@, result@)]
                            index_solution(sigma, entry, container@, index@, result@) implies false by {
                            assert(is_unifier(sigma, entry, index_resolved@, key_ty@));
                        }
                    }
                    return Err(
                        ConstraintError {
                            ty: display_type(&container_resolved),
                            type_class: TypeClassId::Indexable,
                            span: span.clone(),
                        },
                    );
                }
                let ghost mid = *unification;
                if unification.unifies_to(&result_resolved, value_ty).is_err() {
                    proof {
                        lemma_grows_trans(entry, mid, *unification);
                        assert forall|sigma: Map<u16, SpecType>|
                            #![trigger index_solution(sigma, entry, container@, index@, result@)]
                            index_solution(sigma, entry, container@, index@, result@) implies false by {
                            assert(is_unifier(sigma, entry, index_resolved@, key_ty@));
                            assert(is_unifier(sigma, entry, result_resolved@, value_ty@));
                            lemma_unifier_moves(sigma, entry, mid, result_resolved@, value_ty@);
                        }
                    }
                    return Err(
                        ConstraintError {
                            ty: display_type(&container_resolved),
                            type_class: TypeClassId::Indexable,
                            span: span.clone(),
                        },
                    );
                }
                proof {
                    let fin = *unification;
                    lemma_grows_trans(entry, mid, fin);
                    lemma_persist(mid, fin, index_resolved@, key_ty@);
                    lemma_persist(entry, fin, index@, index_resolved@);
                    lemma_persist(entry, fin, result@, result_resolved@);
                    lemma_persist(entry, fin, container@, c);
                }
                proof {
                    let sigma = unification.expansions();
                    assert forall|x: SpecType| #[trigger] apply(sigma, entry.expand(x)) == apply(sigma, x) by {
                        assert(unification.expand(entry.expand(x)) == unification.expand(x));
                    }
                    assert(index_solution(sigma, entry, container@, index@, result@));
                }
                Ok(())
            },
            Type::Bytes => {
                let int_ty = Type::Int;
                if unification.unifies_to(&index_resolved, &int_ty).is_err() {
                    proof {
                        assert forall|sigma: Map<u16, SpecType>|
                            #![trigger index_solution(sigma, entry, container@, index@, result@)]
                            index_solution(sigma, entry, container@, index@, result@) implies false by {
                            assert(is_unifier(sigma, entry, index_resolved@, int_ty@));
                        }
                    }
                    return Err(
                        ConstraintError {
                            ty: display_type(&container_resolved),
                            type_class: TypeClassId::Indexable,
                            span: span.clone(),
                        },
                    );
                }
                let ghost mid = *unification;
                if unification.unifies_to(&result_resolved, &int_ty).is_err() {
                    proof {
                        lemma_grows_trans(entry, mid, *unification);
                        assert forall|sigma: Map<u16, SpecType>|
                            #![trigger index_solution(sigma, entry, container@, index@, result@)]
                            index_solution(sigma, entry, container@, index@, result@) implies false by {
                            assert(is_unifier(sigma, entry, index_resolved@, int_ty@));
                            assert(is_unifier(sigma, entry, result_resolved@, int_ty@));
                            lemma_unifier_moves(sigma, entry, mid, result_resolved@, int_ty@);
                        }
                    }
                    return Err(
                        ConstraintError {
                            ty: display_type(&container_resolved),
                            type_class: TypeClassId::Indexable,
                            span: span.clone(),
                        },
                    );
                }
                proof {
                    let fin = *unification;
                    lemma_grows_trans(entry, mid, fin);
                    lemma_persist(mid, fin, index_resolved@, SpecType::Int);
                    lemma_persist(entry, fin, index@, index_resolved@);
                    lemma_persist(entry, fin, result@, result_resolved@);
                }
                proof {
                    let sigma = unification.expansions();
                    assert forall|x: SpecType| #[trigger] apply(sigma, entry.expand(x)) == apply(sigma, x) by {
                        assert(unification.expand(entry.expand(x)) == unification.expand(x));
                    }
                    assert(index_solution(sigma, entry, container@, index@, result@));
                }
                Ok(())
            },
            Type::TypeVar(v) => {
                proof {
                    lemma_expand_free_var(entry, *v);
                }
                Ok(())
            },
            _ => {
                proof {
                    assert forall|sigma: Map<u16, SpecType>|
                        #![trigger index_solution(sigma, entry, container@, index@, result@)]
                        index_solution(sigma, entry, container@, index@, result@) implies false by {
                        assert(kind_of(apply(sigma, entry.expand(container@))) == kind_of(c));
                    }
                }
                Err(
                    ConstraintError {
                        ty: display_type(&container_resolved),
                        type_class: TypeClassId::Indexable,
                        span: span.clone(),
                    },
                )
            },
        }
    }

    /// Resolves `left op right => result`: the three types must be the same
    /// numeric type, `Int` or `Float`, or still a type variable.
    pub fn resolve_numeric(
        &self,
        left: &Type,
        right: &Type,
        result: &Type,
        unification: &mut Unification,
        span: &Span,
    ) -> (r: Result<(), ConstraintError>)
        requires
            old(unification).wf(),
        ensures
            numeric_outcome(
                *old(unification),
                *final(unification),
                left@,
                right@,
                result@,
                *span,
                r,
            ),
    {
        let ghost entry = *unification;
        let left_resolved = clone_type(unification.resolve(left));
        let right_resolved = clone_type(unification.resolve(right));
        let result_resolved = clone_type(unification.resolve(result));
        if unification.unifies_to(&left_resolved, &right_resolved).is_err() {
            proof {
                assert forall|sigma: Map<u16, SpecType>|
                    #![trigger numeric_solution(sigma, entry, left@, right@, result@)]
                    numeric_solution(sigma, entry, left@, right@, result@) implies false by {
                    assert(is_unifier(sigma, entry, left_resolved@, right_resolved@));
                }
            }
            return Err(
                ConstraintError {
                    ty: display_type(&left_resolved),
                    type_class: TypeClassId::Numeric,
                    span: span.clone(),
                },
            );
        }
        let ghost mid = *unification;
        let unified_operand = clone_type(unification.resolve(&left_resolved));
        proof {
            assert forall|sigma: Map<u16, SpecType>| #![trigger numeric_solution(sigma, entry, left@, right@, result@)] numeric_solution(sigma, entry, left@, right@, result@) implies is_unifier(
                sigma,
                mid,
                result_resolved@,
                unified_operand@,
            ) by {
                assert(is_unifier(sigma, entry, left_resolved@, right_resolved@));
                assert(is_unifier(sigma, entry, result_resolved@, left_resolved@));
                lemma_unifier_moves(sigma, entry, mid, result_resolved@, left_resolved@);
            }
        }
        if unification.unifies_to(&result_resolved, &unified_operand).is_err() {
            proof {
                lemma_grows_trans(entry, mid, *unification);
                assert forall|sigma: Map<u16, SpecType>|
                    #![trigger numeric_solution(sigma, entry, left@, right@, result@)]
                    numeric_solution(sigma, entry, left@, right@, result@) implies false by {
                    assert(is_unifier(sigma, mid, result_resolved@, unified_operand@));
                }
            }
            return Err(
                ConstraintError {
                    ty: display_type(&unified_operand),
                    type_class: TypeClassId::Numeric,
                    span: span.clone(),
                },
            );
        }
        let ghost fin = *unification;
        proof {
            lemma_grows_trans(entry, mid, fin);
            lemma_persist(mid, fin, left_resolved@, right_resolved@);
            lemma_persist(mid, fin, unified_operand@, left_resolved@);
            lemma_persist(entry, fin, left@, left_resolved@);
            lemma_persist(entry, fin, right@, right_resolved@);
            lemma_persist(entry, fin, result@, result_resolved@);
        }
        let final_ty = unification.resolve(&unified_operand);
        proof {
            if entry.expand(left@) == entry.expand(right@) && entry.expand(left@) == entry.expand(
                result@,
            ) {
                assert(fin == entry);
                assert(fin.expand(final_ty@) == entry.expand(left@));
            }
        }
        proof {
            let sigma = fin.expansions();
            assert forall|x: SpecType| #[trigger] apply(sigma, entry.expand(x)) == apply(sigma, x) by {
                assert(fin.expand(entry.expand(x)) == fin.expand(x));
            }
            assert(respects(sigma, entry));
        }
        match final_ty {
            Type::Int | Type::Float => {
                proof {
                    assert(numeric_solution(fin.expansions(), entry, left@, right@, result@));
                }
                Ok(())
            },
            Type::TypeVar(v) => {
                proof {
                    lemma_expand_free_var(fin, *v);
                    assert(numeric_solution(fin.expansions(), entry, left@, right@, result@));
                }
                Ok(())
            },
            _ => {
                proof {
                    assert forall|sigma: Map<u16, SpecType>|
                        #![trigger numeric_solution(sigma, entry, left@, right@, result@)]
                        numeric_solution(sigma, entry, left@, right@, result@) implies false by {
                        assert(is_unifier(sigma, entry, left_resolved@, right_resolved@));
                        assert(is_unifier(sigma, mid, result_resolved@, unified_operand@));
                        assert(respects(sigma, fin));
                        assert(apply(sigma, fin.expand(left@)) == apply(sigma, left@));
                        assert(apply(sigma, entry.expand(left@)) == apply(sigma, left@));
                        assert(fin.expand(left@) == fin.expand(final_ty@));
                    }
                }
                Err(
                    ConstraintError {
                        ty: display_type(final_ty),
                        type_class: TypeClassId::Numeric,
                        span: span.clone(),
                    },
                )
            },
        }
    }
    /// Resolves "`ty` belongs to `class`" with the instances that
    /// `has_instance` knows.
    fn resolve_instance<F: Fn(&Type, TypeClassId) -> bool>(
        &self,
        ty: &Type,
        class: TypeClassId,
        unification: &mut Unification,
        span: &Span,
        has_instance: &F,
    ) -> (r: Result<(), ConstraintError>)
        requires
            old(unification).wf(),
            forall|t: &Type, c: TypeClassId| has_instance.requires((t, c)),
        ensures
            instance_outcome(*old(unification), *final(unification), ty@, class, *span, r, *has_instance),
    {
        let resolved = clone_type(unification.resolve(ty));
        proof {
            assert(resolves_to(unification.bindings(), ty@, resolved@));
        }
        match resolved {
            Type::TypeVar(_) => Ok(()),
            _ => {
                if has_instance(&resolved, class) {
                    Ok(())
                } else {
                    Err(ConstraintError { ty: display_type(&resolved), type_class: class, span: span.clone() })
                }
            },
        }
    }

    /// Resolves "`ty` can be a map key": a type that is still a variable is
    /// left for later; any other type must have the `Hashable` instance.
    pub fn resolve_hashable<F: Fn(&Type, TypeClassId) -> bool>(
        &self,
        ty: &Type,
        unification: &mut Unification,
        span: &Span,
        has_instance: &F,
    ) -> (r: Result<(), ConstraintError>)
        requires
            old(unification).wf(),
            forall|t: &Type, c: TypeClassId| has_instance.requires((t, c)),
        ensures
            instance_outcome(
                *old(unification),
                *final(unification),
                ty@,
                TypeClassId::Hashable,
                *span,
                r,
                *has_instance,
            ),
    {
        self.resolve_instance(ty, TypeClassId::Hashable, unification, span, has_instance)
    }

    /// Resolves "`ty` can be ordered": a type that is still a variable is
    /// left for later; any other type must have the `Ord` instance.
    pub fn resolve_ord<F: Fn(&Type, TypeClassId) -> bool>(
        &self,
        ty: &Type,
        unification: &mut Unification,
        span: &Span,
        has_instance: &F,
    ) -> (r: Result<(), ConstraintError>)
        requires
            old(unification).wf(),
            forall|t: &Type, c: TypeClassId| has_instance.requires((t, c)),
        ensures
            instance_outcome(
                *old(unification),
                *final(unification),
                ty@,
                TypeClassId::Ord,
                *span,
                r,
                *has_instance,
            ),
    {
        self.resolve_instance(ty, TypeClassId::Ord, unification, span, has_instance)
    }

    /// Resolves one constraint.
    fn resolve_constraint<F: Fn(&Type, TypeClassId) -> bool>(
        &self,
        constraint: &TypeClassConstraint,
        unification: &mut Unification,
        has_instance: &F,
    ) -> (r: Result<(), ConstraintError>)
        requires
            old(unification).wf(),
            forall|t: &Type, c: TypeClassId| has_instance.requires((t, c)),
        ensures
            constraint_outcome(*old(unification), *final(unification), *constraint, r, *has_instance),
    {
        match constraint {
            TypeClassConstraint::Indexable { container, index, result, span } => {
                self.resolve_indexable(container, index, result, unification, span)
            },
            TypeClassConstraint::Numeric { left, right, result, span } => {
                self.resolve_numeric(left, right, result, unification, span)
            },
            TypeClassConstraint::Hashable { ty, span } => {
                self.resolve_hashable(ty, unification, span, has_instance)
            },
            TypeClassConstraint::Ord { ty, span } => {
                self.resolve_ord(ty, unification, span, has_instance)
            },
        }
    }

    /// Resolves every constraint, in the order they were added, going on
    /// past a failure: `Ok` when all are satisfied, otherwise every
    /// unsatisfied constraint's error, in order. Whether a type belongs to
    /// the `Hashable` or `Ord` class is what `has_instance` says.
    pub fn resolve_all<F: Fn(&Type, TypeClassId) -> bool>(
        &self,
        unification: &mut Unification,
        has_instance: &F,
    ) -> (r: Result<(), Vec<ConstraintError>>)
        requires
            old(unification).wf(),
            forall|t: &Type, c: TypeClassId| has_instance.requires((t, c)),
        ensures
            grows(*old(unification), *final(unification)),
            exists|states: Seq<Unification>, outs: Seq<Result<(), ConstraintError>>|
                {
                    &&& resolved_in_turn(self@, states, outs, *has_instance)
                    &&& states[0] == *old(unification)
                    &&& states.last() == *final(unification)
                    &&& (r is Ok <==> errors_of(outs).len() == 0)
                    &&& (r matches Err(es) ==> es@ == errors_of(outs))
                },
    {
        let mut errors: Vec<ConstraintError> = Vec::new();
        let ghost mut states: Seq<Unification> = seq![*unification];
        let ghost mut outs: Seq<Result<(), ConstraintError>> = Seq::empty();
        let n = self.constraints.len();
        proof {
            lemma_grows_refl(*unification);
        }
        for i in 0..n
            invariant
                n == self@.len(),
                unification.wf(),
                grows(*old(unification), *unification),
                states.len() == i + 1,
                outs.len() == i,
                states[0] == *old(unification),
                states.last() == *unification,
                forall|j: int|
                    0 <= j < i ==> #[trigger] constraint_outcome(
                        states[j],
                        states[j + 1],
                        self@[j],
                        outs[j],
                        *has_instance,
                    ),
                errors@ == errors_of(outs),
                forall|t: &Type, c: TypeClassId| has_instance.requires((t, c)),
        {
            let ghost before = *unification;
            let r = self.resolve_constraint(&self.constraints[i], unification, has_instance);
            proof {
                let s2 = states.push(*unification);
                let o2 = outs.push(r);
                assert(grows(before, *unification)) by {
                    if self@[i as int] is Hashable || self@[i as int] is Ord {
                        lemma_grows_refl(before);
                    }
                }
                lemma_grows_trans(*old(unification), before, *unification);
                assert forall|j: int| 0 <= j < i + 1 implies #[trigger] constraint_outcome(
                    s2[j],
                    s2[j + 1],
                    self@[j],
                    o2[j],
                    *has_instance,
                ) by {
                    if j < i {
                        assert(s2[j] == states[j] && s2[j + 1] == states[j + 1] && o2[j] == outs[j]);
                    }
                }
                assert(o2.drop_last() =~= outs);
                states = s2;
                outs = o2;
            }
            match r {
                Ok(()) => {},
                Err(e) => {
                    errors.push(e);
                },
            }
        }
        proof {
            assert(resolved_in_turn(self@, states, outs, *has_instance));
        }
        if errors.len() == 0 {
            Ok(())
        } else {
            Err(errors)
        }
    }
}

/// Whether type variable `v` occurs in one of the types of a constraint.
pub open spec fn constraint_mentions(c: TypeClassConstraint, v: u16) -> bool {
    match c {
        TypeClassConstraint::Numeric { left, right, result, .. } => occurs(v, left@) || occurs(
            v,
            right@,
        ) || occurs(v, result@),
        TypeClassConstraint::Indexable { container, index, result, .. } => occurs(v, container@)
            || occurs(v, index@) || occurs(v, result@),
        TypeClassConstraint::Hashable { ty, .. } => occurs(v, ty@),
        TypeClassConstraint::Ord { ty, .. } => occurs(v, ty@),
    }
}

/// Whether a constraint mentions some variable of `vars`.
pub open spec fn mentions_any(c: TypeClassConstraint, vars: Set<u16>) -> bool {
    exists|v: u16| vars.contains(v) && #[trigger] constraint_mentions(c, v)
}

/// `n` is the constraint `c` with `g` applied to each of its types.
pub open spec fn substituted(c: TypeClassConstraint, n: TypeClassConstraint, g: Map<u16, SpecType>) -> bool {
    match (c, n) {
        (
            TypeClassConstraint::Numeric { left: a, right: b, result: r, span: s },
            TypeClassConstraint::Numeric { left: a2, right: b2, result: r2, span: s2 },
        ) => a2@ == apply(g, a@) && b2@ == apply(g, b@) && r2@ == apply(g, r@) && s2 == s,
        (
            TypeClassConstraint::Indexable { container: a, index: b, result: r, span: s },
            TypeClassConstraint::Indexable { container: a2, index: b2, result: r2, span: s2 },
        ) => a2@ == apply(g, a@) && b2@ == apply(g, b@) && r2@ == apply(g, r@) && s2 == s,
        (
            TypeClassConstraint::Hashable { ty: a, span: s },
            TypeClassConstraint::Hashable { ty: a2, span: s2 },
        ) => a2@ == apply(g, a@) && s2 == s,
        (TypeClassConstraint::Ord { ty: a, span: s }, TypeClassConstraint::Ord { ty: a2, span: s2 }) => a2@
            == apply(g, a@) && s2 == s,
        _ => false,
    }
}

/// The constraints of `cs` that mention a variable of `vars`, in order.
pub open spec fn picked(cs: Seq<TypeClassConstraint>, vars: Set<u16>) -> Seq<TypeClassConstraint>
    decreases cs.len(),
{
    if cs.len() == 0 {
        Seq::empty()
    } else if mentions_any(cs.last(), vars) {
        picked(cs.drop_last(), vars).push(cs.last())
    } else {
        picked(cs.drop_last(), vars)
    }
}

impl TypeClassResolver {
    /// Whether type variable `var_id` occurs in `ty`, bindings not followed.
    fn type_mentions_var(&self, ty: &Type, var_id: u16) -> (b: bool)
        ensures
            b == occurs(var_id, ty@),
        decreases ty,
    {
        match ty {
            Type::TypeVar(id) => *id == var_id,
            Type::Array(elem) => self.type_mentions_var(elem, var_id),
            Type::MapOf(key, val) => self.type_mentions_var(key, var_id) || self.type_mentions_var(
                val,
                var_id,
            ),
            Type::Record(fields) => {
                let ghost m = fields_model(fields@);
                proof {
                    lemma_fields_model(fields@);
                    lemma_occurs_fields(var_id, m);
                }
                let n = fields.len();
                for i in 0..n
                    invariant
                        n == fields@.len(),
                        *ty == Type::Record(*fields),
                        m == fields_model(fields@),
                        m.len() == n,
                        forall|j: int| 0 <= j < n ==> #[trigger] m[j] == (fields@[j].0@, fields@[j].1@),
                        forall|j: int| 0 <= j < i ==> !occurs(var_id, m[j].1),
                        occurs_fields(var_id, m) <==> exists|j: int|
                            0 <= j < n && #[trigger] occurs(var_id, m[j].1),
                {
                    proof {
                        let g = (*ty)->Record_0;
                        assert(decreases_to!(*ty => *fields));
                        assert(decreases_to!(*fields => fields@));
                        assert(decreases_to!(fields@ => fields@[i as int]));
                        assert(decreases_to!(fields@[i as int] => fields@[i as int].1));
                    }
                    if self.type_mentions_var(&fields[i].1, var_id) {
                        assert(occurs(var_id, m[i as int].1));
                        return true;
                    }
                }
                false
            },
            Type::Function { params, ret } => {
                let ghost m = types_model(params@);
                proof {
                    lemma_types_model(params@);
                    lemma_occurs_list(var_id, m);
                }
                let n = params.len();
                for i in 0..n
                    invariant
                        n == params@.len(),
                        *ty == (Type::Function { params: *params, ret: *ret }),
                        m == types_model(params@),
                        m.len() == n,
                        forall|j: int| 0 <= j < n ==> #[trigger] m[j] == params@[j]@,
                        forall|j: int| 0 <= j < i ==> !occurs(var_id, m[j]),
                        occurs_list(var_id, m) <==> exists|j: int|
                            0 <= j < n && #[trigger] occurs(var_id, m[j]),
                {
                    proof {
                        let g = (*ty)->Function_params;
                        assert(decreases_to!(*ty => *params));
                        assert(decreases_to!(*params => params@));
                        assert(decreases_to!(params@ => params@[i as int]));
                    }
                    if self.type_mentions_var(&params[i], var_id) {
                        assert(occurs(var_id, m[i as int]));
                        return true;
                    }
                }
                self.type_mentions_var(ret, var_id)
            },
            _ => false,
        }
    }

    /// Whether type variable `var_id` occurs in one of the types of a constraint.
    fn constraint_mentions_var(&self, constraint: &TypeClassConstraint, var_id: u16) -> (b: bool)
        ensures
            b == constraint_mentions(*constraint, var_id),
    {
        match constraint {
            TypeClassConstraint::Numeric { left, right, result, .. } => self.type_mentions_var(
                left,
                var_id,
            ) || self.type_mentions_var(right, var_id) || self.type_mentions_var(result, var_id),
            TypeClassConstraint::Indexable { container, index, result, .. } => self.type_mentions_var(
                container,
                var_id,
            ) || self.type_mentions_var(index, var_id) || self.type_mentions_var(result, var_id),
            TypeClassConstraint::Hashable { ty, .. } => self.type_mentions_var(ty, var_id),
            TypeClassConstraint::Ord { ty, .. } => self.type_mentions_var(ty, var_id),
        }
    }

    /// The constraint with `subst` applied to each of its types.
    fn substitute_constraint(constraint: &TypeClassConstraint, subst: &TypeMap) -> (r:
        TypeClassConstraint)
        ensures
            substituted(*constraint, r, bound_types(*subst)),
    {
        let unif = Unification::new();
        match constraint {
            TypeClassConstraint::Numeric { left, right, result, span } => TypeClassConstraint::Numeric {
                left: unif.substitute(left, subst),
                right: unif.substitute(right, subst),
                result: unif.substitute(result, subst),
                span: span.clone(),
            },
            TypeClassConstraint::Indexable { container, index, result, span } => {
                TypeClassConstraint::Indexable {
                    container: unif.substitute(container, subst),
                    index: unif.substitute(index, subst),
                    result: unif.substitute(result, subst),
                    span: span.clone(),
                }
            },
            TypeClassConstraint::Hashable { ty, span } => TypeClassConstraint::Hashable {
                ty: unif.substitute(ty, subst),
                span: span.clone(),
            },
            TypeClassConstraint::Ord { ty, span } => TypeClassConstraint::Ord {
                ty: unif.substitute(ty, subst),
                span: span.clone(),
            },
        }
    }

    /// Whether a constraint mentions one of the variables of `keys`.
    fn mentions_any_of(&self, c: &TypeClassConstraint, keys: &Vec<u16>) -> (b: bool)
        ensures
            b == exists|v: u16| keys@.contains(v) && #[trigger] constraint_mentions(*c, v),
    {
        let mut mentions = false;
        let k = keys.len();
        for j in 0..k
            invariant
                k == keys@.len(),
                mentions == exists|v: u16|
                    keys@.take(j as int).contains(v) && #[trigger] constraint_mentions(*c, v),
        {
            if !mentions && self.constraint_mentions_var(c, keys[j]) {
                mentions = true;
            }
            proof {
                let t0 = keys@.take(j as int);
                let t1 = keys@.take(j + 1);
                assert(t1 =~= t0.push(keys@[j as int]));
                if constraint_mentions(*c, keys@[j as int]) {
                    assert(t1[j as int] == keys@[j as int]);
                    assert(t1.contains(keys@[j as int]));
                }
                if exists|v: u16| t0.contains(v) && #[trigger] constraint_mentions(*c, v) {
                    let v = choose|v: u16| t0.contains(v) && #[trigger] constraint_mentions(*c, v);
                    let m = choose|m: int| 0 <= m < t0.len() && t0[m] == v;
                    assert(t1[m] == v);
                    assert(t1.contains(v));
                }
                if exists|v: u16| t1.contains(v) && #[trigger] constraint_mentions(*c, v) {
                    let v = choose|v: u16| t1.contains(v) && #[trigger] constraint_mentions(*c, v);
                    if v != keys@[j as int] {
                        let m = choose|m: int| 0 <= m < t1.len() && t1[m] == v;
                        assert(t0[m] == v);
                        assert(t0.contains(v));
                    }
                }
            }
        }
        assert(keys@.take(k as int) =~= keys@);
        mentions
    }

    /// Adds a copy, with `subst` applied, of each constraint that mentions a
    /// variable that `subst` maps, after all constraints, in order.
    pub fn copy_constraints_with_subst(&mut self, subst: &TypeMap)
        ensures
            final(self)@.len() == old(self)@.len() + picked(old(self)@, bound_types(*subst).dom()).len(),
            final(self)@.take(old(self)@.len() as int) == old(self)@,
            forall|j: int|
                0 <= j < picked(old(self)@, bound_types(*subst).dom()).len() ==> substituted(
                    #[trigger] picked(old(self)@, bound_types(*subst).dom())[j],
                    final(self)@[old(self)@.len() + j],
                    bound_types(*subst),
                ),
    {
        let keys = subst.keys();
        let ghost vars = bound_types(*subst).dom();
        let ghost start = self@;
        let n = self.constraints.len();
        let mut i: usize = 0;
        while i < n
            invariant
                i <= n,
                keys@.to_set() == vars,
                vars == bound_types(*subst).dom(),
                n == start.len(),
                self@.len() == n + picked(start.take(i as int), vars).len(),
                self@.take(n as int) == start,
                forall|j: int|
                    0 <= j < picked(start.take(i as int), vars).len() ==> substituted(
                        #[trigger] picked(start.take(i as int), vars)[j],
                        self@[n + j],
                        bound_types(*subst),
                    ),
            decreases n - i,
        {
            let ghost c = start[i as int];
            assert(self@[i as int] == c);
            let mentions = self.mentions_any_of(&self.constraints[i], &keys);
            proof {
                assert(mentions == mentions_any(c, vars)) by {
                    if mentions_any(c, vars) {
                        let v = choose|v: u16| vars.contains(v) && #[trigger] constraint_mentions(c, v);
                        assert(keys@.to_set().contains(v));
                    }
                }
                assert(start.take(i + 1).drop_last() =~= start.take(i as int));
                assert(start.take(i + 1).last() == c);
            }
            if mentions {
                let ghost before = self@;
                let copy = TypeClassResolver::substitute_constraint(&self.constraints[i], subst);
                let ghost cv = copy;
                self.constraints.push(copy);
                proof {
                    assert(self@.take(n as int) =~= start);
                    let p0 = picked(start.take(i as int), vars);
                    let p1 = picked(start.take(i + 1), vars);
                    assert(p1 == p0.push(c));
                    assert forall|j: int| 0 <= j < p1.len() implies substituted(
                        #[trigger] p1[j],
                        self@[n + j],
                        bound_types(*subst),
                    ) by {
                        if j < p0.len() {
                            assert(substituted(p0[j], before[n + j], bound_types(*subst)));
                            assert(p1[j] == p0[j]);
                            assert(self@[n + j] == before[n + j]);
                        } else {
                            assert(p1[j] == c);
                            assert(self@[n + j] == cv);
                            assert(substituted(c, cv, bound_types(*subst)));
                        }
                    }
                }
            } else {
                proof {
                    let p0 = picked(start.take(i as int), vars);
                    let p1 = picked(start.take(i + 1), vars);
                    assert(p1 == p0);
                }
            }
            i = i + 1;
        }
        proof {
            assert(start.take(n as int) =~= start);
        }
    }
}

impl Default for TypeClassResolver {
    fn default() -> (r: Self)
        ensures
            r@ == Seq::<TypeClassConstraint>::empty(),
    {
        TypeClassResolver::new()
    }
}

} // verus!
