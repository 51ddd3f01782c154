use melbi::parser::Span;
use melbi::types::constraint_set::{Constraint, ConstraintSet};
use melbi::types::type_class::TypeClassId;

#[test]
fn test_add_and_get() {
    let mut cs = ConstraintSet::new();

    cs.add(0, TypeClassId::Numeric, Span(1..10));

    let constraints = cs.get(0);
    assert_eq!(constraints.len(), 1);
    assert_eq!(constraints[0].type_class, TypeClassId::Numeric);
    assert_eq!(constraints[0].span, Span(1..10));

    assert_eq!(cs.get(99).len(), 0);
}

#[test]
fn test_multiple_constraints_same_var() {
    let mut cs = ConstraintSet::new();

    cs.add(0, TypeClassId::Hashable, Span(1..5));
    cs.add(0, TypeClassId::Ord, Span(2..10));

    let constraints = cs.get(0);
    assert_eq!(constraints.len(), 2);
    assert_eq!(constraints[0].type_class, TypeClassId::Hashable);
    assert_eq!(constraints[1].type_class, TypeClassId::Ord);
}

#[test]
fn test_multiple_vars() {
    let mut cs = ConstraintSet::new();

    cs.add(0, TypeClassId::Numeric, Span(1..5));
    cs.add(1, TypeClassId::Indexable, Span(2..10));
    cs.add(2, TypeClassId::Hashable, Span(3..15));

    assert_eq!(cs.len(), 3);
    assert_eq!(cs.get(0)[0].type_class, TypeClassId::Numeric);
    assert_eq!(cs.get(1)[0].type_class, TypeClassId::Indexable);
    assert_eq!(cs.get(2)[0].type_class, TypeClassId::Hashable);
}

#[test]
fn test_is_empty() {
    let mut cs = ConstraintSet::new();
    assert!(cs.is_empty());

    cs.add(0, TypeClassId::Numeric, Span(1..1));
    assert!(!cs.is_empty());

    cs.clear();
    assert!(cs.is_empty());
}

#[test]
fn constraint_set_test_iter() {
    let mut cs = ConstraintSet::new();

    cs.add(0, TypeClassId::Numeric, Span(1..5));
    cs.add(1, TypeClassId::Indexable, Span(2..10));

    let collected: Vec<_> = cs.iter().collect();
    assert_eq!(collected.len(), 2);
    assert_eq!(collected[0].0, 0);
    assert_eq!(collected[1].0, 1);
}

#[test]
fn test_merge() {
    let mut cs1 = ConstraintSet::new();
    cs1.add(0, TypeClassId::Numeric, Span(1..5));

    let mut cs2 = ConstraintSet::new();
    cs2.add(0, TypeClassId::Hashable, Span(2..10));
    cs2.add(1, TypeClassId::Indexable, Span(3..15));

    cs1.merge(&cs2);

    assert_eq!(cs1.len(), 2);
    assert_eq!(cs1.get(0).len(), 2);
    assert_eq!(cs1.get(1).len(), 1);
}

#[test]
fn test_iter_is_sorted_whatever_the_insertion_order() {
    let mut cs = ConstraintSet::new();
    cs.add(7, TypeClassId::Ord, Span(0..1));
    cs.add(2, TypeClassId::Numeric, Span(1..2));
    cs.add(5, TypeClassId::Hashable, Span(2..3));
    cs.add(2, TypeClassId::Indexable, Span(3..4));

    let keys: Vec<u16> = cs.iter().map(|(k, _)| k).collect();
    assert_eq!(keys, vec![2, 5, 7]);
    let for_two = cs.get(2);
    assert_eq!(for_two.len(), 2);
    assert_eq!(for_two[0], Constraint::new(TypeClassId::Numeric, Span(1..2)));
    assert_eq!(for_two[1], Constraint::new(TypeClassId::Indexable, Span(3..4)));
}

#[test]
fn test_merge_keeps_order_of_constraints() {
    let mut a = ConstraintSet::new();
    a.add(3, TypeClassId::Numeric, Span(0..1));
    let mut b = ConstraintSet::new();
    b.add(3, TypeClassId::Ord, Span(5..6));
    b.add(1, TypeClassId::Hashable, Span(7..8));

    a.merge(&b);
    assert_eq!(a.len(), 2);
    let three = a.get(3);
    assert_eq!(three[0].type_class, TypeClassId::Numeric);
    assert_eq!(three[1].type_class, TypeClassId::Ord);
    assert_eq!(three[1].span, Span(5..6));
    assert_eq!(a.get(1)[0].type_class, TypeClassId::Hashable);
    // `b` is unchanged.
    assert_eq!(b.len(), 2);
}

#[test]
fn test_merge_with_empty() {
    let mut a = ConstraintSet::new();
    a.add(4, TypeClassId::Indexable, Span(0..2));
    let empty = ConstraintSet::default();
    a.merge(&empty);
    assert_eq!(a.len(), 1);
    assert_eq!(a.get(4).len(), 1);

    let mut e = ConstraintSet::new();
    e.merge(&a);
    assert_eq!(e.len(), 1);
    assert_eq!(e.get(4)[0].span, Span(0..2));
}
