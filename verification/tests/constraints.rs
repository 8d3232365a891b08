use limn::constraint::{
    contains_same, LinearConstraint, LinearExpression, Relation, Strength, Term,
};
use limn::widget::layout::{Variables, WidgetLayout};

fn node() -> WidgetLayout {
    WidgetLayout::new(&mut Variables::new())
}

#[test]
fn strength_levels_are_ordered() {
    assert_eq!(Strength::Weak.level(), 0);
    assert_eq!(Strength::Medium.level(), 1);
    assert_eq!(Strength::Strong.level(), 2);
    assert_eq!(Strength::Required.level(), 3);
    assert!(Strength::Required.at_least(Strength::Strong));
    assert!(Strength::Strong.at_least(Strength::Strong));
    assert!(!Strength::Weak.at_least(Strength::Medium));
}

#[test]
fn terms_compare_by_variable_and_coefficient() {
    let layout = node();
    let a = Term::new(layout.left, 2);
    assert!(a.same(&Term::new(layout.left, 2)));
    assert!(!a.same(&Term::new(layout.left, 3)));
    assert!(!a.same(&Term::new(layout.right, 2)));
}

#[test]
fn new_layout_has_four_different_edges() {
    let layout = node();
    let one = Term::new(layout.left, 1);
    assert!(!one.same(&Term::new(layout.top, 1)));
    assert!(!one.same(&Term::new(layout.right, 1)));
    assert!(!one.same(&Term::new(layout.bottom, 1)));
    assert!(!Term::new(layout.top, 1).same(&Term::new(layout.bottom, 1)));
}

#[test]
fn expression_builders_hold_what_they_say() {
    let layout = node();
    let variable = LinearExpression::variable(layout.left);
    assert_eq!(variable.terms.len(), 1);
    assert_eq!(variable.terms[0].coefficient, 1);
    assert_eq!(variable.constant, 0);

    let constant = LinearExpression::constant(7);
    assert_eq!(constant.terms.len(), 0);
    assert_eq!(constant.constant, 7);

    let offset = LinearExpression::offset(layout.left, -4);
    assert_eq!(offset.terms.len(), 1);
    assert_eq!(offset.constant, -4);

    let difference = LinearExpression::difference(layout.right, layout.left);
    assert_eq!(difference.terms.len(), 2);
    assert_eq!(difference.terms[0].coefficient, 1);
    assert_eq!(difference.terms[1].coefficient, -1);
    assert!(difference.terms[0].same(&Term::new(layout.right, 1)));
    assert!(difference.terms[1].same(&Term::new(layout.left, -1)));
    assert_eq!(difference.constant, 0);
}

#[test]
fn expressions_compare_structurally() {
    let layout = node();
    let a = LinearExpression::offset(layout.left, 3);
    assert!(a.same(&LinearExpression::offset(layout.left, 3)));
    assert!(a.same(&a.clone()));
    assert!(!a.same(&LinearExpression::offset(layout.left, 4)));
    assert!(!a.same(&LinearExpression::offset(layout.top, 3)));
    assert!(!a.same(&LinearExpression::constant(3)));
    assert!(LinearExpression::offset(layout.left, 0).same(&LinearExpression::variable(layout.left)));
    assert!(!LinearExpression::difference(layout.left, layout.right)
        .same(&LinearExpression::difference(layout.right, layout.left)));
}

#[test]
fn constraints_compare_structurally() {
    let a = node();
    let b = node();
    let c = LinearConstraint::between(a.left, Relation::Equal, b.left, Strength::Required);
    assert!(c.same(&LinearConstraint::between(a.left, Relation::Equal, b.left, Strength::Required)));
    assert!(c.same(&c.clone()));
    assert!(!c.same(&LinearConstraint::between(a.left, Relation::Equal, b.left, Strength::Strong)));
    assert!(!c.same(&LinearConstraint::between(
        a.left,
        Relation::GreaterOrEqual,
        b.left,
        Strength::Required
    )));
    assert!(!c.same(&LinearConstraint::between(b.left, Relation::Equal, a.left, Strength::Required)));
    assert!(c.same(&LinearConstraint::beside(a.left, Relation::Equal, b.left, 0, Strength::Required)));
    assert!(!c.same(&LinearConstraint::beside(a.left, Relation::Equal, b.left, 1, Strength::Required)));
}

#[test]
fn general_constructor_keeps_its_parts() {
    let a = node();
    let c = LinearConstraint::new(
        LinearExpression::new(vec![Term::new(a.left, 2), Term::new(a.right, -3)], 5),
        Relation::LessOrEqual,
        LinearExpression::constant(9),
        Strength::Medium,
    );
    assert_eq!(c.lhs.terms.len(), 2);
    assert_eq!(c.lhs.terms[1].coefficient, -3);
    assert_eq!(c.lhs.constant, 5);
    assert_eq!(c.relation, Relation::LessOrEqual);
    assert_eq!(c.rhs.constant, 9);
    assert_eq!(c.strength, Strength::Medium);
}

#[test]
fn extent_and_balance_have_the_stated_shape() {
    let a = node();
    let b = node();
    let extent = LinearConstraint::extent(a.right, a.left, 100, Strength::Required);
    assert!(extent.lhs.same(&LinearExpression::difference(a.right, a.left)));
    assert!(extent.rhs.same(&LinearExpression::constant(100)));
    assert_eq!(extent.relation, Relation::Equal);

    let balance = LinearConstraint::balance(a.left, b.left, b.right, a.right, Strength::Strong);
    assert!(balance.lhs.same(&LinearExpression::difference(a.left, b.left)));
    assert!(balance.rhs.same(&LinearExpression::difference(b.right, a.right)));
    assert_eq!(balance.relation, Relation::Equal);
    assert_eq!(balance.strength, Strength::Strong);
}

#[test]
fn contains_same_finds_by_structure() {
    let a = node();
    let b = node();
    let list = vec![
        LinearConstraint::between(a.left, Relation::Equal, b.left, Strength::Required),
        LinearConstraint::extent(a.right, a.left, 10, Strength::Weak),
    ];
    assert!(contains_same(
        &list,
        &LinearConstraint::extent(a.right, a.left, 10, Strength::Weak)
    ));
    assert!(!contains_same(
        &list,
        &LinearConstraint::extent(a.right, a.left, 11, Strength::Weak)
    ));
    let empty: Vec<LinearConstraint> = Vec::new();
    assert!(!contains_same(&empty, &list[0]));
}

#[test]
fn nodes_of_one_source_share_no_edge() {
    let mut variables = Variables::new();
    assert_eq!(variables.count(), 0);
    let first = WidgetLayout::new(&mut variables);
    assert_eq!(variables.count(), 4);
    let second = WidgetLayout::new(&mut variables);
    assert_eq!(variables.count(), 8);
    let a = [first.left, first.top, first.right, first.bottom];
    let b = [second.left, second.top, second.right, second.bottom];
    for x in a.iter() {
        assert!(variables.has_issued(*x));
        for y in b.iter() {
            assert!(x != y);
        }
    }
    for y in b.iter() {
        assert!(variables.has_issued(*y));
    }
    let other = node();
    assert!(!variables.has_issued(other.left));
    assert!(!a.contains(&other.left) && !b.contains(&other.left));
}
