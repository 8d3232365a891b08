use limn::backend::SolverError;
use limn::constraint::{LinearConstraint, LinearExpression, Relation, Strength};
use limn::solver::LimnSolver;
use limn::util::Rectangle;
use limn::widget::layout::{Variables, WidgetLayout};

fn node() -> WidgetLayout {
    WidgetLayout::new(&mut Variables::new())
}

fn equals(variable: cassowary::Variable, value: i32, strength: Strength) -> LinearConstraint {
    LinearConstraint::new(
        LinearExpression::variable(variable),
        Relation::Equal,
        LinearExpression::constant(value),
        strength,
    )
}

fn fixed(left: i32, top: i32, right: i32, bottom: i32) -> WidgetLayout {
    let mut layout = node();
    layout.add_constraint(equals(layout.left, left, Strength::Required));
    layout.add_constraint(equals(layout.top, top, Strength::Required));
    layout.add_constraint(equals(layout.right, right, Strength::Required));
    layout.add_constraint(equals(layout.bottom, bottom, Strength::Required));
    layout
}

fn right_of(layout: &WidgetLayout, solver: &LimnSolver) -> i32 {
    solver.get_value(layout.right)
}

fn bottom_of(layout: &WidgetLayout, solver: &LimnSolver) -> i32 {
    solver.get_value(layout.bottom)
}

#[test]
fn new_layout_is_empty_and_not_scrollable() {
    let layout = node();
    assert_eq!(layout.constraints.len(), 0);
    assert!(!layout.scrollable);
}

#[test]
fn bounds_before_any_solve_are_zero() {
    let solver = LimnSolver::new();
    let layout = node();
    assert_eq!(
        layout.bounds(&solver),
        Rectangle { left: 0, top: 0, width: 0, height: 0 }
    );
}

#[test]
fn bounds_are_left_top_width_height() {
    let mut solver = LimnSolver::new();
    let layout = fixed(10, 20, 110, 70);
    assert_eq!(layout.update_solver(&mut solver), Ok(()));
    assert_eq!(
        layout.bounds(&solver),
        Rectangle { left: 10, top: 20, width: 100, height: 50 }
    );
}

#[test]
fn centered_child_of_fixed_size() {
    let mut solver = LimnSolver::new();
    let parent = fixed(0, 0, 300, 300);
    let mut child = node();
    child.width(100);
    child.height(50);
    child.center(&parent);
    assert!(solver.update_layout(&parent).is_ok());
    assert!(solver.update_layout(&child).is_ok());
    assert_eq!(solver.get_value(child.left), 100);
    assert_eq!(solver.get_value(child.top), 125);
    assert_eq!(solver.get_value(child.right), 200);
    assert_eq!(solver.get_value(child.bottom), 175);
    assert_eq!(
        child.bounds(&solver),
        Rectangle { left: 100, top: 125, width: 100, height: 50 }
    );
}

#[test]
fn center_yields_to_bound_by() {
    let mut solver = LimnSolver::new();
    let parent = fixed(0, 0, 300, 300);
    let inner = fixed(200, 0, 300, 300);
    let mut child = node();
    child.width(100);
    child.height(50);
    child.center(&parent);
    child.bound_by(&inner);
    assert!(solver.update_layout(&parent).is_ok());
    assert!(solver.update_layout(&inner).is_ok());
    assert!(solver.update_layout(&child).is_ok());
    assert_eq!(solver.get_value(child.left), 200);
    assert_eq!(solver.get_value(child.right), 300);
    assert_eq!(solver.get_value(child.top), 125);
}

#[test]
fn bound_by_keeps_the_child_inside() {
    let mut solver = LimnSolver::new();
    let parent = fixed(10, 20, 210, 120);
    let mut child = node();
    child.bound_by(&parent);
    // soft wishes that would take the child out on every side
    child.add_constraint(equals(child.left, -50, Strength::Strong));
    child.add_constraint(equals(child.top, -50, Strength::Strong));
    child.add_constraint(equals(child.right, 500, Strength::Strong));
    child.add_constraint(equals(child.bottom, 500, Strength::Strong));
    assert!(solver.update_layout(&parent).is_ok());
    assert!(solver.update_layout(&child).is_ok());
    assert_eq!(solver.get_value(child.left), 10);
    assert_eq!(solver.get_value(child.top), 20);
    assert_eq!(right_of(&child, &solver), 210);
    assert_eq!(bottom_of(&child, &solver), 120);
}

#[test]
fn bound_by_padding_insets_every_edge() {
    let mut solver = LimnSolver::new();
    let parent = fixed(10, 20, 210, 120);
    let mut child = node();
    child.bound_by_padding(&parent, 7);
    child.add_constraint(equals(child.left, -50, Strength::Strong));
    child.add_constraint(equals(child.top, -50, Strength::Strong));
    child.add_constraint(equals(child.right, 500, Strength::Strong));
    child.add_constraint(equals(child.bottom, 500, Strength::Strong));
    assert!(solver.update_layout(&parent).is_ok());
    assert!(solver.update_layout(&child).is_ok());
    assert_eq!(
        child.bounds(&solver),
        Rectangle { left: 17, top: 27, width: 186, height: 86 }
    );
}

#[test]
fn bound_by_that_cannot_hold_is_an_error() {
    let mut solver = LimnSolver::new();
    let parent = fixed(0, 0, 100, 100);
    let mut child = node();
    child.width(150);
    child.bound_by(&parent);
    assert!(solver.update_layout(&parent).is_ok());
    assert_eq!(
        solver.update_layout(&child),
        Err(SolverError::UnsatisfiableConstraint)
    );
}

#[test]
fn match_width_is_exact_whatever_soft_constraints_say() {
    let mut solver = LimnSolver::new();
    let parent = fixed(15, 0, 245, 80);
    let mut child = node();
    child.match_width(&parent);
    child.width_strength(10, Strength::Strong);
    child.add_constraint(equals(child.left, 0, Strength::Strong));
    child.height(30);
    assert!(solver.update_layout(&parent).is_ok());
    assert!(solver.update_layout(&child).is_ok());
    let bounds = child.bounds(&solver);
    assert_eq!(bounds.left, 15);
    assert_eq!(bounds.width, 230);
    assert_eq!(bounds.height, 30);
    assert_eq!(bounds.width, parent.bounds(&solver).width);
}

#[test]
fn match_height_and_match_layout() {
    let mut solver = LimnSolver::new();
    let parent = fixed(15, 5, 245, 85);
    let mut tall = node();
    tall.match_height(&parent);
    let mut same = node();
    same.match_layout(&parent);
    assert_eq!(tall.constraints.len(), 2);
    assert_eq!(same.constraints.len(), 4);
    assert!(solver.update_layout(&parent).is_ok());
    assert!(solver.update_layout(&tall).is_ok());
    assert!(solver.update_layout(&same).is_ok());
    assert_eq!(solver.get_value(tall.top), 5);
    assert_eq!(bottom_of(&tall, &solver), 85);
    assert_eq!(same.bounds(&solver), parent.bounds(&solver));
    assert_eq!(
        same.bounds(&solver),
        Rectangle { left: 15, top: 5, width: 230, height: 80 }
    );
}

#[test]
fn soft_size_gives_way_to_required_size() {
    let mut solver = LimnSolver::new();
    let mut layout = node();
    layout.add_constraint(equals(layout.left, 0, Strength::Required));
    layout.add_constraint(equals(layout.top, 0, Strength::Required));
    layout.width_strength(40, Strength::Weak);
    layout.height_strength(60, Strength::Medium);
    assert!(solver.update_layout(&layout).is_ok());
    assert_eq!(
        layout.bounds(&solver),
        Rectangle { left: 0, top: 0, width: 40, height: 60 }
    );
    layout.width(100);
    layout.height_strength(90, Strength::Strong);
    assert!(solver.update_layout(&layout).is_ok());
    assert_eq!(
        layout.bounds(&solver),
        Rectangle { left: 0, top: 0, width: 100, height: 90 }
    );
}

#[test]
fn scroll_inside_lets_larger_content_overflow() {
    let mut solver = LimnSolver::new();
    let parent = fixed(0, 0, 100, 100);
    let mut content = node();
    content.width(100);
    content.height(300);
    content.scroll_inside(&parent);
    assert!(solver.update_layout(&parent).is_ok());
    assert!(solver.update_layout(&content).is_ok());
    let bounds = content.bounds(&solver);
    assert!(bounds.left <= 0);
    assert!(bounds.top <= 0);
    assert!(bounds.top + bounds.height >= 100);
    assert_eq!(bounds.width, 100);
    assert_eq!(bounds.height, 300);
}

#[test]
fn scroll_inside_accepts_content_that_is_smaller() {
    let mut solver = LimnSolver::new();
    let parent = fixed(0, 0, 100, 100);
    let mut content = node();
    content.width(40);
    content.height(30);
    content.scroll_inside(&parent);
    assert!(solver.update_layout(&parent).is_ok());
    assert!(solver.update_layout(&content).is_ok());
    let bounds = content.bounds(&solver);
    assert!(bounds.left <= 0);
    assert!(bounds.top <= 0);
    assert_eq!(bounds.width, 40);
    assert_eq!(bounds.height, 30);
}

#[test]
fn add_constraints_appends_in_order() {
    let other = node();
    let mut layout = node();
    layout.width(1);
    let list = vec![
        LinearConstraint::between(layout.left, Relation::Equal, other.left, Strength::Weak),
        LinearConstraint::between(layout.top, Relation::Equal, other.top, Strength::Medium),
    ];
    layout.add_constraints(&list);
    assert_eq!(layout.constraints.len(), 3);
    assert!(layout.constraints[1].same(&list[0]));
    assert!(layout.constraints[2].same(&list[1]));
}

#[test]
fn builders_append_the_stated_constraints() {
    let other = node();
    let mut layout = node();
    layout.bound_by(&other);
    assert_eq!(layout.constraints.len(), 4);
    assert!(layout.constraints[0].same(&LinearConstraint::between(
        layout.left,
        Relation::GreaterOrEqual,
        other.left,
        Strength::Required
    )));
    assert!(layout.constraints[3].same(&LinearConstraint::between(
        layout.bottom,
        Relation::LessOrEqual,
        other.bottom,
        Strength::Required
    )));
    layout.scroll_inside(&other);
    assert_eq!(layout.constraints.len(), 8);
    assert!(layout.constraints[4].same(&LinearConstraint::between(
        layout.left,
        Relation::LessOrEqual,
        other.left,
        Strength::Required
    )));
    assert!(layout.constraints[6].same(&LinearConstraint::between(
        layout.right,
        Relation::GreaterOrEqual,
        other.right,
        Strength::Strong
    )));
    layout.center(&other);
    assert_eq!(layout.constraints.len(), 10);
    assert!(layout.constraints[9].same(&LinearConstraint::balance(
        layout.top,
        other.top,
        other.bottom,
        layout.bottom,
        Strength::Strong
    )));
}

#[test]
fn remove_constraints_takes_out_every_match() {
    let other = node();
    let mut layout = node();
    layout.width(10);
    layout.match_width(&other);
    layout.width(10);
    layout.height(20);
    let targets = vec![
        LinearConstraint::extent(layout.right, layout.left, 10, Strength::Required),
        LinearConstraint::extent(layout.right, layout.left, 99, Strength::Required),
    ];
    let removed = layout.remove_constraints(&targets);
    assert_eq!(removed.len(), 2);
    assert!(removed[0].same(&targets[0]));
    assert!(removed[1].same(&targets[0]));
    assert_eq!(layout.constraints.len(), 3);
    assert!(layout.constraints[2].same(&LinearConstraint::extent(
        layout.bottom,
        layout.top,
        20,
        Strength::Required
    )));
}

#[test]
fn update_solver_installs_in_order_and_skips_what_is_known() {
    let mut solver = LimnSolver::new();
    let mut layout = node();
    layout.width(10);
    layout.width(10);
    layout.height(20);
    assert_eq!(layout.update_solver(&mut solver), Ok(()));
    assert_eq!(solver.constraint_count(), 2);
    assert_eq!(layout.update_solver(&mut solver), Ok(()));
    assert_eq!(solver.constraint_count(), 2);
}
