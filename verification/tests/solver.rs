use limn::backend::SolverError;
use limn::constraint::{LinearConstraint, LinearExpression, Relation, Strength};
use limn::solver::LimnSolver;
use limn::widget::layout::{Variables, WidgetLayout};

fn node() -> WidgetLayout {
    WidgetLayout::new(&mut Variables::new())
}

fn equals(variable: cassowary::Variable, value: i32, strength: Strength) -> LinearConstraint {
    LinearConstraint::new(
        LinearExpression::variable(variable),
        Relation::Equal,
        LinearExpression::constant(value),
        strength,
    )
}

#[test]
fn new_solver_is_empty_and_gives_zero() {
    let solver = LimnSolver::new();
    let layout = node();
    assert_eq!(solver.constraint_count(), 0);
    assert_eq!(solver.get_value(layout.left), 0);
    assert!(!solver.has_edit_variable(layout.left));
}

#[test]
fn added_constraint_is_solved_and_found_again() {
    let mut solver = LimnSolver::new();
    let layout = node();
    let c = equals(layout.left, 42, Strength::Required);
    assert!(!solver.has_constraint(&c));
    assert_eq!(solver.add_constraint(&c), Ok(()));
    assert!(solver.has_constraint(&c));
    assert!(solver.has_constraint(&equals(layout.left, 42, Strength::Required)));
    assert!(!solver.has_constraint(&equals(layout.left, 43, Strength::Required)));
    assert_eq!(solver.constraint_count(), 1);
    assert_eq!(solver.get_value(layout.left), 42);
}

#[test]
fn adding_the_same_constraint_twice_is_no_error_and_no_change() {
    let mut solver = LimnSolver::new();
    let layout = node();
    assert_eq!(solver.add_constraint(&equals(layout.left, 5, Strength::Required)), Ok(()));
    assert_eq!(solver.add_constraint(&equals(layout.left, 5, Strength::Required)), Ok(()));
    assert_eq!(solver.constraint_count(), 1);
    assert_eq!(solver.get_value(layout.left), 5);
}

#[test]
fn conflicting_required_constraints_are_refused() {
    let mut solver = LimnSolver::new();
    let layout = node();
    assert_eq!(solver.add_constraint(&equals(layout.left, 5, Strength::Required)), Ok(()));
    assert_eq!(
        solver.add_constraint(&equals(layout.left, 6, Strength::Required)),
        Err(SolverError::UnsatisfiableConstraint)
    );
    assert_eq!(solver.constraint_count(), 1);
    assert!(!solver.has_constraint(&equals(layout.left, 6, Strength::Required)));
    assert_eq!(solver.get_value(layout.left), 5);
}

#[test]
fn stronger_soft_constraint_wins() {
    let mut solver = LimnSolver::new();
    let layout = node();
    assert_eq!(solver.add_constraint(&equals(layout.left, 10, Strength::Weak)), Ok(()));
    assert_eq!(solver.get_value(layout.left), 10);
    assert_eq!(solver.add_constraint(&equals(layout.left, 20, Strength::Strong)), Ok(()));
    assert_eq!(solver.get_value(layout.left), 20);
    assert_eq!(solver.add_constraint(&equals(layout.left, 30, Strength::Medium)), Ok(()));
    assert_eq!(solver.get_value(layout.left), 20);
    assert_eq!(solver.add_constraint(&equals(layout.left, 40, Strength::Required)), Ok(()));
    assert_eq!(solver.get_value(layout.left), 40);
}

#[test]
fn coefficients_and_constants_reach_the_solver() {
    let mut solver = LimnSolver::new();
    let layout = node();
    assert_eq!(solver.add_constraint(&equals(layout.left, 7, Strength::Required)), Ok(()));
    // 2 * right - 3 * left + 1 == 10
    let c = LinearConstraint::new(
        LinearExpression::new(
            vec![
                limn::constraint::Term::new(layout.right, 2),
                limn::constraint::Term::new(layout.left, -3),
            ],
            1,
        ),
        Relation::Equal,
        LinearExpression::constant(10),
        Strength::Required,
    );
    assert_eq!(solver.add_constraint(&c), Ok(()));
    assert_eq!(solver.get_value(layout.right), 15);
}

#[test]
fn inequalities_keep_their_direction() {
    let mut solver = LimnSolver::new();
    let layout = node();
    assert_eq!(
        solver.add_constraint(&LinearConstraint::new(
            LinearExpression::variable(layout.left),
            Relation::GreaterOrEqual,
            LinearExpression::constant(10),
            Strength::Required,
        )),
        Ok(())
    );
    assert_eq!(solver.add_constraint(&equals(layout.left, 3, Strength::Strong)), Ok(()));
    assert_eq!(solver.get_value(layout.left), 10);
    assert_eq!(
        solver.add_constraint(&LinearConstraint::new(
            LinearExpression::variable(layout.right),
            Relation::LessOrEqual,
            LinearExpression::constant(10),
            Strength::Required,
        )),
        Ok(())
    );
    assert_eq!(solver.add_constraint(&equals(layout.right, 30, Strength::Strong)), Ok(()));
    assert_eq!(solver.get_value(layout.right), 10);
}

#[test]
fn removed_constraint_no_longer_binds() {
    let mut solver = LimnSolver::new();
    let layout = node();
    assert_eq!(solver.add_constraint(&equals(layout.left, 10, Strength::Weak)), Ok(()));
    assert_eq!(solver.add_constraint(&equals(layout.left, 20, Strength::Strong)), Ok(()));
    assert_eq!(solver.get_value(layout.left), 20);
    assert_eq!(solver.remove_constraint(&equals(layout.left, 20, Strength::Strong)), Ok(()));
    assert_eq!(solver.constraint_count(), 1);
    assert!(!solver.has_constraint(&equals(layout.left, 20, Strength::Strong)));
    assert!(solver.has_constraint(&equals(layout.left, 10, Strength::Weak)));
    assert_eq!(solver.get_value(layout.left), 10);
}

#[test]
fn removing_an_unknown_constraint_fails() {
    let mut solver = LimnSolver::new();
    let layout = node();
    assert_eq!(
        solver.remove_constraint(&equals(layout.left, 20, Strength::Strong)),
        Err(SolverError::UnknownConstraint)
    );
    assert_eq!(solver.constraint_count(), 0);
}

#[test]
fn retract_withdraws_what_is_installed_and_passes_over_the_rest() {
    let mut solver = LimnSolver::new();
    let layout = node();
    let a = equals(layout.left, 1, Strength::Required);
    let b = equals(layout.top, 2, Strength::Required);
    let c = equals(layout.right, 3, Strength::Required);
    let never = equals(layout.bottom, 4, Strength::Required);
    assert_eq!(solver.add_constraint(&a), Ok(()));
    assert_eq!(solver.add_constraint(&b), Ok(()));
    assert_eq!(solver.add_constraint(&c), Ok(()));
    assert_eq!(solver.retract(&[c.clone(), never.clone(), a.clone()]), Ok(()));
    assert_eq!(solver.constraint_count(), 1);
    assert!(solver.has_constraint(&b));
    assert!(!solver.has_constraint(&a));
    assert!(!solver.has_constraint(&c));
    assert_eq!(solver.retract(&[never]), Ok(()));
    assert_eq!(solver.constraint_count(), 1);
}

#[test]
fn edit_variables_are_added_once_and_never_required() {
    let mut solver = LimnSolver::new();
    let layout = node();
    assert_eq!(
        solver.add_edit_variable(layout.left, Strength::Required),
        Err(SolverError::BadRequiredStrength)
    );
    assert!(!solver.has_edit_variable(layout.left));
    assert_eq!(solver.add_edit_variable(layout.left, Strength::Strong), Ok(()));
    assert!(solver.has_edit_variable(layout.left));
    assert!(!solver.has_edit_variable(layout.top));
    assert_eq!(
        solver.add_edit_variable(layout.left, Strength::Strong),
        Err(SolverError::DuplicateEditVariable)
    );
    assert_eq!(
        solver.add_edit_variable(layout.left, Strength::Required),
        Err(SolverError::DuplicateEditVariable)
    );
}

#[test]
fn suggested_value_takes_effect_at_once() {
    let mut solver = LimnSolver::new();
    let layout = node();
    assert_eq!(solver.add_edit_variable(layout.left, Strength::Strong), Ok(()));
    assert_eq!(solver.suggest_value(layout.left, 120), Ok(()));
    assert_eq!(solver.get_value(layout.left), 120);
    assert_eq!(solver.suggest_value(layout.left, -35), Ok(()));
    assert_eq!(solver.get_value(layout.left), -35);
}

#[test]
fn suggesting_for_a_variable_that_is_not_edited_fails() {
    let mut solver = LimnSolver::new();
    let layout = node();
    assert_eq!(
        solver.suggest_value(layout.left, 5),
        Err(SolverError::UnknownEditVariable)
    );
    assert_eq!(solver.get_value(layout.left), 0);
}

#[test]
fn removed_edit_variable_takes_no_more_suggestions() {
    let mut solver = LimnSolver::new();
    let layout = node();
    assert_eq!(
        solver.remove_edit_variable(layout.left),
        Err(SolverError::UnknownEditVariable)
    );
    assert_eq!(solver.add_edit_variable(layout.left, Strength::Medium), Ok(()));
    assert_eq!(solver.remove_edit_variable(layout.left), Ok(()));
    assert!(!solver.has_edit_variable(layout.left));
    assert_eq!(
        solver.suggest_value(layout.left, 5),
        Err(SolverError::UnknownEditVariable)
    );
}

#[test]
fn fetch_changes_reports_each_change_once() {
    let mut solver = LimnSolver::new();
    let layout = node();
    assert_eq!(solver.fetch_changes().len(), 0);
    assert_eq!(solver.add_constraint(&equals(layout.left, 42, Strength::Required)), Ok(()));
    assert_eq!(solver.add_constraint(&equals(layout.top, 17, Strength::Required)), Ok(()));
    let mut changes = solver.fetch_changes();
    changes.sort_by_key(|change| change.1);
    assert_eq!(changes.len(), 2);
    assert!(changes[0].0 == layout.top && changes[0].1 == 17);
    assert!(changes[1].0 == layout.left && changes[1].1 == 42);
    assert_eq!(solver.fetch_changes().len(), 0);
    assert_eq!(solver.get_value(layout.left), 42);
}

#[test]
fn update_layout_twice_reports_nothing_the_second_time() {
    let mut solver = LimnSolver::new();
    let mut layout = node();
    layout.add_constraint(equals(layout.left, 10, Strength::Required));
    layout.add_constraint(equals(layout.top, 20, Strength::Required));
    layout.width(100);
    layout.height(50);
    let first = solver.update_layout(&layout).unwrap();
    assert_eq!(first.len(), 4);
    for change in &first {
        assert_eq!(change.1, solver.get_value(change.0));
    }
    assert_eq!(solver.constraint_count(), 4);
    let second = solver.update_layout(&layout).unwrap();
    assert_eq!(second.len(), 0);
    assert_eq!(solver.constraint_count(), 4);
    assert_eq!(solver.get_value(layout.right), 110);
    assert_eq!(solver.get_value(layout.bottom), 70);
}

#[test]
fn update_layout_installs_only_what_is_new() {
    let mut solver = LimnSolver::new();
    let mut layout = node();
    layout.add_constraint(equals(layout.left, 10, Strength::Required));
    assert_eq!(solver.update_layout(&layout).unwrap().len(), 1);
    layout.add_constraint(equals(layout.left, 10, Strength::Required));
    layout.width(30);
    let changes = solver.update_layout(&layout).unwrap();
    assert_eq!(solver.constraint_count(), 2);
    assert_eq!(changes.len(), 1);
    assert!(changes[0].0 == layout.right && changes[0].1 == 40);
}

#[test]
fn update_layout_surfaces_an_infeasible_layout() {
    let mut solver = LimnSolver::new();
    let mut layout = node();
    layout.width(100);
    layout.add_constraint(equals(layout.top, 1, Strength::Required));
    layout.width(200);
    layout.add_constraint(equals(layout.bottom, 2, Strength::Required));
    assert_eq!(
        solver.update_layout(&layout),
        Err(SolverError::UnsatisfiableConstraint)
    );
    // the constraints before the refused one stay, those after it were not tried
    assert_eq!(solver.constraint_count(), 2);
    assert!(solver.has_constraint(&equals(layout.top, 1, Strength::Required)));
    assert!(!solver.has_constraint(&equals(layout.bottom, 2, Strength::Required)));
}

#[test]
fn no_edit_variable_is_added_after_a_failure() {
    let mut solver = LimnSolver::new();
    let layout = node();
    assert!(!solver.has_failed());
    assert_eq!(solver.add_constraint(&equals(layout.left, 5, Strength::Required)), Ok(()));
    assert!(!solver.has_failed());
    assert_eq!(
        solver.add_constraint(&equals(layout.left, 6, Strength::Required)),
        Err(SolverError::UnsatisfiableConstraint)
    );
    assert!(solver.has_failed());
    assert_eq!(
        solver.add_edit_variable(layout.top, Strength::Strong),
        Err(SolverError::InternalSolverError)
    );
    assert!(!solver.has_edit_variable(layout.top));
    // the strength is looked at first
    assert_eq!(
        solver.add_edit_variable(layout.top, Strength::Required),
        Err(SolverError::BadRequiredStrength)
    );
}

#[test]
fn errors_that_change_nothing_are_no_failure() {
    let mut solver = LimnSolver::new();
    let layout = node();
    assert_eq!(
        solver.suggest_value(layout.left, 1),
        Err(SolverError::UnknownEditVariable)
    );
    assert_eq!(
        solver.remove_edit_variable(layout.left),
        Err(SolverError::UnknownEditVariable)
    );
    assert_eq!(
        solver.remove_constraint(&equals(layout.left, 1, Strength::Weak)),
        Err(SolverError::UnknownConstraint)
    );
    assert_eq!(
        solver.add_edit_variable(layout.left, Strength::Required),
        Err(SolverError::BadRequiredStrength)
    );
    assert!(!solver.has_failed());
    assert_eq!(solver.add_edit_variable(layout.left, Strength::Weak), Ok(()));
}

#[test]
fn an_installed_constraint_is_one_that_the_solver_holds() {
    // what is recorded binds the solved values, and what was removed does not
    let mut solver = LimnSolver::new();
    let layout = node();
    let wide = LinearConstraint::extent(layout.right, layout.left, 70, Strength::Required);
    assert_eq!(solver.add_constraint(&equals(layout.left, 10, Strength::Required)), Ok(()));
    assert_eq!(solver.add_constraint(&wide), Ok(()));
    assert_eq!(solver.get_value(layout.right), 80);
    assert_eq!(solver.remove_constraint(&wide), Ok(()));
    assert_eq!(
        solver.add_constraint(&LinearConstraint::extent(layout.right, layout.left, 20, Strength::Required)),
        Ok(())
    );
    assert_eq!(solver.get_value(layout.right), 30);
}
