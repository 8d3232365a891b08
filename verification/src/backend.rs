//! The Cassowary solver behind contracts. The contracts in this file are
//! taken on trust: Verus believes each of them without reading the solver.
//!
//! Coefficients and constants go in as the floats of the same value, and a
//! suggested value as the float nearest to it, which is the same number up to
//! a magnitude of 2^53. A solved value comes out rounded to the nearest whole
//! number and held in an `i32`.

use cassowary::{Solver, Variable};
use vstd::prelude::*;

use crate::constraint::{ExpressionView, Relation, Strength, Term};
use crate::widget::layout::Edges;

verus! {

/// `cassowary::Variable`: an opaque handle, equal only to its own copies.
#[verifier::external_type_specification]
#[verifier::external_body]
pub struct ExVariable(cassowary::Variable);

/// `cassowary::Solver`: the whole constraint system.
#[verifier::external_type_specification]
#[verifier::external_body]
pub struct ExSolver(cassowary::Solver);

/// `cassowary::Constraint`: a constraint as the solver holds it, found again
/// by identity.
#[verifier::external_type_specification]
#[verifier::external_body]
pub struct ExConstraint(cassowary::Constraint);

/// `cassowary::Expression`: one side of a constraint as the solver reads it.
#[verifier::external_type_specification]
#[verifier::external_body]
pub struct ExExpression(cassowary::Expression);

/// What `Solver::get_value` returns for a variable, rounded.
pub uninterp spec fn solver_value(solver: Solver, variable: Variable) -> int;

/// The variables that the next `Solver::fetch_changes` reports.
pub uninterp spec fn solver_changes(solver: Solver) -> Set<Variable>;

/// The edit variables that the solver holds.
pub uninterp spec fn solver_edits(solver: Solver) -> Set<Variable>;

/// The number that the solver keeps for an edit variable as the value last
/// suggested for it, rounded.
pub uninterp spec fn solver_suggested(solver: Solver, variable: Variable) -> int;

/// The constraints that the solver holds, but for those that it made
/// itself for its edit variables.
pub uninterp spec fn solver_constraints(solver: Solver) -> Set<cassowary::Constraint>;

/// Whether the solver's tableau is as its algorithm keeps it: optimal and
/// feasible. A new solver is, and a call that succeeds on such a solver
/// leaves it so; after a call that failed nothing is known.
pub uninterp spec fn solver_intact(solver: Solver) -> bool;

/// What an expression of the solver holds: its terms and its constant,
/// rounded.
pub uninterp spec fn expression_view(expression: cassowary::Expression) -> ExpressionView;

/// What a constraint of the solver holds: the expression that it compares
/// with 0, coefficients and constant rounded; the relation; and the level
/// whose weight it has.
pub uninterp spec fn handle_view(handle: cassowary::Constraint) -> HandleView;

/// What a constraint says once its right side is taken to the left: a sum
/// of terms and a constant that are compared with 0.
pub struct HandleView {
    pub terms: Seq<(Variable, int)>,
    pub constant: int,
    pub relation: Relation,
    pub strength: Strength,
}

/// The constraint `lhs relation rhs` with the right side taken to the left:
/// the terms of `lhs`, then those of `rhs` with the opposite sign, and the
/// difference of the constants.
pub open spec fn normal_form(
    lhs: ExpressionView,
    relation: Relation,
    rhs: ExpressionView,
    strength: Strength,
) -> HandleView {
    HandleView {
        terms: lhs.terms.map_values(|t: Term| (t.variable, t.coefficient as int))
            + rhs.terms.map_values(|t: Term| (t.variable, -(t.coefficient as int))),
        constant: lhs.constant - rhs.constant,
        relation,
        strength,
    }
}

/// Whether `after` has the edit variables, the suggested values and the
/// constraints of `before`.
pub open spec fn solver_keeps(before: Solver, after: Solver) -> bool {
    &&& solver_edits(after) == solver_edits(before)
    &&& solver_constraints(after) == solver_constraints(before)
    &&& forall|w: Variable| #[trigger] solver_suggested(after, w) == solver_suggested(before, w)
}

/// The largest magnitude up to which every whole number is a float.
pub const MAX_EXACT: i64 = 9007199254740992;

/// Why the solver refused a request.
#[derive(Clone, Copy, Debug, PartialEq, Eq, Structural)]
pub enum SolverError {
    /// The constraint is in the system already.
    DuplicateConstraint,
    /// The constraint is required and cannot hold together with the required
    /// constraints of the system.
    UnsatisfiableConstraint,
    /// The constraint is not in the system.
    UnknownConstraint,
    /// The variable is an edit variable already.
    DuplicateEditVariable,
    /// An edit variable cannot have the strength `Required`.
    BadRequiredStrength,
    /// The variable is not an edit variable.
    UnknownEditVariable,
    /// The solver reached an invalid state.
    InternalSolverError,
}

/// `Variable::new`, four times. Each call gives a variable that no call
/// gave before, so the four edges differ from each other and from every
/// variable that exists when the call is made: the variables of `known`,
/// whatever list that is.
#[verifier::external_body]
#[allow(unused_variables)]
pub(crate) fn new_edges(known: &Vec<Variable>) -> (r: Edges)
    ensures
        r.distinct(),
        forall|i: int| 0 <= i < known@.len() ==> !r.has(#[trigger] known@[i]),
{
    Edges {
        left: Variable::new(),
        top: Variable::new(),
        right: Variable::new(),
        bottom: Variable::new(),
    }
}

/// `==` on `cassowary::Variable`: two handles compare equal exactly when they
/// are the same variable.
#[verifier::external_body]
pub(crate) fn same_variable(a: Variable, b: Variable) -> (r: bool)
    ensures
        r == (a == b),
{
    a == b
}

/// `Solver::new`: the empty system has no constraint, no edit variable and
/// no change to report, gives every variable the value 0, and is intact.
#[verifier::external_body]
pub(crate) fn new_solver() -> (r: Solver)
    ensures
        solver_edits(r) == Set::<Variable>::empty(),
        solver_changes(r) == Set::<Variable>::empty(),
        solver_constraints(r) == Set::<cassowary::Constraint>::empty(),
        solver_intact(r),
        forall|v: Variable| #[trigger] solver_value(r, v) == 0,
{
    Solver::new()
}

/// `Expression::new`, on the terms and the constant as floats: the
/// expression holds what it was made of.
#[verifier::external_body]
pub(crate) fn build_expression(terms: &Vec<Term>, constant: i32) -> (r: cassowary::Expression)
    ensures
        expression_view(r) == (ExpressionView { terms: terms@, constant: constant as int }),
{
    let mut converted = Vec::new();
    for term in terms.iter() {
        converted.push(
            cassowary::Term { variable: term.variable, coefficient: term.coefficient.into() },
        );
    }
    cassowary::Expression::new(converted, constant.into())
}

/// The `|` operators of `cassowary` that make a constraint from two sides and
/// a weighted relation, with the solver's constant for each strength. They
/// subtract the right side from the left and hand the difference to
/// `Constraint::new` with the relation and the weight, so the constraint
/// holds the normal form of what it was made of.
#[verifier::external_body]
pub(crate) fn build_constraint(
    lhs: cassowary::Expression,
    relation: Relation,
    rhs: cassowary::Expression,
    strength: Strength,
) -> (r: cassowary::Constraint)
    ensures
        handle_view(r) == normal_form(
            expression_view(lhs),
            relation,
            expression_view(rhs),
            strength,
        ),
{
    let weight = match strength {
        Strength::Weak => cassowary::strength::WEAK,
        Strength::Medium => cassowary::strength::MEDIUM,
        Strength::Strong => cassowary::strength::STRONG,
        Strength::Required => cassowary::strength::REQUIRED,
    };
    match relation {
        Relation::LessOrEqual => lhs | cassowary::WeightedRelation::LE(weight) | rhs,
        Relation::Equal => lhs | cassowary::WeightedRelation::EQ(weight) | rhs,
        Relation::GreaterOrEqual => lhs | cassowary::WeightedRelation::GE(weight) | rhs,
    }
}

/// `Solver::add_constraint`. When it succeeds, the solver did not hold the
/// constraint and now holds it beside those it held. When it fails, it
/// holds those it held, and beyond them at most the new one. Edit variables
/// and suggested values stay. Whether it succeeds is the solver's decision;
/// `DuplicateConstraint` is its answer for a constraint that it holds.
#[verifier::external_body]
pub(crate) fn solver_add(solver: &mut Solver, handle: &cassowary::Constraint) -> (r: Result<
    (),
    SolverError,
>)
    ensures
        r is Ok ==> (!solver_constraints(*old(solver)).contains(*handle)),
        r is Ok ==> solver_constraints(*final(solver)) == solver_constraints(*old(solver)).insert(
            *handle,
        ),
        r is Err ==> solver_constraints(*old(solver)).subset_of(solver_constraints(*final(solver))),
        r is Err ==> solver_constraints(*final(solver)).subset_of(
            solver_constraints(*old(solver)).insert(*handle),
        ),
        solver_constraints(*old(solver)).contains(*handle) ==> (r is Err && r->Err_0
            == SolverError::DuplicateConstraint),
        solver_edits(*final(solver)) == solver_edits(*old(solver)),
        forall|w: Variable| #[trigger]
            solver_suggested(*final(solver), w) == solver_suggested(*old(solver), w),
        r is Ok ==> (solver_intact(*old(solver)) ==> solver_intact(*final(solver))),
{
    match solver.add_constraint(handle.clone()) {
        Ok(()) => Ok(()),
        Err(cassowary::AddConstraintError::DuplicateConstraint) => Err(
            SolverError::DuplicateConstraint,
        ),
        Err(cassowary::AddConstraintError::UnsatisfiableConstraint) => Err(
            SolverError::UnsatisfiableConstraint,
        ),
        Err(cassowary::AddConstraintError::InternalSolverError(_)) => Err(
            SolverError::InternalSolverError,
        ),
    }
}

/// `Solver::remove_constraint`: whatever it answers, the solver no longer
/// holds the constraint and holds the others that it held. For a
/// constraint that it held its answer is not `UnknownConstraint`. Edit
/// variables and suggested values stay.
#[verifier::external_body]
pub(crate) fn solver_remove(solver: &mut Solver, handle: &cassowary::Constraint) -> (r: Result<
    (),
    SolverError,
>)
    ensures
        solver_constraints(*final(solver)) == solver_constraints(*old(solver)).remove(*handle),
        solver_constraints(*old(solver)).contains(*handle) ==> !(r is Err && r->Err_0
            == SolverError::UnknownConstraint),
        solver_edits(*final(solver)) == solver_edits(*old(solver)),
        forall|w: Variable| #[trigger]
            solver_suggested(*final(solver), w) == solver_suggested(*old(solver), w),
        r is Ok ==> (solver_intact(*old(solver)) ==> solver_intact(*final(solver))),
{
    match solver.remove_constraint(handle) {
        Ok(()) => Ok(()),
        Err(cassowary::RemoveConstraintError::UnknownConstraint) => Err(
            SolverError::UnknownConstraint,
        ),
        Err(cassowary::RemoveConstraintError::InternalSolverError(_)) => Err(
            SolverError::InternalSolverError,
        ),
    }
}

/// `Solver::has_edit_variable`.
#[verifier::external_body]
pub(crate) fn solver_has_edit(solver: &Solver, variable: Variable) -> (r: bool)
    ensures
        r == solver_edits(*solver).contains(variable),
{
    solver.has_edit_variable(&variable)
}

/// `Solver::add_edit_variable`, on an intact solver. It succeeds exactly
/// when the variable is no edit variable yet and the strength is not
/// `Required`; then the variable has joined the edit variables with the
/// suggested value 0, the other suggested values and the constraints stay,
/// and the solver is intact. When it fails the solver is as it was, and the
/// error is `DuplicateEditVariable` for an edit variable and
/// `BadRequiredStrength` otherwise.
///
/// The solver adds a constraint of its own for the variable and unwraps the
/// outcome. That constraint is new and never required, so an intact solver
/// accepts it; of another solver this is not known, which is why the call
/// is kept to intact ones.
#[verifier::external_body]
pub(crate) fn solver_add_edit(
    solver: &mut Solver,
    variable: Variable,
    strength: Strength,
) -> (r: Result<(), SolverError>)
    requires
        solver_intact(*old(solver)),
    ensures
        r is Ok <==> (!solver_edits(*old(solver)).contains(variable) && strength
            != Strength::Required),
        r is Ok ==> solver_edits(*final(solver)) == solver_edits(*old(solver)).insert(variable),
        r is Ok ==> solver_suggested(*final(solver), variable) == 0,
        r is Ok ==> (forall|w: Variable|
            w != variable ==> #[trigger] solver_suggested(*final(solver), w) == solver_suggested(
                *old(solver),
                w,
            )),
        r is Ok ==> solver_constraints(*final(solver)) == solver_constraints(*old(solver)),
        r is Ok ==> solver_intact(*final(solver)),
        r is Err ==> *final(solver) == *old(solver),
        r is Err ==> r->Err_0 == (if solver_edits(*old(solver)).contains(variable) {
            SolverError::DuplicateEditVariable
        } else {
            SolverError::BadRequiredStrength
        }),
{
    let weight = match strength {
        Strength::Weak => cassowary::strength::WEAK,
        Strength::Medium => cassowary::strength::MEDIUM,
        Strength::Strong => cassowary::strength::STRONG,
        Strength::Required => cassowary::strength::REQUIRED,
    };
    match solver.add_edit_variable(variable, weight) {
        Ok(()) => Ok(()),
        Err(cassowary::AddEditVariableError::DuplicateEditVariable) => Err(
            SolverError::DuplicateEditVariable,
        ),
        Err(cassowary::AddEditVariableError::BadRequiredStrength) => Err(
            SolverError::BadRequiredStrength,
        ),
    }
}

/// `Solver::remove_edit_variable`: the variable is no edit variable
/// afterwards and the others stay, with their suggested values; the
/// constraints stay. Where it was none before, the call fails and the
/// solver is as it was.
#[verifier::external_body]
pub(crate) fn solver_remove_edit(solver: &mut Solver, variable: Variable) -> (r: Result<
    (),
    SolverError,
>)
    ensures
        solver_edits(*final(solver)) == solver_edits(*old(solver)).remove(variable),
        solver_constraints(*final(solver)) == solver_constraints(*old(solver)),
        forall|w: Variable|
            w != variable ==> #[trigger] solver_suggested(*final(solver), w) == solver_suggested(
                *old(solver),
                w,
            ),
        !solver_edits(*old(solver)).contains(variable) ==> r is Err && r->Err_0
            == SolverError::UnknownEditVariable && *final(solver) == *old(solver),
        solver_edits(*old(solver)).contains(variable) ==> !(r is Err && r->Err_0
            == SolverError::UnknownEditVariable),
        r is Ok ==> (solver_intact(*old(solver)) ==> solver_intact(*final(solver))),
{
    match solver.remove_edit_variable(variable) {
        Ok(()) => Ok(()),
        Err(cassowary::RemoveEditVariableError::UnknownEditVariable) => Err(
            SolverError::UnknownEditVariable,
        ),
        Err(cassowary::RemoveEditVariableError::InternalSolverError(_)) => Err(
            SolverError::InternalSolverError,
        ),
    }
}

/// `Solver::suggest_value`, on the float nearest to `value`. For an edit
/// variable the solver keeps that float as the value last suggested,
/// whatever it answers then: up to a magnitude of `MAX_EXACT` that is
/// `value` itself. The other suggested values, the edit variables and the
/// constraints stay. Where the variable is no edit variable, the call fails
/// and the solver is as it was.
#[verifier::external_body]
pub(crate) fn solver_suggest(solver: &mut Solver, variable: Variable, value: i64) -> (r: Result<
    (),
    SolverError,
>)
    ensures
        solver_edits(*final(solver)) == solver_edits(*old(solver)),
        solver_constraints(*final(solver)) == solver_constraints(*old(solver)),
        (solver_edits(*old(solver)).contains(variable) && -MAX_EXACT <= value <= MAX_EXACT)
            ==> solver_suggested(*final(solver), variable) == value,
        forall|w: Variable|
            w != variable ==> #[trigger] solver_suggested(*final(solver), w) == solver_suggested(
                *old(solver),
                w,
            ),
        !solver_edits(*old(solver)).contains(variable) ==> r is Err && r->Err_0
            == SolverError::UnknownEditVariable && *final(solver) == *old(solver),
        solver_edits(*old(solver)).contains(variable) ==> !(r is Err && r->Err_0
            == SolverError::UnknownEditVariable),
        r is Ok ==> (solver_intact(*old(solver)) ==> solver_intact(*final(solver))),
{
    match solver.suggest_value(variable, value as _) {
        Ok(()) => Ok(()),
        Err(cassowary::SuggestValueError::UnknownEditVariable) => Err(
            SolverError::UnknownEditVariable,
        ),
        Err(cassowary::SuggestValueError::InternalSolverError(_)) => Err(
            SolverError::InternalSolverError,
        ),
    }
}

/// `Solver::fetch_changes`: each variable that had a change to report comes
/// out once, with the value that the solver now gives it, in no stated
/// order. Afterwards nothing is left to report; the values, the edit
/// variables with their suggested values and the constraints are as they
/// were, and so is the tableau.
#[verifier::external_body]
pub(crate) fn solver_fetch(solver: &mut Solver) -> (r: Vec<(Variable, i32)>)
    ensures
        forall|v: Variable|
            solver_changes(*old(solver)).contains(v) <==> exists|i: int|
                0 <= i < r@.len() && (#[trigger] r@[i]).0 == v,
        forall|i: int, j: int| 0 <= i < j < r@.len() ==> (#[trigger] r@[i]).0 != (#[trigger] r@[j]).0,
        forall|i: int|
            0 <= i < r@.len() ==> (#[trigger] r@[i]).1 == solver_value(*old(solver), r@[i].0),
        solver_changes(*final(solver)) == Set::<Variable>::empty(),
        solver_keeps(*old(solver), *final(solver)),
        solver_intact(*final(solver)) == solver_intact(*old(solver)),
        forall|v: Variable| #[trigger]
            solver_value(*final(solver), v) == solver_value(*old(solver), v),
{
    let mut changes = Vec::new();
    for change in solver.fetch_changes().iter() {
        changes.push((change.0, change.1.round() as i32));
    }
    changes
}

/// `Solver::get_value`, rounded to the nearest whole number.
#[verifier::external_body]
pub(crate) fn solver_get(solver: &Solver, variable: Variable) -> (r: i32)
    ensures
        r == solver_value(*solver, variable),
{
    solver.get_value(variable).round() as i32
}

} // verus!
