//! The solver adapter: the one constraint system of a user interface.
//!
//! The adapter keeps its own record of the constraints that the solver has
//! accepted, so that a constraint is found again by what it says and is never
//! installed twice.

use cassowary::{Solver, Variable};
use vstd::prelude::*;

use crate::backend::{
    build_constraint, build_expression, handle_view, new_solver, normal_form, solver_add,
    solver_add_edit, solver_changes, solver_constraints, solver_edits, solver_fetch, solver_get,
    solver_has_edit, solver_intact, solver_remove, solver_remove_edit, solver_suggest,
    solver_suggested, solver_value, SolverError, MAX_EXACT,
};
use crate::constraint::{views, ConstraintView, LinearConstraint, Strength};
use crate::filtering::{
    differs, lemma_contains_push, lemma_filter_agree, lemma_filter_all, lemma_filter_member,
    lemma_filter_twice, lemma_remove_is_filter, outside,
};
use crate::widget::layout::WidgetLayout;

verus! {

/// `base`, followed by those of `rules` that were not met before, each once
/// and in order: what the record holds after `rules` were installed on top
/// of `base`.
pub open spec fn merged(base: Seq<ConstraintView>, rules: Seq<ConstraintView>) -> Seq<
    ConstraintView,
>
    decreases rules.len(),
{
    if rules.len() == 0 {
        base
    } else {
        let before = merged(base, rules.drop_last());
        if before.contains(rules.last()) {
            before
        } else {
            before.push(rules.last())
        }
    }
}

/// Whether every constraint of `rules` is in `base`.
pub open spec fn covers(base: Seq<ConstraintView>, rules: Seq<ConstraintView>) -> bool {
    forall|i: int| 0 <= i < rules.len() ==> base.contains(#[trigger] rules[i])
}

/// Installing keeps what was there, in place.
pub proof fn lemma_merged_extends(base: Seq<ConstraintView>, rules: Seq<ConstraintView>)
    ensures
        base.len() <= merged(base, rules).len(),
        merged(base, rules).take(base.len() as int) == base,
        forall|c: ConstraintView| base.contains(c) ==> merged(base, rules).contains(c),
    decreases rules.len(),
{
    if rules.len() == 0 {
        assert(base.take(base.len() as int) == base);
    } else {
        lemma_merged_extends(base, rules.drop_last());
        let before = merged(base, rules.drop_last());
        let after = merged(base, rules);
        assert(after.take(base.len() as int) =~= before.take(base.len() as int));
        assert forall|c: ConstraintView| base.contains(c) implies after.contains(c) by {
            let i = choose|i: int| 0 <= i < before.len() && before[i] == c;
            assert(after[i] == c);
        }
    }
}

/// After installing, every constraint of `rules` is in the record, and the
/// record holds nothing that was in neither `base` nor `rules`.
pub proof fn lemma_merged_covers(base: Seq<ConstraintView>, rules: Seq<ConstraintView>)
    ensures
        covers(merged(base, rules), rules),
        forall|c: ConstraintView| #[trigger]
            merged(base, rules).contains(c) ==> base.contains(c) || rules.contains(c),
    decreases rules.len(),
{
    if rules.len() > 0 {
        let front = rules.drop_last();
        lemma_merged_covers(base, front);
        let before = merged(base, front);
        let after = merged(base, rules);
        assert forall|i: int| 0 <= i < rules.len() implies after.contains(#[trigger] rules[i]) by {
            if i < front.len() {
                assert(front[i] == rules[i]);
                assert(before.contains(front[i]));
                let k = choose|k: int| 0 <= k < before.len() && before[k] == rules[i];
                assert(after[k] == rules[i]);
            } else if !before.contains(rules.last()) {
                assert(after[before.len() as int] == rules[i]);
            }
        }
        assert forall|c: ConstraintView| #[trigger] after.contains(c) implies base.contains(c)
            || rules.contains(c) by {
            let k = choose|k: int| 0 <= k < after.len() && after[k] == c;
            if k < before.len() {
                assert(before[k] == c);
                assert(before.contains(c));
                if front.contains(c) {
                    let j = choose|j: int| 0 <= j < front.len() && front[j] == c;
                    assert(rules[j] == c);
                }
            } else {
                assert(rules[rules.len() - 1] == c);
            }
        }
    }
}

/// Installing never makes a constraint occur twice.
pub proof fn lemma_merged_no_duplicates(base: Seq<ConstraintView>, rules: Seq<ConstraintView>)
    requires
        base.no_duplicates(),
    ensures
        merged(base, rules).no_duplicates(),
    decreases rules.len(),
{
    if rules.len() > 0 {
        lemma_merged_no_duplicates(base, rules.drop_last());
    }
}

/// Installing constraints that are all in the record changes nothing.
pub proof fn lemma_merged_covered(base: Seq<ConstraintView>, rules: Seq<ConstraintView>)
    requires
        covers(base, rules),
    ensures
        merged(base, rules) == base,
    decreases rules.len(),
{
    if rules.len() > 0 {
        let front = rules.drop_last();
        assert forall|i: int| 0 <= i < front.len() implies base.contains(#[trigger] front[i]) by {
            assert(front[i] == rules[i]);
        }
        lemma_merged_covered(base, front);
        assert(base.contains(rules[rules.len() - 1]));
    }
}

/// Installing the same constraints a second time changes nothing.
pub proof fn lemma_merged_twice(base: Seq<ConstraintView>, rules: Seq<ConstraintView>)
    ensures
        merged(merged(base, rules), rules) == merged(base, rules),
{
    lemma_merged_covers(base, rules);
    lemma_merged_covered(merged(base, rules), rules);
}

/// A constraint that the solver has accepted, with the solver's own handle
/// for it.
struct Installed {
    constraint: LinearConstraint,
    handle: cassowary::Constraint,
}

impl Installed {
    /// Whether the handle holds what the constraint says.
    spec fn tied(self) -> bool {
        handle_view(self.handle) == normal_form(
            self.constraint.lhs@,
            self.constraint.relation,
            self.constraint.rhs@,
            self.constraint.strength,
        )
    }
}

/// One solved value that changed: the variable and its new value.
pub type Change = (Variable, i32);

/// The constraint system of one user interface.
pub struct LimnSolver {
    solver: Solver,
    installed: Vec<Installed>,
    failed: bool,
}

impl LimnSolver {
    /// The constraints that the solver has accepted, oldest first.
    pub closed spec fn constraints(&self) -> Seq<ConstraintView> {
        Seq::new(self.installed@.len(), |i: int| self.installed@[i].constraint@)
    }

    /// The solved value of a variable.
    pub closed spec fn value(&self, variable: Variable) -> int {
        solver_value(self.solver, variable)
    }

    /// The solved values as an assignment.
    pub open spec fn values(&self) -> spec_fn(Variable) -> int {
        |variable: Variable| self.value(variable)
    }

    /// The variables that take suggested values.
    pub closed spec fn edits(&self) -> Set<Variable> {
        solver_edits(self.solver)
    }

    /// The value that the solver keeps as the one last suggested for an
    /// edit variable: 0 until one is suggested.
    pub closed spec fn suggested(&self, variable: Variable) -> int {
        solver_suggested(self.solver, variable)
    }

    /// The variables whose solved value changed and was not fetched yet.
    pub closed spec fn unreported(&self) -> Set<Variable> {
        solver_changes(self.solver)
    }

    /// Whether the solver has ever answered with an error that may have
    /// left it changed.
    pub closed spec fn failed(&self) -> bool {
        self.failed
    }

    /// Whether the record and the solver go together: the solver holds
    /// every constraint of the record, each under a handle of its own that
    /// holds what the constraint says.
    pub closed spec fn tied(&self) -> bool {
        &&& forall|i: int|
            0 <= i < self.installed@.len() ==> (#[trigger] self.installed@[i]).tied()
        &&& forall|i: int|
            0 <= i < self.installed@.len() ==> solver_constraints(self.solver).contains(
                (#[trigger] self.installed@[i]).handle,
            )
        &&& forall|i: int, j: int|
            0 <= i < self.installed@.len() && 0 <= j < self.installed@.len() && i != j ==> (
            #[trigger] self.installed@[i]).handle != (#[trigger] self.installed@[j]).handle
    }

    /// Whether the record has a constraint under the handle `handle`.
    pub closed spec fn records(&self, handle: cassowary::Constraint) -> bool {
        exists|i: int| 0 <= i < self.installed@.len() && (#[trigger] self.installed@[i]).handle
            == handle
    }

    /// Whether the solver is known to be as it should be: as long as no
    /// call on it has failed, it is in the state that its algorithm keeps,
    /// and it holds no constraint but those of the record.
    pub closed spec fn sound(&self) -> bool {
        !self.failed ==> solver_intact(self.solver) && forall|handle: cassowary::Constraint| #[trigger]
            solver_constraints(self.solver).contains(handle) ==> self.records(handle)
    }

    /// No constraint is installed twice, the record and the solver go
    /// together, and the solver is sound.
    pub open spec fn wf(&self) -> bool {
        &&& self.constraints().no_duplicates()
        &&& self.tied()
        &&& self.sound()
    }

    /// Whether the two solvers agree in all that can be observed of them:
    /// constraints, edit variables with their suggested values, solved
    /// values, unfetched changes, and whether a call has failed.
    pub open spec fn agrees(&self, other: &LimnSolver) -> bool {
        &&& self.constraints() == other.constraints()
        &&& self.edits() == other.edits()
        &&& self.unreported() == other.unreported()
        &&& self.failed() == other.failed()
        &&& forall|v: Variable| #[trigger] self.value(v) == other.value(v)
        &&& forall|v: Variable| #[trigger] self.suggested(v) == other.suggested(v)
    }

    /// An empty system: no constraint, no edit variable, every value 0.
    pub fn new() -> (r: LimnSolver)
        ensures
            r.wf(),
            !r.failed(),
            r.constraints() == Seq::<ConstraintView>::empty(),
            r.edits() == Set::<Variable>::empty(),
            r.unreported() == Set::<Variable>::empty(),
            forall|v: Variable| #[trigger] r.value(v) == 0,
    {
        let r = LimnSolver { solver: new_solver(), installed: Vec::new(), failed: false };
        proof {
            assert(r.constraints() =~= Seq::<ConstraintView>::empty());
        }
        r
    }

    /// Where `constraint` stands in the record, if it is installed.
    fn position(&self, constraint: &LinearConstraint) -> (r: Option<usize>)
        ensures
            match r {
                Some(i) => i < self.constraints().len() && self.constraints()[i as int]
                    == constraint@,
                None => !self.constraints().contains(constraint@),
            },
    {
        let mut i: usize = 0;
        while i < self.installed.len()
            invariant
                i <= self.installed.len(),
                self.constraints().len() == self.installed.len(),
                forall|k: int| 0 <= k < i ==> self.constraints()[k] != constraint@,
            decreases self.installed.len() - i,
        {
            if self.installed[i].constraint.same(constraint) {
                return Some(i);
            }
            i += 1;
        }
        None
    }

    /// Whether a constraint that says the same is installed.
    pub fn has_constraint(&self, constraint: &LinearConstraint) -> (r: bool)
        ensures
            r == self.constraints().contains(constraint@),
    {
        self.position(constraint).is_some()
    }

    /// The number of installed constraints.
    pub fn constraint_count(&self) -> (r: usize)
        ensures
            r == self.constraints().len(),
    {
        self.installed.len()
    }

    /// Whether the solver has ever answered with an error that may have
    /// left it changed.
    pub fn has_failed(&self) -> (r: bool)
        ensures
            r == self.failed(),
    {
        self.failed
    }

    /// Takes note that a call on the solver has failed.
    fn note(&mut self, failure: bool)
        ensures
            final(self).solver == old(self).solver,
            final(self).installed == old(self).installed,
            final(self).failed == (old(self).failed || failure),
    {
        if failure {
            self.failed = true;
        }
    }

    /// Takes note of the solver's answer to the request to add `constraint`
    /// under `handle`, which was not installed: on `Ok` the constraint joins
    /// the record, on an error the record stays and the failure is noted.
    /// The answer is handed back.
    fn record(
        &mut self,
        constraint: LinearConstraint,
        handle: cassowary::Constraint,
        outcome: Result<(), SolverError>,
    ) -> (r: Result<(), SolverError>)
        requires
            old(self).constraints().no_duplicates(),
            old(self).tied(),
            !old(self).constraints().contains(constraint@),
            (Installed { constraint, handle }).tied(),
            outcome is Ok ==> solver_constraints(old(self).solver).contains(handle),
            outcome is Ok ==> forall|i: int|
                0 <= i < old(self).installed@.len() ==> (#[trigger] old(self).installed@[i]).handle
                    != handle,
            outcome is Ok && !old(self).failed ==> solver_intact(old(self).solver),
            outcome is Ok && !old(self).failed ==> forall|other: cassowary::Constraint| #[trigger]
                solver_constraints(old(self).solver).contains(other) ==> other == handle || old(
                    self,
                ).records(other),
        ensures
            r == outcome,
            final(self).wf(),
            final(self).solver == old(self).solver,
            final(self).failed() == (old(self).failed() || outcome is Err),
            outcome is Ok ==> final(self).constraints() == old(self).constraints().push(
                constraint@,
            ),
            outcome is Err ==> final(self).constraints() == old(self).constraints(),
    {
        if outcome.is_ok() {
            let ghost before = self.constraints();
            let ghost entries = self.installed@;
            self.installed.push(Installed { constraint, handle });
            proof {
                assert(self.constraints() =~= before.push(constraint@));
                if !self.failed {
                    assert forall|other: cassowary::Constraint| #[trigger]
                        solver_constraints(self.solver).contains(other) implies self.records(
                        other,
                    ) by {
                        if other == handle {
                            assert(self.installed@[entries.len() as int].handle == other);
                        } else {
                            assert(old(self).records(other));
                            let i = choose|i: int|
                                0 <= i < entries.len() && (#[trigger] entries[i]).handle == other;
                            assert(self.installed@[i].handle == other);
                        }
                    }
                }
            }
        } else {
            self.note(true);
            proof {
                assert(self.constraints() =~= old(self).constraints());
            }
        }
        outcome
    }

    /// Installs `constraint` unless one that says the same is installed
    /// already, which is no error. Otherwise the solver is handed a
    /// constraint that holds what `constraint` says, and decides: when it
    /// accepts, the constraint joins the record; when it refuses, the record
    /// stays, the failure is noted and the solver's error comes back.
    pub fn add_constraint(&mut self, constraint: &LinearConstraint) -> (r: Result<
        (),
        SolverError,
    >)
        requires
            old(self).wf(),
        ensures
            final(self).wf(),
            final(self).edits() == old(self).edits(),
            forall|v: Variable| #[trigger] final(self).suggested(v) == old(self).suggested(v),
            final(self).failed() == (old(self).failed() || r is Err),
            old(self).constraints().contains(constraint@) ==> r is Ok && *final(self) == *old(
                self,
            ),
            r is Ok ==> final(self).constraints() == (if old(self).constraints().contains(
                constraint@,
            ) {
                old(self).constraints()
            } else {
                old(self).constraints().push(constraint@)
            }),
            r is Err ==> final(self).constraints() == old(self).constraints(),
    {
        if self.has_constraint(constraint) {
            return Ok(());
        }
        let lhs = build_expression(&constraint.lhs.terms, constraint.lhs.constant);
        let rhs = build_expression(&constraint.rhs.terms, constraint.rhs.constant);
        let handle = build_constraint(lhs, constraint.relation, rhs, constraint.strength);
        let outcome = solver_add(&mut self.solver, &handle);
        let copy = constraint.clone();
        proof {
            assert(self.constraints() =~= old(self).constraints());
            assert(self.installed@ == old(self).installed@);
        }
        self.record(copy, handle, outcome)
    }

    /// Withdraws the installed constraint that says the same as
    /// `constraint`. Where none is installed, nothing changes and the error
    /// is `UnknownConstraint`. Otherwise the constraint leaves the record
    /// and the solver, whatever the solver answers, and the solver's answer
    /// comes back; an error is noted as a failure.
    pub fn remove_constraint(&mut self, constraint: &LinearConstraint) -> (r: Result<
        (),
        SolverError,
    >)
        requires
            old(self).wf(),
        ensures
            final(self).wf(),
            final(self).edits() == old(self).edits(),
            forall|v: Variable| #[trigger] final(self).suggested(v) == old(self).suggested(v),
            !old(self).constraints().contains(constraint@) ==> r is Err && r->Err_0
                == SolverError::UnknownConstraint && *final(self) == *old(self),
            old(self).constraints().contains(constraint@) ==> final(self).constraints() == old(
                self,
            ).constraints().remove(old(self).constraints().index_of(constraint@)),
            old(self).constraints().contains(constraint@) ==> final(self).failed() == (old(
                self,
            ).failed() || r is Err),
            old(self).constraints().contains(constraint@) ==> !(r is Err && r->Err_0
                == SolverError::UnknownConstraint),
            !final(self).constraints().contains(constraint@),
    {
        match self.position(constraint) {
            None => Err(SolverError::UnknownConstraint),
            Some(i) => {
                let ghost before = self.constraints();
                let ghost entries = self.installed@;
                let entry = self.installed.remove(i);
                proof {
                    assert(before.index_of(constraint@) == i as int);
                    assert(self.constraints() =~= before.remove(i as int));
                    before.remove_ensures(i as int);
                    assert forall|a: int, b: int|
                        0 <= a < self.constraints().len() && 0 <= b < self.constraints().len() && a
                            != b implies self.constraints()[a] != self.constraints()[b] by {
                        let a0 = if a < i { a } else { a + 1 };
                        let b0 = if b < i { b } else { b + 1 };
                        assert(self.constraints()[a] == before[a0]);
                        assert(self.constraints()[b] == before[b0]);
                    }
                    assert forall|a: int| 0 <= a < self.constraints().len() implies
                        self.constraints()[a] != constraint@ by {
                        let a0 = if a < i { a } else { a + 1 };
                        assert(self.constraints()[a] == before[a0]);
                    }
                    assert(entry == entries[i as int]);
                    assert forall|a: int| 0 <= a < self.installed@.len() implies (
                    #[trigger] self.installed@[a]) == entries[if a < i { a } else { a + 1 }] by {}
                }
                let outcome = solver_remove(&mut self.solver, &entry.handle);
                let ghost kept = self.installed@;
                self.note(outcome.is_err());
                proof {
                    assert(self.installed@ == kept);
                    assert forall|a: int| 0 <= a < kept.len() implies solver_constraints(
                        self.solver,
                    ).contains((#[trigger] kept[a]).handle) && kept[a].tied() by {
                        let a0 = if a < i { a } else { a + 1 };
                        assert(kept[a] == entries[a0]);
                        assert(entries[a0].handle != entries[i as int].handle);
                    }
                    assert forall|a: int, b: int|
                        0 <= a < kept.len() && 0 <= b < kept.len() && a != b implies (
                    #[trigger] kept[a]).handle != (#[trigger] kept[b]).handle by {
                        let a0 = if a < i { a } else { a + 1 };
                        let b0 = if b < i { b } else { b + 1 };
                        assert(kept[a] == entries[a0]);
                        assert(kept[b] == entries[b0]);
                    }
                    if !self.failed {
                        assert forall|other: cassowary::Constraint| #[trigger]
                            solver_constraints(self.solver).contains(other) implies self.records(
                            other,
                        ) by {
                            assert(old(self).records(other));
                            let k = choose|k: int|
                                0 <= k < entries.len() && (#[trigger] entries[k]).handle == other;
                            assert(k != i);
                            let a = if k < i { k } else { k - 1 };
                            assert(kept[a] == entries[k]);
                        }
                    }
                }
                outcome
            },
        }
    }

    /// Whether the variable takes suggested values.
    pub fn has_edit_variable(&self, variable: Variable) -> (r: bool)
        ensures
            r == self.edits().contains(variable),
    {
        solver_has_edit(&self.solver, variable)
    }

    /// Makes `variable` an edit variable, held at `strength`, with the
    /// suggested value 0. This succeeds exactly when the variable is none
    /// yet, the strength is not `Required` and no call on the solver has
    /// failed; a failure changes nothing. The error is
    /// `DuplicateEditVariable` for an edit variable, else
    /// `BadRequiredStrength` for the strength `Required`, else
    /// `InternalSolverError`.
    pub fn add_edit_variable(&mut self, variable: Variable, strength: Strength) -> (r: Result<
        (),
        SolverError,
    >)
        requires
            old(self).wf(),
        ensures
            final(self).wf(),
            r is Ok <==> (!old(self).edits().contains(variable) && strength != Strength::Required
                && !old(self).failed()),
            r is Ok ==> final(self).edits() == old(self).edits().insert(variable),
            r is Ok ==> final(self).suggested(variable) == 0,
            forall|v: Variable|
                v != variable ==> #[trigger] final(self).suggested(v) == old(self).suggested(v),
            r is Err ==> *final(self) == *old(self),
            r is Err ==> r->Err_0 == (if old(self).edits().contains(variable) {
                SolverError::DuplicateEditVariable
            } else if strength == Strength::Required {
                SolverError::BadRequiredStrength
            } else {
                SolverError::InternalSolverError
            }),
            final(self).constraints() == old(self).constraints(),
            final(self).failed() == old(self).failed(),
    {
        if self.has_edit_variable(variable) {
            return Err(SolverError::DuplicateEditVariable);
        }
        if strength == Strength::Required {
            return Err(SolverError::BadRequiredStrength);
        }
        if self.failed {
            return Err(SolverError::InternalSolverError);
        }
        solver_add_edit(&mut self.solver, variable, strength)
    }

    /// Ends the editing of `variable`: afterwards it is no edit variable.
    /// Where it was none, nothing changes and the error is
    /// `UnknownEditVariable`; another error is noted as a failure.
    pub fn remove_edit_variable(&mut self, variable: Variable) -> (r: Result<(), SolverError>)
        requires
            old(self).wf(),
        ensures
            final(self).wf(),
            final(self).edits() == old(self).edits().remove(variable),
            final(self).constraints() == old(self).constraints(),
            forall|v: Variable|
                v != variable ==> #[trigger] final(self).suggested(v) == old(self).suggested(v),
            !old(self).edits().contains(variable) ==> r is Err && r->Err_0
                == SolverError::UnknownEditVariable && *final(self) == *old(self),
            old(self).edits().contains(variable) ==> !(r is Err && r->Err_0
                == SolverError::UnknownEditVariable),
            old(self).edits().contains(variable) ==> final(self).failed() == (old(self).failed()
                || r is Err),
    {
        let known = self.has_edit_variable(variable);
        let outcome = solver_remove_edit(&mut self.solver, variable);
        self.note(known && outcome.is_err());
        outcome
    }

    /// Suggests a value for an edit variable: whatever the solver answers,
    /// it keeps the value as the one last suggested for the variable, as
    /// long as the value is of a magnitude up to `MAX_EXACT`. For a variable
    /// that is no edit variable the call fails with `UnknownEditVariable`
    /// and changes nothing; another error is noted as a failure.
    pub fn suggest_value(&mut self, variable: Variable, value: i64) -> (r: Result<
        (),
        SolverError,
    >)
        requires
            old(self).wf(),
        ensures
            final(self).wf(),
            final(self).edits() == old(self).edits(),
            final(self).constraints() == old(self).constraints(),
            (old(self).edits().contains(variable) && -MAX_EXACT <= value <= MAX_EXACT)
                ==> final(self).suggested(variable) == value,
            forall|v: Variable|
                v != variable ==> #[trigger] final(self).suggested(v) == old(self).suggested(v),
            !old(self).edits().contains(variable) ==> r is Err && r->Err_0
                == SolverError::UnknownEditVariable && *final(self) == *old(self),
            old(self).edits().contains(variable) ==> !(r is Err && r->Err_0
                == SolverError::UnknownEditVariable),
            old(self).edits().contains(variable) ==> final(self).failed() == (old(self).failed()
                || r is Err),
    {
        let known = self.has_edit_variable(variable);
        let outcome = solver_suggest(&mut self.solver, variable, value);
        self.note(known && outcome.is_err());
        outcome
    }

    /// The solved value of a variable.
    pub fn get_value(&self, variable: Variable) -> (r: i32)
        ensures
            r == self.value(variable),
    {
        solver_get(&self.solver, variable)
    }

    /// Whether this is `before` after its changes were fetched as
    /// `changes`: the list reports what was unreported, nothing is left to
    /// report, and all else that can be observed is as it was.
    pub open spec fn fetched_from(&self, before: &LimnSolver, changes: Seq<Change>) -> bool {
        &&& reports(changes, before.unreported(), before.values())
        &&& self.unreported() == Set::<Variable>::empty()
        &&& self.edits() == before.edits()
        &&& self.constraints() == before.constraints()
        &&& self.failed() == before.failed()
        &&& forall|v: Variable| #[trigger] self.value(v) == before.value(v)
        &&& forall|v: Variable| #[trigger] self.suggested(v) == before.suggested(v)
    }

    /// The solved values that changed since they were last fetched: each
    /// such variable once, with its value, in no stated order. Afterwards
    /// nothing is left to report.
    pub fn fetch_changes(&mut self) -> (r: Vec<Change>)
        requires
            old(self).wf(),
        ensures
            final(self).wf(),
            final(self).fetched_from(old(self), r@),
    {
        let changes = solver_fetch(&mut self.solver);
        proof {
            assert(self.constraints() =~= old(self).constraints());
        }
        changes
    }

    /// Whether the solver holds every constraint of `layout` and has no
    /// change left to report.
    pub open spec fn settled(&self, layout: &WidgetLayout) -> bool {
        &&& covers(self.constraints(), layout.rules())
        &&& self.unreported() == Set::<Variable>::empty()
    }

    /// Whether `mid` is this solver with the constraints of `layout`
    /// installed, and `after` is `mid` with its changes fetched as
    /// `changes`.
    pub open spec fn updated_by_way_of(
        &self,
        layout: &WidgetLayout,
        mid: LimnSolver,
        after: &LimnSolver,
        changes: Seq<Change>,
    ) -> bool {
        &&& mid.wf()
        &&& layout.installs(self, &mid, Ok(()))
        &&& after.fetched_from(&mid, changes)
    }

    /// What `update_layout` does for the node `layout`: `after` is the
    /// solver afterwards and `r` the result.
    ///
    /// On success there is a state `mid` of the solver in which the node's
    /// constraints were installed as `WidgetLayout::installs` says, and
    /// `after` is `mid` with its changes fetched: the result lists exactly
    /// the variables whose change `mid` had not reported, each once, with
    /// its solved value, and nothing is left to report. On an error the
    /// solver is as `installs` says for the error, and nothing was fetched.
    pub open spec fn updated(
        &self,
        layout: &WidgetLayout,
        after: &LimnSolver,
        r: Result<Vec<Change>, SolverError>,
    ) -> bool {
        &&& r is Ok ==> exists|mid: LimnSolver| self.updated_by_way_of(layout, mid, after, r->Ok_0@)
        &&& r is Err ==> layout.installs(self, after, Err(r->Err_0))
        &&& after.edits() == self.edits()
        &&& forall|v: Variable| #[trigger] after.suggested(v) == self.suggested(v)
        &&& r is Ok ==> after.constraints() == merged(self.constraints(), layout.rules())
        &&& r is Ok ==> after.settled(layout)
        &&& r is Ok ==> distinct(r->Ok_0@) && carries(r->Ok_0@, after.values())
        &&& covers(self.constraints(), layout.rules()) ==> r is Ok && reports(
            r->Ok_0@,
            self.unreported(),
            self.values(),
        ) && after.constraints() == self.constraints() && (forall|v: Variable| #[trigger]
            after.value(v) == self.value(v))
        &&& self.settled(layout) ==> r is Ok && r->Ok_0@.len() == 0 && after.agrees(self)
    }

    /// Installs the constraints of `layout` that the solver does not hold
    /// yet, then hands out the solved values that changed.
    ///
    /// The call on a node whose constraints are all installed reports what
    /// was left unreported, and installs nothing. So a second call with no
    /// change in between reports no change at all: after a call that
    /// succeeded the solver is `settled` for the node, and on a solver that
    /// is settled the call succeeds with an empty list and leaves all that
    /// can be observed of the solver as it was.
    ///
    /// When the solver refuses a constraint, its error comes back, nothing is
    /// fetched, and the constraints before the refused one stay installed.
    pub fn update_layout(&mut self, layout: &WidgetLayout) -> (r: Result<Vec<Change>, SolverError>)
        requires
            old(self).wf(),
        ensures
            final(self).wf(),
            old(self).updated(layout, final(self), r),
    {
        match layout.update_solver(self) {
            Err(e) => Err(e),
            Ok(()) => {
                let ghost installed = *self;
                let changes = self.fetch_changes();
                proof {
                    lemma_merged_covers(old(self).constraints(), layout.rules());
                    if covers(old(self).constraints(), layout.rules()) {
                        lemma_merged_covered(old(self).constraints(), layout.rules());
                        assert(installed == *old(self));
                    }
                    if old(self).settled(layout) {
                        lemma_reports_nothing(changes@, old(self).values());
                    }
                    assert(old(self).updated_by_way_of(layout, installed, self, changes@));
                }
                let out: Result<Vec<Change>, SolverError> = Ok(changes);
                proof {
                    assert(old(self).updated_by_way_of(layout, installed, self, out->Ok_0@));
                }
                out
            },
        }
    }

    /// Withdraws from the solver every installed constraint that says the
    /// same as one of `constraints`; those that are not installed are passed
    /// over. All of them are tried; the first error of the solver, if any,
    /// comes back.
    pub fn retract(&mut self, constraints: &[LinearConstraint]) -> (r: Result<(), SolverError>)
        requires
            old(self).wf(),
        ensures
            final(self).wf(),
            final(self).edits() == old(self).edits(),
            forall|v: Variable| #[trigger] final(self).suggested(v) == old(self).suggested(v),
            final(self).failed() == (old(self).failed() || r is Err),
            final(self).constraints() == old(self).constraints().filter(
                outside(views(constraints@)),
            ),
            (forall|i: int|
                0 <= i < constraints@.len() ==> !old(self).constraints().contains(
                    #[trigger] views(constraints@)[i],
                )) ==> r is Ok && *final(self) == *old(self),
    {
        let ghost base = self.constraints();
        let ghost rules = views(constraints@);
        let mut first: Option<SolverError> = None;
        let mut i: usize = 0;
        proof {
            assert(rules.take(0) =~= Seq::<ConstraintView>::empty());
            assert forall|k: int| 0 <= k < base.len() implies outside(rules.take(0))(
                #[trigger] base[k],
            ) by {}
            lemma_filter_all(base, outside(rules.take(0)));
        }
        while i < constraints.len()
            invariant
                i <= constraints.len(),
                rules == views(constraints@),
                base == old(self).constraints(),
                self.wf(),
                self.edits() == old(self).edits(),
                forall|v: Variable| #[trigger] self.suggested(v) == old(self).suggested(v),
                self.failed() == (old(self).failed() || first is Some),
                self.constraints() == base.filter(outside(rules.take(i as int))),
                (forall|k: int| 0 <= k < i ==> !base.contains(#[trigger] rules[k])) ==> first is None
                    && *self == *old(self),
            decreases constraints.len() - i,
        {
            let ghost current = self.constraints();
            let ghost rule = rules[i as int];
            let ghost earlier = outside(rules.take(i as int));
            let ghost later = outside(rules.take(i + 1));
            proof {
                assert(rules.take(i + 1) =~= rules.take(i as int).push(rule));
                lemma_contains_push(rules.take(i as int), rule);
                lemma_filter_member(base, earlier);
                assert(rule == constraints@[i as int]@);
            }
            if self.has_constraint(&constraints[i]) {
                let outcome = self.remove_constraint(&constraints[i]);
                proof {
                    let k = current.index_of(rule);
                    lemma_remove_is_filter(current, k);
                    assert forall|x: ConstraintView| #[trigger]
                        later(x) == (earlier(x) && differs(rule)(x)) by {}
                    lemma_filter_twice(base, earlier, differs(rule), later);
                    assert(base.contains(rule));
                    let at = choose|at: int| 0 <= at < base.len() && base[at] == rule;
                    assert(constraints@[i as int]@ == rules[i as int]);
                }
                if first.is_none() {
                    if let Err(e) = outcome {
                        first = Some(e);
                    }
                }
            } else {
                proof {
                    assert forall|k: int| 0 <= k < base.len() implies earlier(#[trigger] base[k])
                        == later(base[k]) by {
                        if earlier(base[k]) && base[k] == rule {
                            assert(base.contains(base[k]));
                            assert(current.contains(rule));
                        }
                    }
                    lemma_filter_agree(base, earlier, later);
                }
            }
            i += 1;
        }
        proof {
            assert(rules.take(i as int) =~= rules);
        }
        match first {
            None => Ok(()),
            Some(e) => Err(e),
        }
    }
}

/// Whether no variable is listed twice.
pub open spec fn distinct(changes: Seq<Change>) -> bool {
    forall|i: int, j: int|
        0 <= i < j < changes.len() ==> (#[trigger] changes[i]).0 != (#[trigger] changes[j]).0
}

/// Whether each listed variable comes with its value under `values`.
pub open spec fn carries(changes: Seq<Change>, values: spec_fn(Variable) -> int) -> bool {
    forall|i: int| 0 <= i < changes.len() ==> (#[trigger] changes[i]).1 == values(changes[i].0)
}

/// Whether `changes` lists exactly the variables of `pending`, each once,
/// each with its value under `values`.
pub open spec fn reports(changes: Seq<Change>, pending: Set<Variable>, values: spec_fn(
    Variable,
) -> int) -> bool {
    &&& forall|v: Variable|
        pending.contains(v) <==> exists|i: int|
            0 <= i < changes.len() && (#[trigger] changes[i]).0 == v
    &&& distinct(changes)
    &&& carries(changes, values)
}

/// With nothing pending, nothing is reported.
pub proof fn lemma_reports_nothing(changes: Seq<Change>, values: spec_fn(Variable) -> int)
    requires
        reports(changes, Set::<Variable>::empty(), values),
    ensures
        changes.len() == 0,
{
    if changes.len() > 0 {
        let v = changes[0].0;
        assert(Set::<Variable>::empty().contains(v));
    }
}

} // verus!
