//! Linear relations over edge variables, each tagged with a strength.

use cassowary::Variable;
use vstd::prelude::*;

use crate::backend::same_variable;

verus! {

/// An assignment of a whole number to every variable.
pub type Valuation = spec_fn(Variable) -> int;

/// The priority of a constraint. `Required` constraints must all hold
/// together; the others may be violated, the lower ones first.
#[derive(Clone, Copy, Debug, PartialEq, Eq, Structural)]
pub enum Strength {
    Weak,
    Medium,
    Strong,
    Required,
}

impl Strength {
    /// The place of a strength in the order, `Weak` lowest.
    pub open spec fn rank(self) -> nat {
        match self {
            Strength::Weak => 0,
            Strength::Medium => 1,
            Strength::Strong => 2,
            Strength::Required => 3,
        }
    }

    /// The place of this strength in the order, `Weak` lowest.
    pub fn level(self) -> (r: u8)
        ensures
            r == self.rank(),
    {
        match self {
            Strength::Weak => 0,
            Strength::Medium => 1,
            Strength::Strong => 2,
            Strength::Required => 3,
        }
    }

    /// Whether this strength is `other` or a higher one.
    pub fn at_least(self, other: Strength) -> (r: bool)
        ensures
            r == (self.rank() >= other.rank()),
    {
        self.level() >= other.level()
    }
}

/// How the two sides of a constraint are compared.
#[derive(Clone, Copy, Debug, PartialEq, Eq, Structural)]
pub enum Relation {
    LessOrEqual,
    Equal,
    GreaterOrEqual,
}

/// A variable multiplied by a coefficient.
#[derive(Clone, Copy, Debug)]
pub struct Term {
    pub variable: Variable,
    pub coefficient: i32,
}

impl Term {
    pub fn new(variable: Variable, coefficient: i32) -> (r: Term)
        ensures
            r == (Term { variable, coefficient }),
    {
        Term { variable, coefficient }
    }

    /// Whether two terms have the same variable and the same coefficient.
    pub fn same(&self, other: &Term) -> (r: bool)
        ensures
            r == (*self == *other),
    {
        self.coefficient == other.coefficient && same_variable(self.variable, other.variable)
    }
}

/// The sum of the terms under an assignment.
pub open spec fn sum(terms: Seq<Term>, at: Valuation) -> int
    decreases terms.len(),
{
    if terms.len() == 0 {
        0
    } else {
        sum(terms.drop_last(), at) + terms.last().coefficient * at(terms.last().variable)
    }
}

/// What an `LinearExpression` stands for: a sum of terms plus a constant.
pub struct ExpressionView {
    pub terms: Seq<Term>,
    pub constant: int,
}

impl ExpressionView {
    /// The number that the expression takes under an assignment.
    pub open spec fn value(self, at: Valuation) -> int {
        sum(self.terms, at) + self.constant
    }

    /// The expression `variable`.
    pub open spec fn variable(variable: Variable) -> ExpressionView {
        ExpressionView { terms: seq![Term { variable, coefficient: 1 }], constant: 0 }
    }

    /// The expression `constant`.
    pub open spec fn constant(constant: int) -> ExpressionView {
        ExpressionView { terms: Seq::empty(), constant }
    }

    /// The expression `variable + constant`.
    pub open spec fn offset(variable: Variable, constant: int) -> ExpressionView {
        ExpressionView { terms: seq![Term { variable, coefficient: 1 }], constant }
    }

    /// The expression `high - low`.
    pub open spec fn difference(high: Variable, low: Variable) -> ExpressionView {
        ExpressionView {
            terms: seq![
                Term { variable: high, coefficient: 1 },
                Term { variable: low, coefficient: -1i32 },
            ],
            constant: 0,
        }
    }
}

/// A linear combination of variables plus a constant.
#[derive(Debug)]
pub struct LinearExpression {
    pub terms: Vec<Term>,
    pub constant: i32,
}

impl View for LinearExpression {
    type V = ExpressionView;

    open spec fn view(&self) -> ExpressionView {
        ExpressionView { terms: self.terms@, constant: self.constant as int }
    }
}

impl Clone for LinearExpression {
    fn clone(&self) -> (r: LinearExpression)
        ensures
            r@ == self@,
    {
        let mut terms: Vec<Term> = Vec::new();
        let mut i: usize = 0;
        while i < self.terms.len()
            invariant
                i <= self.terms.len(),
                terms@ == self.terms@.take(i as int),
            decreases self.terms.len() - i,
        {
            terms.push(self.terms[i]);
            proof {
                assert(self.terms@.take(i + 1) == self.terms@.take(i as int).push(self.terms@[i as int]));
            }
            i += 1;
        }
        proof {
            assert(self.terms@.take(i as int) == self.terms@);
        }
        LinearExpression { terms, constant: self.constant }
    }
}

impl LinearExpression {
    /// The general constructor: the sum of `terms`, plus `constant`.
    pub fn new(terms: Vec<Term>, constant: i32) -> (r: LinearExpression)
        ensures
            r@ == (ExpressionView { terms: terms@, constant: constant as int }),
    {
        LinearExpression { terms, constant }
    }

    /// The expression `variable`.
    pub fn variable(variable: Variable) -> (r: LinearExpression)
        ensures
            r@ == ExpressionView::variable(variable),
    {
        let mut terms: Vec<Term> = Vec::new();
        terms.push(Term { variable, coefficient: 1 });
        proof {
            assert(terms@ == seq![Term { variable, coefficient: 1 }]);
        }
        LinearExpression { terms, constant: 0 }
    }

    /// The expression `constant`.
    pub fn constant(constant: i32) -> (r: LinearExpression)
        ensures
            r@ == ExpressionView::constant(constant as int),
    {
        LinearExpression { terms: Vec::new(), constant }
    }

    /// The expression `variable + constant`.
    pub fn offset(variable: Variable, constant: i32) -> (r: LinearExpression)
        ensures
            r@ == ExpressionView::offset(variable, constant as int),
    {
        let mut terms: Vec<Term> = Vec::new();
        terms.push(Term { variable, coefficient: 1 });
        proof {
            assert(terms@ == seq![Term { variable, coefficient: 1 }]);
        }
        LinearExpression { terms, constant }
    }

    /// The expression `high - low`.
    pub fn difference(high: Variable, low: Variable) -> (r: LinearExpression)
        ensures
            r@ == ExpressionView::difference(high, low),
    {
        let mut terms: Vec<Term> = Vec::new();
        terms.push(Term { variable: high, coefficient: 1 });
        terms.push(Term { variable: low, coefficient: -1i32 });
        proof {
            assert(terms@ == seq![
                Term { variable: high, coefficient: 1 },
                Term { variable: low, coefficient: -1i32 },
            ]);
        }
        LinearExpression { terms, constant: 0 }
    }

    /// Whether two expressions have the same terms in the same order and
    /// the same constant.
    pub fn same(&self, other: &LinearExpression) -> (r: bool)
        ensures
            r == (self@ == other@),
    {
        if self.constant != other.constant || self.terms.len() != other.terms.len() {
            return false;
        }
        let mut i: usize = 0;
        while i < self.terms.len()
            invariant
                i <= self.terms.len(),
                self.terms.len() == other.terms.len(),
                forall|k: int| 0 <= k < i ==> self.terms@[k] == other.terms@[k],
            decreases self.terms.len() - i,
        {
            if !self.terms[i].same(&other.terms[i]) {
                return false;
            }
            i += 1;
        }
        proof {
            assert(self.terms@ =~= other.terms@);
        }
        true
    }
}

/// What a `LinearConstraint` stands for.
pub struct ConstraintView {
    pub lhs: ExpressionView,
    pub relation: Relation,
    pub rhs: ExpressionView,
    pub strength: Strength,
}

impl ConstraintView {
    /// Whether the relation holds between the two sides under an assignment.
    pub open spec fn holds(self, at: Valuation) -> bool {
        match self.relation {
            Relation::LessOrEqual => self.lhs.value(at) <= self.rhs.value(at),
            Relation::Equal => self.lhs.value(at) == self.rhs.value(at),
            Relation::GreaterOrEqual => self.lhs.value(at) >= self.rhs.value(at),
        }
    }

    /// The constraint `lhs relation rhs` between two variables.
    pub open spec fn between(
        lhs: Variable,
        relation: Relation,
        rhs: Variable,
        strength: Strength,
    ) -> ConstraintView {
        ConstraintView {
            lhs: ExpressionView::variable(lhs),
            relation,
            rhs: ExpressionView::variable(rhs),
            strength,
        }
    }

    /// The constraint `lhs relation rhs + constant`.
    pub open spec fn beside(
        lhs: Variable,
        relation: Relation,
        rhs: Variable,
        constant: int,
        strength: Strength,
    ) -> ConstraintView {
        ConstraintView {
            lhs: ExpressionView::variable(lhs),
            relation,
            rhs: ExpressionView::offset(rhs, constant),
            strength,
        }
    }

    /// The constraint `high - low == size`.
    pub open spec fn extent(
        high: Variable,
        low: Variable,
        size: int,
        strength: Strength,
    ) -> ConstraintView {
        ConstraintView {
            lhs: ExpressionView::difference(high, low),
            relation: Relation::Equal,
            rhs: ExpressionView::constant(size),
            strength,
        }
    }

    /// The constraint `high - low == other_high - other_low`.
    pub open spec fn balance(
        high: Variable,
        low: Variable,
        other_high: Variable,
        other_low: Variable,
        strength: Strength,
    ) -> ConstraintView {
        ConstraintView {
            lhs: ExpressionView::difference(high, low),
            relation: Relation::Equal,
            rhs: ExpressionView::difference(other_high, other_low),
            strength,
        }
    }
}

/// What a constraint `high - low == other_high - other_low` asks of an
/// assignment.
pub proof fn lemma_holds_balance(
    high: Variable,
    low: Variable,
    other_high: Variable,
    other_low: Variable,
    strength: Strength,
    at: Valuation,
)
    ensures
        ConstraintView::balance(high, low, other_high, other_low, strength).holds(at) == (at(high)
            - at(low) == at(other_high) - at(other_low)),
{
    lemma_value_difference(high, low, at);
    lemma_value_difference(other_high, other_low, at);
}

/// The value of the expression `variable` is the variable's value.
pub proof fn lemma_value_variable(variable: Variable, at: Valuation)
    ensures
        ExpressionView::variable(variable).value(at) == at(variable),
{
    lemma_value_offset(variable, 0, at);
}

/// The value of the expression `constant` is the constant.
pub proof fn lemma_value_constant(constant: int, at: Valuation)
    ensures
        ExpressionView::constant(constant).value(at) == constant,
{
}

/// The value of `variable + constant` is the variable's value plus the
/// constant.
pub proof fn lemma_value_offset(variable: Variable, constant: int, at: Valuation)
    ensures
        ExpressionView::offset(variable, constant).value(at) == at(variable) + constant,
{
    let terms = seq![Term { variable, coefficient: 1i32 }];
    assert(terms.drop_last() =~= Seq::<Term>::empty());
    assert(sum(terms.drop_last(), at) == 0);
    let plus = terms.last().coefficient as int;
    let x = at(variable);
    assert(plus * x == x) by (nonlinear_arith)
        requires
            plus == 1,
    ;
    assert(sum(terms, at) == sum(terms.drop_last(), at) + terms.last().coefficient * at(
        terms.last().variable,
    ));
}

/// The value of `high - low` is the difference of the two values.
pub proof fn lemma_value_difference(high: Variable, low: Variable, at: Valuation)
    ensures
        ExpressionView::difference(high, low).value(at) == at(high) - at(low),
{
    let terms = seq![
        Term { variable: high, coefficient: 1i32 },
        Term { variable: low, coefficient: -1i32 },
    ];
    let front = seq![Term { variable: high, coefficient: 1i32 }];
    assert(terms.drop_last() =~= front);
    assert(front.drop_last() =~= Seq::<Term>::empty());
    assert(sum(front.drop_last(), at) == 0);
    assert(sum(front, at) == sum(front.drop_last(), at) + front.last().coefficient * at(
        front.last().variable,
    ));
    let plus = front.last().coefficient as int;
    let minus = terms.last().coefficient as int;
    let h = at(high);
    let l = at(low);
    assert(plus * h == h) by (nonlinear_arith)
        requires
            plus == 1,
    ;
    assert(minus * l == -l) by (nonlinear_arith)
        requires
            minus == -1,
    ;
    assert(sum(terms, at) == sum(terms.drop_last(), at) + terms.last().coefficient * at(
        terms.last().variable,
    ));
}

/// What a constraint between two variables asks of an assignment.
pub proof fn lemma_holds_between(
    lhs: Variable,
    relation: Relation,
    rhs: Variable,
    strength: Strength,
    at: Valuation,
)
    ensures
        ConstraintView::between(lhs, relation, rhs, strength).holds(at) == (match relation {
            Relation::LessOrEqual => at(lhs) <= at(rhs),
            Relation::Equal => at(lhs) == at(rhs),
            Relation::GreaterOrEqual => at(lhs) >= at(rhs),
        }),
{
    lemma_value_variable(lhs, at);
    lemma_value_variable(rhs, at);
}

/// What a constraint `lhs relation rhs + constant` asks of an assignment.
pub proof fn lemma_holds_beside(
    lhs: Variable,
    relation: Relation,
    rhs: Variable,
    constant: int,
    strength: Strength,
    at: Valuation,
)
    ensures
        ConstraintView::beside(lhs, relation, rhs, constant, strength).holds(at) == (match relation {
            Relation::LessOrEqual => at(lhs) <= at(rhs) + constant,
            Relation::Equal => at(lhs) == at(rhs) + constant,
            Relation::GreaterOrEqual => at(lhs) >= at(rhs) + constant,
        }),
{
    lemma_value_variable(lhs, at);
    lemma_value_offset(rhs, constant, at);
}

/// What a constraint `high - low == size` asks of an assignment.
pub proof fn lemma_holds_extent(
    high: Variable,
    low: Variable,
    size: int,
    strength: Strength,
    at: Valuation,
)
    ensures
        ConstraintView::extent(high, low, size, strength).holds(at) == (at(high) - at(low)
            == size),
{
    lemma_value_difference(high, low, at);
    lemma_value_constant(size, at);
}

/// An assignment that satisfies a list at some strength satisfies each of
/// its constraints of that strength or a higher one.
pub proof fn lemma_satisfied_member(
    rules: Seq<ConstraintView>,
    least: Strength,
    at: Valuation,
    rule: ConstraintView,
)
    requires
        satisfied(rules, least, at),
        rules.contains(rule),
        rule.strength.rank() >= least.rank(),
    ensures
        rule.holds(at),
{
    let i = choose|i: int| 0 <= i < rules.len() && rules[i] == rule;
    assert(rules[i].holds(at));
}

/// Whether every constraint of `rules` whose strength is `least` or higher
/// holds under the assignment.
pub open spec fn satisfied(rules: Seq<ConstraintView>, least: Strength, at: Valuation) -> bool {
    forall|i: int|
        0 <= i < rules.len() && (#[trigger] rules[i]).strength.rank() >= least.rank()
            ==> rules[i].holds(at)
}

/// A linear relation between two expressions, with a strength.
#[derive(Debug)]
pub struct LinearConstraint {
    pub lhs: LinearExpression,
    pub relation: Relation,
    pub rhs: LinearExpression,
    pub strength: Strength,
}

impl View for LinearConstraint {
    type V = ConstraintView;

    open spec fn view(&self) -> ConstraintView {
        ConstraintView {
            lhs: self.lhs@,
            relation: self.relation,
            rhs: self.rhs@,
            strength: self.strength,
        }
    }
}

impl Clone for LinearConstraint {
    fn clone(&self) -> (r: LinearConstraint)
        ensures
            r@ == self@,
    {
        LinearConstraint {
            lhs: self.lhs.clone(),
            relation: self.relation,
            rhs: self.rhs.clone(),
            strength: self.strength,
        }
    }
}

impl LinearConstraint {
    /// The constraint `lhs relation rhs` at the given strength.
    pub fn new(lhs: LinearExpression, relation: Relation, rhs: LinearExpression, strength: Strength) -> (r:
        LinearConstraint)
        ensures
            r@ == (ConstraintView { lhs: lhs@, relation, rhs: rhs@, strength }),
    {
        LinearConstraint { lhs, relation, rhs, strength }
    }

    /// The constraint `lhs relation rhs` between two variables.
    pub fn between(lhs: Variable, relation: Relation, rhs: Variable, strength: Strength) -> (r:
        LinearConstraint)
        ensures
            r@ == ConstraintView::between(lhs, relation, rhs, strength),
    {
        LinearConstraint {
            lhs: LinearExpression::variable(lhs),
            relation,
            rhs: LinearExpression::variable(rhs),
            strength,
        }
    }

    /// The constraint `lhs relation rhs + constant`.
    pub fn beside(
        lhs: Variable,
        relation: Relation,
        rhs: Variable,
        constant: i32,
        strength: Strength,
    ) -> (r: LinearConstraint)
        ensures
            r@ == ConstraintView::beside(lhs, relation, rhs, constant as int, strength),
    {
        LinearConstraint {
            lhs: LinearExpression::variable(lhs),
            relation,
            rhs: LinearExpression::offset(rhs, constant),
            strength,
        }
    }

    /// The constraint `high - low == size`.
    pub fn extent(high: Variable, low: Variable, size: i32, strength: Strength) -> (r: LinearConstraint)
        ensures
            r@ == ConstraintView::extent(high, low, size as int, strength),
    {
        LinearConstraint {
            lhs: LinearExpression::difference(high, low),
            relation: Relation::Equal,
            rhs: LinearExpression::constant(size),
            strength,
        }
    }

    /// The constraint `high - low == other_high - other_low`.
    pub fn balance(
        high: Variable,
        low: Variable,
        other_high: Variable,
        other_low: Variable,
        strength: Strength,
    ) -> (r: LinearConstraint)
        ensures
            r@ == ConstraintView::balance(high, low, other_high, other_low, strength),
    {
        LinearConstraint {
            lhs: LinearExpression::difference(high, low),
            relation: Relation::Equal,
            rhs: LinearExpression::difference(other_high, other_low),
            strength,
        }
    }

    /// Structural equality: the same two sides, relation and strength.
    pub fn same(&self, other: &LinearConstraint) -> (r: bool)
        ensures
            r == (self@ == other@),
    {
        self.relation == other.relation && self.strength == other.strength && self.lhs.same(
            &other.lhs,
        ) && self.rhs.same(&other.rhs)
    }
}

/// The views of the constraints in a list, in order.
pub open spec fn views(list: Seq<LinearConstraint>) -> Seq<ConstraintView> {
    Seq::new(list.len(), |i: int| list[i]@)
}

/// Whether the list holds a constraint that says the same as `constraint`.
pub fn contains_same(list: &[LinearConstraint], constraint: &LinearConstraint) -> (r: bool)
    ensures
        r == views(list@).contains(constraint@),
{
    let mut i: usize = 0;
    while i < list.len()
        invariant
            i <= list.len(),
            forall|k: int| 0 <= k < i ==> views(list@)[k] != constraint@,
        decreases list.len() - i,
    {
        if list[i].same(constraint) {
            proof {
                assert(views(list@)[i as int] == constraint@);
            }
            return true;
        }
        i += 1;
    }
    false
}

/// The views of a list with one more constraint are the views of the list
/// with one more view.
pub proof fn lemma_views_push(list: Seq<LinearConstraint>, constraint: LinearConstraint)
    ensures
        views(list.push(constraint)) == views(list).push(constraint@),
{
    assert(views(list.push(constraint)) =~= views(list).push(constraint@));
}

} // verus!
