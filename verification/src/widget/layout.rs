//! The layout node of a widget: four edge variables and the constraints
//! that were asked of them.

use cassowary::Variable;
use vstd::prelude::*;

use crate::backend::{new_edges, same_variable, SolverError};
use crate::constraint::{
    contains_same, lemma_holds_balance, lemma_holds_beside, lemma_holds_between,
    lemma_holds_extent, lemma_satisfied_member, lemma_value_offset, lemma_value_variable,
    lemma_views_push, satisfied, views, ConstraintView, ExpressionView, LinearConstraint,
    LinearExpression, Relation, Strength, Valuation,
};
use crate::filtering::{
    inside, lemma_contains_push, lemma_filter_all, lemma_filter_none, outside,
};
use crate::solver::{covers, merged, LimnSolver};
use crate::util::Rectangle;

verus! {

/// The four edge variables of a box.
#[derive(Clone, Copy, Debug)]
pub struct Edges {
    pub left: Variable,
    pub top: Variable,
    pub right: Variable,
    pub bottom: Variable,
}

impl Edges {
    /// Whether the four edges are four different variables.
    pub open spec fn distinct(self) -> bool {
        &&& self.left != self.top
        &&& self.left != self.right
        &&& self.left != self.bottom
        &&& self.top != self.right
        &&& self.top != self.bottom
        &&& self.right != self.bottom
    }

    /// Whether `variable` is one of the four edges.
    pub open spec fn has(self, variable: Variable) -> bool {
        ||| variable == self.left
        ||| variable == self.top
        ||| variable == self.right
        ||| variable == self.bottom
    }

    /// Whether the two boxes share no edge.
    pub open spec fn apart(self, other: Edges) -> bool {
        &&& !other.has(self.left)
        &&& !other.has(self.top)
        &&& !other.has(self.right)
        &&& !other.has(self.bottom)
    }
}

/// The source of edge variables: it hands out the edges of new nodes and
/// keeps every variable that it has handed out, so that no variable is ever
/// handed out twice and no two nodes made from one source share an edge.
#[derive(Debug)]
pub struct Variables {
    issued: Vec<Variable>,
}

impl Variables {
    /// The variables that were handed out.
    pub closed spec fn issued(&self) -> Set<Variable> {
        Set::new(|variable: Variable| self.issued@.contains(variable))
    }

    /// Whether every edge of `edges` was handed out.
    pub open spec fn made(&self, edges: Edges) -> bool {
        &&& self.issued().contains(edges.left)
        &&& self.issued().contains(edges.top)
        &&& self.issued().contains(edges.right)
        &&& self.issued().contains(edges.bottom)
    }

    /// What handing out `edges` does: `after` is the source afterwards. The
    /// four edges differ from each other and from every variable handed
    /// out before, and they are what was handed out since.
    pub open spec fn hands_out(&self, edges: Edges, after: &Variables) -> bool {
        &&& edges.distinct()
        &&& forall|variable: Variable| #[trigger]
            self.issued().contains(variable) ==> !edges.has(variable)
        &&& forall|variable: Variable| #[trigger]
            after.issued().contains(variable) <==> self.issued().contains(variable) || edges.has(
                variable,
            )
    }

    /// A source that has handed out nothing.
    pub fn new() -> (r: Variables)
        ensures
            r.issued() == Set::<Variable>::empty(),
    {
        let r = Variables { issued: Vec::new() };
        proof {
            assert(r.issued() =~= Set::<Variable>::empty());
        }
        r
    }

    /// How many variables were handed out.
    pub fn count(&self) -> (r: usize)
        ensures
            r == 0 <==> self.issued() == Set::<Variable>::empty(),
    {
        proof {
            if self.issued@.len() > 0 {
                assert(self.issued@.contains(self.issued@[0]));
                assert(self.issued().contains(self.issued@[0]));
            } else {
                assert(self.issued() =~= Set::<Variable>::empty());
            }
        }
        self.issued.len()
    }

    /// Whether the variable was handed out by this source.
    pub fn has_issued(&self, variable: Variable) -> (r: bool)
        ensures
            r == self.issued().contains(variable),
    {
        let mut i: usize = 0;
        while i < self.issued.len()
            invariant
                i <= self.issued.len(),
                forall|k: int| 0 <= k < i ==> self.issued@[k] != variable,
            decreases self.issued.len() - i,
        {
            if same_variable(self.issued[i], variable) {
                return true;
            }
            i += 1;
        }
        false
    }

    /// Hands out the four edges of a new node.
    pub fn next_edges(&mut self) -> (r: Edges)
        ensures
            old(self).hands_out(r, final(self)),
    {
        let edges = new_edges(&self.issued);
        let ghost before = self.issued@;
        self.issued.push(edges.left);
        self.issued.push(edges.top);
        self.issued.push(edges.right);
        self.issued.push(edges.bottom);
        proof {
            lemma_contains_push(before, edges.left);
            lemma_contains_push(before.push(edges.left), edges.top);
            lemma_contains_push(before.push(edges.left).push(edges.top), edges.right);
            lemma_contains_push(
                before.push(edges.left).push(edges.top).push(edges.right),
                edges.bottom,
            );
            assert forall|variable: Variable| before.contains(variable) implies !edges.has(
                variable,
            ) by {
                let i = choose|i: int| 0 <= i < before.len() && before[i] == variable;
                assert(!edges.has(before[i]));
            }
        }
        edges
    }
}

/// Two nodes made from one source share no edge: where the edges of the
/// first were handed out before those of the second, the two are apart.
pub proof fn lemma_nodes_apart(
    before: &Variables,
    first: Edges,
    second: Edges,
    after: &Variables,
)
    requires
        before.made(first),
        before.hands_out(second, after),
    ensures
        first.apart(second),
        second.apart(first),
        after.made(first),
        after.made(second),
{
    assert(first.has(second.left) ==> before.issued().contains(second.left));
    assert(first.has(second.top) ==> before.issued().contains(second.top));
    assert(first.has(second.right) ==> before.issued().contains(second.right));
    assert(first.has(second.bottom) ==> before.issued().contains(second.bottom));
    assert(second.has(second.left) && second.has(second.top) && second.has(second.right)
        && second.has(second.bottom));
    assert(after.issued().contains(second.left) <==> before.issued().contains(second.left)
        || second.has(second.left));
    assert(after.issued().contains(second.top) <==> before.issued().contains(second.top)
        || second.has(second.top));
    assert(after.issued().contains(second.right) <==> before.issued().contains(second.right)
        || second.has(second.right));
    assert(after.issued().contains(second.bottom) <==> before.issued().contains(second.bottom)
        || second.has(second.bottom));
    assert(after.issued().contains(first.left) <==> before.issued().contains(first.left)
        || second.has(first.left));
    assert(after.issued().contains(first.top) <==> before.issued().contains(first.top)
        || second.has(first.top));
    assert(after.issued().contains(first.right) <==> before.issued().contains(first.right)
        || second.has(first.right));
    assert(after.issued().contains(first.bottom) <==> before.issued().contains(first.bottom)
        || second.has(first.bottom));
}

/// `own` has the left and right edges of `other`: both required.
pub open spec fn match_width_rules(own: Edges, other: Edges) -> Seq<ConstraintView> {
    seq![
        ConstraintView::between(own.left, Relation::Equal, other.left, Strength::Required),
        ConstraintView::between(own.right, Relation::Equal, other.right, Strength::Required),
    ]
}

/// `own` has the top and bottom edges of `other`: both required.
pub open spec fn match_height_rules(own: Edges, other: Edges) -> Seq<ConstraintView> {
    seq![
        ConstraintView::between(own.top, Relation::Equal, other.top, Strength::Required),
        ConstraintView::between(own.bottom, Relation::Equal, other.bottom, Strength::Required),
    ]
}

/// `own` has all four edges of `other`.
pub open spec fn match_layout_rules(own: Edges, other: Edges) -> Seq<ConstraintView> {
    match_width_rules(own, other) + match_height_rules(own, other)
}

/// `right - left == width` at the given strength.
pub open spec fn width_rules(own: Edges, width: int, strength: Strength) -> Seq<ConstraintView> {
    seq![ConstraintView::extent(own.right, own.left, width, strength)]
}

/// `bottom - top == height` at the given strength.
pub open spec fn height_rules(own: Edges, height: int, strength: Strength) -> Seq<
    ConstraintView,
> {
    seq![ConstraintView::extent(own.bottom, own.top, height, strength)]
}

/// Equal margins on both axes inside `other`, at strength `Strong`:
/// `left - other.left == other.right - right`, and the same from top to
/// bottom.
pub open spec fn center_rules(own: Edges, other: Edges) -> Seq<ConstraintView> {
    seq![
        ConstraintView::balance(own.left, other.left, other.right, own.right, Strength::Strong),
        ConstraintView::balance(own.top, other.top, other.bottom, own.bottom, Strength::Strong),
    ]
}

/// `own` lies inside `other`, at least `padding` away from each of its
/// edges: four required inequalities.
pub open spec fn bound_by_rules(own: Edges, other: Edges, padding: int) -> Seq<ConstraintView> {
    seq![
        ConstraintView::beside(
            own.left,
            Relation::GreaterOrEqual,
            other.left,
            padding,
            Strength::Required,
        ),
        ConstraintView::beside(
            own.top,
            Relation::GreaterOrEqual,
            other.top,
            padding,
            Strength::Required,
        ),
        ConstraintView {
            lhs: ExpressionView::offset(own.right, padding),
            relation: Relation::LessOrEqual,
            rhs: ExpressionView::variable(other.right),
            strength: Strength::Required,
        },
        ConstraintView {
            lhs: ExpressionView::offset(own.bottom, padding),
            relation: Relation::LessOrEqual,
            rhs: ExpressionView::variable(other.bottom),
            strength: Strength::Required,
        },
    ]
}

/// `own` scrolls inside `other`: its left and top edges are required not to
/// pass those of `other`, and its right and bottom edges are asked, at
/// strength `Strong`, to reach those of `other`.
pub open spec fn scroll_inside_rules(own: Edges, other: Edges) -> Seq<ConstraintView> {
    seq![
        ConstraintView::between(own.left, Relation::LessOrEqual, other.left, Strength::Required),
        ConstraintView::between(own.top, Relation::LessOrEqual, other.top, Strength::Required),
        ConstraintView::between(
            own.right,
            Relation::GreaterOrEqual,
            other.right,
            Strength::Strong,
        ),
        ConstraintView::between(
            own.bottom,
            Relation::GreaterOrEqual,
            other.bottom,
            Strength::Strong,
        ),
    ]
}

/// Whether every constraint of `part` is among `rules`.
pub open spec fn includes(rules: Seq<ConstraintView>, part: Seq<ConstraintView>) -> bool {
    forall|i: int| 0 <= i < part.len() ==> rules.contains(#[trigger] part[i])
}

/// A list includes whatever was appended to it.
pub proof fn lemma_includes_appended(rules: Seq<ConstraintView>, part: Seq<ConstraintView>)
    ensures
        includes(rules + part, part),
        includes(rules + part, rules),
{
    let all = rules + part;
    assert forall|i: int| 0 <= i < part.len() implies all.contains(#[trigger] part[i]) by {
        assert(all[rules.len() + i] == part[i]);
    }
    assert forall|i: int| 0 <= i < rules.len() implies all.contains(#[trigger] rules[i]) by {
        assert(all[i] == rules[i]);
    }
}

/// A widget that is bound by another stays inside it: under every
/// assignment that satisfies the required constraints of a list which
/// includes those of `bound_by`, the box of `own` lies within the box of
/// `other`, `padding` away from each edge.
pub proof fn lemma_bound_by_inside(
    rules: Seq<ConstraintView>,
    own: Edges,
    other: Edges,
    padding: int,
    at: Valuation,
)
    requires
        includes(rules, bound_by_rules(own, other, padding)),
        satisfied(rules, Strength::Required, at),
    ensures
        at(own.left) >= at(other.left) + padding,
        at(own.top) >= at(other.top) + padding,
        at(own.right) + padding <= at(other.right),
        at(own.bottom) + padding <= at(other.bottom),
{
    let part = bound_by_rules(own, other, padding);
    lemma_satisfied_member(rules, Strength::Required, at, part[0]);
    lemma_satisfied_member(rules, Strength::Required, at, part[1]);
    lemma_satisfied_member(rules, Strength::Required, at, part[2]);
    lemma_satisfied_member(rules, Strength::Required, at, part[3]);
    lemma_value_variable(own.left, at);
    lemma_value_variable(own.top, at);
    lemma_value_variable(other.right, at);
    lemma_value_variable(other.bottom, at);
    lemma_value_offset(other.left, padding, at);
    lemma_value_offset(other.top, padding, at);
    lemma_value_offset(own.right, padding, at);
    lemma_value_offset(own.bottom, padding, at);
}

/// A widget that matches the width of another is exactly as wide: under
/// every assignment that satisfies the required constraints of a list which
/// includes those of `match_width`, whatever else the list holds.
pub proof fn lemma_match_width_equal(
    rules: Seq<ConstraintView>,
    own: Edges,
    other: Edges,
    at: Valuation,
)
    requires
        includes(rules, match_width_rules(own, other)),
        satisfied(rules, Strength::Required, at),
    ensures
        at(own.left) == at(other.left),
        at(own.right) == at(other.right),
        at(own.right) - at(own.left) == at(other.right) - at(other.left),
{
    let part = match_width_rules(own, other);
    lemma_satisfied_member(rules, Strength::Required, at, part[0]);
    lemma_satisfied_member(rules, Strength::Required, at, part[1]);
    lemma_holds_between(own.left, Relation::Equal, other.left, Strength::Required, at);
    lemma_holds_between(own.right, Relation::Equal, other.right, Strength::Required, at);
}

/// The same for the height.
pub proof fn lemma_match_height_equal(
    rules: Seq<ConstraintView>,
    own: Edges,
    other: Edges,
    at: Valuation,
)
    requires
        includes(rules, match_height_rules(own, other)),
        satisfied(rules, Strength::Required, at),
    ensures
        at(own.top) == at(other.top),
        at(own.bottom) == at(other.bottom),
        at(own.bottom) - at(own.top) == at(other.bottom) - at(other.top),
{
    let part = match_height_rules(own, other);
    lemma_satisfied_member(rules, Strength::Required, at, part[0]);
    lemma_satisfied_member(rules, Strength::Required, at, part[1]);
    lemma_holds_between(own.top, Relation::Equal, other.top, Strength::Required, at);
    lemma_holds_between(own.bottom, Relation::Equal, other.bottom, Strength::Required, at);
}

/// A widget that matches the layout of another has exactly its box, under
/// every assignment that satisfies the required constraints of a list which
/// includes those of `match_layout`.
pub proof fn lemma_match_layout_equal(
    rules: Seq<ConstraintView>,
    own: Edges,
    other: Edges,
    at: Valuation,
)
    requires
        includes(rules, match_layout_rules(own, other)),
        satisfied(rules, Strength::Required, at),
    ensures
        at(own.left) == at(other.left),
        at(own.top) == at(other.top),
        at(own.right) == at(other.right),
        at(own.bottom) == at(other.bottom),
{
    let part = match_layout_rules(own, other);
    assert(part[0] == match_width_rules(own, other)[0]);
    assert(part[1] == match_width_rules(own, other)[1]);
    assert(part[2] == match_height_rules(own, other)[0]);
    assert(part[3] == match_height_rules(own, other)[1]);
    lemma_match_width_equal(rules, own, other, at);
    lemma_match_height_equal(rules, own, other, at);
}

/// Content that scrolls inside another widget never begins after it: under
/// every assignment that satisfies the required constraints of a list which
/// includes those of `scroll_inside`, the left and top edges of `own` are at
/// or before those of `other`. Under an assignment that satisfies the list
/// at strength `Strong` as well, `own` covers `other` altogether.
pub proof fn lemma_scroll_inside_covers(
    rules: Seq<ConstraintView>,
    own: Edges,
    other: Edges,
    at: Valuation,
)
    requires
        includes(rules, scroll_inside_rules(own, other)),
        satisfied(rules, Strength::Required, at),
    ensures
        at(own.left) <= at(other.left),
        at(own.top) <= at(other.top),
        satisfied(rules, Strength::Strong, at) ==> at(own.right) >= at(other.right) && at(
            own.bottom,
        ) >= at(other.bottom),
{
    let part = scroll_inside_rules(own, other);
    lemma_satisfied_member(rules, Strength::Required, at, part[0]);
    lemma_satisfied_member(rules, Strength::Required, at, part[1]);
    lemma_holds_between(own.left, Relation::LessOrEqual, other.left, Strength::Required, at);
    lemma_holds_between(own.top, Relation::LessOrEqual, other.top, Strength::Required, at);
    if satisfied(rules, Strength::Strong, at) {
        lemma_satisfied_member(rules, Strength::Strong, at, part[2]);
        lemma_satisfied_member(rules, Strength::Strong, at, part[3]);
        lemma_holds_between(
            own.right,
            Relation::GreaterOrEqual,
            other.right,
            Strength::Strong,
            at,
        );
        lemma_holds_between(
            own.bottom,
            Relation::GreaterOrEqual,
            other.bottom,
            Strength::Strong,
            at,
        );
    }
}

/// A widget whose required width and height are not negative has its right
/// edge at or after its left edge and its bottom edge at or below its top
/// edge, under every assignment that satisfies the required constraints of a
/// list which includes those of the two sizes.
pub proof fn lemma_fixed_size_keeps_order(
    rules: Seq<ConstraintView>,
    own: Edges,
    width: int,
    height: int,
    at: Valuation,
)
    requires
        width >= 0,
        height >= 0,
        includes(rules, width_rules(own, width, Strength::Required)),
        includes(rules, height_rules(own, height, Strength::Required)),
        satisfied(rules, Strength::Required, at),
    ensures
        at(own.right) == at(own.left) + width,
        at(own.bottom) == at(own.top) + height,
        at(own.right) >= at(own.left),
        at(own.bottom) >= at(own.top),
{
    let wide = width_rules(own, width, Strength::Required);
    let high = height_rules(own, height, Strength::Required);
    lemma_satisfied_member(rules, Strength::Required, at, wide[0]);
    lemma_satisfied_member(rules, Strength::Required, at, high[0]);
    lemma_holds_extent(own.right, own.left, width, Strength::Required, at);
    lemma_holds_extent(own.bottom, own.top, height, Strength::Required, at);
}

/// A widget of fixed size that is centred in another has equal margins:
/// under every assignment that satisfies, at strength `Strong` and above, a
/// list which includes the constraints of `center` and of a required width,
/// twice the left edge is the sum of the other's two edges less the width.
/// The same holds from top to bottom.
pub proof fn lemma_center_margins(
    rules: Seq<ConstraintView>,
    own: Edges,
    other: Edges,
    width: int,
    height: int,
    at: Valuation,
)
    requires
        includes(rules, center_rules(own, other)),
        includes(rules, width_rules(own, width, Strength::Required)),
        includes(rules, height_rules(own, height, Strength::Required)),
        satisfied(rules, Strength::Strong, at),
    ensures
        2 * at(own.left) == at(other.left) + at(other.right) - width,
        at(own.right) == at(own.left) + width,
        2 * at(own.top) == at(other.top) + at(other.bottom) - height,
        at(own.bottom) == at(own.top) + height,
{
    let middle = center_rules(own, other);
    let wide = width_rules(own, width, Strength::Required);
    let high = height_rules(own, height, Strength::Required);
    lemma_satisfied_member(rules, Strength::Strong, at, middle[0]);
    lemma_satisfied_member(rules, Strength::Strong, at, middle[1]);
    lemma_satisfied_member(rules, Strength::Strong, at, wide[0]);
    lemma_satisfied_member(rules, Strength::Strong, at, high[0]);
    lemma_holds_balance(own.left, other.left, other.right, own.right, Strength::Strong, at);
    lemma_holds_balance(own.top, other.top, other.bottom, own.bottom, Strength::Strong, at);
    lemma_holds_extent(own.right, own.left, width, Strength::Required, at);
    lemma_holds_extent(own.bottom, own.top, height, Strength::Required, at);
}

/// The layout node of one widget.
#[derive(Debug)]
pub struct WidgetLayout {
    pub left: Variable,
    pub top: Variable,
    pub right: Variable,
    pub bottom: Variable,
    /// A note for the widget's owner that the widget is meant to scroll.
    /// Whether scroll input moves it is decided by the solver's edit
    /// variables, not by this flag.
    pub scrollable: bool,
    pub constraints: Vec<LinearConstraint>,
}

impl WidgetLayout {
    /// The four edge variables.
    pub open spec fn edges(&self) -> Edges {
        Edges { left: self.left, top: self.top, right: self.right, bottom: self.bottom }
    }

    /// What the node's constraints say, in order.
    pub open spec fn rules(&self) -> Seq<ConstraintView> {
        views(self.constraints@)
    }

    /// Whether `after` is this node with `added` appended to its constraints
    /// and nothing else changed.
    pub open spec fn extended_by(&self, added: Seq<ConstraintView>, after: &WidgetLayout) -> bool {
        &&& after.rules() == self.rules() + added
        &&& after.edges() == self.edges()
        &&& after.scrollable == self.scrollable
    }

    /// Whether `after` is this node without the constraints that say the
    /// same as one of `targets`, with nothing else changed, and `retracted`
    /// is what the constraints that left say, in their order.
    pub open spec fn reduced_by(
        &self,
        targets: Seq<ConstraintView>,
        after: &WidgetLayout,
        retracted: Seq<ConstraintView>,
    ) -> bool {
        &&& after.rules() == self.rules().filter(outside(targets))
        &&& retracted == self.rules().filter(inside(targets))
        &&& after.edges() == self.edges()
        &&& after.scrollable == self.scrollable
    }

    /// A node with the given edges, not scrollable, without constraints.
    pub fn with_edges(edges: Edges) -> (r: WidgetLayout)
        ensures
            r.edges() == edges,
            r.rules() == Seq::<ConstraintView>::empty(),
            !r.scrollable,
    {
        let r = WidgetLayout {
            left: edges.left,
            top: edges.top,
            right: edges.right,
            bottom: edges.bottom,
            scrollable: false,
            constraints: Vec::new(),
        };
        proof {
            assert(r.rules() =~= Seq::<ConstraintView>::empty());
        }
        r
    }

    /// A node with four new edge variables from `variables`, not
    /// scrollable, without constraints. The edges differ from each other
    /// and from every variable that the source has handed out, so from the
    /// edges of every node made from it before; the source keeps them, so
    /// that no later node gets them.
    pub fn new(variables: &mut Variables) -> (r: WidgetLayout)
        ensures
            old(variables).hands_out(r.edges(), final(variables)),
            r.rules() == Seq::<ConstraintView>::empty(),
            !r.scrollable,
    {
        WidgetLayout::with_edges(variables.next_edges())
    }

    /// The four edge variables.
    pub fn get_edges(&self) -> (r: Edges)
        ensures
            r == self.edges(),
    {
        Edges { left: self.left, top: self.top, right: self.right, bottom: self.bottom }
    }

    /// The box that the solver gives the widget: the solved left and top
    /// edges, and as width and height the distance to the solved right and
    /// bottom edges. Before the solver has solved for these variables, all
    /// four are 0.
    pub fn bounds(&self, solver: &LimnSolver) -> (r: Rectangle)
        ensures
            r.left == solver.value(self.left),
            r.top == solver.value(self.top),
            r.width == solver.value(self.right) - solver.value(self.left),
            r.height == solver.value(self.bottom) - solver.value(self.top),
            i32::MIN <= r.left <= i32::MAX,
            i32::MIN <= r.top <= i32::MAX,
            -(u32::MAX as int) <= r.width <= u32::MAX,
            -(u32::MAX as int) <= r.height <= u32::MAX,
    {
        let left: i64 = solver.get_value(self.left) as i64;
        let top: i64 = solver.get_value(self.top) as i64;
        let right: i64 = solver.get_value(self.right) as i64;
        let bottom: i64 = solver.get_value(self.bottom) as i64;
        Rectangle { left, top, width: right - left, height: bottom - top }
    }

    /// What `update_solver` does: `after` is the solver `before` afterwards
    /// and `r` the result.
    ///
    /// Edit variables and suggested values stay. On success the solver
    /// holds what it held, followed by the constraints of the node that it
    /// did not hold, each once and in order. On an error it holds that for
    /// the constraints before the refused one, and the failure is noted.
    /// Where it held every constraint of the node already, the call
    /// succeeds and the solver is as it was.
    pub open spec fn installs(
        &self,
        before: &LimnSolver,
        after: &LimnSolver,
        r: Result<(), SolverError>,
    ) -> bool {
        &&& after.edits() == before.edits()
        &&& after.failed() == (before.failed() || r is Err)
        &&& forall|v: Variable| #[trigger] after.suggested(v) == before.suggested(v)
        &&& covers(before.constraints(), self.rules()) ==> r is Ok && *after == *before
        &&& r is Ok ==> after.constraints() == merged(before.constraints(), self.rules())
        &&& r is Err ==> exists|k: int|
            0 <= k < self.rules().len() && after.constraints() == merged(
                before.constraints(),
                self.rules().take(k),
            ) && !after.constraints().contains(#[trigger] self.rules()[k])
    }

    /// Installs in the solver, in order, every constraint of the node that
    /// the solver does not hold yet; one that it holds is passed over. The
    /// first constraint that the solver refuses ends the call with the
    /// solver's error, and those before it stay installed.
    pub fn update_solver(&self, solver: &mut LimnSolver) -> (r: Result<(), SolverError>)
        requires
            old(solver).wf(),
        ensures
            final(solver).wf(),
            self.installs(old(solver), final(solver), r),
    {
        let ghost rules = self.rules();
        let ghost base = solver.constraints();
        let mut i: usize = 0;
        proof {
            assert(rules.take(0) =~= Seq::<ConstraintView>::empty());
        }
        while i < self.constraints.len()
            invariant
                i <= self.constraints.len(),
                rules == self.rules(),
                rules.len() == self.constraints.len(),
                base == old(solver).constraints(),
                solver.wf(),
                solver.edits() == old(solver).edits(),
                solver.failed() == old(solver).failed(),
                forall|v: Variable| #[trigger] solver.suggested(v) == old(solver).suggested(v),
                solver.constraints() == merged(base, rules.take(i as int)),
                (forall|k: int| 0 <= k < i ==> base.contains(#[trigger] rules[k])) ==> *solver
                    == *old(solver),
            decreases self.constraints.len() - i,
        {
            let ghost before = solver.constraints();
            proof {
                assert(rules.take(i + 1).drop_last() =~= rules.take(i as int));
                assert(rules.take(i + 1).last() == rules[i as int]);
                assert(rules[i as int] == self.constraints@[i as int]@);
            }
            match solver.add_constraint(&self.constraints[i]) {
                Ok(()) => {},
                Err(e) => {
                    proof {
                        if covers(base, rules) {
                            assert(base.contains(rules[i as int]));
                            assert forall|k: int| 0 <= k < i implies base.contains(
                                #[trigger] rules[k],
                            ) by {}
                        }
                    }
                    return Err(e);
                },
            }
            i += 1;
        }
        proof {
            assert(rules.take(i as int) =~= rules);
        }
        Ok(())
    }

    /// Appends one constraint.
    pub fn add_constraint(&mut self, constraint: LinearConstraint)
        ensures
            old(self).extended_by(seq![constraint@], final(self)),
    {
        proof {
            lemma_views_push(self.constraints@, constraint);
            assert(self.rules().push(constraint@) =~= self.rules() + seq![constraint@]);
        }
        self.constraints.push(constraint);
    }

    /// Appends the constraints of a list, in order.
    pub fn add_constraints(&mut self, constraints: &[LinearConstraint])
        ensures
            old(self).extended_by(views(constraints@), final(self)),
    {
        let mut i: usize = 0;
        proof {
            assert(views(constraints@.take(0)) =~= Seq::<ConstraintView>::empty());
            assert(self.rules() + Seq::<ConstraintView>::empty() =~= self.rules());
        }
        while i < constraints.len()
            invariant
                i <= constraints.len(),
                old(self).extended_by(views(constraints@.take(i as int)), self),
            decreases constraints.len() - i,
        {
            let constraint = constraints[i].clone();
            proof {
                lemma_views_push(self.constraints@, constraint);
                assert(views(constraints@.take(i + 1)) =~= views(constraints@.take(i as int)).push(
                    constraint@,
                ));
                assert((old(self).rules() + views(constraints@.take(i as int))).push(constraint@)
                    =~= old(self).rules() + views(constraints@.take(i + 1)));
            }
            self.constraints.push(constraint);
            i += 1;
        }
        proof {
            assert(constraints@.take(i as int) =~= constraints@);
        }
    }

    /// Asks for the width and the height of `layout`.
    pub fn match_layout(&mut self, layout: &WidgetLayout)
        ensures
            old(self).extended_by(
                match_layout_rules(old(self).edges(), layout.edges()),
                final(self),
            ),
    {
        let ghost start = self.rules();
        self.match_width(layout);
        self.match_height(layout);
        proof {
            assert((start + match_width_rules(old(self).edges(), layout.edges()))
                + match_height_rules(old(self).edges(), layout.edges()) =~= start
                + match_layout_rules(old(self).edges(), layout.edges()));
        }
    }

    /// Requires the left and right edges to be those of `layout`.
    pub fn match_width(&mut self, layout: &WidgetLayout)
        ensures
            old(self).extended_by(
                match_width_rules(old(self).edges(), layout.edges()),
                final(self),
            ),
    {
        let ghost start = self.rules();
        self.add_constraint(
            LinearConstraint::between(self.left, Relation::Equal, layout.left, Strength::Required),
        );
        self.add_constraint(
            LinearConstraint::between(
                self.right,
                Relation::Equal,
                layout.right,
                Strength::Required,
            ),
        );
        proof {
            let added = match_width_rules(old(self).edges(), layout.edges());
            assert((start + seq![added[0]]) + seq![added[1]] =~= start + added);
        }
    }

    /// Requires the top and bottom edges to be those of `layout`.
    pub fn match_height(&mut self, layout: &WidgetLayout)
        ensures
            old(self).extended_by(
                match_height_rules(old(self).edges(), layout.edges()),
                final(self),
            ),
    {
        let ghost start = self.rules();
        self.add_constraint(
            LinearConstraint::between(self.top, Relation::Equal, layout.top, Strength::Required),
        );
        self.add_constraint(
            LinearConstraint::between(
                self.bottom,
                Relation::Equal,
                layout.bottom,
                Strength::Required,
            ),
        );
        proof {
            let added = match_height_rules(old(self).edges(), layout.edges());
            assert((start + seq![added[0]]) + seq![added[1]] =~= start + added);
        }
    }

    /// Requires the width `width`.
    pub fn width(&mut self, width: i32)
        ensures
            old(self).extended_by(
                width_rules(old(self).edges(), width as int, Strength::Required),
                final(self),
            ),
    {
        self.width_strength(width, Strength::Required);
    }

    /// Requires the height `height`.
    pub fn height(&mut self, height: i32)
        ensures
            old(self).extended_by(
                height_rules(old(self).edges(), height as int, Strength::Required),
                final(self),
            ),
    {
        self.height_strength(height, Strength::Required);
    }

    /// Asks for the width `width` at the given strength.
    pub fn width_strength(&mut self, width: i32, strength: Strength)
        ensures
            old(self).extended_by(
                width_rules(old(self).edges(), width as int, strength),
                final(self),
            ),
    {
        self.add_constraint(LinearConstraint::extent(self.right, self.left, width, strength));
    }

    /// Asks for the height `height` at the given strength.
    pub fn height_strength(&mut self, height: i32, strength: Strength)
        ensures
            old(self).extended_by(
                height_rules(old(self).edges(), height as int, strength),
                final(self),
            ),
    {
        self.add_constraint(LinearConstraint::extent(self.bottom, self.top, height, strength));
    }

    /// Asks, at strength `Strong`, for equal margins inside `layout` on both
    /// axes.
    pub fn center(&mut self, layout: &WidgetLayout)
        ensures
            old(self).extended_by(center_rules(old(self).edges(), layout.edges()), final(self)),
    {
        let ghost start = self.rules();
        self.add_constraint(
            LinearConstraint::balance(
                self.left,
                layout.left,
                layout.right,
                self.right,
                Strength::Strong,
            ),
        );
        self.add_constraint(
            LinearConstraint::balance(
                self.top,
                layout.top,
                layout.bottom,
                self.bottom,
                Strength::Strong,
            ),
        );
        proof {
            let added = center_rules(old(self).edges(), layout.edges());
            assert((start + seq![added[0]]) + seq![added[1]] =~= start + added);
        }
    }

    /// Requires the box to lie inside the box of `layout`.
    pub fn bound_by(&mut self, layout: &WidgetLayout)
        ensures
            old(self).extended_by(bound_by_rules(old(self).edges(), layout.edges(), 0), final(self)),
    {
        self.bound_by_padding(layout, 0);
    }

    /// Requires the box to lie inside the box of `layout`, `padding` away
    /// from each of its edges.
    pub fn bound_by_padding(&mut self, layout: &WidgetLayout, padding: i32)
        ensures
            old(self).extended_by(
                bound_by_rules(old(self).edges(), layout.edges(), padding as int),
                final(self),
            ),
    {
        let ghost start = self.rules();
        self.add_constraint(
            LinearConstraint::beside(
                self.left,
                Relation::GreaterOrEqual,
                layout.left,
                padding,
                Strength::Required,
            ),
        );
        self.add_constraint(
            LinearConstraint::beside(
                self.top,
                Relation::GreaterOrEqual,
                layout.top,
                padding,
                Strength::Required,
            ),
        );
        self.add_constraint(
            LinearConstraint::new(
                LinearExpression::offset(self.right, padding),
                Relation::LessOrEqual,
                LinearExpression::variable(layout.right),
                Strength::Required,
            ),
        );
        self.add_constraint(
            LinearConstraint::new(
                LinearExpression::offset(self.bottom, padding),
                Relation::LessOrEqual,
                LinearExpression::variable(layout.bottom),
                Strength::Required,
            ),
        );
        proof {
            let added = bound_by_rules(old(self).edges(), layout.edges(), padding as int);
            assert((((start + seq![added[0]]) + seq![added[1]]) + seq![added[2]]) + seq![added[3]]
                =~= start + added);
        }
    }

    /// Takes out of the node every constraint that says the same as one of
    /// `targets`, and hands back those that were taken out, in their order.
    pub fn remove_constraints(&mut self, targets: &[LinearConstraint]) -> (removed: Vec<
        LinearConstraint,
    >)
        ensures
            old(self).reduced_by(views(targets@), final(self), views(removed@)),
    {
        let ghost rules = self.rules();
        let ghost keep = outside(views(targets@));
        let ghost drop = inside(views(targets@));
        let mut kept: Vec<LinearConstraint> = Vec::new();
        let mut removed: Vec<LinearConstraint> = Vec::new();
        let mut i: usize = 0;
        proof {
            reveal(Seq::filter);
            assert(rules.take(0) =~= Seq::<ConstraintView>::empty());
            assert(views(kept@) =~= Seq::<ConstraintView>::empty());
            assert(views(removed@) =~= Seq::<ConstraintView>::empty());
        }
        while i < self.constraints.len()
            invariant
                i <= self.constraints.len(),
                *self == *old(self),
                rules == self.rules(),
                keep == outside(views(targets@)),
                drop == inside(views(targets@)),
                views(kept@) == rules.take(i as int).filter(keep),
                views(removed@) == rules.take(i as int).filter(drop),
            decreases self.constraints.len() - i,
        {
            let constraint = self.constraints[i].clone();
            proof {
                assert(rules.take(i + 1) =~= rules.take(i as int).push(constraint@));
                rules.take(i as int).lemma_filter_push(constraint@, keep);
                rules.take(i as int).lemma_filter_push(constraint@, drop);
                lemma_views_push(kept@, constraint);
                lemma_views_push(removed@, constraint);
            }
            if contains_same(targets, &constraint) {
                removed.push(constraint);
            } else {
                kept.push(constraint);
            }
            i += 1;
        }
        proof {
            assert(rules.take(i as int) =~= rules);
        }
        self.constraints = kept;
        removed
    }

    /// Lets the box scroll inside the box of `layout`: the left and top
    /// edges are required not to pass those of `layout`; the right and
    /// bottom edges are asked, at strength `Strong`, to reach those of
    /// `layout`, which they cannot where the content is the smaller one.
    pub fn scroll_inside(&mut self, layout: &WidgetLayout)
        ensures
            old(self).extended_by(
                scroll_inside_rules(old(self).edges(), layout.edges()),
                final(self),
            ),
    {
        let ghost start = self.rules();
        self.add_constraint(
            LinearConstraint::between(
                self.left,
                Relation::LessOrEqual,
                layout.left,
                Strength::Required,
            ),
        );
        self.add_constraint(
            LinearConstraint::between(
                self.top,
                Relation::LessOrEqual,
                layout.top,
                Strength::Required,
            ),
        );
        self.add_constraint(
            LinearConstraint::between(
                self.right,
                Relation::GreaterOrEqual,
                layout.right,
                Strength::Strong,
            ),
        );
        self.add_constraint(
            LinearConstraint::between(
                self.bottom,
                Relation::GreaterOrEqual,
                layout.bottom,
                Strength::Strong,
            ),
        );
        proof {
            let added = scroll_inside_rules(old(self).edges(), layout.edges());
            assert((((start + seq![added[0]]) + seq![added[1]]) + seq![added[2]]) + seq![added[3]]
                =~= start + added);
        }
    }
}

/// A node that was extended begins with the constraints that it had.
pub proof fn lemma_extended_is_prefix(
    widget: &WidgetLayout,
    added: Seq<ConstraintView>,
    child: &WidgetLayout,
)
    requires
        widget.extended_by(added, child),
    ensures
        widget.rules().is_prefix_of(child.rules()),
{
    assert(child.rules().subrange(0, widget.rules().len() as int) =~= widget.rules());
}

/// Taking nothing out of a node leaves the node as it is.
pub proof fn lemma_reduced_by_nothing(widget: &WidgetLayout)
    ensures
        widget.reduced_by(
            Seq::<ConstraintView>::empty(),
            widget,
            Seq::<ConstraintView>::empty(),
        ),
{
    let nothing = Seq::<ConstraintView>::empty();
    let rules = widget.rules();
    assert forall|i: int| 0 <= i < rules.len() implies outside(nothing)(#[trigger] rules[i]) by {}
    assert forall|i: int| 0 <= i < rules.len() implies !inside(nothing)(#[trigger] rules[i]) by {}
    lemma_filter_all(rules, outside(nothing));
    lemma_filter_none(rules, inside(nothing));
}

/// Where some note of a list is for a leading edge, one of them is the
/// first.
pub proof fn lemma_first_link_exists(list: &LinearLayout, leading: Variable, j: int)
    requires
        0 <= j < list.links@.len(),
        list.links@[j].leading == leading,
    ensures
        exists|k: int| list.first_link(leading, k),
    decreases j,
{
    if exists|i: int| 0 <= i < j && (#[trigger] list.links@[i]).leading == leading {
        let i = choose|i: int| 0 <= i < j && (#[trigger] list.links@[i]).leading == leading;
        lemma_first_link_exists(list, leading, i);
    } else {
        assert(list.first_link(leading, j));
    }
}

/// The axis along which a linear list places its children.
#[derive(Clone, Copy, Debug, PartialEq, Eq, Structural)]
pub enum Orientation {
    Horizontal,
    Vertical,
}

impl Orientation {
    /// The edge at which a box begins along this axis: left or top.
    pub open spec fn leading(self, edges: Edges) -> Variable {
        match self {
            Orientation::Horizontal => edges.left,
            Orientation::Vertical => edges.top,
        }
    }

    /// The edge at which a box ends along this axis: right or bottom.
    pub open spec fn trailing(self, edges: Edges) -> Variable {
        match self {
            Orientation::Horizontal => edges.right,
            Orientation::Vertical => edges.bottom,
        }
    }

    /// The edge at which a box begins along this axis: left or top.
    pub fn leading_edge(self, edges: Edges) -> (r: Variable)
        ensures
            r == self.leading(edges),
    {
        match self {
            Orientation::Horizontal => edges.left,
            Orientation::Vertical => edges.top,
        }
    }

    /// The edge at which a box ends along this axis: right or bottom.
    pub fn trailing_edge(self, edges: Edges) -> (r: Variable)
        ensures
            r == self.trailing(edges),
    {
        match self {
            Orientation::Horizontal => edges.right,
            Orientation::Vertical => edges.bottom,
        }
    }
}

/// What a linear list asks of a child that comes after the edge `previous`:
/// at strength `Strong`, that the child begin at or after `previous` plus the
/// padding; and, in a list that expands its children, that the child have
/// the parent's two edges across the axis, which is required.
pub open spec fn linear_rules(
    orientation: Orientation,
    parent: Edges,
    padding: int,
    expand: bool,
    previous: Variable,
    child: Edges,
) -> Seq<ConstraintView> {
    seq![
        ConstraintView::beside(
            orientation.leading(child),
            Relation::GreaterOrEqual,
            previous,
            padding,
            Strength::Strong,
        ),
    ] + (if !expand {
        Seq::<ConstraintView>::empty()
    } else {
        match orientation {
            Orientation::Horizontal => match_height_rules(child, parent),
            Orientation::Vertical => match_width_rules(child, parent),
        }
    })
}

/// The constraints of `linear_rules`, as a list.
pub fn linear_constraints(
    orientation: Orientation,
    parent: Edges,
    padding: i32,
    expand: bool,
    previous: Variable,
    child: Edges,
) -> (r: Vec<LinearConstraint>)
    ensures
        views(r@) == linear_rules(orientation, parent, padding as int, expand, previous, child),
{
    let mut list: Vec<LinearConstraint> = Vec::new();
    list.push(
        LinearConstraint::beside(
            orientation.leading_edge(child),
            Relation::GreaterOrEqual,
            previous,
            padding,
            Strength::Strong,
        ),
    );
    if expand {
        match orientation {
            Orientation::Horizontal => {
                list.push(
                    LinearConstraint::between(
                        child.top,
                        Relation::Equal,
                        parent.top,
                        Strength::Required,
                    ),
                );
                list.push(
                    LinearConstraint::between(
                        child.bottom,
                        Relation::Equal,
                        parent.bottom,
                        Strength::Required,
                    ),
                );
            },
            Orientation::Vertical => {
                list.push(
                    LinearConstraint::between(
                        child.left,
                        Relation::Equal,
                        parent.left,
                        Strength::Required,
                    ),
                );
                list.push(
                    LinearConstraint::between(
                        child.right,
                        Relation::Equal,
                        parent.right,
                        Strength::Required,
                    ),
                );
            },
        }
    }
    proof {
        assert(views(list@) =~= linear_rules(
            orientation,
            parent,
            padding as int,
            expand,
            previous,
            child,
        ));
    }
    list
}

/// The edge at which a linear list ends after `children` were added to it
/// in order: its `start` while it is empty, then the end of the last child.
pub open spec fn linear_end(orientation: Orientation, start: Variable, children: Seq<Edges>)
    -> Variable {
    if children.len() == 0 {
        start
    } else {
        orientation.trailing(children.last())
    }
}

/// What a linear list that began at `start` asks of the `i`-th of the
/// children that were added to it in order.
pub open spec fn linear_asks(
    orientation: Orientation,
    parent: Edges,
    padding: int,
    expand: bool,
    start: Variable,
    children: Seq<Edges>,
    i: int,
) -> Seq<ConstraintView> {
    linear_rules(
        orientation,
        parent,
        padding,
        expand,
        linear_end(orientation, start, children.take(i)),
        children[i],
    )
}

/// The children of a linear list follow each other: under every assignment
/// that satisfies, at strength `Strong` and above, a list which includes
/// what the linear list asks of child `i + 1`, that child begins at or
/// after the end of child `i` plus the padding.
pub proof fn lemma_linear_ordering(
    orientation: Orientation,
    parent: Edges,
    padding: int,
    expand: bool,
    start: Variable,
    children: Seq<Edges>,
    i: int,
    rules: Seq<ConstraintView>,
    at: Valuation,
)
    requires
        0 <= i,
        i + 1 < children.len(),
        includes(
            rules,
            linear_asks(orientation, parent, padding, expand, start, children, i + 1),
        ),
        satisfied(rules, Strength::Strong, at),
    ensures
        at(orientation.leading(children[i + 1])) >= at(orientation.trailing(children[i]))
            + padding,
{
    let asked = linear_asks(orientation, parent, padding, expand, start, children, i + 1);
    let previous = orientation.trailing(children[i]);
    assert(children.take(i + 1).last() == children[i]);
    assert(asked[0] == ConstraintView::beside(
        orientation.leading(children[i + 1]),
        Relation::GreaterOrEqual,
        previous,
        padding,
        Strength::Strong,
    ));
    lemma_satisfied_member(rules, Strength::Strong, at, asked[0]);
    lemma_holds_beside(
        orientation.leading(children[i + 1]),
        Relation::GreaterOrEqual,
        previous,
        padding,
        Strength::Strong,
        at,
    );
}

/// One more child changes nothing in what a linear list asks of the
/// children that it has.
pub proof fn lemma_linear_stable(
    orientation: Orientation,
    parent: Edges,
    padding: int,
    expand: bool,
    start: Variable,
    children: Seq<Edges>,
    more: Edges,
    i: int,
)
    requires
        0 <= i < children.len(),
    ensures
        linear_asks(orientation, parent, padding, expand, start, children.push(more), i)
            == linear_asks(orientation, parent, padding, expand, start, children, i),
{
    assert(children.push(more).take(i) =~= children.take(i));
}

/// What a linear list asks of a new child can be met by the new child
/// alone: every assignment can be changed on the edges of the child, and
/// nowhere else, so that all that the list asks of the child holds. So a new
/// child by itself gives no other widget a reason to move. The edges of the
/// child are four variables of its own, as those of a node made from the
/// source of the others are.
pub proof fn lemma_linear_child_fits(
    orientation: Orientation,
    parent: Edges,
    padding: int,
    expand: bool,
    previous: Variable,
    child: Edges,
    at: Valuation,
) -> (moved: Valuation)
    requires
        child.distinct(),
        !child.has(previous),
        parent.apart(child),
    ensures
        forall|v: Variable| !child.has(v) ==> #[trigger] moved(v) == at(v),
        satisfied(
            linear_rules(orientation, parent, padding, expand, previous, child),
            Strength::Weak,
            moved,
        ),
{
    let moved: Valuation = |v: Variable|
        if v == orientation.leading(child) {
            at(previous) + padding
        } else if expand && orientation == Orientation::Horizontal && v == child.top {
            at(parent.top)
        } else if expand && orientation == Orientation::Horizontal && v == child.bottom {
            at(parent.bottom)
        } else if expand && orientation == Orientation::Vertical && v == child.left {
            at(parent.left)
        } else if expand && orientation == Orientation::Vertical && v == child.right {
            at(parent.right)
        } else {
            at(v)
        };
    let asked = linear_rules(orientation, parent, padding, expand, previous, child);
    lemma_holds_beside(
        orientation.leading(child),
        Relation::GreaterOrEqual,
        previous,
        padding,
        Strength::Strong,
        moved,
    );
    lemma_holds_between(child.top, Relation::Equal, parent.top, Strength::Required, moved);
    lemma_holds_between(child.bottom, Relation::Equal, parent.bottom, Strength::Required, moved);
    lemma_holds_between(child.left, Relation::Equal, parent.left, Strength::Required, moved);
    lemma_holds_between(child.right, Relation::Equal, parent.right, Strength::Required, moved);
    assert(!child.has(parent.left) && !child.has(parent.top) && !child.has(parent.right)
        && !child.has(parent.bottom));
    assert forall|i: int| 0 <= i < asked.len() implies (#[trigger] asked[i]).holds(moved) by {
        if i == 0 {
        } else if orientation == Orientation::Horizontal {
            assert(asked[i] == match_height_rules(child, parent)[i - 1]);
        } else {
            assert(asked[i] == match_width_rules(child, parent)[i - 1]);
        }
    }
    moved
}

/// The note that a linear list keeps of a child: the child's leading edge,
/// by which the child is found again, and the edge that it was placed
/// after.
#[derive(Clone, Copy, Debug)]
pub struct Link {
    pub leading: Variable,
    pub previous: Variable,
}

/// A container that places its children one after the other along an axis.
#[derive(Debug)]
pub struct LinearLayout {
    pub orientation: Orientation,
    /// The edge after which the next child is placed.
    pub end: Variable,
    /// The edges of the widget that holds the list.
    pub parent: Edges,
    /// The least distance between two children.
    pub padding: i32,
    /// Whether each child takes the parent's edges across the axis.
    pub expand: bool,
    /// One note for each child that was added and not removed, in order.
    pub links: Vec<Link>,
}

impl LinearLayout {
    /// What the list asks of a child that is added now.
    pub open spec fn child_rules(&self, child: Edges) -> Seq<ConstraintView> {
        linear_rules(
            self.orientation,
            self.parent,
            self.padding as int,
            self.expand,
            self.end,
            child,
        )
    }

    /// What the list asked of the child `child` of its `k`-th note.
    pub open spec fn linked_rules(&self, k: int, child: Edges) -> Seq<ConstraintView> {
        linear_rules(
            self.orientation,
            self.parent,
            self.padding as int,
            self.expand,
            self.links@[k].previous,
            child,
        )
    }

    /// Whether the `k`-th note is the first one for the leading edge
    /// `leading`.
    pub open spec fn first_link(&self, leading: Variable, k: int) -> bool {
        &&& 0 <= k < self.links@.len()
        &&& self.links@[k].leading == leading
        &&& forall|j: int| 0 <= j < k ==> (#[trigger] self.links@[j]).leading != leading
    }

    /// Whether the two lists agree in all but their notes and their end.
    pub open spec fn same_settings(&self, other: &LinearLayout) -> bool {
        &&& self.orientation == other.orientation
        &&& self.parent == other.parent
        &&& self.padding == other.padding
        &&& self.expand == other.expand
    }

    /// What adding the child `widget` does: `after` is the list and `child`
    /// the widget afterwards.
    pub open spec fn added(&self, widget: &WidgetLayout, after: &LinearLayout, child: &WidgetLayout)
        -> bool {
        &&& widget.extended_by(self.child_rules(widget.edges()), child)
        &&& after.same_settings(self)
        &&& after.end == self.orientation.trailing(widget.edges())
        &&& after.links@ == self.links@.push(
            Link { leading: self.orientation.leading(widget.edges()), previous: self.end },
        )
    }

    /// What removing the child `widget` does: `after` is the list and
    /// `child` the widget afterwards, and `retracted` is what the
    /// constraints that were handed back say.
    pub open spec fn removed(
        &self,
        widget: &WidgetLayout,
        after: &LinearLayout,
        child: &WidgetLayout,
        retracted: Seq<ConstraintView>,
    ) -> bool {
        let leading = self.orientation.leading(widget.edges());
        &&& after.same_settings(self)
        &&& after.end == self.end
        &&& child.edges() == widget.edges()
        &&& child.scrollable == widget.scrollable
        &&& (forall|j: int| 0 <= j < self.links@.len() ==> (#[trigger] self.links@[j]).leading
            != leading) ==> *after == *self && *child == *widget && retracted.len() == 0
        &&& forall|k: int| #[trigger]
            self.first_link(leading, k) ==> {
                &&& after.links@ == self.links@.remove(k)
                &&& child.rules() == widget.rules().filter(
                    outside(self.linked_rules(k, widget.edges())),
                )
                &&& retracted == widget.rules().filter(inside(self.linked_rules(k, widget.edges())))
            }
    }

    /// An empty list inside `parent`: the first child is placed after the
    /// parent's leading edge.
    pub fn new(orientation: Orientation, parent: &WidgetLayout, padding: i32, expand: bool) -> (r:
        LinearLayout)
        ensures
            r.orientation == orientation,
            r.end == orientation.leading(parent.edges()),
            r.parent == parent.edges(),
            r.padding == padding,
            r.expand == expand,
            r.links@ == Seq::<Link>::empty(),
    {
        LinearLayout {
            orientation,
            end: LinearLayout::beginning(orientation, parent),
            parent: parent.get_edges(),
            padding,
            expand,
            links: Vec::new(),
        }
    }

    /// The edge at which `layout` begins along the axis: left for a
    /// horizontal list, top for a vertical one.
    pub fn beginning(orientation: Orientation, layout: &WidgetLayout) -> (r: Variable)
        ensures
            r == orientation.leading(layout.edges()),
    {
        match orientation {
            Orientation::Horizontal => layout.left,
            Orientation::Vertical => layout.top,
        }
    }

    /// The edge at which `layout` ends along the axis: right for a
    /// horizontal list, bottom for a vertical one.
    pub fn ending(orientation: Orientation, layout: &WidgetLayout) -> (r: Variable)
        ensures
            r == orientation.trailing(layout.edges()),
    {
        match orientation {
            Orientation::Horizontal => layout.right,
            Orientation::Vertical => layout.bottom,
        }
    }

    /// Adds a child at the end of the list: the child gets the constraints
    /// of `child_rules`, the list notes the child, and the list's end moves
    /// to the child's trailing edge. No other widget is touched.
    pub fn add_widget(&mut self, widget: &mut WidgetLayout)
        ensures
            old(self).added(old(widget), final(self), final(widget)),
    {
        let edges = widget.get_edges();
        let constraints = linear_constraints(
            self.orientation,
            self.parent,
            self.padding,
            self.expand,
            self.end,
            edges,
        );
        widget.add_constraints(constraints.as_slice());
        self.links.push(
            Link { leading: self.orientation.leading_edge(edges), previous: self.end },
        );
        self.end = self.orientation.trailing_edge(edges);
    }

    /// Takes a child out of the list. The child is found by its leading
    /// edge; where the list has no note of it, nothing changes and nothing
    /// is handed back. Otherwise the first note of it is dropped, the child
    /// loses every constraint that says the same as one that the list asked
    /// of it, and those constraints are handed back, to be withdrawn from
    /// the solver. The end of the list stays, and no other child is touched:
    /// the child that followed keeps its constraint on the edge of the
    /// child that left.
    pub fn remove_widget(&mut self, widget: &mut WidgetLayout) -> (retracted: Vec<
        LinearConstraint,
    >)
        ensures
            old(self).removed(old(widget), final(self), final(widget), views(retracted@)),
    {
        let edges = widget.get_edges();
        let leading = self.orientation.leading_edge(edges);
        let mut k: usize = 0;
        let mut found = false;
        while k < self.links.len() && !found
            invariant
                k <= self.links.len(),
                *self == *old(self),
                *widget == *old(widget),
                forall|j: int| 0 <= j < k ==> (#[trigger] self.links@[j]).leading != leading,
                found ==> k < self.links.len() && self.links@[k as int].leading == leading,
            decreases self.links.len() - k + (if found { 0int } else { 1int }),
        {
            if same_variable(self.links[k].leading, leading) {
                found = true;
            } else {
                k += 1;
            }
        }
        if !found {
            let nothing: Vec<LinearConstraint> = Vec::new();
            proof {
                assert(views(nothing@) =~= Seq::<ConstraintView>::empty());
            }
            return nothing;
        }
        assert(old(self).first_link(leading, k as int));
        let link = self.links.remove(k);
        let targets = linear_constraints(
            self.orientation,
            self.parent,
            self.padding,
            self.expand,
            link.previous,
            edges,
        );
        widget.remove_constraints(targets.as_slice())
    }
}

} // verus!
