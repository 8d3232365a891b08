//! Container strategies: what a parent asks of a child that joins it, and
//! what it takes back when the child leaves. Also the events of the layout
//! pass.

use vstd::prelude::*;

use crate::constraint::{
    lemma_holds_beside, lemma_holds_between, lemma_satisfied_member, satisfied, views,
    ConstraintView, LinearConstraint, Relation, Strength, Valuation,
};
use crate::grid_layout::{lemma_first_place_exists, GridLayout};
use crate::util::Rectangle;
use crate::widget::layout::{
    bound_by_rules, includes, lemma_extended_is_prefix, lemma_first_link_exists,
    lemma_match_layout_equal, lemma_reduced_by_nothing, match_layout_rules, Edges, LinearLayout,
    Orientation, Variables, WidgetLayout,
};

verus! {

/// What a frame asks of a child: to lie inside the parent, `padding` away
/// from each edge, and to have the parent's four edges. All of it is
/// required, so with a padding above 0 the two cannot hold together and the
/// solver refuses the child's constraints.
pub open spec fn frame_rules(padding: int, parent: Edges, child: Edges) -> Seq<ConstraintView> {
    bound_by_rules(child, parent, padding) + match_layout_rules(child, parent)
}

/// No assignment satisfies the required constraints of a list which
/// includes those of a frame with a padding above 0.
pub proof fn lemma_frame_padding_conflict(
    rules: Seq<ConstraintView>,
    padding: int,
    parent: Edges,
    child: Edges,
    at: Valuation,
)
    requires
        padding > 0,
        includes(rules, frame_rules(padding, parent, child)),
    ensures
        !satisfied(rules, Strength::Required, at),
{
    if satisfied(rules, Strength::Required, at) {
        let asked = frame_rules(padding, parent, child);
        assert(asked[0] == bound_by_rules(child, parent, padding)[0]);
        assert(asked[4] == match_layout_rules(child, parent)[0]);
        lemma_satisfied_member(rules, Strength::Required, at, asked[0]);
        lemma_satisfied_member(rules, Strength::Required, at, asked[4]);
        lemma_holds_beside(
            child.left,
            Relation::GreaterOrEqual,
            parent.left,
            padding,
            Strength::Required,
            at,
        );
        lemma_holds_between(child.left, Relation::Equal, parent.left, Strength::Required, at);
    }
}

/// The child of a frame without padding has exactly the parent's box, under
/// every assignment that satisfies the required constraints of a list which
/// includes those of the frame.
pub proof fn lemma_frame_fills_parent(
    rules: Seq<ConstraintView>,
    parent: Edges,
    child: Edges,
    at: Valuation,
)
    requires
        includes(rules, frame_rules(0, parent, child)),
        satisfied(rules, Strength::Required, at),
    ensures
        at(child.left) == at(parent.left),
        at(child.top) == at(parent.top),
        at(child.right) == at(parent.right),
        at(child.bottom) == at(parent.bottom),
{
    let asked = frame_rules(0, parent, child);
    let part = match_layout_rules(child, parent);
    assert forall|i: int| 0 <= i < part.len() implies rules.contains(#[trigger] part[i]) by {
        assert(asked[4 + i] == part[i]);
    }
    lemma_match_layout_equal(rules, child, parent, at);
}

/// A strategy by which a parent lays out its children: it derives the
/// constraints that tie a child to its parent when the child is added, and
/// takes them back when the child is removed.
///
/// Each strategy says exactly what it does in `adds` and `removes`. Whatever
/// the strategy, adding a child only appends to the child's constraints, and
/// removing one only takes constraints away from it.
pub trait LayoutContainer: Sized {
    /// Whether the container is in a state in which it can work.
    spec fn valid(&self) -> bool;

    /// What adding the child `widget` under the parent with the edges
    /// `parent` does: `after` is the container and `child` the widget
    /// afterwards.
    spec fn adds(
        &self,
        parent: Edges,
        widget: &WidgetLayout,
        after: &Self,
        child: &WidgetLayout,
    ) -> bool;

    /// What removing the child `widget` does: `after` is the container and
    /// `child` the widget afterwards, and `retracted` is what the
    /// constraints that were handed back say.
    spec fn removes(
        &self,
        parent: Edges,
        widget: &WidgetLayout,
        after: &Self,
        child: &WidgetLayout,
        retracted: Seq<ConstraintView>,
    ) -> bool;

    /// Derives and installs in `child` the constraints that tie it to its
    /// parent.
    fn add_child_layout(&mut self, parent: &WidgetLayout, child: &mut WidgetLayout)
        requires
            old(self).valid(),
        ensures
            final(self).valid(),
            old(self).adds(parent.edges(), old(child), final(self), final(child)),
    ;

    /// Takes back from `child` the constraints that tied it to its parent,
    /// and hands them out, to be withdrawn from the solver.
    fn remove_child_layout(&mut self, parent: &WidgetLayout, child: &mut WidgetLayout) -> (retracted:
        Vec<LinearConstraint>)
        requires
            old(self).valid(),
        ensures
            final(self).valid(),
            old(self).removes(
                parent.edges(),
                old(child),
                final(self),
                final(child),
                views(retracted@),
            ),
    ;

    /// Adding a child keeps its edges and its constraints, and appends to
    /// the constraints.
    proof fn lemma_adds_appends(
        &self,
        parent: Edges,
        widget: &WidgetLayout,
        after: &Self,
        child: &WidgetLayout,
    )
        requires
            self.adds(parent, widget, after, child),
        ensures
            child.edges() == widget.edges(),
            child.scrollable == widget.scrollable,
            widget.rules().is_prefix_of(child.rules()),
    ;

    /// Removing a child keeps its edges, and takes out of its constraints
    /// exactly those that say the same as one of some list; those are what
    /// is handed back.
    proof fn lemma_removes_filters(
        &self,
        parent: Edges,
        widget: &WidgetLayout,
        after: &Self,
        child: &WidgetLayout,
        retracted: Seq<ConstraintView>,
    )
        requires
            self.removes(parent, widget, after, child, retracted),
        ensures
            child.edges() == widget.edges(),
            child.scrollable == widget.scrollable,
            exists|targets: Seq<ConstraintView>| widget.reduced_by(targets, child, retracted),
    ;
}

/// A container whose child fills it, inset by a padding.
#[derive(Clone, Copy, Debug)]
pub struct Frame {
    pub padding: i32,
}

impl Default for Frame {
    /// A frame without padding.
    fn default() -> (r: Frame)
        ensures
            r.padding == 0,
    {
        Frame { padding: 0 }
    }
}

impl Frame {
    /// A frame with the given padding.
    pub fn new(padding: i32) -> (r: Frame)
        ensures
            r.padding == padding,
    {
        Frame { padding }
    }

    /// The constraints of `frame_rules`, as a list.
    fn constraints(&self, parent: &WidgetLayout, child: Edges) -> (r: Vec<LinearConstraint>)
        ensures
            views(r@) == frame_rules(self.padding as int, parent.edges(), child),
    {
        let mut scratch = WidgetLayout::with_edges(child);
        scratch.bound_by_padding(parent, self.padding);
        scratch.match_layout(parent);
        proof {
            assert(Seq::<ConstraintView>::empty() + bound_by_rules(
                child,
                parent.edges(),
                self.padding as int,
            ) + match_layout_rules(child, parent.edges()) =~= frame_rules(
                self.padding as int,
                parent.edges(),
                child,
            ));
        }
        scratch.constraints
    }

}

impl LayoutContainer for Frame {
    open spec fn valid(&self) -> bool {
        true
    }

    /// The frame stays as it is, and the child gets the constraints of
    /// `frame_rules`.
    open spec fn adds(
        &self,
        parent: Edges,
        widget: &WidgetLayout,
        after: &Frame,
        child: &WidgetLayout,
    ) -> bool {
        &&& *after == *self
        &&& widget.extended_by(frame_rules(self.padding as int, parent, widget.edges()), child)
    }

    /// The frame stays as it is, and the child loses every constraint that
    /// says the same as one of `frame_rules`.
    open spec fn removes(
        &self,
        parent: Edges,
        widget: &WidgetLayout,
        after: &Frame,
        child: &WidgetLayout,
        retracted: Seq<ConstraintView>,
    ) -> bool {
        &&& *after == *self
        &&& widget.reduced_by(
            frame_rules(self.padding as int, parent, widget.edges()),
            child,
            retracted,
        )
    }

    fn add_child_layout(&mut self, parent: &WidgetLayout, child: &mut WidgetLayout) {
        let constraints = self.constraints(parent, child.get_edges());
        child.add_constraints(constraints.as_slice());
    }

    fn remove_child_layout(&mut self, parent: &WidgetLayout, child: &mut WidgetLayout) -> (retracted:
        Vec<LinearConstraint>) {
        let constraints = self.constraints(parent, child.get_edges());
        child.remove_constraints(constraints.as_slice())
    }

    proof fn lemma_adds_appends(
        &self,
        parent: Edges,
        widget: &WidgetLayout,
        after: &Frame,
        child: &WidgetLayout,
    ) {
        lemma_extended_is_prefix(
            widget,
            frame_rules(self.padding as int, parent, widget.edges()),
            child,
        );
    }

    proof fn lemma_removes_filters(
        &self,
        parent: Edges,
        widget: &WidgetLayout,
        after: &Frame,
        child: &WidgetLayout,
        retracted: Seq<ConstraintView>,
    ) {
        assert(widget.reduced_by(
            frame_rules(self.padding as int, parent, widget.edges()),
            child,
            retracted,
        ));
    }
}

/// A container whose child has exactly its box.
#[derive(Clone, Copy, Debug)]
pub struct ExactFrame;

impl ExactFrame {
    /// The constraints of `match_layout_rules`, as a list.
    fn constraints(&self, parent: &WidgetLayout, child: Edges) -> (r: Vec<LinearConstraint>)
        ensures
            views(r@) == match_layout_rules(child, parent.edges()),
    {
        let mut scratch = WidgetLayout::with_edges(child);
        scratch.match_layout(parent);
        proof {
            assert(Seq::<ConstraintView>::empty() + match_layout_rules(child, parent.edges())
                =~= match_layout_rules(child, parent.edges()));
        }
        scratch.constraints
    }

}

impl LayoutContainer for ExactFrame {
    open spec fn valid(&self) -> bool {
        true
    }

    /// The child is required to have the parent's four edges.
    open spec fn adds(
        &self,
        parent: Edges,
        widget: &WidgetLayout,
        after: &ExactFrame,
        child: &WidgetLayout,
    ) -> bool {
        widget.extended_by(match_layout_rules(widget.edges(), parent), child)
    }

    /// The child loses every constraint that says the same as one of
    /// `match_layout_rules`.
    open spec fn removes(
        &self,
        parent: Edges,
        widget: &WidgetLayout,
        after: &ExactFrame,
        child: &WidgetLayout,
        retracted: Seq<ConstraintView>,
    ) -> bool {
        widget.reduced_by(match_layout_rules(widget.edges(), parent), child, retracted)
    }

    fn add_child_layout(&mut self, parent: &WidgetLayout, child: &mut WidgetLayout) {
        child.match_layout(parent);
    }

    fn remove_child_layout(&mut self, parent: &WidgetLayout, child: &mut WidgetLayout) -> (retracted:
        Vec<LinearConstraint>) {
        let constraints = self.constraints(parent, child.get_edges());
        child.remove_constraints(constraints.as_slice())
    }

    proof fn lemma_adds_appends(
        &self,
        parent: Edges,
        widget: &WidgetLayout,
        after: &ExactFrame,
        child: &WidgetLayout,
    ) {
        lemma_extended_is_prefix(widget, match_layout_rules(widget.edges(), parent), child);
    }

    proof fn lemma_removes_filters(
        &self,
        parent: Edges,
        widget: &WidgetLayout,
        after: &ExactFrame,
        child: &WidgetLayout,
        retracted: Seq<ConstraintView>,
    ) {
        assert(widget.reduced_by(match_layout_rules(widget.edges(), parent), child, retracted));
    }
}

impl LayoutContainer for LinearLayout {
    open spec fn valid(&self) -> bool {
        true
    }

    /// See `LinearLayout::added`. The list goes by the parent that it was
    /// made for.
    open spec fn adds(
        &self,
        parent: Edges,
        widget: &WidgetLayout,
        after: &LinearLayout,
        child: &WidgetLayout,
    ) -> bool {
        self.added(widget, after, child)
    }

    /// See `LinearLayout::removed`.
    open spec fn removes(
        &self,
        parent: Edges,
        widget: &WidgetLayout,
        after: &LinearLayout,
        child: &WidgetLayout,
        retracted: Seq<ConstraintView>,
    ) -> bool {
        self.removed(widget, after, child, retracted)
    }

    fn add_child_layout(&mut self, parent: &WidgetLayout, child: &mut WidgetLayout) {
        self.add_widget(child);
    }

    fn remove_child_layout(&mut self, parent: &WidgetLayout, child: &mut WidgetLayout) -> (retracted:
        Vec<LinearConstraint>) {
        self.remove_widget(child)
    }

    proof fn lemma_adds_appends(
        &self,
        parent: Edges,
        widget: &WidgetLayout,
        after: &LinearLayout,
        child: &WidgetLayout,
    ) {
        lemma_extended_is_prefix(widget, self.child_rules(widget.edges()), child);
    }

    proof fn lemma_removes_filters(
        &self,
        parent: Edges,
        widget: &WidgetLayout,
        after: &LinearLayout,
        child: &WidgetLayout,
        retracted: Seq<ConstraintView>,
    ) {
        let leading = self.orientation.leading(widget.edges());
        if exists|k: int| self.first_link(leading, k) {
            let k = choose|k: int| self.first_link(leading, k);
            assert(widget.reduced_by(self.linked_rules(k, widget.edges()), child, retracted));
        } else {
            assert forall|j: int| 0 <= j < self.links@.len() implies (
            #[trigger] self.links@[j]).leading != leading by {
                if self.links@[j].leading == leading {
                    lemma_first_link_exists(self, leading, j);
                }
            }
            lemma_reduced_by_nothing(widget);
            assert(retracted =~= Seq::<ConstraintView>::empty());
            assert(widget.reduced_by(Seq::<ConstraintView>::empty(), child, retracted));
        }
    }
}

impl LayoutContainer for GridLayout {
    open spec fn valid(&self) -> bool {
        self.wf()
    }

    /// See `GridLayout::added`. The grid goes by the parent that it was
    /// made for.
    open spec fn adds(
        &self,
        parent: Edges,
        widget: &WidgetLayout,
        after: &GridLayout,
        child: &WidgetLayout,
    ) -> bool {
        self.added(widget, after, child)
    }

    /// See `GridLayout::removed`; the grid stays as it is.
    open spec fn removes(
        &self,
        parent: Edges,
        widget: &WidgetLayout,
        after: &GridLayout,
        child: &WidgetLayout,
        retracted: Seq<ConstraintView>,
    ) -> bool {
        *after == *self && self.removed(widget, child, retracted)
    }

    fn add_child_layout(&mut self, parent: &WidgetLayout, child: &mut WidgetLayout) {
        self.add_widget(child);
    }

    fn remove_child_layout(&mut self, parent: &WidgetLayout, child: &mut WidgetLayout) -> (retracted:
        Vec<LinearConstraint>) {
        self.remove_widget(child)
    }

    proof fn lemma_adds_appends(
        &self,
        parent: Edges,
        widget: &WidgetLayout,
        after: &GridLayout,
        child: &WidgetLayout,
    ) {
        lemma_extended_is_prefix(widget, self.child_rules(widget.edges()), child);
    }

    proof fn lemma_removes_filters(
        &self,
        parent: Edges,
        widget: &WidgetLayout,
        after: &GridLayout,
        child: &WidgetLayout,
        retracted: Seq<ConstraintView>,
    ) {
        if exists|k: int| self.first_place(widget.edges(), k) {
            let k = choose|k: int| self.first_place(widget.edges(), k);
            assert(widget.reduced_by(self.placed_rules(k, widget.edges()), child, retracted));
        } else {
            assert forall|j: int| 0 <= j < self.children@.len() implies (
            #[trigger] self.children@[j]).left != widget.left by {
                if self.children@[j].left == widget.left {
                    lemma_first_place_exists(self, widget.edges(), j);
                }
            }
            lemma_reduced_by_nothing(widget);
            assert(retracted =~= Seq::<ConstraintView>::empty());
            assert(widget.reduced_by(Seq::<ConstraintView>::empty(), child, retracted));
        }
    }
}

/// What happened to the children of a widget.
#[derive(Clone, Copy, Debug, PartialEq, Eq, Structural)]
pub enum ChildrenUpdatedEvent {
    /// A child was added.
    Added,
    /// A child was removed.
    Removed,
}

/// The strategy by which a parent lays out its children.
#[derive(Debug)]
pub enum Container {
    Frame(Frame),
    ExactFrame(ExactFrame),
    Linear(LinearLayout),
    Grid(GridLayout),
}

impl LayoutContainer for Container {
    /// A grid among the containers has at least one column.
    open spec fn valid(&self) -> bool {
        self is Grid ==> self->Grid_0.wf()
    }

    /// What the strategy inside does.
    open spec fn adds(
        &self,
        parent: Edges,
        widget: &WidgetLayout,
        after: &Container,
        child: &WidgetLayout,
    ) -> bool {
        match *self {
            Container::Frame(frame) => *after == *self && widget.extended_by(
                frame_rules(frame.padding as int, parent, widget.edges()),
                child,
            ),
            Container::ExactFrame(_) => *after == *self && widget.extended_by(
                match_layout_rules(widget.edges(), parent),
                child,
            ),
            Container::Linear(list) => after is Linear && list.added(
                widget,
                &after->Linear_0,
                child,
            ),
            Container::Grid(grid) => after is Grid && grid.added(widget, &after->Grid_0, child),
        }
    }

    /// What the strategy inside does.
    open spec fn removes(
        &self,
        parent: Edges,
        widget: &WidgetLayout,
        after: &Container,
        child: &WidgetLayout,
        retracted: Seq<ConstraintView>,
    ) -> bool {
        match *self {
            Container::Frame(frame) => *after == *self && widget.reduced_by(
                frame_rules(frame.padding as int, parent, widget.edges()),
                child,
                retracted,
            ),
            Container::ExactFrame(_) => *after == *self && widget.reduced_by(
                match_layout_rules(widget.edges(), parent),
                child,
                retracted,
            ),
            Container::Linear(list) => after is Linear && list.removed(
                widget,
                &after->Linear_0,
                child,
                retracted,
            ),
            Container::Grid(grid) => *after == *self && grid.removed(widget, child, retracted),
        }
    }

    fn add_child_layout(&mut self, parent: &WidgetLayout, child: &mut WidgetLayout) {
        match self {
            Container::Frame(frame) => frame.add_child_layout(parent, child),
            Container::ExactFrame(frame) => frame.add_child_layout(parent, child),
            Container::Linear(list) => list.add_widget(child),
            Container::Grid(grid) => grid.add_widget(child),
        }
    }

    fn remove_child_layout(&mut self, parent: &WidgetLayout, child: &mut WidgetLayout) -> (retracted:
        Vec<LinearConstraint>) {
        match self {
            Container::Frame(frame) => frame.remove_child_layout(parent, child),
            Container::ExactFrame(frame) => frame.remove_child_layout(parent, child),
            Container::Linear(list) => list.remove_widget(child),
            Container::Grid(grid) => grid.remove_widget(child),
        }
    }

    proof fn lemma_adds_appends(
        &self,
        parent: Edges,
        widget: &WidgetLayout,
        after: &Container,
        child: &WidgetLayout,
    ) {
        match *self {
            Container::Frame(frame) => {
                frame.lemma_adds_appends(parent, widget, &frame, child);
            },
            Container::ExactFrame(frame) => {
                frame.lemma_adds_appends(parent, widget, &frame, child);
            },
            Container::Linear(list) => {
                list.lemma_adds_appends(parent, widget, &after->Linear_0, child);
            },
            Container::Grid(grid) => {
                grid.lemma_adds_appends(parent, widget, &after->Grid_0, child);
            },
        }
    }

    proof fn lemma_removes_filters(
        &self,
        parent: Edges,
        widget: &WidgetLayout,
        after: &Container,
        child: &WidgetLayout,
        retracted: Seq<ConstraintView>,
    ) {
        match *self {
            Container::Frame(frame) => {
                frame.lemma_removes_filters(parent, widget, &frame, child, retracted);
            },
            Container::ExactFrame(frame) => {
                frame.lemma_removes_filters(parent, widget, &frame, child, retracted);
            },
            Container::Linear(list) => {
                list.lemma_removes_filters(parent, widget, &after->Linear_0, child, retracted);
            },
            Container::Grid(grid) => {
                grid.lemma_removes_filters(parent, widget, &grid, child, retracted);
            },
        }
    }
}

/// Reacts to a change among the children of the widget that owns the
/// container: a child that was added gets its constraints, a child that was
/// removed loses them. The constraints that a removed child lost are handed
/// back, to be withdrawn from the solver; for an added child the list is
/// empty.
pub fn handle<T: LayoutContainer>(
    container: &mut T,
    event: ChildrenUpdatedEvent,
    parent: &WidgetLayout,
    child: &mut WidgetLayout,
) -> (retracted: Vec<LinearConstraint>)
    requires
        old(container).valid(),
    ensures
        final(container).valid(),
        event == ChildrenUpdatedEvent::Added ==> old(container).adds(
            parent.edges(),
            old(child),
            final(container),
            final(child),
        ) && retracted@.len() == 0,
        event == ChildrenUpdatedEvent::Removed ==> old(container).removes(
            parent.edges(),
            old(child),
            final(container),
            final(child),
            views(retracted@),
        ),
{
    match event {
        ChildrenUpdatedEvent::Added => {
            container.add_child_layout(parent, child);
            Vec::new()
        },
        ChildrenUpdatedEvent::Removed => container.remove_child_layout(parent, child),
    }
}

/// Which quantity of a widget's box a changed value belongs to.
#[derive(Clone, Copy, Debug, PartialEq, Eq, Structural)]
pub enum VarType {
    Left,
    Top,
    Right,
    Bottom,
    Width,
    Height,
    Other,
}

/// One changed quantity: the widget's identifier, the quantity and its new
/// value.
pub type BoundsChange = (usize, VarType, i64);

/// The request to bring the solver up to date with a widget's layout node;
/// it names the widget by its identifier.
#[derive(Clone, Copy, Debug)]
pub struct UpdateLayout(pub usize);

/// The request to resize the window to the natural size of its content.
#[derive(Clone, Copy, Debug)]
pub struct ResizeWindow;

/// The quantities that changed in a solve.
#[derive(Debug)]
pub struct LayoutChanged(pub Vec<BoundsChange>);

/// The notice to a widget that its box has changed.
#[derive(Clone, Copy, Debug)]
pub struct LayoutUpdated;

/// The box after one changed quantity: the left edge, the top edge, the
/// width or the height takes the new value; a change of another quantity
/// leaves the box as it is.
pub open spec fn changed_bounds(bounds: Rectangle, var: VarType, value: i64) -> Rectangle {
    match var {
        VarType::Left => Rectangle { left: value, ..bounds },
        VarType::Top => Rectangle { top: value, ..bounds },
        VarType::Width => Rectangle { width: value, ..bounds },
        VarType::Height => Rectangle { height: value, ..bounds },
        _ => bounds,
    }
}

/// Applies one changed quantity to a box.
pub fn apply_change(bounds: &mut Rectangle, var: VarType, value: i64)
    ensures
        *final(bounds) == changed_bounds(*old(bounds), var, value),
{
    match var {
        VarType::Left => {
            bounds.left = value;
        },
        VarType::Top => {
            bounds.top = value;
        },
        VarType::Width => {
            bounds.width = value;
        },
        VarType::Height => {
            bounds.height = value;
        },
        _ => {},
    }
}

/// The boxes after the changes were applied in order, the box of widget
/// `i` standing at index `i`. A change for a widget that does not exist is
/// passed over.
pub open spec fn applied(boxes: Seq<Rectangle>, changes: Seq<BoundsChange>) -> Seq<Rectangle>
    decreases changes.len(),
{
    if changes.len() == 0 {
        boxes
    } else {
        let before = applied(boxes, changes.drop_last());
        let change = changes.last();
        if change.0 < before.len() {
            before.update(
                change.0 as int,
                changed_bounds(before[change.0 as int], change.1, change.2),
            )
        } else {
            before
        }
    }
}

/// The widgets that are told of an update: for each change to a widget
/// that exists, that widget, in the order of the changes.
pub open spec fn notified(count: int, changes: Seq<BoundsChange>) -> Seq<usize> {
    changes.filter(|change: BoundsChange| change.0 < count).map_values(
        |change: BoundsChange| change.0,
    )
}

/// Applying changes neither adds nor drops a box.
pub proof fn lemma_applied_len(boxes: Seq<Rectangle>, changes: Seq<BoundsChange>)
    ensures
        applied(boxes, changes).len() == boxes.len(),
    decreases changes.len(),
{
    if changes.len() > 0 {
        lemma_applied_len(boxes, changes.drop_last());
    }
}

/// Applies the changes to the boxes in order and tells which widgets are
/// to be told of an update.
pub fn apply_changes(boxes: &mut Vec<Rectangle>, changes: &[BoundsChange]) -> (updated: Vec<usize>)
    ensures
        final(boxes)@ == applied(old(boxes)@, changes@),
        updated@ == notified(old(boxes)@.len() as int, changes@),
{
    let ghost start = boxes@;
    let ghost existing = |change: BoundsChange| change.0 < start.len();
    let ghost widget = |change: BoundsChange| change.0;
    let mut updated: Vec<usize> = Vec::new();
    let mut i: usize = 0;
    proof {
        assert(changes@.take(0) =~= Seq::<BoundsChange>::empty());
        reveal(Seq::filter);
        assert(changes@.take(0).filter(existing).map_values(widget) =~= Seq::<usize>::empty());
    }
    while i < changes.len()
        invariant
            i <= changes.len(),
            start == old(boxes)@,
            existing == |change: BoundsChange| change.0 < start.len(),
            widget == |change: BoundsChange| change.0,
            boxes@ == applied(start, changes@.take(i as int)),
            boxes@.len() == start.len(),
            updated@ == changes@.take(i as int).filter(existing).map_values(widget),
        decreases changes.len() - i,
    {
        let (id, var, value) = changes[i];
        proof {
            assert(changes@.take(i + 1).drop_last() =~= changes@.take(i as int));
            assert(changes@.take(i + 1).last() == changes@[i as int]);
            assert(changes@.take(i + 1) =~= changes@.take(i as int).push(changes@[i as int]));
            changes@.take(i as int).lemma_filter_push(changes@[i as int], existing);
            if existing(changes@[i as int]) {
                assert(changes@.take(i as int).filter(existing).push(changes@[i as int]).map_values(
                    widget,
                ) =~= changes@.take(i as int).filter(existing).map_values(widget).push(id));
            }
        }
        if id < boxes.len() {
            let mut bounds = boxes[id];
            apply_change(&mut bounds, var, value);
            boxes.set(id, bounds);
            updated.push(id);
        }
        i += 1;
    }
    proof {
        assert(changes@.take(i as int) =~= changes@);
    }
    updated
}

/// A widget under construction: its layout node and the container that
/// will lay out its children.
#[derive(Debug)]
pub struct WidgetBuilder {
    pub layout: WidgetLayout,
    pub container: Option<Container>,
}

impl WidgetBuilder {
    /// A builder with a new layout node, made from `variables`, and no
    /// container.
    pub fn new(variables: &mut Variables) -> (r: WidgetBuilder)
        ensures
            r.container is None,
            old(variables).hands_out(r.layout.edges(), final(variables)),
            r.layout.rules() == Seq::<ConstraintView>::empty(),
            !r.layout.scrollable,
    {
        WidgetBuilder { layout: WidgetLayout::new(variables), container: None }
    }

    /// Sets the container; one that was set before is dropped.
    pub fn set_container(&mut self, container: Container)
        ensures
            final(self).container == Some(container),
            final(self).layout == old(self).layout,
    {
        self.container = Some(container);
    }

    /// Whether the builder's container is an empty linear list along
    /// `orientation` inside the builder's own layout node.
    pub open spec fn has_linear(&self, orientation: Orientation, padding: i32, expand: bool)
        -> bool {
        &&& self.container is Some
        &&& self.container->Some_0 is Linear
        &&& self.container->Some_0->Linear_0.orientation == orientation
        &&& self.container->Some_0->Linear_0.end == orientation.leading(self.layout.edges())
        &&& self.container->Some_0->Linear_0.parent == self.layout.edges()
        &&& self.container->Some_0->Linear_0.padding == padding
        &&& self.container->Some_0->Linear_0.expand == expand
        &&& self.container->Some_0->Linear_0.links@.len() == 0
    }

    /// Lays the children out from top to bottom. The builder is handed
    /// back, so that calls can be chained.
    pub fn vbox(&mut self, padding: i32, expand: bool) -> (r: &mut Self)
        ensures
            r.has_linear(Orientation::Vertical, padding, expand),
            r.layout == old(self).layout,
            *final(self) == *final(r),
    {
        let handler = LinearLayout::new(Orientation::Vertical, &self.layout, padding, expand);
        self.set_container(Container::Linear(handler));
        self
    }

    /// Lays the children out from left to right. The builder is handed
    /// back, so that calls can be chained.
    pub fn hbox(&mut self, padding: i32, expand: bool) -> (r: &mut Self)
        ensures
            r.has_linear(Orientation::Horizontal, padding, expand),
            r.layout == old(self).layout,
            *final(self) == *final(r),
    {
        let handler = LinearLayout::new(Orientation::Horizontal, &self.layout, padding, expand);
        self.set_container(Container::Linear(handler));
        self
    }

    /// Lays the children out in a grid of `num_columns` columns.
    pub fn grid(&mut self, num_columns: usize)
        requires
            num_columns > 0,
        ensures
            final(self).container is Some,
            final(self).container->Some_0 is Grid,
            final(self).container->Some_0->Grid_0.num_columns == num_columns,
            final(self).container->Some_0->Grid_0.parent == old(self).layout.edges(),
            final(self).container->Some_0->Grid_0.children@.len() == 0,
            final(self).layout == old(self).layout,
    {
        let container = GridLayout::new(&self.layout, num_columns);
        self.set_container(Container::Grid(container));
    }
}

} // verus!
