//! Scrolling: mouse-scroll input moves a widget inside its parent by
//! suggesting values for the widget's left and top edges.

use vstd::prelude::*;

use crate::backend::SolverError;
use crate::solver::LimnSolver;
use crate::util::Point;
use crate::widget::layout::WidgetLayout;

verus! {

/// How far one unit of scroll input moves the content.
pub const SCROLL_GAIN: i64 = 13;

/// The least offset that content may have: 0 where it fits in the space of
/// its parent, else the negative number by which it is too large. `room` is
/// the parent's size less the content's size.
pub open spec fn least_offset(room: int) -> int {
    if room < 0 {
        room
    } else {
        0
    }
}

/// The offset after one scroll input: the old offset plus the input times
/// the gain, held between `least_offset(room)` and 0.
pub open spec fn clamped(offset: int, delta: int, room: int) -> int {
    let moved = offset + delta * SCROLL_GAIN;
    if moved > 0 {
        0
    } else if moved < least_offset(room) {
        least_offset(room)
    } else {
        moved
    }
}

/// The offset after a sequence of scroll inputs, the first applied first.
pub open spec fn scrolled(start: int, deltas: Seq<int>, room: int) -> int
    decreases deltas.len(),
{
    if deltas.len() == 0 {
        start
    } else {
        clamped(scrolled(start, deltas.drop_last(), room), deltas.last(), room)
    }
}

/// Scrolling never leaves the content's range: with a parent of height
/// `parent` and content of greater height `content`, after any sequence of
/// scroll inputs from an offset in the range, the offset is at most 0 and at
/// least `parent - content`.
pub proof fn lemma_scroll_stays_in_range(start: int, deltas: Seq<int>, parent: int, content: int)
    requires
        content > parent,
        parent - content <= start <= 0,
    ensures
        parent - content <= scrolled(start, deltas, parent - content) <= 0,
    decreases deltas.len(),
{
    if deltas.len() > 0 {
        lemma_scroll_stays_in_range(start, deltas.drop_last(), parent, content);
    }
}

/// Content that fits in its parent does not scroll: after at least one
/// scroll input the offset is 0.
pub proof fn lemma_scroll_fitting_content(start: int, deltas: Seq<int>, room: int)
    requires
        room >= 0,
        deltas.len() > 0,
    ensures
        scrolled(start, deltas, room) == 0,
{
    let before = scrolled(start, deltas.drop_last(), room);
    assert(clamped(before, deltas.last(), room) == 0);
}

/// An offset in the content's range keeps the viewport covered: content of
/// size `content` that begins at the parent's edge plus the offset begins
/// at or before the parent's edge and ends at or after the parent's other
/// edge, where the parent has the size `parent` and is the smaller one. So
/// what the scroll handler suggests never asks for more than `scroll_inside`
/// allows.
pub proof fn lemma_offset_covers_viewport(edge: int, parent: int, content: int, offset: int)
    requires
        content >= parent,
        least_offset(parent - content) <= offset <= 0,
    ensures
        edge + offset <= edge,
        edge + offset + content >= edge + parent,
{
}

/// The offset after one scroll input.
pub fn scroll_offset(offset: i64, delta: i64, room: i64) -> (r: i64)
    ensures
        r == clamped(offset as int, delta as int, room as int),
        least_offset(room as int) <= r <= 0,
{
    proof {
        let d = delta as int;
        let gain = SCROLL_GAIN as int;
        assert(d * gain == d * 13) by (nonlinear_arith)
            requires
                gain == 13,
        ;
    }
    let moved: i128 = offset as i128 + (delta as i128) * (SCROLL_GAIN as i128);
    let least: i64 = if room < 0 {
        room
    } else {
        0
    };
    if moved > 0 {
        0
    } else if moved < least as i128 {
        least
    } else {
        moved as i64
    }
}

/// The values that one scroll input suggested to the solver, for each axis
/// that takes suggestions.
#[derive(Clone, Copy, Debug, PartialEq, Eq)]
pub struct Scrolled {
    /// The value suggested for the left edge.
    pub left: Option<i64>,
    /// The value suggested for the top edge.
    pub top: Option<i64>,
}

/// Whether `suggested` is what an axis suggests: `target` where the axis
/// takes suggestions, nothing where it does not.
pub open spec fn suggests(suggested: Option<i64>, editable: bool, target: int) -> bool {
    if editable {
        suggested is Some && suggested->Some_0 == target
    } else {
        suggested is None
    }
}

/// The scroll state of one widget: how far its content is moved against
/// the top left corner of its parent. No component is ever positive.
#[derive(Clone, Copy, Debug)]
pub struct ScrollHandler {
    pub offset: Point,
}

impl ScrollHandler {
    /// The state of a widget that was not scrolled yet.
    pub fn new() -> (r: ScrollHandler)
        ensures
            r.offset == (Point { x: 0, y: 0 }),
    {
        ScrollHandler { offset: Point { x: 0, y: 0 } }
    }

    /// The offset along the horizontal axis after the input `scroll`: moved
    /// and clamped where the left edge takes suggestions, else as it was.
    pub open spec fn next_x(
        &self,
        scroll: Point,
        layout: &WidgetLayout,
        parent_layout: &WidgetLayout,
        solver: &LimnSolver,
    ) -> int {
        if solver.edits().contains(layout.left) {
            clamped(
                self.offset.x as int,
                scroll.x as int,
                (solver.value(parent_layout.right) - solver.value(parent_layout.left)) - (
                solver.value(layout.right) - solver.value(layout.left)),
            )
        } else {
            self.offset.x as int
        }
    }

    /// The offset along the vertical axis after the input `scroll`.
    pub open spec fn next_y(
        &self,
        scroll: Point,
        layout: &WidgetLayout,
        parent_layout: &WidgetLayout,
        solver: &LimnSolver,
    ) -> int {
        if solver.edits().contains(layout.top) {
            clamped(
                self.offset.y as int,
                scroll.y as int,
                (solver.value(parent_layout.bottom) - solver.value(parent_layout.top)) - (
                solver.value(layout.bottom) - solver.value(layout.top)),
            )
        } else {
            self.offset.y as int
        }
    }

    /// Handles one mouse-scroll input for the widget of `layout` inside the
    /// widget of `parent_layout`.
    ///
    /// What decides is whether the solver holds the widget's leading edges
    /// (left, top) as edit variables. Where it holds neither, the input is
    /// not handled: the result is `Ok(None)` and nothing changes. Otherwise,
    /// for each axis whose leading edge is an edit variable, the offset
    /// moves by the input times the gain and is clamped to the range that
    /// the sizes of widget and parent in the last solve leave, and the
    /// parent's edge plus the new offset is suggested to the solver for the
    /// widget's edge. The result tells what was suggested. An axis whose
    /// edge is no edit variable keeps its offset and suggests nothing.
    ///
    /// Both suggestions are made whatever the solver answers, and the
    /// solver keeps them; where it fails on one, its first error comes
    /// back.
    pub fn handle_event(
        &mut self,
        scroll: Point,
        layout: &WidgetLayout,
        parent_layout: &WidgetLayout,
        solver: &mut LimnSolver,
    ) -> (r: Result<Option<Scrolled>, SolverError>)
        requires
            old(solver).wf(),
        ensures
            final(solver).wf(),
            final(self).offset.x == old(self).next_x(scroll, layout, parent_layout, old(solver)),
            final(self).offset.y == old(self).next_y(scroll, layout, parent_layout, old(solver)),
            r is Ok ==> (r->Ok_0 is None <==> !old(solver).edits().contains(layout.left) && !old(
                solver,
            ).edits().contains(layout.top)),
            !old(solver).edits().contains(layout.left) && !old(solver).edits().contains(
                layout.top,
            ) ==> r is Ok && *final(self) == *old(self) && *final(solver) == *old(solver),
            r is Ok && r->Ok_0 is Some ==> suggests(
                r->Ok_0->Some_0.left,
                old(solver).edits().contains(layout.left),
                old(solver).value(parent_layout.left) + final(self).offset.x,
            ) && suggests(
                r->Ok_0->Some_0.top,
                old(solver).edits().contains(layout.top),
                old(solver).value(parent_layout.top) + final(self).offset.y,
            ),
            old(solver).edits().contains(layout.top) ==> final(solver).suggested(layout.top)
                == old(solver).value(parent_layout.top) + final(self).offset.y,
            old(solver).edits().contains(layout.left) && layout.left != layout.top
                ==> final(solver).suggested(layout.left) == old(solver).value(parent_layout.left)
                + final(self).offset.x,
            forall|v: cassowary::Variable|
                v != layout.left && v != layout.top ==> #[trigger] final(solver).suggested(v)
                    == old(solver).suggested(v),
            r is Err ==> r->Err_0 != SolverError::UnknownEditVariable,
            final(solver).failed() == (old(solver).failed() || r is Err),
            final(solver).edits() == old(solver).edits(),
            final(solver).constraints() == old(solver).constraints(),
            final(self).offset.x <= 0 || final(self).offset.x == old(self).offset.x,
            final(self).offset.y <= 0 || final(self).offset.y == old(self).offset.y,
    {
        let scroll_x = solver.has_edit_variable(layout.left);
        let scroll_y = solver.has_edit_variable(layout.top);
        if !scroll_x && !scroll_y {
            return Ok(None);
        }
        let widget_bounds = layout.bounds(solver);
        let parent_bounds = parent_layout.bounds(solver);
        if scroll_x {
            self.offset.x = scroll_offset(
                self.offset.x,
                scroll.x,
                parent_bounds.width - widget_bounds.width,
            );
        }
        if scroll_y {
            self.offset.y = scroll_offset(
                self.offset.y,
                scroll.y,
                parent_bounds.height - widget_bounds.height,
            );
        }
        let mut suggested = Scrolled { left: None, top: None };
        let mut outcome: Result<(), SolverError> = Ok(());
        if scroll_x {
            let target: i64 = parent_bounds.left + self.offset.x;
            suggested.left = Some(target);
            outcome = solver.suggest_value(layout.left, target);
        }
        if scroll_y {
            let target: i64 = parent_bounds.top + self.offset.y;
            suggested.top = Some(target);
            let answer = solver.suggest_value(layout.top, target);
            if outcome.is_ok() {
                outcome = answer;
            }
        }
        match outcome {
            Ok(()) => Ok(Some(suggested)),
            Err(e) => Err(e),
        }
    }
}

} // verus!
