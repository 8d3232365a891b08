//! The state of one user interface as far as layout goes: the solver, and
//! for each widget its edge variables and the box it was last given.

use cassowary::Variable;
use vstd::prelude::*;

use crate::backend::{same_variable, SolverError};
use crate::layout::{applied, apply_changes, notified, BoundsChange, LayoutChanged, VarType};
use crate::solver::{Change, LimnSolver};
use crate::util::Rectangle;
use crate::widget::layout::{Edges, WidgetLayout};

verus! {

/// What a change of `variable` means for the widget `id` with the edges
/// `edges`, under the solved values `values`. A changed left or right edge
/// gives the edge and the width, a changed top or bottom edge gives the
/// edge and the height; a variable that is none of the widget's edges gives
/// nothing.
pub open spec fn widget_entries(
    id: usize,
    edges: Edges,
    variable: Variable,
    values: spec_fn(Variable) -> int,
) -> Seq<BoundsChange> {
    let left = values(edges.left);
    let top = values(edges.top);
    let right = values(edges.right);
    let bottom = values(edges.bottom);
    (if variable == edges.left {
        seq![(id, VarType::Left, left as i64), (id, VarType::Width, (right - left) as i64)]
    } else {
        Seq::<BoundsChange>::empty()
    }) + (if variable == edges.top {
        seq![(id, VarType::Top, top as i64), (id, VarType::Height, (bottom - top) as i64)]
    } else {
        Seq::<BoundsChange>::empty()
    }) + (if variable == edges.right {
        seq![(id, VarType::Right, right as i64), (id, VarType::Width, (right - left) as i64)]
    } else {
        Seq::<BoundsChange>::empty()
    }) + (if variable == edges.bottom {
        seq![(id, VarType::Bottom, bottom as i64), (id, VarType::Height, (bottom - top) as i64)]
    } else {
        Seq::<BoundsChange>::empty()
    })
}

/// What a change of `variable` means for the first `count` widgets, in the
/// order of their identifiers.
pub open spec fn variable_entries(
    edges: Seq<Edges>,
    count: int,
    variable: Variable,
    values: spec_fn(Variable) -> int,
) -> Seq<BoundsChange>
    decreases count,
{
    if count <= 0 {
        Seq::<BoundsChange>::empty()
    } else {
        variable_entries(edges, count - 1, variable, values) + widget_entries(
            (count - 1) as usize,
            edges[count - 1],
            variable,
            values,
        )
    }
}

/// What the changed variables of `changes` mean for the widgets, change by
/// change.
pub open spec fn change_entries(
    edges: Seq<Edges>,
    changes: Seq<Change>,
    values: spec_fn(Variable) -> int,
) -> Seq<BoundsChange>
    decreases changes.len(),
{
    if changes.len() == 0 {
        Seq::<BoundsChange>::empty()
    } else {
        change_entries(edges, changes.drop_last(), values) + variable_entries(
            edges,
            edges.len() as int,
            changes.last().0,
            values,
        )
    }
}

/// The layout state of a user interface.
pub struct Ui {
    /// The constraint system.
    pub solver: LimnSolver,
    /// The edge variables of each widget; a widget's identifier is its
    /// index here.
    pub edges: Vec<Edges>,
    /// The box that each widget was last given.
    pub bounds: Vec<Rectangle>,
}

impl Ui {
    /// The solver is well formed and every widget has a box.
    pub open spec fn wf(&self) -> bool {
        &&& self.solver.wf()
        &&& self.edges@.len() == self.bounds@.len()
    }

    /// Whether the two states have the same widgets and boxes.
    pub open spec fn same_widgets(&self, other: &Ui) -> bool {
        &&& self.edges@ == other.edges@
        &&& self.bounds@ == other.bounds@
    }

    /// What `update_layout` does for the node `layout`: `after` is the state
    /// afterwards and `r` the result.
    ///
    /// Widgets and boxes stay. The solver is brought up to date as
    /// `LimnSolver::updated` says, with some list of changes on success. The
    /// result is `None` exactly where that list is empty, and else the
    /// event that translates the list. On an error the solver's error comes
    /// back. So on a solver that was settled for the node the result is
    /// `None`, and all that can be observed of the solver stays as it was.
    pub open spec fn updated(
        &self,
        layout: &WidgetLayout,
        after: &Ui,
        r: Result<Option<LayoutChanged>, SolverError>,
    ) -> bool {
        &&& after.same_widgets(self)
        &&& r is Err ==> self.solver.updated(layout, &after.solver, Err(r->Err_0))
        &&& r is Ok ==> exists|changes: Vec<Change>|
            (#[trigger] self.solver.updated(layout, &after.solver, Ok(changes))) && (
            r->Ok_0 is None <==> changes@.len() == 0) && (r->Ok_0 is Some ==> r->Ok_0->Some_0.0@
                == change_entries(after.edges@, changes@, after.solver.values()))
        &&& r is Ok ==> after.solver.settled(layout)
        &&& self.solver.settled(layout) ==> r is Ok && r->Ok_0 is None && after.solver.agrees(
            &self.solver,
        )
    }

    /// A user interface without widgets, with an empty solver.
    pub fn new() -> (r: Ui)
        ensures
            r.wf(),
            r.edges@.len() == 0,
            r.bounds@.len() == 0,
            r.solver.constraints().len() == 0,
            !r.solver.failed(),
            r.solver.edits() == Set::<Variable>::empty(),
            r.solver.unreported() == Set::<Variable>::empty(),
    {
        Ui { solver: LimnSolver::new(), edges: Vec::new(), bounds: Vec::new() }
    }

    /// Takes in a widget: notes its edge variables, gives it the empty box
    /// at the origin, and hands out its identifier.
    pub fn add_widget(&mut self, layout: &WidgetLayout) -> (id: usize)
        requires
            old(self).wf(),
        ensures
            final(self).wf(),
            id == old(self).edges@.len(),
            final(self).edges@ == old(self).edges@.push(layout.edges()),
            final(self).bounds@ == old(self).bounds@.push(
                Rectangle { left: 0, top: 0, width: 0, height: 0 },
            ),
            final(self).solver == old(self).solver,
    {
        let id = self.edges.len();
        self.edges.push(layout.get_edges());
        self.bounds.push(Rectangle { left: 0, top: 0, width: 0, height: 0 });
        id
    }

    /// The box that the widget `id` was last given, if there is such a
    /// widget.
    pub fn get_bounds(&self, id: usize) -> (r: Option<Rectangle>)
        ensures
            r == (if id < self.bounds@.len() {
                Some(self.bounds@[id as int])
            } else {
                None
            }),
    {
        if id < self.bounds.len() {
            Some(self.bounds[id])
        } else {
            None
        }
    }

    /// Appends to `out` what a change of `variable` means for the widget
    /// `id`.
    fn push_widget_entries(&self, out: &mut Vec<BoundsChange>, id: usize, variable: Variable)
        requires
            id < self.edges@.len(),
        ensures
            final(out)@ == old(out)@ + widget_entries(
                id,
                self.edges@[id as int],
                variable,
                self.solver.values(),
            ),
    {
        let edges = self.edges[id];
        let left: i64 = self.solver.get_value(edges.left) as i64;
        let top: i64 = self.solver.get_value(edges.top) as i64;
        let right: i64 = self.solver.get_value(edges.right) as i64;
        let bottom: i64 = self.solver.get_value(edges.bottom) as i64;
        let ghost start = out@;
        let ghost none = Seq::<BoundsChange>::empty();
        let ghost first = if variable == edges.left {
            seq![(id, VarType::Left, left), (id, VarType::Width, (right - left) as i64)]
        } else {
            none
        };
        let ghost second = if variable == edges.top {
            seq![(id, VarType::Top, top), (id, VarType::Height, (bottom - top) as i64)]
        } else {
            none
        };
        let ghost third = if variable == edges.right {
            seq![(id, VarType::Right, right), (id, VarType::Width, (right - left) as i64)]
        } else {
            none
        };
        let ghost fourth = if variable == edges.bottom {
            seq![(id, VarType::Bottom, bottom), (id, VarType::Height, (bottom - top) as i64)]
        } else {
            none
        };
        if same_variable(variable, edges.left) {
            out.push((id, VarType::Left, left));
            out.push((id, VarType::Width, right - left));
        }
        assert(out@ =~= start + first);
        if same_variable(variable, edges.top) {
            out.push((id, VarType::Top, top));
            out.push((id, VarType::Height, bottom - top));
        }
        assert(out@ =~= start + first + second);
        if same_variable(variable, edges.right) {
            out.push((id, VarType::Right, right));
            out.push((id, VarType::Width, right - left));
        }
        assert(out@ =~= start + first + second + third);
        if same_variable(variable, edges.bottom) {
            out.push((id, VarType::Bottom, bottom));
            out.push((id, VarType::Height, bottom - top));
        }
        proof {
            assert(out@ =~= start + (first + second + third + fourth));
            assert(first + second + third + fourth == widget_entries(
                id,
                self.edges@[id as int],
                variable,
                self.solver.values(),
            ));
        }
    }

    /// Translates the solver's changed variables into changed quantities
    /// of the widgets' boxes: see `change_entries`.
    pub fn check_layout_changes(&self, changes: &[Change]) -> (r: LayoutChanged)
        ensures
            r.0@ == change_entries(self.edges@, changes@, self.solver.values()),
    {
        let ghost values = self.solver.values();
        let mut out: Vec<BoundsChange> = Vec::new();
        let mut i: usize = 0;
        proof {
            assert(changes@.take(0) =~= Seq::<Change>::empty());
        }
        while i < changes.len()
            invariant
                i <= changes.len(),
                values == self.solver.values(),
                out@ == change_entries(self.edges@, changes@.take(i as int), values),
            decreases changes.len() - i,
        {
            let variable = changes[i].0;
            let ghost before = out@;
            let mut id: usize = 0;
            proof {
                assert(out@ =~= before + variable_entries(self.edges@, 0, variable, values));
            }
            while id < self.edges.len()
                invariant
                    id <= self.edges.len(),
                    values == self.solver.values(),
                    out@ == before + variable_entries(self.edges@, id as int, variable, values),
                decreases self.edges.len() - id,
            {
                self.push_widget_entries(&mut out, id, variable);
                proof {
                    assert(out@ =~= before + variable_entries(
                        self.edges@,
                        id + 1,
                        variable,
                        values,
                    ));
                }
                id += 1;
            }
            proof {
                assert(changes@.take(i + 1).drop_last() =~= changes@.take(i as int));
                assert(changes@.take(i + 1).last() == changes@[i as int]);
            }
            i += 1;
        }
        proof {
            assert(changes@.take(i as int) =~= changes@);
        }
        LayoutChanged(out)
    }

    /// Brings the solver up to date with a widget's layout node and
    /// translates the solved values that changed; `None` where none did.
    ///
    /// On a solver that is settled for the node this gives `None` and
    /// leaves all that can be observed of the solver as it was; after a
    /// call that succeeded the solver is settled for the node. When the
    /// solver refuses a constraint of the node, its error comes back.
    pub fn update_layout(&mut self, layout: &WidgetLayout) -> (r: Result<
        Option<LayoutChanged>,
        SolverError,
    >)
        requires
            old(self).wf(),
        ensures
            final(self).wf(),
            old(self).updated(layout, final(self), r),
    {
        match self.solver.update_layout(layout) {
            Err(e) => Err(e),
            Ok(changes) => {
                proof {
                    assert(old(self).solver.updated(layout, &self.solver, Ok(changes)));
                }
                if changes.len() == 0 {
                    Ok(None)
                } else {
                    let event = self.check_layout_changes(changes.as_slice());
                    Ok(Some(event))
                }
            },
        }
    }

    /// Gives the widgets the changed quantities of `event`, in order, and
    /// tells which widgets are to be told that their box has changed.
    pub fn layout_changed(&mut self, event: &LayoutChanged) -> (updated: Vec<usize>)
        requires
            old(self).wf(),
        ensures
            final(self).wf(),
            final(self).bounds@ == applied(old(self).bounds@, event.0@),
            updated@ == notified(old(self).bounds@.len() as int, event.0@),
            final(self).edges@ == old(self).edges@,
            final(self).solver == old(self).solver,
    {
        proof {
            crate::layout::lemma_applied_len(self.bounds@, event.0@);
        }
        apply_changes(&mut self.bounds, event.0.as_slice())
    }
}

} // verus!
