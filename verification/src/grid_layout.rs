//! A container that places its children in the cells of a grid, row by row.

use vstd::prelude::*;

use crate::backend::same_variable;
use crate::constraint::{
    lemma_holds_balance, lemma_holds_between, lemma_satisfied_member, satisfied, views,
    ConstraintView, LinearConstraint, Relation, Strength, Valuation,
};
use crate::filtering::{inside, outside};
use crate::widget::layout::{includes, Edges, WidgetLayout};

verus! {

/// The row and the column of the `index`-th child of a grid with
/// `num_columns` columns: children fill a row from the left, then the next
/// row.
pub open spec fn grid_cell(num_columns: int, index: int) -> (int, int) {
    (index / num_columns, index % num_columns)
}

/// What a grid asks of the child that comes after the children `earlier`.
///
/// Along each axis the children are chained as in a linear list without
/// padding, at strength `Strong`: the child begins at or after the right
/// edge of the child before it in its row (the parent's left edge in the
/// first column), and at or after the bottom edge of the child above it in
/// its column (the parent's top edge in the first row).
///
/// The first child of a column is the column's template, and the first
/// child of a row is the row's: every other child is required to be as wide
/// as the template of its column and as high as the template of its row.
pub open spec fn grid_rules(num_columns: int, parent: Edges, earlier: Seq<Edges>, child: Edges)
    -> Seq<ConstraintView> {
    let index = earlier.len() as int;
    let (row, column) = grid_cell(num_columns, index);
    seq![
        ConstraintView::between(
            child.left,
            Relation::GreaterOrEqual,
            if column == 0 {
                parent.left
            } else {
                earlier[index - 1].right
            },
            Strength::Strong,
        ),
        ConstraintView::between(
            child.top,
            Relation::GreaterOrEqual,
            if row == 0 {
                parent.top
            } else {
                earlier[index - num_columns].bottom
            },
            Strength::Strong,
        ),
    ] + (if row == 0 {
        Seq::<ConstraintView>::empty()
    } else {
        seq![
            ConstraintView::balance(
                child.right,
                child.left,
                earlier[column].right,
                earlier[column].left,
                Strength::Required,
            ),
        ]
    }) + (if column == 0 {
        Seq::<ConstraintView>::empty()
    } else {
        seq![
            ConstraintView::balance(
                child.bottom,
                child.top,
                earlier[index - column].bottom,
                earlier[index - column].top,
                Strength::Required,
            ),
        ]
    })
}

/// The children of a grid keep to their cells: under every assignment that
/// satisfies, at strength `Strong` and above, a list which includes what the
/// grid asks of the child that comes after `earlier`, that child begins at
/// or after the right edge of the child before it in its row and at or
/// after the bottom edge of the child above it, is as wide as the first
/// child of its column and as high as the first child of its row.
pub proof fn lemma_grid_placement(
    num_columns: int,
    parent: Edges,
    earlier: Seq<Edges>,
    child: Edges,
    rules: Seq<ConstraintView>,
    at: Valuation,
)
    requires
        num_columns > 0,
        includes(rules, grid_rules(num_columns, parent, earlier, child)),
        satisfied(rules, Strength::Strong, at),
    ensures
        ({
            let index = earlier.len() as int;
            let (row, column) = grid_cell(num_columns, index);
            &&& column == 0 ==> at(child.left) >= at(parent.left)
            &&& column > 0 ==> at(child.left) >= at(earlier[index - 1].right)
            &&& row == 0 ==> at(child.top) >= at(parent.top)
            &&& row > 0 ==> at(child.top) >= at(earlier[index - num_columns].bottom)
            &&& row > 0 ==> at(child.right) - at(child.left) == at(earlier[column].right) - at(
                earlier[column].left,
            )
            &&& column > 0 ==> at(child.bottom) - at(child.top) == at(
                earlier[index - column].bottom,
            ) - at(earlier[index - column].top)
        }),
{
    let index = earlier.len() as int;
    let (row, column) = grid_cell(num_columns, index);
    let asked = grid_rules(num_columns, parent, earlier, child);
    assert(0 <= column < num_columns && row >= 0) by (nonlinear_arith)
        requires
            num_columns > 0,
            index >= 0,
            row == index / num_columns,
            column == index % num_columns,
    ;
    let before = if column == 0 {
        parent.left
    } else {
        earlier[index - 1].right
    };
    let above = if row == 0 {
        parent.top
    } else {
        earlier[index - num_columns].bottom
    };
    lemma_satisfied_member(rules, Strength::Strong, at, asked[0]);
    lemma_satisfied_member(rules, Strength::Strong, at, asked[1]);
    lemma_holds_between(child.left, Relation::GreaterOrEqual, before, Strength::Strong, at);
    lemma_holds_between(child.top, Relation::GreaterOrEqual, above, Strength::Strong, at);
    if row > 0 {
        lemma_satisfied_member(rules, Strength::Strong, at, asked[2]);
        lemma_holds_balance(
            child.right,
            child.left,
            earlier[column].right,
            earlier[column].left,
            Strength::Required,
            at,
        );
    }
    if column > 0 {
        let k = if row > 0 {
            3int
        } else {
            2int
        };
        lemma_satisfied_member(rules, Strength::Strong, at, asked[k]);
        lemma_holds_balance(
            child.bottom,
            child.top,
            earlier[index - column].bottom,
            earlier[index - column].top,
            Strength::Required,
            at,
        );
    }
}

/// The constraints of `grid_rules` for the child that comes after the
/// first `index` of `children`, as a list.
pub fn grid_constraints(
    num_columns: usize,
    parent: Edges,
    children: &Vec<Edges>,
    index: usize,
    child: Edges,
) -> (r: Vec<LinearConstraint>)
    requires
        num_columns > 0,
        index <= children@.len(),
    ensures
        views(r@) == grid_rules(num_columns as int, parent, children@.take(index as int), child),
{
    let row = index / num_columns;
    let column = index % num_columns;
    let ghost earlier = children@.take(index as int);
    proof {
        assert(index as int == num_columns * (index as int / num_columns as int) + index as int
            % num_columns as int) by (nonlinear_arith)
            requires
                num_columns > 0,
        ;
        assert(row > 0 ==> index >= num_columns) by (nonlinear_arith)
            requires
                num_columns > 0,
                row == index as int / num_columns as int,
                index >= 0,
        ;
    }
    let mut list: Vec<LinearConstraint> = Vec::new();
    let before = if column == 0 {
        parent.left
    } else {
        children[index - 1].right
    };
    list.push(
        LinearConstraint::between(child.left, Relation::GreaterOrEqual, before, Strength::Strong),
    );
    let above = if row == 0 {
        parent.top
    } else {
        children[index - num_columns].bottom
    };
    list.push(
        LinearConstraint::between(child.top, Relation::GreaterOrEqual, above, Strength::Strong),
    );
    if row != 0 {
        let template = children[column];
        list.push(
            LinearConstraint::balance(
                child.right,
                child.left,
                template.right,
                template.left,
                Strength::Required,
            ),
        );
    }
    if column != 0 {
        let template = children[index - column];
        list.push(
            LinearConstraint::balance(
                child.bottom,
                child.top,
                template.bottom,
                template.top,
                Strength::Required,
            ),
        );
    }
    proof {
        assert(views(list@) =~= grid_rules(num_columns as int, parent, earlier, child));
    }
    list
}

/// Where some child of a grid has the left edge of `child`, one of them is
/// the first.
pub proof fn lemma_first_place_exists(grid: &GridLayout, child: Edges, j: int)
    requires
        0 <= j < grid.children@.len(),
        grid.children@[j].left == child.left,
    ensures
        exists|k: int| grid.first_place(child, k),
    decreases j,
{
    if exists|i: int| 0 <= i < j && (#[trigger] grid.children@[i]).left == child.left {
        let i = choose|i: int| 0 <= i < j && (#[trigger] grid.children@[i]).left == child.left;
        lemma_first_place_exists(grid, child, i);
    } else {
        assert(grid.first_place(child, j));
    }
}

/// A grid of a fixed number of columns.
#[derive(Debug)]
pub struct GridLayout {
    /// The number of columns, at least one.
    pub num_columns: usize,
    /// The edges of the widget that holds the grid.
    pub parent: Edges,
    /// The edges of every child that was added, in order: the child at
    /// index `i` has the cell `grid_cell(num_columns, i)`. A child that was
    /// removed keeps its place here, and its cell stays empty.
    pub children: Vec<Edges>,
}

impl GridLayout {
    /// A grid has at least one column.
    pub open spec fn wf(&self) -> bool {
        self.num_columns > 0
    }

    /// What the grid asks of a child that is added now.
    pub open spec fn child_rules(&self, child: Edges) -> Seq<ConstraintView> {
        grid_rules(self.num_columns as int, self.parent, self.children@, child)
    }

    /// What the grid asked of `child` when it added it as its `k`-th child.
    pub open spec fn placed_rules(&self, k: int, child: Edges) -> Seq<ConstraintView> {
        grid_rules(self.num_columns as int, self.parent, self.children@.take(k), child)
    }

    /// Whether the `k`-th child is the first one with the left edge of
    /// `child`.
    pub open spec fn first_place(&self, child: Edges, k: int) -> bool {
        &&& 0 <= k < self.children@.len()
        &&& self.children@[k].left == child.left
        &&& forall|j: int| 0 <= j < k ==> (#[trigger] self.children@[j]).left != child.left
    }

    /// What adding the child `widget` does: `after` is the grid and `child`
    /// the widget afterwards.
    pub open spec fn added(&self, widget: &WidgetLayout, after: &GridLayout, child: &WidgetLayout)
        -> bool {
        &&& widget.extended_by(self.child_rules(widget.edges()), child)
        &&& after.num_columns == self.num_columns
        &&& after.parent == self.parent
        &&& after.children@ == self.children@.push(widget.edges())
    }

    /// What removing the child `widget` does: the grid stays as it is; the
    /// widget loses every constraint that says the same as one that the
    /// grid asked of it when it was first added, and `retracted` is what
    /// the constraints that were handed back say. A widget that the grid
    /// never added stays as it is.
    pub open spec fn removed(
        &self,
        widget: &WidgetLayout,
        child: &WidgetLayout,
        retracted: Seq<ConstraintView>,
    ) -> bool {
        &&& child.edges() == widget.edges()
        &&& child.scrollable == widget.scrollable
        &&& (forall|j: int| 0 <= j < self.children@.len() ==> (#[trigger] self.children@[j]).left
            != widget.left) ==> *child == *widget && retracted.len() == 0
        &&& forall|k: int| #[trigger]
            self.first_place(widget.edges(), k) ==> {
                &&& child.rules() == widget.rules().filter(
                    outside(self.placed_rules(k, widget.edges())),
                )
                &&& retracted == widget.rules().filter(inside(self.placed_rules(k, widget.edges())))
            }
    }

    /// An empty grid of `num_columns` columns inside `parent`.
    pub fn new(parent: &WidgetLayout, num_columns: usize) -> (r: GridLayout)
        requires
            num_columns > 0,
        ensures
            r.wf(),
            r.num_columns == num_columns,
            r.parent == parent.edges(),
            r.children@ == Seq::<Edges>::empty(),
    {
        GridLayout { num_columns, parent: parent.get_edges(), children: Vec::new() }
    }

    /// The row and the column of the `index`-th child.
    pub fn cell(&self, index: usize) -> (r: (usize, usize))
        requires
            self.wf(),
        ensures
            (r.0 as int, r.1 as int) == grid_cell(self.num_columns as int, index as int),
    {
        (index / self.num_columns, index % self.num_columns)
    }

    /// The number of children that were added.
    pub fn len(&self) -> (r: usize)
        ensures
            r == self.children@.len(),
    {
        self.children.len()
    }

    /// Adds a child in the next cell: the child gets the constraints of
    /// `child_rules`, and the grid notes its edges. No other widget is
    /// touched.
    pub fn add_widget(&mut self, child: &mut WidgetLayout)
        requires
            old(self).wf(),
        ensures
            final(self).wf(),
            old(self).added(old(child), final(self), final(child)),
    {
        let edges = child.get_edges();
        proof {
            assert(self.children@.take(self.children@.len() as int) =~= self.children@);
        }
        let constraints = grid_constraints(
            self.num_columns,
            self.parent,
            &self.children,
            self.children.len(),
            edges,
        );
        child.add_constraints(constraints.as_slice());
        self.children.push(edges);
    }

    /// Takes a child out of the grid; see `removed`. The constraints that
    /// the child lost are handed back, to be withdrawn from the solver.
    pub fn remove_widget(&self, child: &mut WidgetLayout) -> (retracted: Vec<
        LinearConstraint,
    >)
        requires
            self.wf(),
        ensures
            self.removed(old(child), final(child), views(retracted@)),
    {
        let edges = child.get_edges();
        let mut k: usize = 0;
        let mut found = false;
        while k < self.children.len() && !found
            invariant
                k <= self.children.len(),
                *child == *old(child),
                forall|j: int| 0 <= j < k ==> (#[trigger] self.children@[j]).left != edges.left,
                found ==> k < self.children.len() && self.children@[k as int].left == edges.left,
            decreases self.children.len() - k + (if found { 0int } else { 1int }),
        {
            if same_variable(self.children[k].left, edges.left) {
                found = true;
            } else {
                k += 1;
            }
        }
        if !found {
            let nothing: Vec<LinearConstraint> = Vec::new();
            proof {
                assert(views(nothing@) =~= Seq::<ConstraintView>::empty());
            }
            return nothing;
        }
        assert(self.first_place(edges, k as int));
        let targets = grid_constraints(self.num_columns, self.parent, &self.children, k, edges);
        child.remove_constraints(targets.as_slice())
    }
}

} // verus!
