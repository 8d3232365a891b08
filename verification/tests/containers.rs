use limn::backend::SolverError;
use limn::constraint::{LinearConstraint, LinearExpression, Relation, Strength};
use limn::grid_layout::{grid_constraints, GridLayout};
use limn::layout::{
    handle, ChildrenUpdatedEvent, Container, ExactFrame, Frame, LayoutContainer, WidgetBuilder,
};
use limn::solver::LimnSolver;
use limn::util::Rectangle;
use limn::widget::layout::{
    linear_constraints, LinearLayout, Orientation, Variables, WidgetLayout,
};

fn node() -> WidgetLayout {
    WidgetLayout::new(&mut Variables::new())
}

fn equals(variable: cassowary::Variable, value: i32, strength: Strength) -> LinearConstraint {
    LinearConstraint::new(
        LinearExpression::variable(variable),
        Relation::Equal,
        LinearExpression::constant(value),
        strength,
    )
}

fn fixed(left: i32, top: i32, right: i32, bottom: i32) -> WidgetLayout {
    let mut layout = node();
    layout.add_constraint(equals(layout.left, left, Strength::Required));
    layout.add_constraint(equals(layout.top, top, Strength::Required));
    layout.add_constraint(equals(layout.right, right, Strength::Required));
    layout.add_constraint(equals(layout.bottom, bottom, Strength::Required));
    layout
}

fn sized(width: i32, height: i32) -> WidgetLayout {
    let mut layout = node();
    layout.width(width);
    layout.height(height);
    // a weak pull towards the origin makes the solution unique
    layout.add_constraint(equals(layout.left, 0, Strength::Weak));
    layout.add_constraint(equals(layout.top, 0, Strength::Weak));
    layout
}

#[test]
fn beginning_and_ending_follow_the_orientation() {
    let layout = node();
    assert!(LinearLayout::beginning(Orientation::Horizontal, &layout) == layout.left);
    assert!(LinearLayout::beginning(Orientation::Vertical, &layout) == layout.top);
    assert!(LinearLayout::ending(Orientation::Horizontal, &layout) == layout.right);
    assert!(LinearLayout::ending(Orientation::Vertical, &layout) == layout.bottom);
    let edges = layout.get_edges();
    assert!(Orientation::Horizontal.leading_edge(edges) == layout.left);
    assert!(Orientation::Vertical.trailing_edge(edges) == layout.bottom);
}

#[test]
fn new_linear_layout_starts_at_the_parents_leading_edge() {
    let parent = node();
    let list = LinearLayout::new(Orientation::Vertical, &parent, 4, true);
    assert!(list.end == parent.top);
    assert_eq!(list.padding, 4);
    assert!(list.expand);
    assert_eq!(list.orientation, Orientation::Vertical);
    assert_eq!(list.links.len(), 0);
    let list = LinearLayout::new(Orientation::Horizontal, &parent, 0, false);
    assert!(list.end == parent.left);
}

#[test]
fn linear_constraints_have_the_stated_shape() {
    let parent = node();
    let child = node();
    let plain = linear_constraints(
        Orientation::Horizontal,
        parent.get_edges(),
        5,
        false,
        parent.left,
        child.get_edges(),
    );
    assert_eq!(plain.len(), 1);
    assert!(plain[0].same(&LinearConstraint::beside(
        child.left,
        Relation::GreaterOrEqual,
        parent.left,
        5,
        Strength::Strong
    )));
    let expanding = linear_constraints(
        Orientation::Vertical,
        parent.get_edges(),
        5,
        true,
        parent.top,
        child.get_edges(),
    );
    assert_eq!(expanding.len(), 3);
    assert!(expanding[0].same(&LinearConstraint::beside(
        child.top,
        Relation::GreaterOrEqual,
        parent.top,
        5,
        Strength::Strong
    )));
    assert!(expanding[1].same(&LinearConstraint::between(
        child.left,
        Relation::Equal,
        parent.left,
        Strength::Required
    )));
    assert!(expanding[2].same(&LinearConstraint::between(
        child.right,
        Relation::Equal,
        parent.right,
        Strength::Required
    )));
}

#[test]
fn linear_layout_orders_its_children() {
    let mut solver = LimnSolver::new();
    let parent = fixed(0, 0, 500, 100);
    let mut list = LinearLayout::new(Orientation::Horizontal, &parent, 10, false);
    let mut children = vec![sized(50, 20), sized(70, 20), sized(30, 20)];
    for child in children.iter_mut() {
        list.add_widget(child);
    }
    assert!(list.end == children[2].right);
    assert_eq!(list.links.len(), 3);
    assert!(solver.update_layout(&parent).is_ok());
    for child in children.iter() {
        assert!(solver.update_layout(child).is_ok());
    }
    let boxes: Vec<Rectangle> = children.iter().map(|c| c.bounds(&solver)).collect();
    assert!(boxes[0].left >= 0 + 10);
    assert!(boxes[1].left >= boxes[0].left + boxes[0].width + 10);
    assert!(boxes[2].left >= boxes[1].left + boxes[1].width + 10);
    assert_eq!(boxes[0], Rectangle { left: 10, top: 0, width: 50, height: 20 });
    assert_eq!(boxes[1], Rectangle { left: 70, top: 0, width: 70, height: 20 });
    assert_eq!(boxes[2], Rectangle { left: 150, top: 0, width: 30, height: 20 });

    // one more child: the order holds, and the others stay where they were
    let mut more = sized(40, 20);
    list.add_widget(&mut more);
    assert_eq!(children[0].constraints.len(), 5);
    assert!(solver.update_layout(&more).is_ok());
    let after: Vec<Rectangle> = children.iter().map(|c| c.bounds(&solver)).collect();
    assert_eq!(after, boxes);
    let last = more.bounds(&solver);
    assert!(last.left >= boxes[2].left + boxes[2].width + 10);
    assert_eq!(last, Rectangle { left: 190, top: 0, width: 40, height: 20 });
}

#[test]
fn vertical_list_that_expands_pins_the_width() {
    let mut solver = LimnSolver::new();
    let parent = fixed(5, 0, 205, 400);
    let mut list = LinearLayout::new(Orientation::Vertical, &parent, 3, true);
    let mut first = node();
    first.height(40);
    first.add_constraint(equals(first.top, 0, Strength::Weak));
    let mut second = node();
    second.height(60);
    second.add_constraint(equals(second.top, 0, Strength::Weak));
    list.add_widget(&mut first);
    list.add_widget(&mut second);
    assert_eq!(first.constraints.len(), 5);
    assert!(solver.update_layout(&parent).is_ok());
    assert!(solver.update_layout(&first).is_ok());
    assert!(solver.update_layout(&second).is_ok());
    assert_eq!(
        first.bounds(&solver),
        Rectangle { left: 5, top: 3, width: 200, height: 40 }
    );
    assert_eq!(
        second.bounds(&solver),
        Rectangle { left: 5, top: 46, width: 200, height: 60 }
    );
}

#[test]
fn removed_child_loses_its_constraints_and_siblings_are_not_relinked() {
    let mut solver = LimnSolver::new();
    let parent = fixed(0, 0, 500, 100);
    let mut list = LinearLayout::new(Orientation::Horizontal, &parent, 10, true);
    let mut a = sized(50, 100);
    let mut b = sized(70, 100);
    let mut c = sized(30, 100);
    list.add_widget(&mut a);
    list.add_widget(&mut b);
    list.add_widget(&mut c);
    assert!(solver.update_layout(&parent).is_ok());
    assert!(solver.update_layout(&a).is_ok());
    assert!(solver.update_layout(&b).is_ok());
    assert!(solver.update_layout(&c).is_ok());
    assert_eq!(solver.get_value(c.left), 150);

    let count = solver.constraint_count();
    let retracted = list.remove_widget(&mut b);
    assert_eq!(retracted.len(), 3);
    assert!(retracted[0].same(&LinearConstraint::beside(
        b.left,
        Relation::GreaterOrEqual,
        a.right,
        10,
        Strength::Strong
    )));
    assert_eq!(b.constraints.len(), 4);
    assert_eq!(list.links.len(), 2);
    assert!(list.end == c.right);
    assert_eq!(solver.retract(&retracted), Ok(()));
    assert_eq!(solver.constraint_count(), count - 3);
    // the child after it is still held by the edge of the one that left
    assert!(c.constraints[4].same(&LinearConstraint::beside(
        c.left,
        Relation::GreaterOrEqual,
        b.right,
        10,
        Strength::Strong
    )));
    assert_eq!(solver.get_value(b.left), 0);
    assert_eq!(solver.get_value(c.left), 80);

    // a second removal finds no note of the child
    let again = list.remove_widget(&mut b);
    assert_eq!(again.len(), 0);
    assert_eq!(b.constraints.len(), 4);
    assert_eq!(list.links.len(), 2);
}

#[test]
fn grid_cells_follow_insertion_order() {
    let parent = node();
    let grid = GridLayout::new(&parent, 2);
    assert_eq!(grid.cell(0), (0, 0));
    assert_eq!(grid.cell(1), (0, 1));
    assert_eq!(grid.cell(2), (1, 0));
    assert_eq!(grid.cell(5), (2, 1));
    let wide = GridLayout::new(&parent, 3);
    assert_eq!(wide.cell(5), (1, 2));
    let single = GridLayout::new(&parent, 1);
    assert_eq!(single.cell(4), (4, 0));
}

#[test]
fn grid_of_two_columns_with_three_children() {
    let mut solver = LimnSolver::new();
    let parent = fixed(0, 0, 400, 400);
    let mut grid = GridLayout::new(&parent, 2);
    let mut a = sized(50, 50);
    let mut b = sized(50, 50);
    let mut c = sized(50, 50);
    grid.add_widget(&mut a);
    grid.add_widget(&mut b);
    grid.add_widget(&mut c);
    assert_eq!(grid.len(), 3);
    assert_eq!(a.constraints.len(), 4 + 2);
    assert_eq!(b.constraints.len(), 4 + 3);
    assert_eq!(c.constraints.len(), 4 + 3);
    // the second child is as high as the first of its row
    assert!(b.constraints[6].same(&LinearConstraint::balance(
        b.bottom,
        b.top,
        a.bottom,
        a.top,
        Strength::Required
    )));
    // the third child is as wide as the first of its column
    assert!(c.constraints[6].same(&LinearConstraint::balance(
        c.right,
        c.left,
        a.right,
        a.left,
        Strength::Required
    )));
    assert!(solver.update_layout(&parent).is_ok());
    assert!(solver.update_layout(&a).is_ok());
    assert!(solver.update_layout(&b).is_ok());
    assert!(solver.update_layout(&c).is_ok());
    let a_box = a.bounds(&solver);
    let b_box = b.bounds(&solver);
    let c_box = c.bounds(&solver);
    assert_eq!(a_box, Rectangle { left: 0, top: 0, width: 50, height: 50 });
    assert_eq!(b_box, Rectangle { left: 50, top: 0, width: 50, height: 50 });
    assert_eq!(c_box, Rectangle { left: 0, top: 50, width: 50, height: 50 });
    assert!(b_box.left >= a_box.left + a_box.width);
    assert!(c_box.top >= a_box.top + a_box.height);
}

#[test]
fn grid_templates_size_the_later_children() {
    let mut solver = LimnSolver::new();
    let parent = fixed(0, 0, 400, 400);
    let mut grid = GridLayout::new(&parent, 2);
    let mut a = sized(60, 40);
    let mut b = node();
    b.width(80);
    let mut c = node();
    c.height(30);
    let mut d = node();
    for child in [&mut b, &mut c, &mut d] {
        child.add_constraint(equals(child.left, 0, Strength::Weak));
        child.add_constraint(equals(child.top, 0, Strength::Weak));
    }
    grid.add_widget(&mut a);
    grid.add_widget(&mut b);
    grid.add_widget(&mut c);
    grid.add_widget(&mut d);
    assert!(solver.update_layout(&parent).is_ok());
    for child in [&a, &b, &c, &d] {
        assert!(solver.update_layout(child).is_ok());
    }
    assert_eq!(a.bounds(&solver), Rectangle { left: 0, top: 0, width: 60, height: 40 });
    assert_eq!(b.bounds(&solver), Rectangle { left: 60, top: 0, width: 80, height: 40 });
    assert_eq!(c.bounds(&solver), Rectangle { left: 0, top: 40, width: 60, height: 30 });
    assert_eq!(d.bounds(&solver), Rectangle { left: 60, top: 40, width: 80, height: 30 });
}

#[test]
fn grid_constraints_for_the_first_cell() {
    let parent = node();
    let child = node();
    let none = Vec::new();
    let list = grid_constraints(3, parent.get_edges(), &none, 0, child.get_edges());
    assert_eq!(list.len(), 2);
    assert!(list[0].same(&LinearConstraint::between(
        child.left,
        Relation::GreaterOrEqual,
        parent.left,
        Strength::Strong
    )));
    assert!(list[1].same(&LinearConstraint::between(
        child.top,
        Relation::GreaterOrEqual,
        parent.top,
        Strength::Strong
    )));
}

#[test]
fn grid_removal_takes_back_what_the_grid_asked() {
    let parent = node();
    let mut grid = GridLayout::new(&parent, 2);
    let mut a = sized(50, 50);
    let mut b = sized(50, 50);
    grid.add_widget(&mut a);
    grid.add_widget(&mut b);
    let retracted = grid.remove_widget(&mut b);
    assert_eq!(retracted.len(), 3);
    assert_eq!(b.constraints.len(), 4);
    assert_eq!(grid.len(), 2);
    let stranger = sized(1, 1);
    let mut stranger = stranger;
    assert_eq!(grid.remove_widget(&mut stranger).len(), 0);
    assert_eq!(stranger.constraints.len(), 4);
}

#[test]
fn frame_without_padding_fills_the_parent() {
    let mut solver = LimnSolver::new();
    let parent = fixed(10, 20, 110, 220);
    let mut child = node();
    let mut frame = Frame::default();
    assert_eq!(frame.padding, 0);
    frame.add_child_layout(&parent, &mut child);
    assert_eq!(child.constraints.len(), 8);
    assert!(solver.update_layout(&parent).is_ok());
    assert!(solver.update_layout(&child).is_ok());
    assert_eq!(child.bounds(&solver), parent.bounds(&solver));
    assert_eq!(
        child.bounds(&solver),
        Rectangle { left: 10, top: 20, width: 100, height: 200 }
    );
}

#[test]
fn frame_with_padding_asks_what_cannot_hold() {
    let mut solver = LimnSolver::new();
    let parent = fixed(10, 20, 110, 220);
    let mut child = node();
    let mut frame = Frame::new(5);
    frame.add_child_layout(&parent, &mut child);
    assert!(child.constraints[0].same(&LinearConstraint::beside(
        child.left,
        Relation::GreaterOrEqual,
        parent.left,
        5,
        Strength::Required
    )));
    assert!(child.constraints[2].same(&LinearConstraint::new(
        LinearExpression::offset(child.right, 5),
        Relation::LessOrEqual,
        LinearExpression::variable(parent.right),
        Strength::Required
    )));
    assert!(solver.update_layout(&parent).is_ok());
    assert_eq!(
        solver.update_layout(&child),
        Err(SolverError::UnsatisfiableConstraint)
    );
}

#[test]
fn frame_removal_restores_the_child() {
    let parent = node();
    let mut child = node();
    child.width(10);
    let mut frame = Frame::new(2);
    frame.add_child_layout(&parent, &mut child);
    assert_eq!(child.constraints.len(), 9);
    let retracted = frame.remove_child_layout(&parent, &mut child);
    assert_eq!(retracted.len(), 8);
    assert_eq!(child.constraints.len(), 1);
    assert!(child.constraints[0].same(&LinearConstraint::extent(
        child.right,
        child.left,
        10,
        Strength::Required
    )));
}

#[test]
fn exact_frame_gives_the_child_the_parents_box() {
    let mut solver = LimnSolver::new();
    let parent = fixed(1, 2, 31, 42);
    let mut child = node();
    ExactFrame.add_child_layout(&parent, &mut child);
    assert_eq!(child.constraints.len(), 4);
    assert!(solver.update_layout(&parent).is_ok());
    assert!(solver.update_layout(&child).is_ok());
    assert_eq!(
        child.bounds(&solver),
        Rectangle { left: 1, top: 2, width: 30, height: 40 }
    );
    let retracted = ExactFrame.remove_child_layout(&parent, &mut child);
    assert_eq!(retracted.len(), 4);
    assert_eq!(child.constraints.len(), 0);
}

#[test]
fn container_handles_added_and_removed_children() {
    let parent = node();
    let mut container = Container::Linear(LinearLayout::new(
        Orientation::Horizontal,
        &parent,
        0,
        false,
    ));
    let mut child = node();
    let nothing = handle(&mut container, ChildrenUpdatedEvent::Added, &parent, &mut child);
    assert_eq!(nothing.len(), 0);
    assert_eq!(child.constraints.len(), 1);
    let retracted = handle(&mut container, ChildrenUpdatedEvent::Removed, &parent, &mut child);
    assert_eq!(retracted.len(), 1);
    assert_eq!(child.constraints.len(), 0);

    let mut framed = Container::Frame(Frame::new(0));
    framed.add_child_layout(&parent, &mut child);
    assert_eq!(child.constraints.len(), 8);
    let mut exact = Container::ExactFrame(ExactFrame);
    let retracted = exact.remove_child_layout(&parent, &mut child);
    // the four constraints of the exact frame say the same as four of the frame
    assert_eq!(retracted.len(), 4);
    assert_eq!(child.constraints.len(), 4);

    let mut grid = Container::Grid(GridLayout::new(&parent, 2));
    let mut cell = node();
    handle(&mut grid, ChildrenUpdatedEvent::Added, &parent, &mut cell);
    assert_eq!(cell.constraints.len(), 2);
}

#[test]
fn every_strategy_answers_to_the_same_events() {
    let parent = node();
    let mut child = node();
    let mut frame = Frame::new(1);
    assert_eq!(handle(&mut frame, ChildrenUpdatedEvent::Added, &parent, &mut child).len(), 0);
    assert_eq!(child.constraints.len(), 8);
    assert_eq!(handle(&mut frame, ChildrenUpdatedEvent::Removed, &parent, &mut child).len(), 8);
    let mut exact = ExactFrame;
    assert_eq!(handle(&mut exact, ChildrenUpdatedEvent::Added, &parent, &mut child).len(), 0);
    assert_eq!(child.constraints.len(), 4);
    assert_eq!(handle(&mut exact, ChildrenUpdatedEvent::Removed, &parent, &mut child).len(), 4);
    let mut list = LinearLayout::new(Orientation::Vertical, &parent, 2, true);
    assert_eq!(handle(&mut list, ChildrenUpdatedEvent::Added, &parent, &mut child).len(), 0);
    assert_eq!(child.constraints.len(), 3);
    assert!(list.end == child.bottom);
    assert_eq!(handle(&mut list, ChildrenUpdatedEvent::Removed, &parent, &mut child).len(), 3);
    let mut grid = GridLayout::new(&parent, 3);
    assert_eq!(handle(&mut grid, ChildrenUpdatedEvent::Added, &parent, &mut child).len(), 0);
    assert_eq!(child.constraints.len(), 2);
    assert_eq!(handle(&mut grid, ChildrenUpdatedEvent::Removed, &parent, &mut child).len(), 2);
    assert_eq!(child.constraints.len(), 0);
}

#[test]
fn builder_sets_the_container() {
    let mut builder = WidgetBuilder::new(&mut Variables::new());
    assert!(builder.container.is_none());
    builder.vbox(3, true);
    match &builder.container {
        Some(Container::Linear(list)) => {
            assert_eq!(list.orientation, Orientation::Vertical);
            assert_eq!(list.padding, 3);
            assert!(list.expand);
            assert!(list.end == builder.layout.top);
        }
        _ => panic!("expected a linear list"),
    }
    builder.hbox(0, false);
    match &builder.container {
        Some(Container::Linear(list)) => {
            assert_eq!(list.orientation, Orientation::Horizontal);
            assert!(list.end == builder.layout.left);
            assert!(!list.expand);
        }
        _ => panic!("expected a linear list"),
    }
    builder.grid(4);
    match &builder.container {
        Some(Container::Grid(grid)) => {
            assert_eq!(grid.num_columns, 4);
            assert_eq!(grid.len(), 0);
        }
        _ => panic!("expected a grid"),
    }
    // the last call of a chain decides
    builder.hbox(1, true).vbox(2, false).layout.width(10);
    match &builder.container {
        Some(Container::Linear(list)) => {
            assert_eq!(list.orientation, Orientation::Vertical);
            assert_eq!(list.padding, 2);
        }
        _ => panic!("expected a linear list"),
    }
    assert_eq!(builder.layout.constraints.len(), 1);
}
