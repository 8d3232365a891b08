//! The application's table of layout handlers: which layout events it
//! reacts to, and what each reaction decides.

use vstd::prelude::*;

use crate::backend::SolverError;
use crate::layout::{applied, notified, LayoutChanged, ResizeWindow};
use crate::ui::Ui;
use crate::widget::layout::WidgetLayout;

verus! {

/// The kinds of layout event that a handler can be registered for.
#[derive(Clone, Copy, Debug, PartialEq, Eq, Structural)]
pub enum HandlerKind {
    ResizeWindow,
    UpdateLayout,
    LayoutChanged,
}

/// What is to be done after a layout change was applied.
#[derive(Debug)]
pub struct Repaint {
    /// The widgets that are to be told that their box has changed, one
    /// entry for each change.
    pub updated: Vec<usize>,
    /// Whether the interface is to be drawn again.
    pub redraw: bool,
}

/// The handlers that an application has registered.
#[derive(Debug)]
pub struct App {
    pub handlers: Vec<HandlerKind>,
}

impl App {
    /// Whether a handler for `kind` is registered.
    pub open spec fn handles(&self, kind: HandlerKind) -> bool {
        self.handlers@.contains(kind)
    }

    /// An application without handlers.
    pub fn new() -> (r: App)
        ensures
            r.handlers@ == Seq::<HandlerKind>::empty(),
    {
        App { handlers: Vec::new() }
    }

    /// Whether a handler for `kind` is registered.
    pub fn has_handler(&self, kind: HandlerKind) -> (r: bool)
        ensures
            r == self.handles(kind),
    {
        let mut i: usize = 0;
        while i < self.handlers.len()
            invariant
                i <= self.handlers.len(),
                forall|k: int| 0 <= k < i ==> self.handlers@[k] != kind,
            decreases self.handlers.len() - i,
        {
            if self.handlers[i] == kind {
                return true;
            }
            i += 1;
        }
        false
    }

    /// Registers the three layout handlers: for the request to resize the
    /// window, for the request to update a layout, and for a layout change.
    pub fn add_layout_handlers(&mut self)
        ensures
            final(self).handlers@ == old(self).handlers@ + seq![
                HandlerKind::ResizeWindow,
                HandlerKind::UpdateLayout,
                HandlerKind::LayoutChanged,
            ],
            final(self).handles(HandlerKind::ResizeWindow),
            final(self).handles(HandlerKind::UpdateLayout),
            final(self).handles(HandlerKind::LayoutChanged),
    {
        self.handlers.push(HandlerKind::ResizeWindow);
        self.handlers.push(HandlerKind::UpdateLayout);
        self.handlers.push(HandlerKind::LayoutChanged);
        proof {
            let n = old(self).handlers@.len() as int;
            assert(self.handlers@ =~= old(self).handlers@ + seq![
                HandlerKind::ResizeWindow,
                HandlerKind::UpdateLayout,
                HandlerKind::LayoutChanged,
            ]);
            assert(self.handlers@[n] == HandlerKind::ResizeWindow);
            assert(self.handlers@[n + 1] == HandlerKind::UpdateLayout);
            assert(self.handlers@[n + 2] == HandlerKind::LayoutChanged);
        }
    }

    /// Reacts to the request to resize the window: tells whether the
    /// window is to be resized to fit its content, which it is where the
    /// handler is registered.
    pub fn resize_window(&self, event: &ResizeWindow) -> (r: bool)
        ensures
            r == self.handles(HandlerKind::ResizeWindow),
    {
        self.has_handler(HandlerKind::ResizeWindow)
    }

    /// Reacts to the request to update the layout of a widget. Without a
    /// registered handler nothing happens and the result is `None`; with
    /// one, the result is that of `Ui::update_layout`: the layout change to
    /// send on, if any value changed.
    pub fn update_layout(&self, ui: &mut Ui, layout: &WidgetLayout) -> (r: Result<
        Option<LayoutChanged>,
        SolverError,
    >)
        requires
            old(ui).wf(),
        ensures
            final(ui).wf(),
            !self.handles(HandlerKind::UpdateLayout) ==> r is Ok && r->Ok_0 is None && *final(ui)
                == *old(ui),
            self.handles(HandlerKind::UpdateLayout) ==> old(ui).updated(layout, final(ui), r),
    {
        if !self.has_handler(HandlerKind::UpdateLayout) {
            return Ok(None);
        }
        ui.update_layout(layout)
    }

    /// Reacts to a layout change. Without a registered handler nothing
    /// happens. With one, the changed quantities are given to the widgets
    /// in order, each widget that got one is to be told so, and the whole
    /// interface is to be drawn again.
    pub fn layout_changed(&self, ui: &mut Ui, event: &LayoutChanged) -> (r: Repaint)
        requires
            old(ui).wf(),
        ensures
            final(ui).wf(),
            r.redraw == self.handles(HandlerKind::LayoutChanged),
            !r.redraw ==> *final(ui) == *old(ui) && r.updated@.len() == 0,
            r.redraw ==> final(ui).bounds@ == applied(old(ui).bounds@, event.0@) && r.updated@
                == notified(old(ui).bounds@.len() as int, event.0@)
                && final(ui).edges@ == old(ui).edges@ && final(ui).solver == old(ui).solver,
    {
        if !self.has_handler(HandlerKind::LayoutChanged) {
            return Repaint { updated: Vec::new(), redraw: false };
        }
        let updated = ui.layout_changed(event);
        Repaint { updated, redraw: true }
    }
}

} // verus!
