use vstd::prelude::*;

use crate::engine::binding::Binding;
use crate::engine::events::{mouse_after, Event};
use crate::geometry::XY;

verus! {

/// The bindings that start and stop dragging the view.
#[derive(Debug)]
pub struct Bindings {
    pub start_dragging: Binding,
    pub stop_dragging: Binding,
}

/// The last known mouse position, and whether a world position is being dragged. The dragged
/// world position itself is kept by whoever drives the handler.
#[derive(Debug)]
pub struct Handler {
    mouse_xy: Option<XY<u32>>,
    dragging: bool,
}

/// Whether a world position is being dragged after `event`: the stop binding ends dragging;
/// otherwise the start binding begins it when the mouse position is known and the world
/// position under it was `found`, and leaves it as it was if not.
pub open spec fn dragging_after(bindings: Bindings, event: Event, mouse_xy: Option<XY<u32>>, dragging: bool, found: bool) -> bool {
    if bindings.stop_dragging.binds_event_spec(event) {
        false
    } else if bindings.start_dragging.binds_event_spec(event) && mouse_xy is Some && found {
        true
    } else {
        dragging
    }
}

impl Handler {
    /// The last known mouse position.
    pub closed spec fn spec_mouse_xy(&self) -> Option<XY<u32>> {
        self.mouse_xy
    }

    /// Whether a world position is being dragged.
    pub closed spec fn spec_dragging(&self) -> bool {
        self.dragging
    }

    /// A handler with the mouse position unknown and nothing dragged.
    pub fn new() -> (r: Handler)
        ensures
            r.spec_mouse_xy() is None,
            !r.spec_dragging(),
    {
        Handler { mouse_xy: None, dragging: false }
    }

    /// The last known mouse position.
    pub fn mouse_xy(&self) -> (r: Option<XY<u32>>)
        ensures
            r == self.spec_mouse_xy(),
    {
        self.mouse_xy
    }

    /// Whether a world position is being dragged.
    pub fn dragging(&self) -> (r: bool)
        ensures
            r == self.spec_dragging(),
    {
        self.dragging
    }

    /// Whether `event` starts dragging while the mouse position is known: the world position
    /// under the mouse is then to be looked up and handed to `handle`.
    pub fn wants_selection(&self, bindings: &Bindings, event: &Event) -> (r: bool)
        ensures
            r == (bindings.start_dragging.binds_event_spec(*event) && self.spec_mouse_xy() is Some),
    {
        self.mouse_xy.is_some() && bindings.start_dragging.binds_event(event)
    }

    /// Takes in `event`, where `found` tells whether the world position under the mouse was
    /// found when `wants_selection` asked for it: follows the mouse, starts or stops dragging,
    /// and returns whether the dragged world position is to be brought under the mouse, which
    /// is when the mouse moves while dragging.
    pub fn handle(&mut self, bindings: &Bindings, event: &Event, found: bool) -> (r: bool)
        ensures
            final(self).spec_mouse_xy() == mouse_after(*event, old(self).spec_mouse_xy()),
            final(self).spec_dragging() == dragging_after(
                *bindings,
                *event,
                old(self).spec_mouse_xy(),
                old(self).spec_dragging(),
                found,
            ),
            r == (*event is MouseMoved && old(self).spec_dragging()),
    {
        let mut follow = false;
        if let Event::MouseMoved(xy) = event {
            self.mouse_xy = Some(*xy);
            follow = self.dragging;
        }
        if bindings.start_dragging.binds_event(event) && self.mouse_xy.is_some() && found {
            self.dragging = true;
        }
        if bindings.stop_dragging.binds_event(event) {
            self.dragging = false;
        }
        follow
    }
}

} // verus!
