use vstd::prelude::*;

use crate::engine::binding::Binding;
use crate::engine::events::{mouse_after, Event};
use crate::geometry::XY;

verus! {

/// The initial zoom level and the bounds it stays within.
#[derive(Clone, Copy, Debug)]
pub struct Parameters {
    pub initial_level: i32,
    pub min_level: i32,
    pub max_level: i32,
}

/// The bindings that zoom in and out.
#[derive(Debug)]
pub struct Bindings {
    pub plus: Binding,
    pub minus: Binding,
}

/// The zoom level after one step: one up when `positive` and below `max_level`, one down when
/// not `positive` and above `min_level`, unchanged otherwise.
pub fn step_level(level: i32, min_level: i32, max_level: i32, positive: bool) -> (r: i32)
    ensures
        r == (if positive && level < max_level {
            level + 1
        } else if !positive && level > min_level {
            level - 1
        } else {
            level as int
        }),
{
    if positive && level < max_level {
        level + 1
    } else if !positive && level > min_level {
        level - 1
    } else {
        level
    }
}


/// The zoom level, the bounds it stays within, and the last known mouse position.
#[derive(Debug)]
pub struct Handler {
    level: i32,
    min_level: i32,
    max_level: i32,
    mouse_xy: Option<XY<u32>>,
}

/// The steps that an event asks for, plus first: none while the mouse position is unknown.
pub open spec fn requested_steps(bindings: Bindings, event: Event, mouse_xy: Option<XY<u32>>) -> Seq<bool> {
    if mouse_xy is None {
        Seq::empty()
    } else {
        (if bindings.plus.binds_event_spec(event) { seq![true] } else { Seq::empty() }) + (if bindings.minus.binds_event_spec(event) {
            seq![false]
        } else {
            Seq::empty()
        })
    }
}

impl Handler {
    /// The current zoom level.
    pub closed spec fn spec_level(&self) -> i32 {
        self.level
    }

    /// The lowest level.
    pub closed spec fn spec_min_level(&self) -> i32 {
        self.min_level
    }

    /// The highest level.
    pub closed spec fn spec_max_level(&self) -> i32 {
        self.max_level
    }

    /// The last known mouse position.
    pub closed spec fn spec_mouse_xy(&self) -> Option<XY<u32>> {
        self.mouse_xy
    }

    /// A handler at the initial level, with the mouse position unknown.
    pub fn new(parameters: Parameters) -> (r: Handler)
        ensures
            r.spec_level() == parameters.initial_level,
            r.spec_min_level() == parameters.min_level,
            r.spec_max_level() == parameters.max_level,
            r.spec_mouse_xy() is None,
    {
        Handler {
            level: parameters.initial_level,
            min_level: parameters.min_level,
            max_level: parameters.max_level,
            mouse_xy: None,
        }
    }

    /// The current zoom level.
    pub fn level(&self) -> (r: i32)
        ensures
            r == self.spec_level(),
    {
        self.level
    }

    /// The last known mouse position.
    pub fn mouse_xy(&self) -> (r: Option<XY<u32>>)
        ensures
            r == self.spec_mouse_xy(),
    {
        self.mouse_xy
    }

    /// Takes in `event`: records where the mouse moved, and returns the steps it asks for in
    /// order, `true` to zoom in and `false` to zoom out. Each step is to be taken with
    /// `step_level` once the world position under the mouse is found.
    pub fn handle(&mut self, bindings: &Bindings, event: &Event) -> (r: Vec<bool>)
        ensures
            final(self).spec_mouse_xy() == mouse_after(*event, old(self).spec_mouse_xy()),
            final(self).spec_level() == old(self).spec_level(),
            final(self).spec_min_level() == old(self).spec_min_level(),
            final(self).spec_max_level() == old(self).spec_max_level(),
            r@ == requested_steps(*bindings, *event, final(self).spec_mouse_xy()),
    {
        if let Event::MouseMoved(xy) = event {
            self.mouse_xy = Some(*xy);
        }
        let mut steps: Vec<bool> = Vec::new();
        if self.mouse_xy.is_some() {
            if bindings.plus.binds_event(event) {
                steps.push(true);
            }
            if bindings.minus.binds_event(event) {
                steps.push(false);
            }
        }
        proof {
            let plus = if bindings.plus.binds_event_spec(*event) { seq![true] } else { Seq::<bool>::empty() };
            let minus = if bindings.minus.binds_event_spec(*event) { seq![false] } else { Seq::<bool>::empty() };
            if self.mouse_xy is Some {
                assert(steps@ =~= plus + minus);
            } else {
                assert(steps@ =~= Seq::<bool>::empty());
            }
        }
        steps
    }

    /// Zooms one level in (`positive`) or out, within the bounds.
    pub fn step_level(&mut self, positive: bool)
        ensures
            final(self).spec_level() == (if positive && old(self).spec_level() < old(self).spec_max_level() {
                old(self).spec_level() + 1
            } else if !positive && old(self).spec_level() > old(self).spec_min_level() {
                old(self).spec_level() - 1
            } else {
                old(self).spec_level() as int
            }),
            final(self).spec_level() == level_after_steps(
                old(self).spec_level() as int,
                old(self).spec_min_level() as int,
                old(self).spec_max_level() as int,
                seq![positive],
            ),
            final(self).spec_min_level() == old(self).spec_min_level(),
            final(self).spec_max_level() == old(self).spec_max_level(),
            final(self).spec_mouse_xy() == old(self).spec_mouse_xy(),
    {
        let ghost steps = seq![positive];
        proof {
            assert(steps.drop_last() =~= Seq::<bool>::empty());
            assert(steps.len() == 1 && steps.last() == positive);
            assert(level_after_steps(self.level as int, self.min_level as int, self.max_level as int, steps.drop_last())
                == self.level);
        }
        self.level = step_level(self.level, self.min_level, self.max_level, positive);
    }
}

/// Law: stepping keeps a level that lies within `min_level..=max_level` within those bounds.
pub proof fn law_step_level_stays_in_bounds(level: i32, min_level: i32, max_level: i32, positive: bool)
    requires
        min_level <= level <= max_level,
    ensures
        ({
            let next = if positive && level < max_level {
                level + 1
            } else if !positive && level > min_level {
                level - 1
            } else {
                level as int
            };
            min_level <= next <= max_level
        }),
{
}

/// The level after taking `steps` in order from `level`, each as `step_level` takes it.
pub open spec fn level_after_steps(level: int, min_level: int, max_level: int, steps: Seq<bool>) -> int
    decreases steps.len(),
{
    if steps.len() == 0 {
        level
    } else {
        let before = level_after_steps(level, min_level, max_level, steps.drop_last());
        let positive = steps.last();
        if positive && before < max_level {
            before + 1
        } else if !positive && before > min_level {
            before - 1
        } else {
            before
        }
    }
}

/// Law: a handler whose level starts within `min_level..=max_level` keeps it there through any
/// sequence of steps; `handle` takes no step and leaves the level as it is.
pub proof fn law_steps_stay_in_bounds(level: int, min_level: int, max_level: int, steps: Seq<bool>)
    requires
        min_level <= level <= max_level,
    ensures
        min_level <= level_after_steps(level, min_level, max_level, steps) <= max_level,
    decreases steps.len(),
{
    if steps.len() > 0 {
        law_steps_stay_in_bounds(level, min_level, max_level, steps.drop_last());
    }
}

} // verus!
