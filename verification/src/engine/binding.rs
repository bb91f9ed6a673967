use vstd::prelude::*;

use crate::engine::events::{same_button, Button, ButtonState, Event};

verus! {

/// The button presses or releases that trigger an action.
#[derive(Debug)]
pub enum Binding {
    Single { button: Button, state: ButtonState },
    Multi(Vec<Binding>),
}

impl Binding {
    /// Whether this binding reacts to `button` reaching `state`: a single binding when it names
    /// them, a multiple one when any of its bindings does.
    pub open spec fn binds_spec(self, button: Button, state: ButtonState) -> bool
        decreases self,
    {
        match self {
            Binding::Single { button: b, state: s } => same_button(b, button) && s == state,
            Binding::Multi(bindings) => exists|k: int|
                0 <= k < bindings@.len() && (#[trigger] bindings@[k]).binds_spec(button, state),
        }
    }

    /// Whether this binding reacts to `event`, which must then be a button event.
    pub open spec fn binds_event_spec(self, event: Event) -> bool {
        match event {
            Event::Button { button, state } => self.binds_spec(button, state),
            _ => false,
        }
    }

    /// Whether this binding reacts to `event`, which must then be a button event.
    pub fn binds_event(&self, event: &Event) -> (r: bool)
        ensures
            r == self.binds_event_spec(*event),
    {
        match event {
            Event::Button { button, state } => self.binds(button, state),
            _ => false,
        }
    }

    /// Whether this binding reacts to `other_button` reaching `other_state`.
    fn binds(&self, other_button: &Button, other_state: &ButtonState) -> (r: bool)
        ensures
            r == self.binds_spec(*other_button, *other_state),
        decreases self,
    {
        match self {
            Binding::Single { button, state } => button == other_button && state == other_state,
            Binding::Multi(bindings) => {
                let mut k: usize = 0;
                while k < bindings.len()
                    invariant
                        *self == Binding::Multi(*bindings),
                        k <= bindings@.len(),
                        forall|m: int| 0 <= m < k ==> !(#[trigger] bindings@[m]).binds_spec(*other_button, *other_state),
                    decreases bindings@.len() - k,
                {
                    proof {
                        assert(decreases_to!(*self => (*self)->Multi_0));
                        assert((*self)->Multi_0 == *bindings);
                        assert(decreases_to!(bindings => bindings@));
                        assert(decreases_to!(bindings@ => bindings@[k as int]));
                    }
                    if bindings[k].binds(other_button, other_state) {
                        assert((#[trigger] bindings@[k as int]).binds_spec(*other_button, *other_state));
                        return true;
                    }
                    k += 1;
                }
                false
            },
        }
    }
}

} // verus!
