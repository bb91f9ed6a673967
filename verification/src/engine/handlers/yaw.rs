use vstd::prelude::*;

use crate::engine::binding::Binding;
use crate::engine::events::{mouse_after, Event};
use crate::geometry::XY;

verus! {

/// The initial angle, the number of angles in a full turn, and how many angles one step turns.
#[derive(Clone, Copy, Debug)]
pub struct Parameters {
    pub initial_angle: i32,
    pub angles: i32,
    pub step_angles: i32,
}

/// The bindings that turn the view by a step, and that start and stop turning it with the mouse.
#[derive(Debug)]
pub struct Bindings {
    pub step_plus: Binding,
    pub step_minus: Binding,
    pub mouse_yaw_enable: Binding,
    pub mouse_yaw_disable: Binding,
}

/// The remainder of `a` divided by `b` as Rust's `%` computes it: it takes the sign of `a`.
pub open spec fn truncated_rem(a: int, b: int) -> int {
    if a >= 0 {
        a % b
    } else {
        -((-a) % b)
    }
}

/// Whether `sum % angles` can be computed in `i32` without panicking.
pub open spec fn rem_defined(sum: int, angles: int) -> bool {
    &&& i32::MIN <= sum <= i32::MAX
    &&& angles != 0
    &&& !(sum == i32::MIN && angles == -1)
}

/// The angle before the turn, plus one step forward or one step back within a full turn.
pub open spec fn stepped_sum(angle: i32, angles: i32, step_angles: i32, positive: bool) -> int {
    if positive {
        angle + step_angles
    } else {
        angle + angles - step_angles
    }
}

/// The angle after one step: `(angle + step_angles) % angles` forward, and
/// `(angle + angles - step_angles) % angles` back.
pub fn step_angle(angle: i32, angles: i32, step_angles: i32, positive: bool) -> (r: i32)
    requires
        rem_defined(stepped_sum(angle, angles, step_angles, positive), angles as int),
        !positive ==> i32::MIN <= angle + angles <= i32::MAX,
    ensures
        r == truncated_rem(stepped_sum(angle, angles, step_angles, positive), angles as int),
{
    if positive {
        (angle + step_angles) % angles
    } else {
        (angle + angles - step_angles) % angles
    }
}

/// The horizontal mouse movement since turning started, as `origin_x as i32 - mouse_x as i32`.
pub open spec fn mouse_delta(origin_x: u32, mouse_x: u32) -> int {
    (origin_x as i32) - (mouse_x as i32)
}

/// The angle while turning with the mouse: the angle when turning started plus the horizontal
/// mouse movement since then, within a full turn.
pub fn mouse_yaw_angle(origin_angle: i32, origin_x: u32, mouse_x: u32, angles: i32) -> (r: i32)
    requires
        i32::MIN <= mouse_delta(origin_x, mouse_x) <= i32::MAX,
        rem_defined(origin_angle + mouse_delta(origin_x, mouse_x), angles as int),
    ensures
        r == truncated_rem(origin_angle + mouse_delta(origin_x, mouse_x), angles as int),
{
    let delta = origin_x as i32 - mouse_x as i32;
    (origin_angle + delta) % angles
}


/// Where turning with the mouse started: the angle then, and the mouse position. The world
/// position under the mouse then is kept by whoever drives the handler.
#[derive(Clone, Copy, Debug, PartialEq, Eq)]
pub struct Origin {
    pub angle: i32,
    pub mouse_xy: XY<u32>,
}

/// The angle, the number of angles in a full turn, the step, the last known mouse position,
/// and where turning with the mouse started, if it is on.
#[derive(Debug)]
pub struct Handler {
    angle: i32,
    angles: i32,
    step_angles: i32,
    mouse_xy: Option<XY<u32>>,
    origin: Option<Origin>,
}

/// Where turning with the mouse stands after the enable and disable bindings react to
/// `event`: enabling starts it at `angle` and `mouse_xy` when the mouse position is known and
/// the world position under it was `found`, and stops it otherwise; disabling stops it.
pub open spec fn origin_after(
    bindings: Bindings,
    event: Event,
    angle: i32,
    mouse_xy: Option<XY<u32>>,
    origin: Option<Origin>,
    found: bool,
) -> Option<Origin> {
    let enabled = if bindings.mouse_yaw_enable.binds_event_spec(event) {
        match mouse_xy {
            Some(xy) => if found {
                Some(Origin { angle, mouse_xy: xy })
            } else {
                None
            },
            None => None,
        }
    } else {
        origin
    };
    if bindings.mouse_yaw_disable.binds_event_spec(event) {
        None
    } else {
        enabled
    }
}

/// The steps that an event asks for, plus first: none while turning with the mouse or while
/// the mouse position is unknown.
pub open spec fn requested_steps(bindings: Bindings, event: Event, mouse_xy: Option<XY<u32>>, origin: Option<Origin>) -> Seq<
    bool,
> {
    if origin is Some || mouse_xy is None {
        Seq::empty()
    } else {
        (if bindings.step_plus.binds_event_spec(event) { seq![true] } else { Seq::empty() }) + (
        if bindings.step_minus.binds_event_spec(event) {
            seq![false]
        } else {
            Seq::empty()
        })
    }
}

/// Whether the angle that moving the mouse to `xy` turns to, from `origin`, can be computed
/// without overflow or division by zero.
pub open spec fn turn_defined(origin: Origin, xy: XY<u32>, angles: i32) -> bool {
    &&& i32::MIN <= mouse_delta(origin.mouse_xy.x, xy.x) <= i32::MAX
    &&& rem_defined(origin.angle + mouse_delta(origin.mouse_xy.x, xy.x), angles as int)
}

/// Whether one step from `angle` can be computed without overflow or division by zero.
pub open spec fn step_defined(angle: i32, angles: i32, step_angles: i32, positive: bool) -> bool {
    &&& rem_defined(stepped_sum(angle, angles, step_angles, positive), angles as int)
    &&& !positive ==> i32::MIN <= angle + angles <= i32::MAX
}

impl Handler {
    /// The current angle.
    pub closed spec fn spec_angle(&self) -> i32 {
        self.angle
    }

    /// The number of angles in a full turn.
    pub closed spec fn spec_angles(&self) -> i32 {
        self.angles
    }

    /// How many angles one step turns.
    pub closed spec fn spec_step_angles(&self) -> i32 {
        self.step_angles
    }

    /// The last known mouse position.
    pub closed spec fn spec_mouse_xy(&self) -> Option<XY<u32>> {
        self.mouse_xy
    }

    /// Where turning with the mouse started, while it is on.
    pub closed spec fn spec_origin(&self) -> Option<Origin> {
        self.origin
    }

    /// A handler at the initial angle, with the mouse position unknown and turning with the
    /// mouse off.
    pub fn new(parameters: Parameters) -> (r: Handler)
        ensures
            r.spec_angle() == parameters.initial_angle,
            r.spec_angles() == parameters.angles,
            r.spec_step_angles() == parameters.step_angles,
            r.spec_mouse_xy() is None,
            r.spec_origin() is None,
    {
        Handler {
            angle: parameters.initial_angle,
            angles: parameters.angles,
            step_angles: parameters.step_angles,
            mouse_xy: None,
            origin: None,
        }
    }

    /// The current angle.
    pub fn angle(&self) -> (r: i32)
        ensures
            r == self.spec_angle(),
    {
        self.angle
    }

    /// The number of angles in a full turn.
    pub fn angles(&self) -> (r: i32)
        ensures
            r == self.spec_angles(),
    {
        self.angles
    }

    /// The last known mouse position.
    pub fn mouse_xy(&self) -> (r: Option<XY<u32>>)
        ensures
            r == self.spec_mouse_xy(),
    {
        self.mouse_xy
    }

    /// Whether turning with the mouse is on.
    pub fn turning_with_mouse(&self) -> (r: bool)
        ensures
            r == self.spec_origin() is Some,
    {
        self.origin.is_some()
    }

    /// Whether `event` enables turning with the mouse while its position is known: the world
    /// position under the mouse is then to be looked up and handed to `handle`.
    pub fn wants_origin(&self, bindings: &Bindings, event: &Event) -> (r: bool)
        ensures
            r == (bindings.mouse_yaw_enable.binds_event_spec(*event) && self.spec_mouse_xy() is Some),
    {
        self.mouse_xy.is_some() && bindings.mouse_yaw_enable.binds_event(event)
    }

    /// Whether `handle` can take in `event` without overflow or division by zero.
    pub fn can_handle(&self, event: &Event) -> (r: bool)
        ensures
            r == (match (*event, self.spec_origin()) {
                (Event::MouseMoved(xy), Some(origin)) => turn_defined(origin, xy, self.spec_angles()),
                _ => true,
            }),
    {
        match (event, &self.origin) {
            (Event::MouseMoved(xy), Some(origin)) => {
                let delta: i64 = origin.mouse_xy.x as i32 as i64 - xy.x as i32 as i64;
                if delta < i32::MIN as i64 || delta > i32::MAX as i64 {
                    return false;
                }
                let sum: i64 = origin.angle as i64 + delta;
                sum >= i32::MIN as i64 && sum <= i32::MAX as i64 && self.angles != 0 && !(sum
                    == i32::MIN as i64 && self.angles == -1)
            },
            _ => true,
        }
    }

    /// Takes in `event`: enabling or disabling turning with the mouse, where `found` tells
    /// whether the world position under the mouse was found when `wants_origin` asked for it;
    /// following the mouse, turning with it while that is on; and returning whether it turned
    /// with the mouse, and the steps asked for, `true` forward and `false` back, each to be
    /// taken with `step_angle` once the world position under the mouse is found.
    pub fn handle(&mut self, bindings: &Bindings, event: &Event, found: bool) -> (r: (bool, Vec<bool>))
        requires
            (match (*event, old(self).spec_origin()) {
                (Event::MouseMoved(xy), Some(origin)) => turn_defined(origin, xy, old(self).spec_angles()),
                _ => true,
            }),
        ensures
            final(self).spec_origin() == origin_after(
                *bindings,
                *event,
                old(self).spec_angle(),
                old(self).spec_mouse_xy(),
                old(self).spec_origin(),
                found,
            ),
            final(self).spec_mouse_xy() == mouse_after(*event, old(self).spec_mouse_xy()),
            final(self).spec_angles() == old(self).spec_angles(),
            final(self).spec_step_angles() == old(self).spec_step_angles(),
            r.0 == (*event is MouseMoved && final(self).spec_origin() is Some),
            final(self).spec_angle() == (match (*event, final(self).spec_origin()) {
                (Event::MouseMoved(xy), Some(origin)) => truncated_rem(
                    origin.angle + mouse_delta(origin.mouse_xy.x, xy.x),
                    old(self).spec_angles() as int,
                ),
                _ => old(self).spec_angle() as int,
            }),
            r.1@ == requested_steps(*bindings, *event, final(self).spec_mouse_xy(), final(self).spec_origin()),
    {
        if bindings.mouse_yaw_enable.binds_event(event) {
            self.origin = match self.mouse_xy {
                Some(xy) => if found {
                    Some(Origin { angle: self.angle, mouse_xy: xy })
                } else {
                    None
                },
                None => None,
            };
        }
        if bindings.mouse_yaw_disable.binds_event(event) {
            self.origin = None;
        }
        let mut turned = false;
        if let Event::MouseMoved(xy) = event {
            self.mouse_xy = Some(*xy);
            if let Some(origin) = self.origin {
                self.angle = mouse_yaw_angle(origin.angle, origin.mouse_xy.x, xy.x, self.angles);
                turned = true;
            }
        }
        let mut steps: Vec<bool> = Vec::new();
        if self.origin.is_none() && self.mouse_xy.is_some() {
            if bindings.step_plus.binds_event(event) {
                steps.push(true);
            }
            if bindings.step_minus.binds_event(event) {
                steps.push(false);
            }
        }
        proof {
            let plus = if bindings.step_plus.binds_event_spec(*event) { seq![true] } else { Seq::<bool>::empty() };
            let minus = if bindings.step_minus.binds_event_spec(*event) { seq![false] } else { Seq::<bool>::empty() };
            if self.origin is None && self.mouse_xy is Some {
                assert(steps@ =~= plus + minus);
            } else {
                assert(steps@ =~= Seq::<bool>::empty());
            }
        }
        (turned, steps)
    }

    /// Whether `step_angle(positive)` can be taken without overflow or division by zero.
    pub fn can_step(&self, positive: bool) -> (r: bool)
        ensures
            r == step_defined(self.spec_angle(), self.spec_angles(), self.spec_step_angles(), positive),
    {
        let angle = self.angle as i64;
        let angles = self.angles as i64;
        let sum: i64 = if positive {
            angle + self.step_angles as i64
        } else {
            angle + angles - self.step_angles as i64
        };
        let rem_ok = sum >= i32::MIN as i64 && sum <= i32::MAX as i64 && self.angles != 0 && !(sum
            == i32::MIN as i64 && self.angles == -1);
        let back_ok = positive || (angle + angles >= i32::MIN as i64 && angle + angles <= i32::MAX as i64);
        rem_ok && back_ok
    }

    /// Turns one step forward (`positive`) or back within a full turn.
    pub fn step_angle(&mut self, positive: bool)
        requires
            step_defined(old(self).spec_angle(), old(self).spec_angles(), old(self).spec_step_angles(), positive),
        ensures
            final(self).spec_angle() == truncated_rem(
                stepped_sum(old(self).spec_angle(), old(self).spec_angles(), old(self).spec_step_angles(), positive),
                old(self).spec_angles() as int,
            ),
            final(self).spec_angles() == old(self).spec_angles(),
            final(self).spec_step_angles() == old(self).spec_step_angles(),
            final(self).spec_mouse_xy() == old(self).spec_mouse_xy(),
            final(self).spec_origin() == old(self).spec_origin(),
    {
        self.angle = step_angle(self.angle, self.angles, self.step_angles, positive);
    }
}

/// Law: within a full turn of `angles > 0` angles, a step back undoes a step forward.
pub proof fn law_step_back_undoes_step(angle: i32, angles: i32, step_angles: i32)
    requires
        0 <= angle < angles,
        0 <= step_angles <= angles,
    ensures
        ({
            let forward = truncated_rem(stepped_sum(angle, angles, step_angles, true), angles as int);
            0 <= forward < angles && truncated_rem(
                stepped_sum(forward as i32, angles, step_angles, false),
                angles as int,
            ) == angle
        }),
{
    let n = angles as int;
    let a = angle as int;
    let s = step_angles as int;
    vstd::arithmetic::div_mod::lemma_mod_pos_bound(a + s, n);
    let b = (a + s) % n;
    vstd::arithmetic::div_mod::lemma_add_mod_noop_right(n - s, a + s, n);
    assert(b + n - s == (n - s) + b);
    vstd::arithmetic::div_mod::lemma_mod_add_multiples_vanish(a, n);
    assert((n - s) + (a + s) == n + a);
    vstd::arithmetic::div_mod::lemma_small_mod(a as nat, n as nat);
}

} // verus!
