use commons::engine::binding::Binding;
use commons::engine::events::{Button, ButtonState, Event, KeyboardKey, MouseButton};
use commons::engine::handlers::drag::{Bindings as DragBindings, Handler as DragHandler};
use commons::engine::handlers::yaw::{
    mouse_yaw_angle, step_angle, Bindings as YawBindings, Handler as YawHandler, Parameters as YawParameters,
};
use commons::engine::handlers::zoom::{step_level, Bindings as ZoomBindings, Handler as ZoomHandler, Parameters as ZoomParameters};
use commons::engine::models::Side;
use commons::geometry::xy;

fn key(text: &str) -> Button {
    Button::Keyboard(KeyboardKey::from(text))
}

fn pressed(button: Button) -> Event {
    Event::Button {
        button,
        state: ButtonState::Pressed,
    }
}

#[test]
fn keyboard_keys_compare_by_text() {
    assert!(KeyboardKey::from("e") == KeyboardKey::from("e"));
    assert!(KeyboardKey::from("e") != KeyboardKey::from("q"));
    assert!(KeyboardKey::Escape == KeyboardKey::Escape);
    assert!(KeyboardKey::Escape != KeyboardKey::Backspace);
    assert!(key("e") != Button::Mouse(MouseButton::Left));
}

#[test]
fn single_binding_binds_its_button_and_state() {
    let binding = Binding::Single {
        button: key("e"),
        state: ButtonState::Pressed,
    };

    assert!(binding.binds_event(&pressed(key("e"))));
    assert!(!binding.binds_event(&pressed(key("q"))));
    assert!(!binding.binds_event(&Event::Button {
        button: key("e"),
        state: ButtonState::Released
    }));
    assert!(!binding.binds_event(&Event::Tick));
    assert!(!binding.binds_event(&Event::MouseMoved(xy(1, 2))));
}

#[test]
fn multi_binding_binds_any_of_its_bindings() {
    let binding = Binding::Multi(vec![
        Binding::Single {
            button: key("+"),
            state: ButtonState::Pressed,
        },
        Binding::Multi(vec![Binding::Single {
            button: Button::Mouse(MouseButton::WheelUp),
            state: ButtonState::Pressed,
        }]),
    ]);

    assert!(binding.binds_event(&pressed(key("+"))));
    assert!(binding.binds_event(&pressed(Button::Mouse(MouseButton::WheelUp))));
    assert!(!binding.binds_event(&pressed(Button::Mouse(MouseButton::WheelDown))));
    assert!(!Binding::Multi(vec![]).binds_event(&pressed(key("+"))));
}

#[test]
fn side_indices() {
    let sides = [
        Side::Right,
        Side::Left,
        Side::Back,
        Side::Front,
        Side::Bottom,
        Side::Top,
    ];
    for (i, side) in sides.iter().enumerate() {
        assert_eq!(side.index(), i);
    }
}

#[test]
fn zoom_level_steps_within_bounds() {
    assert_eq!(step_level(1, 1, 8, true), 2);
    assert_eq!(step_level(8, 1, 8, true), 8);
    assert_eq!(step_level(2, 1, 8, false), 1);
    assert_eq!(step_level(1, 1, 8, false), 1);
}

#[test]
fn yaw_steps_wrap_around() {
    assert_eq!(step_angle(5, 16, 2, true), 7);
    assert_eq!(step_angle(15, 16, 2, true), 1);
    assert_eq!(step_angle(1, 16, 2, false), 15);
    assert_eq!(step_angle(step_angle(9, 16, 3, true), 16, 3, false), 9);
}

#[test]
fn mouse_yaw_follows_horizontal_movement() {
    assert_eq!(mouse_yaw_angle(5, 100, 90, 16), 15);
    assert_eq!(mouse_yaw_angle(5, 100, 120, 16), -15);
    assert_eq!(mouse_yaw_angle(5, 100, 100, 16), 5);
}

fn zoom_handler() -> (ZoomHandler, ZoomBindings) {
    let handler = ZoomHandler::new(ZoomParameters {
        initial_level: 2,
        min_level: 1,
        max_level: 3,
    });
    let bindings = ZoomBindings {
        plus: Binding::Single {
            button: key("+"),
            state: ButtonState::Pressed,
        },
        minus: Binding::Single {
            button: key("-"),
            state: ButtonState::Pressed,
        },
    };
    (handler, bindings)
}

#[test]
fn zoom_handler_waits_for_the_mouse() {
    let (mut handler, bindings) = zoom_handler();
    assert_eq!(handler.level(), 2);
    assert_eq!(handler.mouse_xy(), None);

    assert!(handler.handle(&bindings, &pressed(key("+"))).is_empty());
    assert!(handler.handle(&bindings, &Event::MouseMoved(xy(4, 5))).is_empty());
    assert_eq!(handler.mouse_xy(), Some(xy(4, 5)));

    assert_eq!(handler.handle(&bindings, &pressed(key("+"))), vec![true]);
    assert_eq!(handler.handle(&bindings, &pressed(key("-"))), vec![false]);
    assert!(handler.handle(&bindings, &pressed(key("x"))).is_empty());
    assert_eq!(handler.level(), 2);
}

#[test]
fn zoom_handler_steps_within_bounds() {
    let (mut handler, _) = zoom_handler();
    handler.step_level(true);
    assert_eq!(handler.level(), 3);
    handler.step_level(true);
    assert_eq!(handler.level(), 3);
    handler.step_level(false);
    handler.step_level(false);
    handler.step_level(false);
    assert_eq!(handler.level(), 1);
}

fn single(text: &str) -> Binding {
    Binding::Single {
        button: key(text),
        state: ButtonState::Pressed,
    }
}

#[test]
fn yaw_handler_steps_and_turns_with_the_mouse() {
    let mut handler = YawHandler::new(YawParameters {
        initial_angle: 0,
        angles: 16,
        step_angles: 2,
    });
    let bindings = YawBindings {
        step_plus: single("e"),
        step_minus: single("q"),
        mouse_yaw_enable: single("m"),
        mouse_yaw_disable: single("n"),
    };

    assert_eq!(handler.handle(&bindings, &pressed(key("e")), false), (false, vec![]));
    assert_eq!(handler.handle(&bindings, &Event::MouseMoved(xy(10, 0)), false), (false, vec![]));
    assert_eq!(handler.handle(&bindings, &pressed(key("e")), false), (false, vec![true]));
    assert!(handler.can_step(true));
    handler.step_angle(true);
    assert_eq!(handler.angle(), 2);
    assert_eq!(handler.handle(&bindings, &pressed(key("q")), false), (false, vec![false]));
    handler.step_angle(false);
    handler.step_angle(false);
    assert_eq!(handler.angle(), 14);

    assert!(handler.wants_origin(&bindings, &pressed(key("m"))));
    assert_eq!(handler.handle(&bindings, &pressed(key("m")), true), (false, vec![]));
    assert!(handler.turning_with_mouse());
    assert_eq!(handler.handle(&bindings, &pressed(key("e")), false), (false, vec![]));
    assert!(handler.can_handle(&Event::MouseMoved(xy(7, 0))));
    assert_eq!(handler.handle(&bindings, &Event::MouseMoved(xy(7, 0)), false), (true, vec![]));
    assert_eq!(handler.angle(), 1);

    assert_eq!(handler.handle(&bindings, &pressed(key("n")), false), (false, vec![]));
    assert!(!handler.turning_with_mouse());
    assert_eq!(handler.handle(&bindings, &Event::MouseMoved(xy(3, 0)), false), (false, vec![]));
    assert_eq!(handler.angle(), 1);
}

#[test]
fn yaw_handler_stays_off_when_the_world_is_not_found() {
    let mut handler = YawHandler::new(YawParameters {
        initial_angle: 3,
        angles: 8,
        step_angles: 1,
    });
    let bindings = YawBindings {
        step_plus: single("e"),
        step_minus: single("q"),
        mouse_yaw_enable: single("m"),
        mouse_yaw_disable: single("n"),
    };
    assert!(!handler.wants_origin(&bindings, &pressed(key("m"))));
    handler.handle(&bindings, &Event::MouseMoved(xy(1, 1)), false);
    assert!(handler.wants_origin(&bindings, &pressed(key("m"))));
    handler.handle(&bindings, &pressed(key("m")), false);
    assert!(!handler.turning_with_mouse());
    assert!(!YawHandler::new(YawParameters {
        initial_angle: 0,
        angles: 0,
        step_angles: 1,
    })
    .can_step(true));
}

#[test]
fn drag_handler_follows_the_mouse_while_dragging() {
    let mut handler = DragHandler::new();
    let bindings = DragBindings {
        start_dragging: Binding::Single {
            button: Button::Mouse(MouseButton::Left),
            state: ButtonState::Pressed,
        },
        stop_dragging: Binding::Single {
            button: Button::Mouse(MouseButton::Left),
            state: ButtonState::Released,
        },
    };
    let press = pressed(Button::Mouse(MouseButton::Left));
    let release = Event::Button {
        button: Button::Mouse(MouseButton::Left),
        state: ButtonState::Released,
    };

    assert!(!handler.wants_selection(&bindings, &press));
    assert!(!handler.handle(&bindings, &Event::MouseMoved(xy(1, 1)), false));
    assert!(handler.wants_selection(&bindings, &press));
    assert!(!handler.handle(&bindings, &press, false));
    assert!(!handler.dragging());
    assert!(!handler.handle(&bindings, &press, true));
    assert!(handler.dragging());
    assert!(handler.handle(&bindings, &Event::MouseMoved(xy(2, 3)), false));
    assert_eq!(handler.mouse_xy(), Some(xy(2, 3)));
    assert!(!handler.handle(&bindings, &release, false));
    assert!(!handler.dragging());
    assert!(!handler.handle(&bindings, &Event::MouseMoved(xy(4, 4)), false));
}
