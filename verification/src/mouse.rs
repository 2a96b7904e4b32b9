//! Touch and mouse input for the terminal: which mouse events a named
//! action of the interface stands for. The events are then encoded by the
//! terminal emulator in the protocol the running program asked for.

use vstd::prelude::*;
use crate::kdl_tree::str_eq;

verus! {

/// Whether a button goes down or comes up.
#[derive(Debug, Clone, Copy, PartialEq, Eq, Structural)]
pub enum MouseAction {
    Press,
    Release,
}

/// The buttons the interface uses; the wheel is buttons four and five.
#[derive(Debug, Clone, Copy, PartialEq, Eq, Structural)]
pub enum MouseButton {
    Left,
    Right,
    Four,
    Five,
}

/// One mouse event to encode: what happens, and to which button (`None`:
/// no button is set).
#[derive(Debug, Clone, Copy, PartialEq, Eq, Structural)]
pub struct MouseEventPlan {
    pub action: MouseAction,
    pub button: Option<MouseButton>,
}

/// The event that a single action name stands for: `release`,
/// `release_scroll_up` and `release_scroll_down` release, everything else
/// presses; `click` and `release` are the left button, `right_click` the
/// right one, the scroll names buttons four (up) and five (down), and any
/// other name no button.
pub open spec fn plan_of(action: Seq<char>) -> MouseEventPlan {
    MouseEventPlan {
        action: if action == "release"@ || action == "release_scroll_up"@ || action == "release_scroll_down"@ {
            MouseAction::Release
        } else {
            MouseAction::Press
        },
        button: if action == "click"@ || action == "release"@ {
            Some(MouseButton::Left)
        } else if action == "right_click"@ {
            Some(MouseButton::Right)
        } else if action == "scroll_up"@ || action == "release_scroll_up"@ {
            Some(MouseButton::Four)
        } else if action == "scroll_down"@ || action == "release_scroll_down"@ {
            Some(MouseButton::Five)
        } else {
            None
        },
    }
}

/// The event that the action name `action` stands for (see [`plan_of`]).
pub fn mouse_event_plan(action: &str) -> (r: MouseEventPlan)
    ensures
        r == plan_of(action@),
{
    let release = str_eq(action, "release") || str_eq(action, "release_scroll_up") || str_eq(
        action,
        "release_scroll_down",
    );
    let button = if str_eq(action, "click") || str_eq(action, "release") {
        Some(MouseButton::Left)
    } else if str_eq(action, "right_click") {
        Some(MouseButton::Right)
    } else if str_eq(action, "scroll_up") || str_eq(action, "release_scroll_up") {
        Some(MouseButton::Four)
    } else if str_eq(action, "scroll_down") || str_eq(action, "release_scroll_down") {
        Some(MouseButton::Five)
    } else {
        None
    };
    MouseEventPlan {
        action: if release {
            MouseAction::Release
        } else {
            MouseAction::Press
        },
        button,
    }
}

/// The action names that a gesture of the interface is sent as: a wheel
/// step or a tap is a press and a release of the same button, anything else
/// is the single named event.
pub open spec fn gesture_steps(action: Seq<char>) -> Seq<Seq<char>> {
    if action == "scroll_up"@ {
        seq!["scroll_up"@, "release_scroll_up"@]
    } else if action == "scroll_down"@ {
        seq!["scroll_down"@, "release_scroll_down"@]
    } else if action == "click"@ {
        seq!["click"@, "release"@]
    } else {
        seq![action]
    }
}

/// The mouse events sent for the gesture `action`; none while the program
/// in the terminal has not asked for mouse reports (`mouse_mode` false).
pub fn process_mouse(action: &str, mouse_mode: bool) -> (r: Vec<MouseEventPlan>)
    ensures
        !mouse_mode ==> r@.len() == 0,
        mouse_mode ==> r@ == gesture_steps(action@).map_values(|a: Seq<char>| plan_of(a)),
{
    let mut out: Vec<MouseEventPlan> = Vec::new();
    if !mouse_mode {
        return out;
    }
    if str_eq(action, "scroll_up") {
        out.push(mouse_event_plan("scroll_up"));
        out.push(mouse_event_plan("release_scroll_up"));
    } else if str_eq(action, "scroll_down") {
        out.push(mouse_event_plan("scroll_down"));
        out.push(mouse_event_plan("release_scroll_down"));
    } else if str_eq(action, "click") {
        out.push(mouse_event_plan("click"));
        out.push(mouse_event_plan("release"));
    } else {
        out.push(mouse_event_plan(action));
    }
    assert(out@ =~= gesture_steps(action@).map_values(|a: Seq<char>| plan_of(a)));
    out
}

/// A wheel step or a tap is a press followed by a release of the same
/// button: the left one for a tap, four for up and five for down.
pub proof fn law_gestures_press_then_release(action: Seq<char>)
    requires
        action == "scroll_up"@ || action == "scroll_down"@ || action == "click"@,
    ensures
        gesture_steps(action).len() == 2,
        plan_of(gesture_steps(action)[0]).action == MouseAction::Press,
        plan_of(gesture_steps(action)[1]).action == MouseAction::Release,
        plan_of(gesture_steps(action)[0]).button == plan_of(gesture_steps(action)[1]).button,
        plan_of(gesture_steps(action)[0]).button == if action == "click"@ {
            Some(MouseButton::Left)
        } else if action == "scroll_up"@ {
            Some(MouseButton::Four)
        } else {
            Some(MouseButton::Five)
        },
{
    reveal_strlit("scroll_up");
    reveal_strlit("scroll_down");
    reveal_strlit("click");
    reveal_strlit("release");
    reveal_strlit("release_scroll_up");
    reveal_strlit("release_scroll_down");
    reveal_strlit("right_click");
    assert("scroll_up"@.len() == 9 && "scroll_down"@.len() == 11 && "click"@.len() == 5);
    assert("release"@.len() == 7 && "release_scroll_up"@.len() == 17 && "release_scroll_down"@.len() == 19);
    assert("right_click"@.len() == 11 && "scroll_down"@[0] != "right_click"@[0]);
    assert("scroll_down"@ != "right_click"@);
}

} // verus!
