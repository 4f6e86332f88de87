//! The application's menu pages.

use vstd::prelude::*;

use crate::event::Event;
use crate::menu::model::Action;
use crate::menu::model::Button;
use crate::menu::model::Control;
use crate::menu::model::ControlType;
use crate::menu::model::Handlers;
use crate::menu::Page;

verus! {

/// The main menu: a start button and an exit button, each bound to its
/// event.
pub fn main_menu() -> (r: Page<Event>)
    ensures
        r.wf(),
        r.hovered_spec() is None,
        r.pressed_spec() is None,
        r.controls_spec().len() == 2,
        r.controls_spec()[0].enabled,
        r.controls_spec()[0].typ matches ControlType::Button(b) && b.enabled && b.text@
            == "Start game"@,
        r.controls_spec()[0].handlers.pairs_spec() =~= seq![(Action::Click, Event::StartGame)],
        r.controls_spec()[1].enabled,
        r.controls_spec()[1].typ matches ControlType::Button(b) && b.enabled && b.text@ == "Exit"@,
        r.controls_spec()[1].handlers.pairs_spec() =~= seq![(Action::Click, Event::Exit)],
{
    let mut start_handlers: Handlers<Event> = Handlers::new();
    start_handlers.insert(Action::Click, Event::StartGame);
    let start = Control {
        typ: ControlType::Button(Button { enabled: true, text: "Start game".to_owned() }),
        enabled: true,
        handlers: start_handlers,
    };

    let mut exit_handlers: Handlers<Event> = Handlers::new();
    exit_handlers.insert(Action::Click, Event::Exit);
    let exit = Control {
        typ: ControlType::Button(Button { enabled: true, text: "Exit".to_owned() }),
        enabled: true,
        handlers: exit_handlers,
    };

    let mut controls: Vec<Control<Event>> = Vec::new();
    controls.push(start);
    controls.push(exit);
    Page::new(controls)
}

} // verus!
