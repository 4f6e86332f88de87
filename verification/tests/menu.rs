//! Menu tests: pages, controls, click dispatch, and the view-layer model.

use std::cell::Cell;

use htb::event::Event;
use htb::menu::model::Action;
use htb::menu::model::Button;
use htb::menu::model::Control;
use htb::menu::model::ControlType;
use htb::menu::model::Handlers;
use htb::menu::MenuEvent;
use htb::menu::Page;
use htb::pages::main_menu;
use htb::view::menu::new_main_menu;
use htb::view::menu::Menu;
use htb::view::View;

#[derive(Default)]
struct ProbeEvent {
    pub sent: Cell<bool>,
}

impl MenuEvent for &ProbeEvent {
    fn send(&self) {
        self.sent.set(true)
    }
}

fn probe_page(event: &ProbeEvent) -> Page<&ProbeEvent> {
    let mut handlers: Handlers<&ProbeEvent> = Handlers::new();
    handlers.insert(Action::Click, event);
    let control = Control {
        typ: ControlType::Button(Button { text: "".to_owned(), enabled: true }),
        enabled: true,
        handlers,
    };
    Page::new(vec![control])
}

#[test]
fn button_clicked() {
    let event = ProbeEvent::default();
    let mut page = probe_page(&event);

    // Cursor over the button: press and release click it.
    page.cursor_moved(Some(0));
    page.cursor_pressed();
    page.cursor_released();
    assert!(event.sent.get());

    event.sent.set(false);
    // Cursor off the button: press and release click nothing.
    page.cursor_moved(None);
    page.cursor_pressed();
    page.cursor_released();
    assert!(!event.sent.get());
}

#[test]
fn release_away_from_the_press_does_not_click() {
    let event = ProbeEvent::default();
    let mut page = probe_page(&event);

    page.cursor_moved(Some(0));
    page.cursor_pressed();
    page.cursor_moved(None);
    page.cursor_released();
    assert!(!event.sent.get());
    assert!(page.pressed().is_none());
}

#[test]
fn disabled_control_does_not_take_the_hover() {
    let event = ProbeEvent::default();
    let mut handlers: Handlers<&ProbeEvent> = Handlers::new();
    handlers.insert(Action::Click, &event);
    let control = Control {
        typ: ControlType::Button(Button { text: "off".to_owned(), enabled: false }),
        enabled: false,
        handlers,
    };
    let mut page = Page::new(vec![control]);

    page.cursor_moved(Some(0));
    assert!(page.hovered().is_none());
}

#[test]
fn handlers_find_the_bound_event() {
    let mut handlers: Handlers<u32> = Handlers::new();
    assert!(handlers.get(Action::Click).is_none());
    handlers.insert(Action::Click, 41);
    assert_eq!(handlers.get(Action::Click), Some(&41));
}

#[test]
fn main_menu_offers_start_and_exit() {
    let page: Page<Event> = main_menu();
    assert_eq!(page.len(), 2);
    assert!(page.hovered().is_none());
    assert!(page.pressed().is_none());

    let start = page.control(0);
    assert!(start.enabled);
    match &start.typ {
        ControlType::Button(b) => {
            assert!(b.enabled);
            assert_eq!(b.text, "Start game");
        },
    }
    assert_eq!(start.handlers.get(Action::Click), Some(&Event::StartGame));

    let exit = page.control(1);
    match &exit.typ {
        ControlType::Button(b) => assert_eq!(b.text, "Exit"),
    }
    assert_eq!(exit.handlers.get(Action::Click), Some(&Event::Exit));
}

#[test]
fn new_main_menu_has_one_page_of_two_buttons() {
    let model = new_main_menu();
    assert_eq!(model.start_page, 0);
    assert_eq!(model.pages.len(), 1);
    let page = &model.pages[0];
    assert_eq!(page.start_tab, 0);
    assert_eq!(page.controls.len(), 2);
    match &page.controls[0].typ {
        htb::view::menu::ControlType::Button(b) => match &b.filling {
            htb::view::menu::Filling::Text(t) => assert_eq!(t, "Start"),
            htb::view::menu::Filling::Image(_) => panic!("a text button"),
        },
    }
    // Nothing is bound to the buttons yet.
    assert!(page.controls[0].handlers.is_empty());
    assert!(page.controls[1].handlers.is_empty());
    assert!(page.tabs.is_empty());
    assert!(page.groups.is_empty());
}

#[test]
fn menu_opens_on_the_start_page_and_tab() {
    let model = new_main_menu();
    let menu = Menu::new(model);
    assert_eq!(menu.page(), 0);
    assert_eq!(menu.tab(), 0);
}

struct CountingGfx {
    presented: Cell<u32>,
}

impl htb::view::Gfx for CountingGfx {
    fn present(&self) {
        self.presented.set(self.presented.get() + 1);
    }
}

#[test]
fn view_draws_through_the_gfx_capability() {
    let view = View::new(new_main_menu());
    let gfx = CountingGfx { presented: Cell::new(0) };
    view.draw(&gfx);
    assert_eq!(gfx.presented.get(), 1);
}
