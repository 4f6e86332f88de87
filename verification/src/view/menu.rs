//! The declarative menu model of the view layer, organised in pages, tabs
//! and groups, and the state of the menu being shown.

use vstd::prelude::*;

use crate::event::Event;

verus! {

/// A whole menu: its pages and where it opens.
pub struct Model<E> {
    pub pages: Vec<Page<E>>,
    pub start_page: usize,
}

impl<E> Model<E> {
    /// The menu opens on a page it actually has.
    pub open spec fn wf(self) -> bool {
        self.start_page < self.pages@.len()
    }
}

/// One page: its tabs, its groups, its controls, and the tab it opens on.
pub struct Page<E> {
    pub tabs: Vec<Tab>,
    pub start_tab: usize,
    pub groups: Vec<Group>,
    pub controls: Vec<Control<E>>,
}

/// A named tab of a page.
pub struct Tab {
    pub name: String,
}

/// A named group of controls.
pub struct Group {
    pub name: String,
}

/// One control: where it sits and what its actions send.
pub struct Control<E> {
    pub tab: usize,
    pub group: Option<usize>,
    pub typ: ControlType,
    pub handlers: Vec<(Action, E)>,
}

/// The kind of a control, a closed set.
pub enum ControlType {
    Button(Button),
}

/// A button's content.
pub struct Button {
    pub filling: Filling,
}

/// What fills a button face.
pub enum Filling {
    Text(String),
    Image(String),
}

/// An abstract interaction a control reacts to.
#[derive(Debug, Clone, Copy, PartialEq, Eq, Structural)]
pub enum Action {
    Click,
}

/// The menu being shown: the model plus the open page and tab.
pub struct Menu {
    model: Model<Event>,
    tab: usize,
    page: usize,
}

impl Menu {
    pub closed spec fn page_spec(self) -> usize {
        self.page
    }

    pub closed spec fn tab_spec(self) -> usize {
        self.tab
    }

    pub closed spec fn model_spec(self) -> Model<Event> {
        self.model
    }

    /// Open the menu on its start page and that page's start tab.
    pub fn new(model: Model<Event>) -> (r: Menu)
        requires
            model.start_page < model.pages@.len(),
        ensures
            r.model_spec() == model,
            r.page_spec() == model.start_page,
            r.tab_spec() == model.pages@[model.start_page as int].start_tab,
    {
        let page = model.start_page;
        let tab = model.pages[page].start_tab;
        Menu { model, page, tab }
    }

    /// The open page.
    pub fn page(&self) -> (r: usize)
        ensures
            r == self.page_spec(),
    {
        self.page
    }

    /// The open tab of the open page.
    pub fn tab(&self) -> (r: usize)
        ensures
            r == self.tab_spec(),
    {
        self.tab
    }
}

/// The application's main menu: a single page with a start button and an
/// exit button, on no tab bar, in no group, with nothing bound to them
/// yet.
pub fn new_main_menu() -> (r: Model<Event>)
    ensures
        r.start_page == 0,
        r.pages@.len() == 1,
        r.pages@[0].start_tab == 0,
        r.pages@[0].tabs@.len() == 0,
        r.pages@[0].groups@.len() == 0,
        r.pages@[0].controls@.len() == 2,
        r.pages@[0].controls@[0].tab == 0,
        r.pages@[0].controls@[0].group is None,
        r.pages@[0].controls@[0].typ matches ControlType::Button(b) && b.filling matches
            Filling::Text(t) && t@ == "Start"@,
        r.pages@[0].controls@[0].handlers@.len() == 0,
        r.pages@[0].controls@[1].tab == 0,
        r.pages@[0].controls@[1].group is None,
        r.pages@[0].controls@[1].typ matches ControlType::Button(b) && b.filling matches
            Filling::Text(t) && t@ == "Exit"@,
        r.pages@[0].controls@[1].handlers@.len() == 0,
{
    let start = Control {
        tab: 0,
        group: None,
        typ: ControlType::Button(Button { filling: Filling::Text("Start".to_owned()) }),
        handlers: Vec::new(),
    };

    let exit = Control {
        tab: 0,
        group: None,
        typ: ControlType::Button(Button { filling: Filling::Text("Exit".to_owned()) }),
        handlers: Vec::new(),
    };

    let mut controls: Vec<Control<Event>> = Vec::new();
    controls.push(start);
    controls.push(exit);

    let main_page = Page { tabs: Vec::new(), start_tab: 0, groups: Vec::new(), controls };

    let mut pages: Vec<Page<Event>> = Vec::new();
    pages.push(main_page);

    Model { pages, start_page: 0 }
}

} // verus!
