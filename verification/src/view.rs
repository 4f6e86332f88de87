//! The view layer: what is currently on screen, drawn through an abstract
//! graphics capability that the embedding application provides.

pub mod menu;

use vstd::prelude::*;

use crate::event::Event;
use crate::view::menu::Menu;
use crate::view::menu::Model;

verus! {

/// The graphics capability the embedding application implements.
pub trait Gfx {
    fn present(&self);
}

/// What is shown: the menu while one is open.
pub struct View {
    menu: Option<Menu>,
}

impl View {
    pub closed spec fn menu_spec(self) -> Option<Menu> {
        self.menu
    }

    /// Start with the given menu open.
    pub fn new(menu_model: Model<Event>) -> (r: View)
        requires
            menu_model.wf(),
        ensures
            r.menu_spec() matches Some(m) && m.model_spec() == menu_model,
    {
        View { menu: Some(Menu::new(menu_model)) }
    }

    /// Present the current frame through the graphics capability.
    pub fn draw<G: Gfx>(&self, gfx: &G) {
        gfx.present()
    }
}

} // verus!
