//! An interactive menu page: which control the cursor is over, which is
//! pressed, and which click fires which event.
//!
//! The float geometry — laying the controls out and testing which
//! rectangle contains the cursor — lives with the rendering layer outside
//! the library; the page takes the index of the control the cursor is
//! over and keeps the interaction state.

pub mod model;

use vstd::prelude::*;

use model::Action;
use model::Control;

verus! {

/// An event a menu control can send when activated.
pub trait MenuEvent {
    fn send(&self);
}

/// One page of controls with its interaction state.
pub struct Page<E> {
    controls: Vec<Control<E>>,
    hovered: Option<usize>,
    pressed: Option<usize>,
}

impl<E> Page<E> {
    pub closed spec fn controls_spec(self) -> Seq<Control<E>> {
        self.controls@
    }

    pub closed spec fn hovered_spec(self) -> Option<usize> {
        self.hovered
    }

    pub closed spec fn pressed_spec(self) -> Option<usize> {
        self.pressed
    }

    /// The interaction state only ever points at an existing control.
    pub open spec fn wf(self) -> bool {
        &&& (self.hovered_spec() matches Some(i) ==> i < self.controls_spec().len())
        &&& (self.pressed_spec() matches Some(i) ==> i < self.controls_spec().len())
    }

    /// A fresh page: nothing hovered, nothing pressed.
    pub fn new(controls: Vec<Control<E>>) -> (r: Page<E>)
        ensures
            r.wf(),
            r.controls_spec() == controls@,
            r.hovered_spec() is None,
            r.pressed_spec() is None,
    {
        Page { controls, hovered: None, pressed: None }
    }

    /// Number of controls on the page.
    pub fn len(&self) -> (r: usize)
        ensures
            r == self.controls_spec().len(),
    {
        self.controls.len()
    }

    /// The control at index `i`.
    pub fn control(&self, i: usize) -> (r: &Control<E>)
        requires
            i < self.controls_spec().len(),
        ensures
            *r == self.controls_spec()[i as int],
    {
        &self.controls[i]
    }

    /// The control the cursor is over, if any.
    pub fn hovered(&self) -> (r: Option<usize>)
        ensures
            r == self.hovered_spec(),
    {
        self.hovered
    }

    /// The control a press started on, if any.
    pub fn pressed(&self) -> (r: Option<usize>)
        ensures
            r == self.pressed_spec(),
    {
        self.pressed
    }

    /// The cursor moved; `hit` is the control under it now, if any, as the
    /// geometry layer determined. Hovering moves onto an enabled control,
    /// stays put when the control under the cursor is disabled, and clears
    /// when the cursor is over none.
    pub fn cursor_moved(&mut self, hit: Option<usize>)
        requires
            old(self).wf(),
            hit matches Some(i) ==> i < old(self).controls_spec().len(),
        ensures
            final(self).wf(),
            final(self).controls_spec() == old(self).controls_spec(),
            final(self).pressed_spec() == old(self).pressed_spec(),
            match hit {
                Some(i) => final(self).hovered_spec() == (
                if old(self).controls_spec()[i as int].enabled {
                    Some(i)
                } else {
                    old(self).hovered_spec()
                }),
                None => final(self).hovered_spec() is None,
            },
    {
        match hit {
            Some(i) => {
                if self.controls[i].enabled {
                    self.hovered = Some(i);
                }
            },
            None => {
                self.hovered = None;
            },
        }
    }

    /// Pressing starts on whatever is hovered.
    pub fn cursor_pressed(&mut self)
        requires
            old(self).wf(),
        ensures
            final(self).wf(),
            final(self).controls_spec() == old(self).controls_spec(),
            final(self).hovered_spec() == old(self).hovered_spec(),
            final(self).pressed_spec() == old(self).hovered_spec(),
    {
        self.pressed = self.hovered;
    }
}

impl<E: MenuEvent> Page<E> {
    /// Releasing the cursor clicks the pressed control, but only if the
    /// cursor is still over it; either way the press ends.
    pub fn cursor_released(&mut self)
        requires
            old(self).wf(),
        ensures
            final(self).wf(),
            final(self).controls_spec() == old(self).controls_spec(),
            final(self).hovered_spec() == old(self).hovered_spec(),
            final(self).pressed_spec() is None,
    {
        let clicked: Option<usize> = match (self.hovered, self.pressed) {
            (Some(h), Some(p)) => if h == p {
                Some(p)
            } else {
                None
            },
            _ => None,
        };
        if let Some(i) = clicked {
            self.controls[i].action(Action::Click)
        }
        self.pressed = None;
    }
}

} // verus!
