//! The application-level events the menu produces. Delivering them to the
//! platform's event loop is the embedding application's concern.

use vstd::prelude::*;

verus! {

/// What the user asked the application to do.
#[derive(Debug, Clone, Copy, PartialEq, Eq, Structural)]
pub enum Event {
    StartGame,
    Exit,
}

} // verus!
