//! Asynchronous GPU-resource streaming core: reference-counted resource
//! handles, a lifecycle action mailbox, worker decision logic, and a
//! fixed-capacity sub-allocator that places loaded bytes into a backing
//! buffer, together with the menu model that drives resource requests.

pub mod event;
pub mod free;
pub mod interval;
pub mod menu;
pub mod pages;
pub mod res;
pub mod scene;
pub mod view;

pub use free::FreeIntervals;
pub use interval::Interval;
