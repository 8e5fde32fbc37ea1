//! Core of an interactive terminal directory picker.
//!
//! The crate owns the navigation state machine, the listing sort and
//! hidden-entry filter, the path arithmetic, and the viewport scroll
//! geometry.  Everything that touches the terminal or the filesystem is
//! left to the surrounding program, which hands directory listings in as
//! plain values and reads the state back out.

pub mod app;
pub mod components;
pub mod paths;
pub mod ui;
