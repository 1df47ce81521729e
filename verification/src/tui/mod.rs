//! The state of the terminal interface and what its keys do to it.



pub mod actions;
pub mod catalog;
pub mod form_laws;
pub mod forms;
pub mod key_laws;
pub mod keys;
pub mod list_laws;
pub mod saving;
pub mod state;
pub mod viewport;
pub mod views;
