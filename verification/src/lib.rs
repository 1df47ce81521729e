//! Management of SSH client configuration split over one file per host.

pub mod address;
pub mod backup;
pub mod commands;
pub mod config;
pub mod error;
pub mod layout;
pub mod paths;
pub mod strings;
pub mod text;
pub mod text_laws;
pub mod tui;
