//! The managed entries: what they hold, and how they are read, written and merged.

pub mod block_laws;
pub mod client_laws;
pub mod describe;
pub mod entry_laws;
pub mod local_networks;
pub mod match_header;
pub mod match_laws;
pub mod model;
pub mod network_laws;
pub mod openssh;
pub mod parse_laws;
pub mod parser;
pub mod pattern;
pub mod record_laws;
pub mod render;
pub mod resolve;
pub mod resolve_laws;
pub mod root_config;
pub mod roundtrip;
pub mod source_laws;
pub mod state;
pub mod state_laws;
pub mod store;
pub mod store_laws;
pub mod template;
pub mod validate;
