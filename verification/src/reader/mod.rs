//! The PDF reader's logic: search progress, the choices its panes make,
//! notes on highlights and what is exported from them.

pub mod ask;
pub mod config;
pub mod digest;
pub mod library;
pub mod export;
pub mod order;
pub mod outline;
pub mod present;
pub mod render_cache;
pub mod search;
pub mod store;
pub mod tags;
pub mod ui_logic;
