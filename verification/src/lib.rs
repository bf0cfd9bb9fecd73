//! State of a terminal file manager: the listing, the registry of yanked items,
//! the history of operations and what is drawn of them.

pub mod clock;
pub mod draw;
pub mod error;
pub mod history;
pub mod item;
pub mod laws;
pub mod layout;
pub mod listing_laws;
pub mod op;
pub mod open;
pub mod order;
pub mod path;
pub mod path_laws;
pub mod put;
pub mod remove;
pub mod route;
pub mod run_laws;
pub mod screen_laws;
pub mod session;
pub mod state;
pub mod text;
pub mod text_laws;
pub mod tree;
pub mod view;
pub mod walk_laws;
