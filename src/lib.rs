pub mod cube;
pub mod layout;
pub mod search;
pub mod tray;
