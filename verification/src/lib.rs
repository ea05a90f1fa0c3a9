//! Decision logic of a per-user Windows start-up entry manager.

pub mod text;
pub mod model;
pub mod command;
pub mod naming;
pub mod risk;
pub mod order;
pub mod records;
pub mod store;
pub mod listing;
pub mod entries;
pub mod toggle;
pub mod version;
