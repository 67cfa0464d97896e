//! The handlers: giving out a short link, following one, and the pages they
//! answer with.
pub mod inclusion;
pub mod resolve;
pub mod resource_manager;
pub mod shorten;
