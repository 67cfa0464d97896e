//! The records of the `urls` table, and what is asked of the store that
//! keeps them.
pub mod models;
pub mod store;
