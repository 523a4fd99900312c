//! A record store for fitness-progress entries and user accounts.
pub mod laws;
pub mod llm;
pub mod store;
