pub mod auth;
pub mod bump;
pub mod command;
pub mod number;
pub mod scheduler;
pub mod store;
