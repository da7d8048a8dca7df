pub mod filter;
pub mod query;
pub mod render;
pub mod selection;
pub mod session;
