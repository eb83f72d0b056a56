//! A small record store with checked access, overflow-guarded scoring,
//! a bounded factorial and parameterized lookup queries.

pub mod score;
pub mod text;
pub mod query;
pub mod compute;
pub mod store;
