//! Structural extraction of typed records from the rendered HTML of a
//! blockchain explorer: an immutable DOM arena, declarative tree queries,
//! and one verified parser per page section.

pub mod account;
pub mod args;
pub mod config;
pub mod dom;
pub mod err;
pub mod num;
pub mod text;
pub mod transaction;
