//! Materialized views.
pub mod error;
pub mod expr;
pub mod interval;
pub mod materialized;
pub mod names;
pub mod plan;
pub mod rewrite;
pub mod scalar;
pub mod schema;
pub mod text;
