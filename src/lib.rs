//! Connection pooling, value adaptation, SQL compilation and federation
//! planning for exposing MySQL tables to an analytical query engine.

pub mod pool;
pub mod values;
pub mod filter;
pub mod sql;
pub mod provider;
pub mod mysql;
