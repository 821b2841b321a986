//! The traits of the type system.

pub use crate::types::type_cast::IntoPact;
