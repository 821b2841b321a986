//! Type definitions shared by the compiler and the interpreter.

pub mod base;
pub mod bits;
pub mod contract;
pub mod data_table;
pub mod layout;
pub mod opcode;
pub mod roundtrip;
pub mod traits;
pub mod type_cast;

pub use base::{Numeric, PactType, StringLike, Value};
pub use contract::{BinaryFormatErr, Contract};
pub use data_table::DataTable;
