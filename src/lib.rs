pub mod error;
pub mod laws;
pub mod semantics;
pub mod vm;

pub use error::VmError;
pub use vm::{binary_op, VM};
