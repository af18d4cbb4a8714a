//! The crate's error type, under the module name `error` as well.
pub use crate::errors::BfError;
