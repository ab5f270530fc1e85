//! Selection of GPU device identifiers to expose to a launched process.

pub mod device_set;
pub mod failure;
pub mod inventory;
pub mod order;
pub mod selector;
pub mod session;
pub mod text;
