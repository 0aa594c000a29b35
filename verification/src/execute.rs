//! The mutating operations, each as the handler of one message.

pub mod create;
pub mod delete;
pub mod set_metadata;
pub mod set_operator;
pub mod update;
