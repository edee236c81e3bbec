//! The CAN frame model.

pub mod frame;
