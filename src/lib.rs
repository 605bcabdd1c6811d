//! Host-side protocol engine for GRBL-class motion controllers: the line codec,
//! the flow-controlled scheduler that keeps the controller's receive buffer from
//! overflowing, and the decisions of the streaming driver.

pub mod command;
pub mod scheduler;
pub mod text;
pub mod message;
pub mod driver;
pub mod config;
