//! Rust Microcontroller Operating System (RuCOS): a portable preemptive
//! kernel for single-core microcontrollers, and the arithmetic a port needs
//! to lay out the first stack frame of a task.
pub mod kernel;
pub mod port;
pub mod task;

pub use kernel::Kernel;
pub use task::{Task, TaskPendReason, TaskState};
