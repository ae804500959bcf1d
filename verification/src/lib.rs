//! Verified decision logic of a non-blocking TCP listener.
//!
//! The library never enters the operating system itself. It says which call to
//! make next, takes the raw reply, and decides: what an error means, which
//! address to try, when a descriptor has to be closed, when to wait.

pub mod accept;
pub mod addr;
pub mod error;
pub mod laws;
pub mod listener;
pub mod plan;
pub mod platform;
pub mod progress;
pub mod resolve;
pub mod socket;
pub mod stream;
pub mod syscall;
pub mod text;
