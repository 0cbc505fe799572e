//! Concurrency and communication core of a small agent kernel: bounded
//! queues between tasks, the keyboard interrupt bridge, line framing of the
//! serial link, the daemon's transmit and dispatch decisions, the tool
//! executor and the shell's line editing.

pub mod bus;
pub mod codec;
pub mod daemon;
pub mod envelope;
pub mod fs;
pub mod keyboard;
pub mod queue;
pub mod shell;
pub mod text;
pub mod tool;
