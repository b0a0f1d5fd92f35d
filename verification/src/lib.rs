//! A verified interpreter for the classic 8-bit CHIP-8 virtual machine.
//!
//! The machine state (memory, registers, stack, display, keypad, timers)
//! and the fetch-decode-execute cycle are implemented here with full
//! functional contracts; the window, keyboard and file plumbing live in
//! the accompanying application crate.

pub mod cycle;
pub mod draw;
pub mod laws;
pub mod machine;
