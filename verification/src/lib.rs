//! Interrupt-driven text console for a bare-metal kernel, modelled as an
//! owned, verified library: a memory-mapped character grid with scrolling
//! and color attributes, a bounded UTF-8 input string, a single-slot
//! character mailbox between interrupt and polling contexts, and the
//! line-editing read calls built on top of them.
pub mod console;
pub mod draw;
pub mod interrupts;
pub mod string;
pub mod vga_buffer;
