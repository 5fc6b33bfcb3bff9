//! A CHIP-8 virtual machine: a fixed memory image, sixteen 8-bit registers,
//! a bounded call stack, a packed monochrome framebuffer, a keypad, two
//! timers, and a fetch-decode-execute loop driven once per displayed frame.
//!
//! - [`opcodes`] holds the instruction set and the decoder for 16-bit
//!   instruction words.
//! - [`stack`] holds the bounded return-address stack.
//! - [`utilities`] extracts operand fields from instruction words.
//! - [`chip8`] holds the machine itself: its state, the instruction
//!   executor, and the frame scheduler, each specified against a
//!   mathematical view of the whole machine state.
//! - [`laws`] states and proves the properties that relate several
//!   operations, such as call/return pairing and the self-inverse XOR blit.

pub mod chip8;
pub mod laws;
pub mod opcodes;
pub mod stack;
pub mod utilities;
