//! A CHIP-8 interpreter core: the address space and registers, the
//! monochrome display, and the fetch-decode-execute engine.
pub mod display;
pub mod error;
pub mod memory;
pub mod decode;
pub mod chip8;
