//! A small 16-bit virtual machine: a bit-field reader, an instruction
//! dispatcher, the machine state with its fetch-execute loop, a loader for
//! program images and the line parser of an interactive console.

pub mod bit_reader;
pub mod vm;
pub mod instructions;
pub mod image;
pub mod console;
