//! The virtual machine: its value and instruction model, the operand stack
//! and variable environment, the compiled program with its stepping
//! interpreter, the exact-integer number encoding, and the transport codec.

pub mod memory;
pub mod opcode;
pub mod vm_error;
pub mod vm_stack;
pub mod number;
pub mod vm_state;
pub mod serializer;
