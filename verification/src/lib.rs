//! A small language for orchestrating asynchronous function calls: programs
//! start jobs, await and abort them, branch, iterate and build structured
//! values.  This crate holds the verified core: the bytecode compiler that
//! lowers parsed statements into a flat instruction stream with a
//! deduplicated constant pool and backpatched relative jumps, the
//! stack-based virtual machine that executes that stream one instruction per
//! step, and the transport codec that round-trips compiled programs.  All
//! real asynchrony stays behind the controller boundary.

pub mod assembler;
pub mod controllers;
pub mod io;
pub mod machine;
