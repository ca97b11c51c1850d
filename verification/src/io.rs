//! Byte-level transport primitives shared by everything that reads or
//! writes the wire form of data.

pub mod protocol_v1;
