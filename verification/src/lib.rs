//! An interpreter for the P-code intermediate representation: a sparse
//! byte-addressed memory model, an arbitrary-precision codec between byte
//! strings and integers, and a per-opcode execution engine driven by a
//! cursor over instruction-grouped P-code streams.

pub mod bignum;
pub mod binary;
pub mod cli;
pub mod codec;
pub mod emulator;
pub mod machine;
pub mod numrep;
pub mod pcode;
pub mod readobj;
pub mod shared;
pub mod space;
pub mod step;
