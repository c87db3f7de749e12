//! A small stack-based virtual machine for compiled class files: a verified
//! class-file decoder, a constant-pool resolver and a bytecode interpreter.

pub mod error;
pub mod value;
pub mod arith;
pub mod reader;
pub mod class_file;
pub mod constant_pool;
pub mod method;
pub mod class;
pub mod registry;
pub mod class_loader;
pub mod descriptor;
pub mod thread;
pub mod vm;
pub mod laws;
pub mod round_trip;
