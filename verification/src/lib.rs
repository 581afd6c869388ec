//! FuzzerK: a small command language for composing fuzzed byte buffers,
//! the virtual machine that runs it, and the fuzzers it draws from.

pub mod datautils;
pub mod entropy;
pub mod fuzzers;
pub mod hex;
pub mod image;
pub mod integer;
pub mod iob;
pub mod sigpro;
pub mod text;
pub mod vm;
