//! Pieces of Candy's compiler and runtime: the whitespace-preserving concrete
//! syntax tree parser, the CST, the formatter's width arithmetic, IDs in the
//! mid-level IR, the values on the VM's heap and the VM that runs byte code
//! on them, channels and fibers, and the phases of analyzing a module.

pub mod rcst;
pub mod chars;
pub mod string_to_rcst;
pub mod grammar;
pub mod trivia;
pub mod width;
pub mod cst;
pub mod builtin_functions;
pub mod mir;
pub mod object;
pub mod object_hash;
pub mod object_format;
pub mod object_inline;
pub mod struct_fields;
pub mod vm;
pub mod analyzer;
pub mod channels;
pub mod fibers;
pub mod utils;
