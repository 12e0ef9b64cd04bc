//! The engine of in-place source generation: it finds the declarations of a Rust source file
//! that ask for generated code, works out the exact stretch of text that each generated block
//! owns, walks nested modules and the files behind them, and splices formatted blocks back into
//! the input text, leaving every other byte as it was.

pub mod annotation;
pub mod dispatch;
pub mod format;
pub mod model;
pub mod mods;
pub mod packages;
pub mod paths;
pub mod position;
pub mod process;
pub mod region;
pub mod replacements;
pub mod splice;
pub mod tokens;
