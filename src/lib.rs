pub mod array;
pub mod error;
pub mod function;
pub mod parser;
pub mod primitives;
pub mod scalar;
pub mod tree;
pub mod value;
