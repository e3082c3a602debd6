//! Translation of small matrix-language functions into fixed-size linear
//! algebra code: canonicalization of the syntax tree, shape inference and
//! shape-directed emission.
pub mod syntax;
pub mod shape;
pub mod literal;
pub mod infer;
pub mod canon;
pub mod emit;
