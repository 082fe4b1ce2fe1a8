//! Procedural-image compute functions: the expression model, its lowering to
//! shader source, random shallow-node generation, breadth-first traversal and
//! a byte encoding of trees.
pub mod codec;
pub mod error;
pub mod expr;
pub mod generator;
pub mod nesting;
pub mod raster;
pub mod shader;
pub mod traversal;

pub use error::ApplicationError;
pub use expr::{
    ComputeFunction, ConstantFunction, Decimal, EnumMethods, SingleArgFunction, TwoArgFunction,
};
pub use raster::{encode_image, Resolution};
pub use shader::{fill_template, lower, sentinel, ShaderFunction};
