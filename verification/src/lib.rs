use vstd::prelude::*;

pub mod codec;
pub mod compound;
pub mod core_types;
pub mod data_type;
pub mod decoder;
pub mod digits;
pub mod encoder;
pub mod entity;
pub mod expr_node;
pub mod hash;
pub mod literal;
pub mod network;
pub mod pipeline;
pub mod prim;
pub mod query;
pub mod scalar;
pub mod schema;
pub mod signed;
pub mod stream;
pub mod value;
pub mod varint;

verus! {

} // verus!
