//! Atoms: metadata, references and schemas of the universal data
//! primitive.

pub mod meta;
pub mod compose;
pub mod causal_atom;
