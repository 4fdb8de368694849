//! Typed object model and indirect-reference resolution for a document
//! format whose values are a tagged union connected by numbered references.
//!
//! The crate defines the generic tagged value ([`primitive::Primitive`]),
//! indirect references and their compile-time typed wrapper
//! ([`object::PlainRef`], [`object::Ref`]), the resolver capability
//! ([`object::Resolve`]), and the bidirectional conversion contract
//! ([`object::Object`]) together with its built-in implementations.

pub mod convert;
pub mod err;
pub mod laws;
pub mod object;
pub mod primitive;
pub mod text;
