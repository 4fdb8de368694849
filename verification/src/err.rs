use crate::primitive::PrimitiveKind;
use vstd::prelude::*;

verus! {

/// The failure modes of conversion and serialization.
#[derive(Clone, Copy, Debug, PartialEq, Eq, Structural)]
pub enum ObjectError {
    /// The generic value's variant does not match what the target type
    /// requires.
    TypeMismatch { expected: PrimitiveKind, found: PrimitiveKind },
    /// Resolution was attempted through a resolver that disallows it.
    ReferenceResolutionForbidden,
    /// The resolver could not produce a value for the reference.
    ReferenceResolutionFailed,
    /// A character outside the seven-bit range appeared during text
    /// serialization.
    EncodingViolation,
}

} // verus!
