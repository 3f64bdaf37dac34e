//! Validation and canonicalization of Brazilian national identification
//! numbers: the 11-digit individual document (CPF) and the 14-digit corporate
//! document (CNPJ).
//!
//! Both kinds share the same shape: non-digit mask characters are stripped
//! from the raw input, shorter inputs are left-padded with zeros to the
//! document width, inputs with too many digits are rejected, all-equal digit
//! sequences are rejected, and two weighted-modular check digits must match.
//! The [`Document`] trait is the uniform capability contract the two kinds
//! implement: construct, validate, and read the canonical digit string.

use vstd::prelude::*;

pub mod cnpj;
pub mod cpf;
pub mod digits;

verus! {

/// A document kind with a defined validation scheme over a raw input string.
///
/// A value of an implementing type stores the representation of a document
/// that its own formatting logic derives from the raw input; construction is
/// all-or-nothing, so rejected input produces no value. The two kinds this
/// crate defines state their exact validation and canonicalization behavior
/// as `ensures` clauses on their implementations of these three operations.
pub trait Document {
    /// Creates a new valid document. Returns `None` exactly when validation
    /// fails; on success the value stores the formatted representation of
    /// the input, not the raw input.
    fn new(document: &str) -> Option<Self> where Self: Sized;

    /// Verifies that a given string is a valid document according to this
    /// kind's validation logic.
    fn validate(document: &str) -> bool where Self: Sized;

    /// Returns a reference to the string representation of the document.
    fn as_str(&self) -> &str;
}

} // verus!
