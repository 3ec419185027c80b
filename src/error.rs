use vstd::prelude::*;

verus! {

/// Why a document could not be decoded. The first error aborts the decode.
#[derive(Debug, Clone, Copy, PartialEq, Eq, Structural)]
pub enum DecodeError {
    /// An identifier text is empty, holds a non-hex character or does not
    /// fit in 64 bits.
    MalformedIdentifier,
    /// A reserved or declared field occurs twice in one object.
    DuplicateField,
    /// Children or other fields come before the object's category.
    MissingCategory,
    /// A field of a source position has the wrong shape.
    MalformedLocation,
    /// A declared field holds a value of the wrong shape.
    InvalidValue,
    /// The event stream is not a well-formed document.
    MalformedDocument,
}

} // verus!
