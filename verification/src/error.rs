use vstd::prelude::*;

verus! {

/// The closed set of failures this layer can surface. Every failure carries
/// enough context (offending code, expected vs. actual size or count, path or
/// symbol name) to be reported verbatim to the caller; no operation raises an
/// unclassified error.
#[derive(Debug, Clone, PartialEq, Eq)]
pub enum FfiError {
    /// A type code outside the declared alphabet was used in a declaration.
    UnknownTypeCode { code: char },
    /// A buffer access reached past the end of the backing byte region.
    OutOfBounds { offset: usize, wanted: usize, len: usize },
    /// A raw or text value did not fit into the fixed-length buffer.
    ValueTooLong { wanted: usize, capacity: usize },
    /// A dynamic value could not be represented in the declared native type
    /// without losing information.
    ConversionError { code: char },
    /// The number of call arguments differed from the declared argument types.
    ArityMismatch { expected: usize, got: usize },
    /// The platform loader refused to open a library at this path.
    LoadError { path: String, message: String },
    /// The platform loader found no symbol of this name in the library.
    SymbolNotFound { name: String },
    /// A symbol was requested from a library whose handle was already closed.
    LibraryClosed,
}

} // verus!
