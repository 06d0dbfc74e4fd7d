//! A dynamic foreign-function-interface core: a registry that maps
//! one-character type codes to native storage layout, a bounds-checked
//! buffer model backing every foreign value, a cache of loaded shared
//! libraries and resolved symbols, and a call dispatcher that marshals
//! dynamically-typed values into fixed-width native argument cells and
//! unmarshals native return values.
//!
//! The native boundary itself (the platform loader's symbol lookup and the
//! foreign call) is performed by the embedding program; this crate computes
//! and checks everything up to that boundary and everything after it.

pub mod array;
pub mod buffer;
pub mod codec;
pub mod descriptor;
pub mod dispatch;
pub mod error;
pub mod fdset;
pub mod library;
pub mod symbol;
