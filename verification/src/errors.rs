//! Error taxonomy of the decompile / recompile core.
//!
//! Every failure is surfaced to the caller as a typed result; there is no
//! local recovery, no default substitution, and no partial output.

use vstd::prelude::*;

verus! {

/// Structural faults of a compressed message, found while validating it.
#[derive(Clone, Copy, Debug, PartialEq, Eq, Structural)]
pub enum SanitizeError {
    /// An instruction or header count references a position beyond the
    /// resolved account list.
    IndexOutOfBounds,
    /// A combined count overflows the protocol's structural limits.
    ValueOutOfBounds,
    /// A header or lookup field holds a value the protocol forbids.
    InvalidValue,
}

/// Faults found while expanding address-table lookups.
#[derive(Clone, Copy, Debug, PartialEq, Eq, Structural)]
pub enum AddressLoaderError {
    /// The message references lookup tables but no lookup capability was
    /// supplied.
    Disabled,
    /// A referenced table address is absent from the resolved set.
    LookupTableAccountNotFound,
    /// A lookup index is not below the table's address count.
    InvalidLookupIndex,
}

/// The library's error type.
#[derive(Clone, Copy, Debug, PartialEq, Eq, Structural)]
pub enum Error {
    /// A message-level structural fault.
    SanitizeMessage(SanitizeError),
    /// An address-lookup-level fault.
    AddressLoader(AddressLoaderError),
    /// A lookup table's raw account bytes could not be deserialized.
    LookupTableDeserialize,
    /// A lookup table account was not found on chain.
    LookupTableAccountNotFound,
    /// Recompilation could not produce a structurally valid message.
    SolanaCompileError,
    /// The process-wide base URL was already set.
    BaseUrlAlreadySet,
}

} // verus!
