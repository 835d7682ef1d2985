use vstd::prelude::*;

verus! {

/// Every failure the issuance engine can report. Each variant is a
/// deterministic function of the caller's input and of the store's state.
#[derive(Clone, Copy, Debug, PartialEq, Eq, Structural)]
pub enum CertError {
    /// A field's encoded length exceeds its declared byte budget.
    InputTooLarge,
    /// A record already occupies the derived address; issuance for that
    /// exact key triple already happened.
    AlreadyExists,
    /// The authority proof did not validate.
    AuthorizationError,
    /// Stored bytes are truncated, carry an oversized length prefix, or
    /// hold invalid UTF-8.
    DecodingError,
    /// No viable bump seed exists for the key triple; statistically
    /// improbable, but the derivation is allowed to report it.
    DerivationFailed,
}

} // verus!
