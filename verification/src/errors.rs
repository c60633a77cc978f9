use vstd::prelude::*;

verus! {

/// Every failure an operation can surface.  Each operation detects its error
/// before mutating anything, so a caller that receives an error observes the
/// ledger exactly as it was before the call.
#[derive(Clone, Copy, Debug, PartialEq, Eq, Structural)]
pub enum ErrorCode {
    /// The global pool record already exists.
    AlreadyInitialized,
    /// The supplied credential does not match the configured admin identity.
    AdminMismatch,
    /// An entity identifier is longer than `MAX_IDENTIFIER_LEN` bytes.
    InvalidIdentifierLength,
    /// A raw derivation seed is longer than `MAX_SEED_LEN` bytes.
    InvalidSeedLength,
    /// A pack with the same ordered four-entity tuple already exists.
    DuplicatePack,
    /// The address recomputed from the four identifiers matches no pack.
    InvalidPackDerivation,
    /// A vault or pack sub-account cannot cover the requested transfer.
    InsufficientVaultBalance,
    /// An account that this operation must create already exists.
    AccountExists,
    /// An account that this operation relies on does not exist.
    AccountMissing,
    /// A balance would exceed the largest representable amount.
    ArithmeticOverflow,
}

} // verus!
