//! Error taxonomy of the bridge protocol. Every error is terminal for the
//! current invocation: no ledger mutation is committed when one fires.
use vstd::prelude::*;

verus! {

/// Why a bridge operation was rejected. Each variant names the check that
/// failed; the operation that returned it left the contract state unchanged.
#[derive(Clone, Copy, Debug, PartialEq, Eq, Structural)]
pub enum ConnectorError {
    /// Malformed arguments, recipient message, or address of the wrong length.
    DecodeError,
    /// The custodian address in the deposit event differs from the configured one.
    EventAddressMismatch,
    /// The deposit fee exceeds the deposited amount.
    FeeExceedsAmount,
    /// The external verifier reported the proof as invalid.
    VerificationFailed,
    /// The proof fingerprint was already consumed by an earlier mint.
    ProofReplay,
    /// A resumption entry point was invoked by a non-self caller.
    PrivilegedCallViolation,
    /// The resumption carried the wrong number or kind of asynchronous results.
    UnexpectedAsyncResultShape,
    /// The withdrawal signature does not recover to the claimed sender.
    SignatureInvalid,
    /// A burn or transfer asked for more than the source key holds.
    InsufficientBalance,
    /// Minting the requested amount would overflow the total supply.
    Overflow,
    /// An origin-address deposit was submitted without a designated relayer.
    RelayerRequired,
}

} // verus!
