//! The error taxonomy of the settlement engine.

use vstd::prelude::*;

verus! {

/// Every way an operation of the settlement engine can fail. Each failure
/// aborts the whole operation: no state change of a failed operation is
/// ever observable.
///
/// - State errors: `AlreadyResolved`, `NotResolved`.
/// - Authorization errors: `OracleMismatch` (resolve by a signer other
///   than the stored oracle) and `Unauthorized` (a transfer whose
///   authority does not control the source account).
/// - Arithmetic errors: `Overflow` on claim balances or on a transfer's
///   destination balance.
/// - Resource errors: `AccountInUse` (allocating a record or account under
///   an identity already taken), `UnknownEvent`, `UnknownPosition` and
///   `UnknownAccount` (operating on records that do not exist), and
///   `InsufficientBalance` on a transfer.
#[derive(Clone, Copy, PartialEq, Eq, Structural, Debug)]
pub enum GuccError {
    /// The event has already been resolved; resolution is exactly-once.
    AlreadyResolved,
    /// The event has not been resolved yet; redemption must wait.
    NotResolved,
    /// The resolving signer is not the event's stored oracle.
    OracleMismatch,
    /// A transfer's authority does not control the source account.
    Unauthorized,
    /// A claim balance or a destination balance would exceed its width.
    Overflow,
    /// The identity for a new record or account is already taken.
    AccountInUse,
    /// No event record exists under the given event identity.
    UnknownEvent,
    /// No position exists for the given event and owner.
    UnknownPosition,
    /// A transfer names a token account that does not exist.
    UnknownAccount,
    /// The source account holds less than the transfer amount.
    InsufficientBalance,
    /// Source and destination of a transfer hold different asset types.
    MintMismatch,
}

} // verus!
