//! The two persisted record kinds of the settlement engine, and the
//! spec-level transitions of the single-record operations.

use vstd::prelude::*;

use crate::errors::GuccError;
use crate::ids::AccountId;

verus! {

/// One binary-outcome market: the per-event registry record.
pub struct CongestionEvent {
    /// Creator identity; informational, not consulted by later operations.
    pub authority: AccountId,
    /// Stable identity of the event; unique system-wide, at most 32
    /// characters; also the seed from which the event's custody
    /// sub-account authority is derived.
    pub event_id: String,
    /// Free text, at most 256 characters.
    pub description: String,
    /// Advisory settlement deadline; stored, never enforced.
    pub settlement_time: i64,
    /// The sole identity authorized to resolve this event.
    pub oracle: AccountId,
    /// Whether the outcome has been reported; moves false to true exactly
    /// once and is never reset.
    pub resolved: bool,
    /// The reported outcome; meaningful only once `resolved` is true.
    pub outcome: bool,
    /// Identity of the accepted asset type; fixed at creation.
    pub usdc_mint: AccountId,
    /// Identity of this event's custody account; fixed at creation.
    pub vault: AccountId,
    /// Discriminator byte with which the custody authority is re-derived
    /// from `event_id` when paying out of the vault.
    pub bump: u8,
}

/// One user's outstanding claims on the two outcomes of one event.
pub struct UserPosition {
    /// The owning user; set on first deposit, immutable thereafter.
    pub owner: AccountId,
    /// Identity of the owning event; immutable.
    pub event: String,
    /// Claim balance on the "yes" outcome.
    pub yes_amount: u64,
    /// Claim balance on the "no" outcome.
    pub no_amount: u64,
}

/// What a resolved event owes this position: the winning side's balance.
/// The losing side is simply discarded.
pub open spec fn payout_of(e: CongestionEvent, p: UserPosition) -> u64 {
    if e.outcome {
        p.yes_amount
    } else {
        p.no_amount
    }
}

/// The position after one deposit of `amount`: both claim balances grow
/// by the full amount, minting a fully hedged pair of claims (meaningful
/// only when neither balance overflows).
pub open spec fn position_after_deposit(p: UserPosition, amount: u64) -> UserPosition {
    UserPosition {
        owner: p.owner,
        event: p.event,
        yes_amount: (p.yes_amount + amount) as u64,
        no_amount: (p.no_amount + amount) as u64,
    }
}

/// A deposit of `amount` overflows the position exactly when either claim
/// balance would exceed its width.
pub open spec fn deposit_overflows(p: UserPosition, amount: u64) -> bool {
    p.yes_amount + amount > u64::MAX || p.no_amount + amount > u64::MAX
}

/// The position with both claim balances zeroed, as redemption leaves it.
pub open spec fn zeroed(p: UserPosition) -> UserPosition {
    UserPosition { owner: p.owner, event: p.event, yes_amount: 0, no_amount: 0 }
}

/// The spec-level transition of resolution on a single event record:
/// what the record becomes and what the operation reports. Only the
/// stored oracle may resolve, and only once; a failed resolution leaves
/// the record untouched.
pub open spec fn resolve_step(e: CongestionEvent, signer: AccountId, outcome: bool) -> (
    CongestionEvent,
    Result<(), GuccError>,
) {
    if signer != e.oracle {
        (e, Err(GuccError::OracleMismatch))
    } else if e.resolved {
        (e, Err(GuccError::AlreadyResolved))
    } else {
        (
            CongestionEvent {
                authority: e.authority,
                event_id: e.event_id,
                description: e.description,
                settlement_time: e.settlement_time,
                oracle: e.oracle,
                resolved: true,
                outcome,
                usdc_mint: e.usdc_mint,
                vault: e.vault,
                bump: e.bump,
            },
            Ok(()),
        )
    }
}

} // verus!
