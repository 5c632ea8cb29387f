//! An escrowed, oracle-resolved binary-outcome settlement engine.
//!
//! Users deposit a fungible asset into a pooled custody account tied to a
//! named event and receive a fully hedged pair of claims on the two
//! mutually exclusive outcomes. A designated oracle reports the outcome
//! exactly once; afterwards each user may redeem the winning side of their
//! position for a transfer out of the event's custody account.
//!
//! The crate verifies the settlement state machine and its custody and
//! accounting rules: when funds may move, how much, to whom, and under
//! what authorization. The surrounding execution environment (key
//! generation, derivation of sub-account addresses from seeds, durable
//! storage) is modelled at its interface: identities are opaque account
//! ids, and the custody ledger is a small verified model that accepts
//! either a holder's signature or a capability reconstructed from the
//! seeds of a derived sub-account.
//!
//! A deposit credits the full amount to both sides of a position while
//! the pool receives only one unit of asset per claim pair, which raises
//! the question whether the pool can be drained short. It cannot: the
//! two sides of every position stay pointwise equal and only the winning
//! side is ever paid, so each vault always covers the outstanding claims
//! against its event. That is the engine's `solvent` invariant, proved
//! preserved by every operation, and [`laws::lemma_pool_covers_payout`]
//! draws the consequence for a single redemption.

pub mod engine;
pub mod errors;
pub mod ids;
pub mod laws;
pub mod ledger;
pub mod records;
