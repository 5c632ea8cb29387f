//! Identities and transfer authorities.

use vstd::prelude::*;

verus! {

/// Identity of an account in the surrounding execution environment: an
/// event record, a token account, or a participant's signing key. The
/// engine never inspects an identity; it only compares them, so a single
/// opaque word models an address of any width.
#[derive(Clone, Copy, PartialEq, Eq, Structural, Hash, Debug)]
pub struct AccountId {
    pub value: u64,
}

/// What the custody ledger accepts as authorization for a transfer out of
/// an account.
///
/// `Signer` is an ordinary holder acting under their own key. `Derived` is
/// the capability form of a derived sub-account authority: whoever can
/// name the seeds of the account (the event identity together with the
/// stored `bump` discriminator) controls it, with no private key ever
/// stored. The engine reconstructs this capability from an event record
/// when paying out of the event's vault.
#[derive(Debug)]
pub enum Authority {
    Signer(AccountId),
    Derived { event_id: String, bump: u8 },
}

/// Spec-level equality of authorities: same variant, same identity, and
/// for derived authorities the same seed string and discriminator.
pub open spec fn authority_eq(a: Authority, b: Authority) -> bool {
    match (a, b) {
        (Authority::Signer(x), Authority::Signer(y)) => x == y,
        (
            Authority::Derived { event_id: e1, bump: b1 },
            Authority::Derived { event_id: e2, bump: b2 },
        ) => e1@ == e2@ && b1 == b2,
        _ => false,
    }
}

impl Authority {
    /// Exact copy of an authority.
    pub fn duplicate(&self) -> (r: Authority)
        ensures
            r == *self,
    {
        match self {
            Authority::Signer(id) => Authority::Signer(*id),
            Authority::Derived { event_id, bump } => Authority::Derived {
                event_id: event_id.clone(),
                bump: *bump,
            },
        }
    }

    /// Does this authority authorize the same account as `other`?
    pub fn matches(&self, other: &Authority) -> (r: bool)
        ensures
            r == authority_eq(*self, *other),
    {
        match (self, other) {
            (Authority::Signer(x), Authority::Signer(y)) => x == y,
            (
                Authority::Derived { event_id: e1, bump: b1 },
                Authority::Derived { event_id: e2, bump: b2 },
            ) => *e1 == *e2 && *b1 == *b2,
            (_, _) => false,
        }
    }
}

} // verus!
