//! The settlement engine: the four operations over the event registry,
//! the position ledger and the custody ledger, with their authorization,
//! atomicity and arithmetic-safety rules.

use vstd::prelude::*;

use crate::errors::GuccError;
use crate::ids::{authority_eq, AccountId, Authority};
use crate::ledger::{with_balance, Ledger, TokenAccount};
use crate::records::{
    deposit_overflows, payout_of, position_after_deposit, resolve_step, zeroed, CongestionEvent,
    UserPosition,
};

verus! {

/// The accounts taking part in event creation: the creator, the accepted
/// asset type, and the freshly derived custody account with its
/// discriminator.
pub struct InitializeEvent {
    pub authority: AccountId,
    pub usdc_mint: AccountId,
    pub vault: AccountId,
    pub bump: u8,
}

/// The accounts taking part in a deposit: the event, the depositing user
/// (the signer) and the user's funded source account.
pub struct MintTokens {
    pub congestion_event: String,
    pub user: AccountId,
    pub user_token_account: AccountId,
}

/// The accounts taking part in resolution: the event and the signer who
/// claims to be its oracle.
pub struct ResolveEvent {
    pub congestion_event: String,
    pub oracle: AccountId,
}

/// The accounts taking part in redemption: the event, the redeeming user
/// (the signer) and the user's destination account.
pub struct Redeem {
    pub congestion_event: String,
    pub user: AccountId,
    pub user_token_account: AccountId,
}

/// The authority that controls an event's custody account: the capability
/// re-derived from the event identity and the stored discriminator.
pub open spec fn vault_authority(e: CongestionEvent) -> Authority {
    Authority::Derived { event_id: e.event_id, bump: e.bump }
}

/// The whole state the settlement engine governs: the event registry, the
/// position ledger, and the custody ledger.
pub struct SettlementEngine {
    pub events: Vec<CongestionEvent>,
    pub positions: Vec<UserPosition>,
    pub ledger: Ledger,
}

/// Two engine states hold exactly the same records and balances.
pub open spec fn same_state(a: SettlementEngine, b: SettlementEngine) -> bool {
    &&& a.events@ == b.events@
    &&& a.positions@ == b.positions@
    &&& a.ledger.accounts@ == b.ledger.accounts@
}

impl SettlementEngine {
    /// Event identities are pairwise distinct.
    pub open spec fn events_unique(self) -> bool {
        forall|i: int, j: int|
            0 <= i < j < self.events@.len() ==> (#[trigger] self.events@[i]).event_id@ != (
            #[trigger] self.events@[j]).event_id@
    }

    /// At most one position exists per (event, owner) pair.
    pub open spec fn positions_unique(self) -> bool {
        forall|i: int, j: int|
            0 <= i < j < self.positions@.len() ==> !((#[trigger] self.positions@[i]).event@ == (
            #[trigger] self.positions@[j]).event@ && self.positions@[i].owner
                == self.positions@[j].owner)
    }

    /// Deposits mint hedged pairs and redemption burns both sides, so the
    /// two claim balances of every position are always equal.
    pub open spec fn claims_paired(self) -> bool {
        forall|i: int|
            0 <= i < self.positions@.len() ==> (#[trigger] self.positions@[i]).yes_amount
                == self.positions@[i].no_amount
    }

    /// Every event's custody account exists, holds the event's accepted
    /// asset type, and is controlled by the authority derived from the
    /// event identity and the stored discriminator — never by a user key.
    pub open spec fn custody_linked(self) -> bool {
        forall|i: int|
            0 <= i < self.events@.len() ==> {
                let e = #[trigger] self.events@[i];
                &&& self.ledger.has_account(e.vault)
                &&& self.ledger.account(e.vault).mint == e.usdc_mint
                &&& authority_eq(self.ledger.account(e.vault).authority, vault_authority(e))
            }
    }

    /// Every position refers to a registered event; events are never
    /// deleted, so the reference stays good.
    pub open spec fn positions_registered(self) -> bool {
        forall|i: int|
            0 <= i < self.positions@.len() ==> self.has_event(
                (#[trigger] self.positions@[i]).event@,
            )
    }

    /// The pool covers the claims: every event's custody account holds
    /// at least the outstanding claims against the event — on either
    /// side, since the two sides are pointwise equal. Only one side is
    /// ever paid, so redemption can never be refused for want of custody
    /// funds.
    pub open spec fn solvent(self) -> bool {
        forall|i: int|
            0 <= i < self.events@.len() ==> claims_on(
                self.positions@,
                (#[trigger] self.events@[i]).event_id@,
            ) <= self.ledger.balance_of(self.events@[i].vault)
    }

    /// The engine's full invariant.
    pub open spec fn wf(self) -> bool {
        &&& self.ledger.wf()
        &&& self.events_unique()
        &&& self.positions_unique()
        &&& self.claims_paired()
        &&& self.custody_linked()
        &&& self.positions_registered()
        &&& self.solvent()
    }

    /// Does an event with this identity exist?
    pub open spec fn has_event(self, id: Seq<char>) -> bool {
        exists|i: int| 0 <= i < self.events@.len() && (#[trigger] self.events@[i]).event_id@ == id
    }

    /// Index of the event with this identity (meaningful only when it
    /// exists; unique when `events_unique()` holds).
    pub open spec fn event_index(self, id: Seq<char>) -> int {
        choose|i: int| 0 <= i < self.events@.len() && (#[trigger] self.events@[i]).event_id@ == id
    }

    /// The event with this identity (meaningful only when it exists).
    pub open spec fn event(self, id: Seq<char>) -> CongestionEvent {
        self.events@[self.event_index(id)]
    }

    /// Does a position exist for this event and owner?
    pub open spec fn has_position(self, ev: Seq<char>, owner: AccountId) -> bool {
        exists|i: int|
            0 <= i < self.positions@.len() && (#[trigger] self.positions@[i]).event@ == ev
                && self.positions@[i].owner == owner
    }

    /// Index of the position for this event and owner (meaningful only
    /// when it exists; unique when `positions_unique()` holds).
    pub open spec fn position_index(self, ev: Seq<char>, owner: AccountId) -> int {
        choose|i: int|
            0 <= i < self.positions@.len() && (#[trigger] self.positions@[i]).event@ == ev
                && self.positions@[i].owner == owner
    }

    /// The position for this event and owner (meaningful only when it
    /// exists).
    pub open spec fn position(self, ev: Seq<char>, owner: AccountId) -> UserPosition {
        self.positions@[self.position_index(ev, owner)]
    }

    /// The position a deposit starts from: the stored one, or a fresh
    /// empty one owned by the depositor on first touch.
    pub open spec fn deposit_source(self, ctx: MintTokens) -> UserPosition {
        if self.has_position(ctx.congestion_event@, ctx.user) {
            self.position(ctx.congestion_event@, ctx.user)
        } else {
            UserPosition {
                owner: ctx.user,
                event: ctx.congestion_event,
                yes_amount: 0,
                no_amount: 0,
            }
        }
    }
}

/// The event found at index `i` is the one identity lookup yields.
pub proof fn lemma_event_at(s: SettlementEngine, i: int)
    requires
        s.events_unique(),
        0 <= i < s.events@.len(),
    ensures
        s.has_event(s.events@[i].event_id@),
        s.event_index(s.events@[i].event_id@) == i,
        s.event(s.events@[i].event_id@) == s.events@[i],
{
    let id = s.events@[i].event_id@;
    assert(s.has_event(id));
    let j = s.event_index(id);
    assert(0 <= j < s.events@.len() && s.events@[j].event_id@ == id);
    if i < j {
        assert(s.events@[i].event_id@ != s.events@[j].event_id@);
    } else if j < i {
        assert(s.events@[j].event_id@ != s.events@[i].event_id@);
    }
}

/// The position found at index `i` is the one pair lookup yields.
pub proof fn lemma_position_at(s: SettlementEngine, i: int)
    requires
        s.positions_unique(),
        0 <= i < s.positions@.len(),
    ensures
        s.has_position(s.positions@[i].event@, s.positions@[i].owner),
        s.position_index(s.positions@[i].event@, s.positions@[i].owner) == i,
        s.position(s.positions@[i].event@, s.positions@[i].owner) == s.positions@[i],
{
    let ev = s.positions@[i].event@;
    let ow = s.positions@[i].owner;
    assert(s.has_position(ev, ow));
    let j = s.position_index(ev, ow);
    assert(0 <= j < s.positions@.len() && s.positions@[j].event@ == ev && s.positions@[j].owner
        == ow);
    if i < j {
        assert(!(s.positions@[i].event@ == s.positions@[j].event@ && s.positions@[i].owner
            == s.positions@[j].owner));
    } else if j < i {
        assert(!(s.positions@[j].event@ == s.positions@[i].event@ && s.positions@[j].owner
            == s.positions@[i].owner));
    }
}

/// Replacing one event record by another with the same identity keeps the
/// registry's uniqueness and leaves every other event untouched.
pub proof fn lemma_events_update_frame(s1: SettlementEngine, s2: SettlementEngine, i: int, e:
    CongestionEvent)
    requires
        s1.events_unique(),
        0 <= i < s1.events@.len(),
        e.event_id@ == s1.events@[i].event_id@,
        s2.events@ == s1.events@.update(i, e),
    ensures
        s2.events_unique(),
        forall|id: Seq<char>| s2.has_event(id) <==> s1.has_event(id),
        s2.has_event(e.event_id@),
        s2.event(e.event_id@) == e,
        s2.event_index(e.event_id@) == i,
        forall|id: Seq<char>|
            s1.has_event(id) && id != e.event_id@ ==> s2.event(id) == s1.event(id),
{
    assert forall|id: Seq<char>| s2.has_event(id) <==> s1.has_event(id) by {
        if s2.has_event(id) {
            let k = choose|k: int|
                0 <= k < s2.events@.len() && (#[trigger] s2.events@[k]).event_id@ == id;
            assert(s1.events@[if k == i { i } else { k }].event_id@ == id);
        }
        if s1.has_event(id) {
            let k = choose|k: int|
                0 <= k < s1.events@.len() && (#[trigger] s1.events@[k]).event_id@ == id;
            assert(s2.events@[if k == i { i } else { k }].event_id@ == id);
        }
    }
    assert(s2.events@[i] == e);
    lemma_event_at(s2, i);
    assert forall|id: Seq<char>|
        s1.has_event(id) && id != e.event_id@ implies s2.event(id) == s1.event(id) by {
        let k = choose|k: int|
            0 <= k < s1.events@.len() && (#[trigger] s1.events@[k]).event_id@ == id;
        lemma_event_at(s1, k);
        assert(k != i);
        assert(s2.events@[k].event_id@ == id);
        lemma_event_at(s2, k);
    }
}

/// Appending an event under a fresh identity keeps the registry's
/// uniqueness and leaves every existing event untouched.
pub proof fn lemma_events_push_frame(s1: SettlementEngine, s2: SettlementEngine, e:
    CongestionEvent)
    requires
        s1.events_unique(),
        !s1.has_event(e.event_id@),
        s2.events@ == s1.events@.push(e),
    ensures
        s2.events_unique(),
        s2.has_event(e.event_id@),
        s2.event(e.event_id@) == e,
        forall|id: Seq<char>| id != e.event_id@ ==> (s2.has_event(id) <==> s1.has_event(id)),
        forall|id: Seq<char>| s1.has_event(id) ==> s2.event(id) == s1.event(id),
{
    let n = s1.events@.len() as int;
    assert(s2.events@[n] == e);
    assert forall|i: int, j: int|
        0 <= i < j < s2.events@.len() implies (#[trigger] s2.events@[i]).event_id@ != (
    #[trigger] s2.events@[j]).event_id@ by {
        if j == n {
            assert(s2.events@[i] == s1.events@[i]);
            assert(s1.events@[i].event_id@ != e.event_id@);
        } else {
            assert(s2.events@[i] == s1.events@[i]);
            assert(s2.events@[j] == s1.events@[j]);
        }
    }
    lemma_event_at(s2, n);
    assert forall|id: Seq<char>|
        id != e.event_id@ implies (s2.has_event(id) <==> s1.has_event(id)) by {
        if s2.has_event(id) {
            let k = choose|k: int|
                0 <= k < s2.events@.len() && (#[trigger] s2.events@[k]).event_id@ == id;
            assert(k != n);
            assert(s1.events@[k].event_id@ == id);
        }
        if s1.has_event(id) {
            let k = choose|k: int|
                0 <= k < s1.events@.len() && (#[trigger] s1.events@[k]).event_id@ == id;
            assert(s2.events@[k].event_id@ == id);
        }
    }
    assert forall|id: Seq<char>| s1.has_event(id) implies s2.event(id) == s1.event(id) by {
        let k = choose|k: int|
            0 <= k < s1.events@.len() && (#[trigger] s1.events@[k]).event_id@ == id;
        lemma_event_at(s1, k);
        assert(s2.events@[k].event_id@ == id);
        lemma_event_at(s2, k);
        assert(s1.events@[k].event_id@ != e.event_id@);
    }
}

/// Replacing one position by another under the same (event, owner) pair
/// keeps the ledger's uniqueness and leaves every other position
/// untouched.
pub proof fn lemma_positions_update_frame(s1: SettlementEngine, s2: SettlementEngine, i: int, p:
    UserPosition)
    requires
        s1.positions_unique(),
        0 <= i < s1.positions@.len(),
        p.event@ == s1.positions@[i].event@,
        p.owner == s1.positions@[i].owner,
        s2.positions@ == s1.positions@.update(i, p),
    ensures
        s2.positions_unique(),
        forall|ev: Seq<char>, ow: AccountId|
            #![trigger s2.has_position(ev, ow)]
            s2.has_position(ev, ow) <==> s1.has_position(ev, ow),
        s2.has_position(p.event@, p.owner),
        s2.position(p.event@, p.owner) == p,
        s2.position_index(p.event@, p.owner) == i,
        forall|ev: Seq<char>, ow: AccountId|
            #![trigger s2.position(ev, ow)]
            s1.has_position(ev, ow) && !(ev == p.event@ && ow == p.owner) ==> s2.position(ev, ow)
                == s1.position(ev, ow),
{
    assert forall|ev: Seq<char>, ow: AccountId|
        #![trigger s2.has_position(ev, ow)]
        s2.has_position(ev, ow) <==> s1.has_position(ev, ow) by {
        if s2.has_position(ev, ow) {
            let k = choose|k: int|
                0 <= k < s2.positions@.len() && (#[trigger] s2.positions@[k]).event@ == ev
                    && s2.positions@[k].owner == ow;
            assert(s1.positions@[if k == i { i } else { k }].event@ == ev && s1.positions@[if k == i
                { i } else { k }].owner == ow);
        }
        if s1.has_position(ev, ow) {
            let k = choose|k: int|
                0 <= k < s1.positions@.len() && (#[trigger] s1.positions@[k]).event@ == ev
                    && s1.positions@[k].owner == ow;
            assert(s2.positions@[if k == i { i } else { k }].event@ == ev && s2.positions@[if k == i
                { i } else { k }].owner == ow);
        }
    }
    assert(s2.positions@[i] == p);
    lemma_position_at(s2, i);
    assert forall|ev: Seq<char>, ow: AccountId|
        #![trigger s2.position(ev, ow)]
        s1.has_position(ev, ow) && !(ev == p.event@ && ow == p.owner) implies s2.position(ev, ow)
        == s1.position(ev, ow) by {
        let k = choose|k: int|
            0 <= k < s1.positions@.len() && (#[trigger] s1.positions@[k]).event@ == ev
                && s1.positions@[k].owner == ow;
        lemma_position_at(s1, k);
        assert(k != i);
        assert(s2.positions@[k].event@ == ev && s2.positions@[k].owner == ow);
        lemma_position_at(s2, k);
    }
}

/// Appending a position under a fresh (event, owner) pair keeps the
/// ledger's uniqueness and leaves every existing position untouched.
pub proof fn lemma_positions_push_frame(s1: SettlementEngine, s2: SettlementEngine, p:
    UserPosition)
    requires
        s1.positions_unique(),
        !s1.has_position(p.event@, p.owner),
        s2.positions@ == s1.positions@.push(p),
    ensures
        s2.positions_unique(),
        s2.has_position(p.event@, p.owner),
        s2.position(p.event@, p.owner) == p,
        forall|ev: Seq<char>, ow: AccountId|
            #![trigger s2.has_position(ev, ow)]
            !(ev == p.event@ && ow == p.owner) ==> (s2.has_position(ev, ow) <==> s1.has_position(
                ev,
                ow,
            )),
        forall|ev: Seq<char>, ow: AccountId|
            #![trigger s2.position(ev, ow)]
            s1.has_position(ev, ow) ==> s2.position(ev, ow) == s1.position(ev, ow),
{
    let n = s1.positions@.len() as int;
    assert(s2.positions@[n] == p);
    assert forall|i: int, j: int|
        0 <= i < j < s2.positions@.len() implies !((#[trigger] s2.positions@[i]).event@ == (
    #[trigger] s2.positions@[j]).event@ && s2.positions@[i].owner == s2.positions@[j].owner) by {
        if j == n {
            assert(s2.positions@[i] == s1.positions@[i]);
            assert(!(s1.positions@[i].event@ == p.event@ && s1.positions@[i].owner == p.owner));
        } else {
            assert(s2.positions@[i] == s1.positions@[i]);
            assert(s2.positions@[j] == s1.positions@[j]);
        }
    }
    lemma_position_at(s2, n);
    assert forall|ev: Seq<char>, ow: AccountId|
        #![trigger s2.has_position(ev, ow)]
        !(ev == p.event@ && ow == p.owner) implies (s2.has_position(ev, ow) <==> s1.has_position(
        ev,
        ow,
    )) by {
        if s2.has_position(ev, ow) {
            let k = choose|k: int|
                0 <= k < s2.positions@.len() && (#[trigger] s2.positions@[k]).event@ == ev
                    && s2.positions@[k].owner == ow;
            assert(k != n);
            assert(s1.positions@[k].event@ == ev && s1.positions@[k].owner == ow);
        }
        if s1.has_position(ev, ow) {
            let k = choose|k: int|
                0 <= k < s1.positions@.len() && (#[trigger] s1.positions@[k]).event@ == ev
                    && s1.positions@[k].owner == ow;
            assert(s2.positions@[k].event@ == ev && s2.positions@[k].owner == ow);
        }
    }
    assert forall|ev: Seq<char>, ow: AccountId|
        #![trigger s2.position(ev, ow)]
        s1.has_position(ev, ow) implies s2.position(ev, ow) == s1.position(ev, ow) by {
        let k = choose|k: int|
            0 <= k < s1.positions@.len() && (#[trigger] s1.positions@[k]).event@ == ev
                && s1.positions@[k].owner == ow;
        lemma_position_at(s1, k);
        assert(s2.positions@[k].event@ == ev && s2.positions@[k].owner == ow);
        lemma_position_at(s2, k);
        assert(!(s1.positions@[k].event@ == p.event@ && s1.positions@[k].owner == p.owner));
    }
}

/// Sum of the outstanding "yes" claims held against one event. Under
/// `claims_paired` the two sides are pointwise equal, so this is equally
/// the sum of either side.
pub open spec fn claims_on(positions: Seq<UserPosition>, ev: Seq<char>) -> int
    decreases positions.len(),
{
    if positions.len() == 0 {
        0
    } else {
        claims_on(positions.drop_last(), ev) + if positions.last().event@ == ev {
            positions.last().yes_amount as int
        } else {
            0
        }
    }
}

/// A sum of unsigned claim balances is never negative.
pub proof fn lemma_claims_on_nonneg(positions: Seq<UserPosition>, ev: Seq<char>)
    ensures
        claims_on(positions, ev) >= 0,
    decreases positions.len(),
{
    if positions.len() > 0 {
        lemma_claims_on_nonneg(positions.drop_last(), ev);
    }
}

/// An event no position refers to has no claims against it.
pub proof fn lemma_claims_on_absent(positions: Seq<UserPosition>, ev: Seq<char>)
    requires
        forall|i: int| 0 <= i < positions.len() ==> (#[trigger] positions[i]).event@ != ev,
    ensures
        claims_on(positions, ev) == 0,
    decreases positions.len(),
{
    if positions.len() > 0 {
        assert forall|i: int|
            0 <= i < positions.drop_last().len() implies (#[trigger] positions.drop_last()[i]).event@
            != ev by {
            assert(positions.drop_last()[i] == positions[i]);
        }
        lemma_claims_on_absent(positions.drop_last(), ev);
        assert(positions.last().event@ != ev);
    }
}

/// Appending a position adds exactly its own claim to its event's sum.
pub proof fn lemma_claims_on_push(positions: Seq<UserPosition>, p: UserPosition, ev: Seq<char>)
    ensures
        claims_on(positions.push(p), ev) == claims_on(positions, ev) + if p.event@ == ev {
            p.yes_amount as int
        } else {
            0
        },
{
    assert(positions.push(p).drop_last() =~= positions);
    assert(positions.push(p).last() == p);
}

/// Replacing one position changes its event's sum by exactly the
/// difference of the two claims.
pub proof fn lemma_claims_on_update(positions: Seq<UserPosition>, i: int, p: UserPosition, ev:
    Seq<char>)
    requires
        0 <= i < positions.len(),
    ensures
        claims_on(positions.update(i, p), ev) == claims_on(positions, ev) + (if p.event@ == ev {
            p.yes_amount as int
        } else {
            0
        }) - (if positions[i].event@ == ev {
            positions[i].yes_amount as int
        } else {
            0
        }),
    decreases positions.len(),
{
    let s2 = positions.update(i, p);
    if i == positions.len() - 1 {
        assert(s2.drop_last() =~= positions.drop_last());
        assert(s2.last() == p);
    } else {
        assert(s2.drop_last() =~= positions.drop_last().update(i, p));
        assert(s2.last() == positions.last());
        lemma_claims_on_update(positions.drop_last(), i, p, ev);
        assert(positions.drop_last()[i] == positions[i]);
    }
}

/// One position's claim never exceeds its event's total.
pub proof fn lemma_claims_on_bounds_element(positions: Seq<UserPosition>, i: int, ev: Seq<char>)
    requires
        0 <= i < positions.len(),
        positions[i].event@ == ev,
    ensures
        positions[i].yes_amount as int <= claims_on(positions, ev),
    decreases positions.len(),
{
    if i == positions.len() - 1 {
        lemma_claims_on_nonneg(positions.drop_last(), ev);
    } else {
        assert(positions.drop_last()[i] == positions[i]);
        lemma_claims_on_bounds_element(positions.drop_last(), i, ev);
    }
}

/// Distinct events have distinct custody accounts: a shared account
/// would carry both derived authorities at once, forcing the two event
/// identities to coincide.
pub proof fn lemma_vaults_distinct(s: SettlementEngine, i: int, j: int)
    requires
        s.events_unique(),
        s.custody_linked(),
        0 <= i < s.events@.len(),
        0 <= j < s.events@.len(),
        i != j,
    ensures
        s.events@[i].vault != s.events@[j].vault,
{
    if s.events@[i].vault == s.events@[j].vault {
        assert(authority_eq(s.ledger.account(s.events@[i].vault).authority, vault_authority(
            s.events@[i],
        )));
        assert(authority_eq(s.ledger.account(s.events@[j].vault).authority, vault_authority(
            s.events@[j],
        )));
        assert(s.events@[i].event_id@ == s.events@[j].event_id@);
    }
}

/// No event's custody account is controlled by a user signature.
pub proof fn lemma_vault_not_signer_owned(
    s: SettlementEngine,
    j: int,
    account: AccountId,
    user: AccountId,
)
    requires
        s.custody_linked(),
        0 <= j < s.events@.len(),
        authority_eq(s.ledger.account(account).authority, Authority::Signer(user)),
    ensures
        s.events@[j].vault != account,
{
    if s.events@[j].vault == account {
        assert(authority_eq(s.ledger.account(account).authority, vault_authority(s.events@[j])));
    }
}

impl SettlementEngine {
    /// A fresh engine: no events, no positions, no token accounts.
    pub fn new() -> (s: SettlementEngine)
        ensures
            s.wf(),
            s.events@.len() == 0,
            s.positions@.len() == 0,
            s.ledger.accounts@.len() == 0,
    {
        SettlementEngine { events: Vec::new(), positions: Vec::new(), ledger: Ledger::new() }
    }

    /// Index of the event with this identity, if one exists.
    fn find_event(&self, event_id: &String) -> (r: Option<usize>)
        ensures
            match r {
                Some(i) => i < self.events@.len() && self.events@[i as int].event_id@ == event_id@,
                None => !self.has_event(event_id@),
            },
    {
        let mut i: usize = 0;
        while i < self.events.len()
            invariant
                i <= self.events@.len(),
                forall|j: int| 0 <= j < i ==> (#[trigger] self.events@[j]).event_id@ != event_id@,
            decreases self.events@.len() - i,
        {
            if self.events[i].event_id == *event_id {
                return Some(i);
            }
            i = i + 1;
        }
        None
    }

    /// Index of the position for this event and owner, if one exists.
    fn find_position(&self, event_id: &String, owner: AccountId) -> (r: Option<usize>)
        ensures
            match r {
                Some(i) => i < self.positions@.len() && self.positions@[i as int].event@
                    == event_id@ && self.positions@[i as int].owner == owner,
                None => !self.has_position(event_id@, owner),
            },
    {
        let mut i: usize = 0;
        while i < self.positions.len()
            invariant
                i <= self.positions@.len(),
                forall|j: int|
                    0 <= j < i ==> !((#[trigger] self.positions@[j]).event@ == event_id@
                        && self.positions@[j].owner == owner),
            decreases self.positions@.len() - i,
        {
            if self.positions[i].event == *event_id && self.positions[i].owner == owner {
                return Some(i);
            }
            i = i + 1;
        }
        None
    }

    /// Create a new event: allocate its registry record under `event_id`
    /// and a fresh, empty custody account under `ctx.vault`, controlled
    /// by the authority derived from the event identity and `ctx.bump`.
    ///
    /// Succeeds exactly when neither identity is already taken; no funds
    /// move. A failed creation changes nothing.
    pub fn initialize_event(
        &mut self,
        ctx: &InitializeEvent,
        event_id: String,
        description: String,
        settlement_time: i64,
        oracle: AccountId,
    ) -> (r: Result<(), GuccError>)
        requires
            old(self).wf(),
            event_id@.len() <= 32,
            description@.len() <= 256,
        ensures
            final(self).wf(),
            r is Ok <==> !old(self).has_event(event_id@) && !old(self).ledger.has_account(
                ctx.vault,
            ),
            r is Err ==> r == Err::<(), GuccError>(GuccError::AccountInUse) && same_state(
                *final(self),
                *old(self),
            ),
            r is Ok ==> final(self).events@ == old(self).events@.push(
                (CongestionEvent {
                    authority: ctx.authority,
                    event_id,
                    description,
                    settlement_time,
                    oracle,
                    resolved: false,
                    outcome: false,
                    usdc_mint: ctx.usdc_mint,
                    vault: ctx.vault,
                    bump: ctx.bump,
                }),
            ),
            r is Ok ==> final(self).positions@ == old(self).positions@,
            r is Ok ==> final(self).ledger.accounts@ == old(self).ledger.accounts@.push(
                (TokenAccount {
                    id: ctx.vault,
                    mint: ctx.usdc_mint,
                    authority: (Authority::Derived { event_id, bump: ctx.bump }),
                    balance: 0,
                }),
            ),
            r is Ok ==> final(self).has_event(event_id@) && final(self).event(event_id@)
                == (CongestionEvent {
                authority: ctx.authority,
                event_id,
                description,
                settlement_time,
                oracle,
                resolved: false,
                outcome: false,
                usdc_mint: ctx.usdc_mint,
                vault: ctx.vault,
                bump: ctx.bump,
            }),
            r is Ok ==> final(self).ledger.balance_of(ctx.vault) == 0,
            r is Ok ==> forall|id: Seq<char>|
                id != event_id@ ==> (final(self).has_event(id) <==> old(self).has_event(id)),
            r is Ok ==> forall|id: Seq<char>|
                old(self).has_event(id) ==> final(self).event(id) == old(self).event(id),
            r is Ok ==> forall|x: AccountId|
                old(self).ledger.has_account(x) ==> final(self).ledger.account(x) == old(
                    self,
                ).ledger.account(x),
    {
        if self.find_event(&event_id).is_some() {
            return Err(GuccError::AccountInUse);
        }
        let vault_auth = Authority::Derived { event_id: event_id.clone(), bump: ctx.bump };
        let ghost s1 = *self;
        match self.ledger.create_account(ctx.vault, ctx.usdc_mint, vault_auth) {
            Err(e) => Err(e),
            Ok(()) => {
                let record = CongestionEvent {
                    authority: ctx.authority,
                    event_id,
                    description,
                    settlement_time,
                    oracle,
                    resolved: false,
                    outcome: false,
                    usdc_mint: ctx.usdc_mint,
                    vault: ctx.vault,
                    bump: ctx.bump,
                };
                let ghost rec = record;
                let ghost s2 = *self;
                self.events.push(record);
                proof {
                    lemma_events_push_frame(s2, *self, rec);
                    assert forall|i: int| 0 <= i < self.positions@.len() implies self.has_event(
                        (#[trigger] self.positions@[i]).event@,
                    ) by {
                        assert(s1.has_event(s1.positions@[i].event@));
                    }
                    assert forall|k: int|
                        0 <= k < self.positions@.len() implies (
                    #[trigger] self.positions@[k]).event@ != rec.event_id@ by {
                        assert(s1.has_event(s1.positions@[k].event@));
                    }
                    lemma_claims_on_absent(self.positions@, rec.event_id@);
                    assert forall|i: int| 0 <= i < self.events@.len() implies claims_on(
                        self.positions@,
                        (#[trigger] self.events@[i]).event_id@,
                    ) <= self.ledger.balance_of(self.events@[i].vault) by {
                        if i < s1.events@.len() {
                            assert(self.events@[i] == s1.events@[i]);
                            assert(claims_on(s1.positions@, s1.events@[i].event_id@)
                                <= s1.ledger.balance_of(s1.events@[i].vault));
                            assert(s1.ledger.has_account(s1.events@[i].vault));
                            assert(self.ledger.account(s1.events@[i].vault) == s1.ledger.account(
                                s1.events@[i].vault,
                            ));
                        } else {
                            assert(self.events@[i] == rec);
                            assert(self.ledger.balance_of(ctx.vault) == 0);
                        }
                    }
                    assert(authority_eq(self.ledger.account(ctx.vault).authority, vault_authority(
                        rec,
                    )));
                    assert forall|i: int| 0 <= i < self.events@.len() implies {
                        let e = #[trigger] self.events@[i];
                        &&& self.ledger.has_account(e.vault)
                        &&& self.ledger.account(e.vault).mint == e.usdc_mint
                        &&& authority_eq(self.ledger.account(e.vault).authority, vault_authority(e))
                    } by {
                        if i < s1.events@.len() {
                            assert(self.events@[i] == s1.events@[i]);
                            assert(s1.ledger.has_account(s1.events@[i].vault));
                        } else {
                            assert(self.events@[i] == rec);
                        }
                    }
                }
                Ok(())
            },
        }
    }

    /// Report the event's outcome. Only the stored oracle may resolve,
    /// and only once; the transition from unresolved to resolved is
    /// irreversible and the recorded outcome never changes afterwards.
    /// A failed resolution changes nothing.
    pub fn resolve_event(&mut self, ctx: &ResolveEvent, outcome: bool) -> (r: Result<
        (),
        GuccError,
    >)
        requires
            old(self).wf(),
        ensures
            final(self).wf(),
            !old(self).has_event(ctx.congestion_event@) ==> r == Err::<(), GuccError>(
                GuccError::UnknownEvent,
            ),
            old(self).has_event(ctx.congestion_event@) ==> r == resolve_step(
                old(self).event(ctx.congestion_event@),
                ctx.oracle,
                outcome,
            ).1,
            r is Err ==> same_state(*final(self), *old(self)),
            r is Ok ==> {
                let k = old(self).event_index(ctx.congestion_event@);
                let e2 = resolve_step(
                    old(self).event(ctx.congestion_event@),
                    ctx.oracle,
                    outcome,
                ).0;
                &&& final(self).events@ == old(self).events@.update(k, e2)
                &&& final(self).positions@ == old(self).positions@
                &&& final(self).ledger.accounts@ == old(self).ledger.accounts@
                &&& final(self).event(ctx.congestion_event@) == e2
                &&& e2.resolved && e2.outcome == outcome
            },
            r is Ok ==> forall|id: Seq<char>|
                final(self).has_event(id) <==> old(self).has_event(id),
            r is Ok ==> forall|id: Seq<char>|
                old(self).has_event(id) && id != ctx.congestion_event@ ==> final(self).event(id)
                    == old(self).event(id),
    {
        let i = match self.find_event(&ctx.congestion_event) {
            None => return Err(GuccError::UnknownEvent),
            Some(i) => i,
        };
        proof {
            lemma_event_at(*self, i as int);
        }
        let e = &self.events[i];
        if ctx.oracle != e.oracle {
            return Err(GuccError::OracleMismatch);
        }
        if e.resolved {
            return Err(GuccError::AlreadyResolved);
        }
        let updated = CongestionEvent {
            authority: e.authority,
            event_id: e.event_id.clone(),
            description: e.description.clone(),
            settlement_time: e.settlement_time,
            oracle: e.oracle,
            resolved: true,
            outcome,
            usdc_mint: e.usdc_mint,
            vault: e.vault,
            bump: e.bump,
        };
        let ghost s1 = *self;
        let ghost up = updated;
        self.events[i] = updated;
        proof {
            lemma_events_update_frame(s1, *self, i as int, up);
            assert forall|j: int| 0 <= j < self.events@.len() implies {
                let e2 = #[trigger] self.events@[j];
                &&& self.ledger.has_account(e2.vault)
                &&& self.ledger.account(e2.vault).mint == e2.usdc_mint
                &&& authority_eq(self.ledger.account(e2.vault).authority, vault_authority(e2))
            } by {
                if j == i {
                    assert(s1.ledger.has_account(s1.events@[j].vault));
                    assert(vault_authority(up) == vault_authority(s1.events@[j]));
                } else {
                    assert(self.events@[j] == s1.events@[j]);
                    assert(s1.ledger.has_account(s1.events@[j].vault));
                }
            }
        }
        Ok(())
    }

    /// Deposit `amount` of the accepted asset: transfer it from the
    /// depositor's own account into the event's custody account under the
    /// depositor's signature, and mint a fully hedged claim pair by
    /// growing both sides of the depositor's position by the full amount
    /// (creating the position on first touch). A zero amount is not
    /// rejected. The transfer and the accounting update happen atomically:
    /// on any failure — unknown event, claim-balance overflow, or a
    /// refused transfer — nothing changes.
    pub fn mint_tokens(&mut self, ctx: &MintTokens, amount: u64) -> (r: Result<(), GuccError>)
        requires
            old(self).wf(),
        ensures
            final(self).wf(),
            r is Err ==> same_state(*final(self), *old(self)),
            !old(self).has_event(ctx.congestion_event@) ==> r == Err::<(), GuccError>(
                GuccError::UnknownEvent,
            ),
            old(self).has_event(ctx.congestion_event@) && deposit_overflows(
                old(self).deposit_source(*ctx),
                amount,
            ) ==> r == Err::<(), GuccError>(GuccError::Overflow),
            old(self).has_event(ctx.congestion_event@) && !deposit_overflows(
                old(self).deposit_source(*ctx),
                amount,
            ) && !old(self).ledger.can_transfer(
                ctx.user_token_account,
                old(self).event(ctx.congestion_event@).vault,
                Authority::Signer(ctx.user),
                amount,
            ) ==> r == Err::<(), GuccError>(
                old(self).ledger.transfer_error(
                    ctx.user_token_account,
                    old(self).event(ctx.congestion_event@).vault,
                    Authority::Signer(ctx.user),
                    amount,
                ),
            ),
            r is Ok <==> old(self).has_event(ctx.congestion_event@) && !deposit_overflows(
                old(self).deposit_source(*ctx),
                amount,
            ) && old(self).ledger.can_transfer(
                ctx.user_token_account,
                old(self).event(ctx.congestion_event@).vault,
                Authority::Signer(ctx.user),
                amount,
            ),
            r is Ok ==> {
                let ev = ctx.congestion_event@;
                let vault = old(self).event(ev).vault;
                let p1 = position_after_deposit(old(self).deposit_source(*ctx), amount);
                &&& final(self).events@ == old(self).events@
                &&& final(self).has_position(ev, ctx.user)
                &&& final(self).position(ev, ctx.user) == p1
                &&& (old(self).has_position(ev, ctx.user) ==> final(self).positions@ == old(
                    self,
                ).positions@.update(old(self).position_index(ev, ctx.user), p1))
                &&& (!old(self).has_position(ev, ctx.user) ==> final(self).positions@ == old(
                    self,
                ).positions@.push(p1))
                &&& (forall|x: AccountId|
                    final(self).ledger.has_account(x) <==> old(self).ledger.has_account(x))
                &&& final(self).ledger.account(ctx.user_token_account) == with_balance(
                    old(self).ledger.account(ctx.user_token_account),
                    (old(self).ledger.balance_of(ctx.user_token_account) - amount) as u64,
                )
                &&& final(self).ledger.account(vault) == with_balance(
                    old(self).ledger.account(vault),
                    (old(self).ledger.balance_of(vault) + amount) as u64,
                )
                &&& (forall|x: AccountId|
                    old(self).ledger.has_account(x) && x != ctx.user_token_account && x != vault
                        ==> final(self).ledger.account(x) == old(self).ledger.account(x))
            },
            r is Ok ==> forall|ev2: Seq<char>, u2: AccountId|
                #![trigger final(self).has_position(ev2, u2)]
                !(ev2 == ctx.congestion_event@ && u2 == ctx.user) ==> (final(self).has_position(
                    ev2,
                    u2,
                ) <==> old(self).has_position(ev2, u2)),
            r is Ok ==> forall|ev2: Seq<char>, u2: AccountId|
                #![trigger final(self).position(ev2, u2)]
                old(self).has_position(ev2, u2) && !(ev2 == ctx.congestion_event@ && u2
                    == ctx.user) ==> final(self).position(ev2, u2) == old(self).position(ev2, u2),
    {
        let ev_i = match self.find_event(&ctx.congestion_event) {
            None => return Err(GuccError::UnknownEvent),
            Some(i) => i,
        };
        proof {
            lemma_event_at(*self, ev_i as int);
        }
        let vault = self.events[ev_i].vault;
        let pos_found = self.find_position(&ctx.congestion_event, ctx.user);
        match pos_found {
            Some(pi) => {
                proof {
                    lemma_position_at(*self, pi as int);
                }
                if amount > u64::MAX - self.positions[pi].yes_amount || amount > u64::MAX
                    - self.positions[pi].no_amount {
                    return Err(GuccError::Overflow);
                }
            },
            None => {},
        }
        let ghost s1 = *self;
        let auth = Authority::Signer(ctx.user);
        match self.ledger.transfer(ctx.user_token_account, vault, &auth, amount) {
            Err(e) => {
                return Err(e);
            },
            Ok(()) => {},
        }
        let ghost s2 = *self;
        match pos_found {
            Some(pi) => {
                let p = &self.positions[pi];
                let updated = UserPosition {
                    owner: p.owner,
                    event: p.event.clone(),
                    yes_amount: p.yes_amount + amount,
                    no_amount: p.no_amount + amount,
                };
                let ghost up = updated;
                self.positions[pi] = updated;
                proof {
                    lemma_position_at(s1, pi as int);
                    lemma_positions_update_frame(s2, *self, pi as int, up);
                    assert forall|i: int| 0 <= i < self.positions@.len() implies self.has_event(
                        (#[trigger] self.positions@[i]).event@,
                    ) by {
                        if i != pi {
                            assert(self.positions@[i] == s1.positions@[i]);
                        }
                        assert(s1.has_event(s1.positions@[i].event@));
                    }
                    assert forall|j: int| 0 <= j < self.events@.len() implies claims_on(
                        self.positions@,
                        (#[trigger] self.events@[j]).event_id@,
                    ) <= self.ledger.balance_of(self.events@[j].vault) by {
                        let evj = s1.events@[j].event_id@;
                        assert(self.events@[j] == s1.events@[j]);
                        assert(claims_on(s1.positions@, evj) <= s1.ledger.balance_of(
                            s1.events@[j].vault,
                        ));
                        lemma_claims_on_update(s1.positions@, pi as int, up, evj);
                        lemma_vault_not_signer_owned(s1, j, ctx.user_token_account, ctx.user);
                        let vaultj = s1.events@[j].vault;
                        if j == ev_i as int {
                            assert(up.event@ == evj);
                            assert(s1.positions@[pi as int].event@ == evj);
                            assert(self.ledger.balance_of(vaultj) == s1.ledger.balance_of(vaultj)
                                + amount);
                        } else {
                            assert(s1.events@[j].event_id@ != s1.events@[
                                ev_i as int
                            ].event_id@);
                            assert(up.event@ != evj);
                            assert(s1.positions@[pi as int].event@ != evj);
                            lemma_vaults_distinct(s1, j, ev_i as int);
                            assert(self.ledger.account(vaultj) == s1.ledger.account(vaultj));
                        }
                    }
                }
            },
            None => {
                let fresh = UserPosition {
                    owner: ctx.user,
                    event: ctx.congestion_event.clone(),
                    yes_amount: amount,
                    no_amount: amount,
                };
                let ghost fr = fresh;
                self.positions.push(fresh);
                proof {
                    lemma_positions_push_frame(s2, *self, fr);
                    assert forall|i: int| 0 <= i < self.positions@.len() implies self.has_event(
                        (#[trigger] self.positions@[i]).event@,
                    ) by {
                        if i < s1.positions@.len() {
                            assert(self.positions@[i] == s1.positions@[i]);
                            assert(s1.has_event(s1.positions@[i].event@));
                        } else {
                            assert(self.positions@[i] == fr);
                            assert(s1.has_event(ctx.congestion_event@));
                        }
                    }
                    assert forall|j: int| 0 <= j < self.events@.len() implies claims_on(
                        self.positions@,
                        (#[trigger] self.events@[j]).event_id@,
                    ) <= self.ledger.balance_of(self.events@[j].vault) by {
                        let evj = s1.events@[j].event_id@;
                        assert(self.events@[j] == s1.events@[j]);
                        assert(claims_on(s1.positions@, evj) <= s1.ledger.balance_of(
                            s1.events@[j].vault,
                        ));
                        lemma_claims_on_push(s1.positions@, fr, evj);
                        lemma_vault_not_signer_owned(s1, j, ctx.user_token_account, ctx.user);
                        let vaultj = s1.events@[j].vault;
                        if j == ev_i as int {
                            assert(fr.event@ == evj);
                            assert(self.ledger.balance_of(vaultj) == s1.ledger.balance_of(vaultj)
                                + amount);
                        } else {
                            assert(s1.events@[j].event_id@ != s1.events@[
                                ev_i as int
                            ].event_id@);
                            assert(fr.event@ != evj);
                            lemma_vaults_distinct(s1, j, ev_i as int);
                            assert(self.ledger.account(vaultj) == s1.ledger.account(vaultj));
                        }
                    }
                }
            },
        }
        proof {
            assert forall|i: int| 0 <= i < self.positions@.len() implies (
            #[trigger] self.positions@[i]).yes_amount == self.positions@[i].no_amount by {
                if self.positions@.len() == s2.positions@.len() {
                    let pi = s1.position_index(ctx.congestion_event@, ctx.user);
                    if i != pi {
                        assert(self.positions@[i] == s1.positions@[i]);
                    }
                } else {
                    if i < s1.positions@.len() {
                        assert(self.positions@[i] == s1.positions@[i]);
                    }
                }
            }
            assert forall|j: int| 0 <= j < self.events@.len() implies {
                let e2 = #[trigger] self.events@[j];
                &&& self.ledger.has_account(e2.vault)
                &&& self.ledger.account(e2.vault).mint == e2.usdc_mint
                &&& authority_eq(self.ledger.account(e2.vault).authority, vault_authority(e2))
            } by {
                assert(s1.ledger.has_account(s1.events@[j].vault));
                let v = s1.events@[j].vault;
                if v == ctx.user_token_account || v == vault {
                    if ctx.user_token_account != vault {
                        assert(self.ledger.account(v).authority == s1.ledger.account(v).authority
                            && self.ledger.account(v).mint == s1.ledger.account(v).mint);
                    }
                } else {
                    assert(self.ledger.account(v) == s1.ledger.account(v));
                }
            }
        }
        Ok(())
    }

    /// Redeem the caller's position once the event is resolved: pay the
    /// winning side's balance out of the event's custody account under
    /// the derived custody authority (never a user key), then zero both
    /// claim balances unconditionally — the losing side is discarded,
    /// never paid. A payout of zero succeeds without a transfer, so a
    /// second redemption of the same position succeeds and pays nothing.
    /// Redemption before resolution fails with `NotResolved`; any failure
    /// — unknown event or position, unresolved event, or a refused
    /// transfer — changes nothing.
    pub fn redeem(&mut self, ctx: &Redeem) -> (r: Result<(), GuccError>)
        requires
            old(self).wf(),
        ensures
            final(self).wf(),
            r is Err ==> same_state(*final(self), *old(self)),
            !old(self).has_event(ctx.congestion_event@) ==> r == Err::<(), GuccError>(
                GuccError::UnknownEvent,
            ),
            old(self).has_event(ctx.congestion_event@) && !old(self).has_position(
                ctx.congestion_event@,
                ctx.user,
            ) ==> r == Err::<(), GuccError>(GuccError::UnknownPosition),
            old(self).has_event(ctx.congestion_event@) && old(self).has_position(
                ctx.congestion_event@,
                ctx.user,
            ) && !old(self).event(ctx.congestion_event@).resolved ==> r == Err::<(), GuccError>(
                GuccError::NotResolved,
            ),
            old(self).has_event(ctx.congestion_event@) && old(self).has_position(
                ctx.congestion_event@,
                ctx.user,
            ) && old(self).event(ctx.congestion_event@).resolved ==> {
                let e = old(self).event(ctx.congestion_event@);
                let p0 = old(self).position(ctx.congestion_event@, ctx.user);
                let pay = payout_of(e, p0);
                &&& (pay > 0 && !old(self).ledger.can_transfer(
                    e.vault,
                    ctx.user_token_account,
                    vault_authority(e),
                    pay,
                ) ==> r == Err::<(), GuccError>(
                    old(self).ledger.transfer_error(
                        e.vault,
                        ctx.user_token_account,
                        vault_authority(e),
                        pay,
                    ),
                ))
                &&& (r is Ok <==> pay == 0 || old(self).ledger.can_transfer(
                    e.vault,
                    ctx.user_token_account,
                    vault_authority(e),
                    pay,
                ))
            },
            r is Ok ==> {
                let e = old(self).event(ctx.congestion_event@);
                let p0 = old(self).position(ctx.congestion_event@, ctx.user);
                let pay = payout_of(e, p0);
                &&& final(self).events@ == old(self).events@
                &&& final(self).positions@ == old(self).positions@.update(
                    old(self).position_index(ctx.congestion_event@, ctx.user),
                    zeroed(p0),
                )
                &&& final(self).has_position(ctx.congestion_event@, ctx.user)
                &&& final(self).position(ctx.congestion_event@, ctx.user) == zeroed(p0)
                &&& (pay == 0 ==> final(self).ledger.accounts@ == old(self).ledger.accounts@)
                &&& (pay > 0 ==> forall|x: AccountId|
                    final(self).ledger.has_account(x) <==> old(self).ledger.has_account(x))
                &&& (pay > 0 && e.vault != ctx.user_token_account ==> final(self).ledger.account(
                    e.vault,
                ) == with_balance(
                    old(self).ledger.account(e.vault),
                    (old(self).ledger.balance_of(e.vault) - pay) as u64,
                ) && final(self).ledger.account(ctx.user_token_account) == with_balance(
                    old(self).ledger.account(ctx.user_token_account),
                    (old(self).ledger.balance_of(ctx.user_token_account) + pay) as u64,
                ))
                &&& (pay > 0 && e.vault == ctx.user_token_account ==> final(self).ledger.accounts@
                    == old(self).ledger.accounts@)
                &&& (pay > 0 ==> forall|x: AccountId|
                    old(self).ledger.has_account(x) && x != e.vault && x != ctx.user_token_account
                        ==> final(self).ledger.account(x) == old(self).ledger.account(x))
            },
            r is Ok ==> forall|ev2: Seq<char>, u2: AccountId|
                #![trigger final(self).has_position(ev2, u2)]
                final(self).has_position(ev2, u2) <==> old(self).has_position(ev2, u2),
            r is Ok ==> forall|ev2: Seq<char>, u2: AccountId|
                #![trigger final(self).position(ev2, u2)]
                old(self).has_position(ev2, u2) && !(ev2 == ctx.congestion_event@ && u2
                    == ctx.user) ==> final(self).position(ev2, u2) == old(self).position(ev2, u2),
    {
        let ev_i = match self.find_event(&ctx.congestion_event) {
            None => return Err(GuccError::UnknownEvent),
            Some(i) => i,
        };
        proof {
            lemma_event_at(*self, ev_i as int);
        }
        let pos_i = match self.find_position(&ctx.congestion_event, ctx.user) {
            None => return Err(GuccError::UnknownPosition),
            Some(i) => i,
        };
        proof {
            lemma_position_at(*self, pos_i as int);
        }
        if !self.events[ev_i].resolved {
            return Err(GuccError::NotResolved);
        }
        let payout = if self.events[ev_i].outcome {
            self.positions[pos_i].yes_amount
        } else {
            self.positions[pos_i].no_amount
        };
        let ghost s1 = *self;
        if payout > 0 {
            let e = &self.events[ev_i];
            let auth = Authority::Derived { event_id: e.event_id.clone(), bump: e.bump };
            let vault = e.vault;
            match self.ledger.transfer(vault, ctx.user_token_account, &auth, payout) {
                Err(err) => {
                    return Err(err);
                },
                Ok(()) => {},
            }
        }
        let ghost s2 = *self;
        let p = &self.positions[pos_i];
        let cleared = UserPosition {
            owner: p.owner,
            event: p.event.clone(),
            yes_amount: 0,
            no_amount: 0,
        };
        let ghost cl = cleared;
        self.positions[pos_i] = cleared;
        proof {
            lemma_positions_update_frame(s2, *self, pos_i as int, cl);
            assert forall|i: int| 0 <= i < self.positions@.len() implies (
            #[trigger] self.positions@[i]).yes_amount == self.positions@[i].no_amount by {
                if i != pos_i {
                    assert(self.positions@[i] == s1.positions@[i]);
                }
            }
            assert forall|i: int| 0 <= i < self.positions@.len() implies self.has_event(
                (#[trigger] self.positions@[i]).event@,
            ) by {
                if i != pos_i {
                    assert(self.positions@[i] == s1.positions@[i]);
                }
                assert(s1.has_event(s1.positions@[i].event@));
            }
            assert forall|j: int| 0 <= j < self.events@.len() implies claims_on(
                self.positions@,
                (#[trigger] self.events@[j]).event_id@,
            ) <= self.ledger.balance_of(self.events@[j].vault) by {
                let evj = s1.events@[j].event_id@;
                assert(self.events@[j] == s1.events@[j]);
                assert(claims_on(s1.positions@, evj) <= s1.ledger.balance_of(s1.events@[j].vault));
                lemma_claims_on_update(s1.positions@, pos_i as int, cl, evj);
                let vaultj = s1.events@[j].vault;
                let vault_a = s1.events@[ev_i as int].vault;
                let p0 = s1.positions@[pos_i as int];
                assert(p0.yes_amount == p0.no_amount);
                if j == ev_i as int {
                    assert(cl.event@ == evj);
                    assert(p0.event@ == evj);
                    if payout > 0 {
                        if vault_a == ctx.user_token_account {
                            assert(self.ledger.accounts@ == s1.ledger.accounts@);
                        } else {
                            assert(self.ledger.balance_of(vault_a) == s1.ledger.balance_of(vault_a)
                                - payout);
                        }
                    }
                } else {
                    assert(s1.events@[j].event_id@ != s1.events@[ev_i as int].event_id@);
                    assert(cl.event@ != evj);
                    assert(p0.event@ != evj);
                    lemma_vaults_distinct(s1, j, ev_i as int);
                    if payout > 0 {
                        if vault_a != ctx.user_token_account {
                            if vaultj == ctx.user_token_account {
                                assert(self.ledger.balance_of(vaultj) == s1.ledger.balance_of(
                                    vaultj,
                                ) + payout);
                            } else {
                                assert(self.ledger.account(vaultj) == s1.ledger.account(vaultj));
                            }
                        }
                    }
                }
            }
            assert forall|j: int| 0 <= j < self.events@.len() implies {
                let e2 = #[trigger] self.events@[j];
                &&& self.ledger.has_account(e2.vault)
                &&& self.ledger.account(e2.vault).mint == e2.usdc_mint
                &&& authority_eq(self.ledger.account(e2.vault).authority, vault_authority(e2))
            } by {
                assert(s1.ledger.has_account(s1.events@[j].vault));
                let v = s1.events@[j].vault;
                let vault = s1.events@[ev_i as int].vault;
                if payout > 0 {
                    if v == ctx.user_token_account || v == vault {
                        if ctx.user_token_account != vault {
                            assert(self.ledger.account(v).authority == s1.ledger.account(
                                v,
                            ).authority && self.ledger.account(v).mint == s1.ledger.account(
                                v,
                            ).mint);
                        }
                    } else {
                        assert(self.ledger.account(v) == s1.ledger.account(v));
                    }
                }
            }
        }
        Ok(())
    }

    /// Allocate a user-controlled token account: the environment's
    /// account-creation step, modelled inside the engine so that the
    /// custody invariant is preserved. Succeeds exactly when the identity
    /// is free.
    pub fn create_token_account(&mut self, id: AccountId, mint: AccountId, owner: AccountId) -> (r:
        Result<(), GuccError>)
        requires
            old(self).wf(),
        ensures
            final(self).wf(),
            r is Ok <==> !old(self).ledger.has_account(id),
            r is Err ==> r == Err::<(), GuccError>(GuccError::AccountInUse) && same_state(
                *final(self),
                *old(self),
            ),
            r is Ok ==> final(self).events@ == old(self).events@ && final(self).positions@ == old(
                self,
            ).positions@,
            r is Ok ==> final(self).ledger.accounts@ == old(self).ledger.accounts@.push(
                (TokenAccount { id, mint, authority: Authority::Signer(owner), balance: 0 }),
            ),
            r is Ok ==> final(self).ledger.has_account(id) && final(self).ledger.balance_of(id)
                == 0,
            r is Ok ==> forall|x: AccountId|
                old(self).ledger.has_account(x) ==> final(self).ledger.account(x) == old(
                    self,
                ).ledger.account(x),
    {
        let ghost s1 = *self;
        let r = self.ledger.create_account(id, mint, Authority::Signer(owner));
        proof {
            if r is Ok {
                assert forall|j: int| 0 <= j < self.events@.len() implies {
                    let e2 = #[trigger] self.events@[j];
                    &&& self.ledger.has_account(e2.vault)
                    &&& self.ledger.account(e2.vault).mint == e2.usdc_mint
                    &&& authority_eq(self.ledger.account(e2.vault).authority, vault_authority(e2))
                } by {
                    assert(s1.ledger.has_account(s1.events@[j].vault));
                }
            }
        }
        r
    }

    /// Credit `amount` fresh units of the asset to a token account: the
    /// inflow from the asset's issuer, outside the settlement engine's
    /// own rules. Succeeds exactly when the account exists and its
    /// balance does not overflow.
    pub fn fund_token_account(&mut self, id: AccountId, amount: u64) -> (r: Result<(), GuccError>)
        requires
            old(self).wf(),
        ensures
            final(self).wf(),
            r is Ok <==> old(self).ledger.has_account(id) && old(self).ledger.balance_of(id)
                + amount <= u64::MAX,
            r is Err ==> same_state(*final(self), *old(self)),
            !old(self).ledger.has_account(id) ==> r == Err::<(), GuccError>(
                GuccError::UnknownAccount,
            ),
            old(self).ledger.has_account(id) && old(self).ledger.balance_of(id) + amount
                > u64::MAX ==> r == Err::<(), GuccError>(GuccError::Overflow),
            r is Ok ==> final(self).events@ == old(self).events@ && final(self).positions@ == old(
                self,
            ).positions@,
            r is Ok ==> final(self).ledger.account(id) == with_balance(
                old(self).ledger.account(id),
                (old(self).ledger.balance_of(id) + amount) as u64,
            ),
            r is Ok ==> forall|x: AccountId|
                final(self).ledger.has_account(x) <==> old(self).ledger.has_account(x),
            r is Ok ==> forall|x: AccountId|
                old(self).ledger.has_account(x) && x != id ==> final(self).ledger.account(x) == old(
                    self,
                ).ledger.account(x),
    {
        let ghost s1 = *self;
        let r = self.ledger.mint_to(id, amount);
        proof {
            if r is Ok {
                assert forall|j: int| 0 <= j < self.events@.len() implies {
                    let e2 = #[trigger] self.events@[j];
                    &&& self.ledger.has_account(e2.vault)
                    &&& self.ledger.account(e2.vault).mint == e2.usdc_mint
                    &&& authority_eq(self.ledger.account(e2.vault).authority, vault_authority(e2))
                } by {
                    assert(s1.ledger.has_account(s1.events@[j].vault));
                    let v = s1.events@[j].vault;
                    if v == id {
                        assert(self.ledger.account(v) == with_balance(
                            s1.ledger.account(v),
                            (s1.ledger.balance_of(id) + amount) as u64,
                        ));
                    } else {
                        assert(self.ledger.account(v) == s1.ledger.account(v));
                    }
                }
            }
        }
        r
    }

    /// The event record stored under this identity, if any.
    pub fn get_event(&self, event_id: &String) -> (r: Option<&CongestionEvent>)
        requires
            self.wf(),
        ensures
            match r {
                Some(e) => self.has_event(event_id@) && *e == self.event(event_id@),
                None => !self.has_event(event_id@),
            },
    {
        match self.find_event(event_id) {
            Some(i) => {
                proof {
                    lemma_event_at(*self, i as int);
                }
                Some(&self.events[i])
            },
            None => None,
        }
    }

    /// The position stored for this event and owner, if any.
    pub fn get_position(&self, event_id: &String, owner: AccountId) -> (r: Option<&UserPosition>)
        requires
            self.wf(),
        ensures
            match r {
                Some(p) => self.has_position(event_id@, owner) && *p == self.position(
                    event_id@,
                    owner,
                ),
                None => !self.has_position(event_id@, owner),
            },
    {
        match self.find_position(event_id, owner) {
            Some(i) => {
                proof {
                    lemma_position_at(*self, i as int);
                }
                Some(&self.positions[i])
            },
            None => None,
        }
    }

    /// The balance of a token account, if it exists.
    pub fn token_balance(&self, id: AccountId) -> (r: Option<u64>)
        requires
            self.wf(),
        ensures
            match r {
                Some(b) => self.ledger.has_account(id) && b == self.ledger.balance_of(id),
                None => !self.ledger.has_account(id),
            },
    {
        self.ledger.balance(id)
    }

    /// The balance held in an event's custody account, if the event
    /// exists.
    pub fn vault_balance(&self, event_id: &String) -> (r: Option<u64>)
        requires
            self.wf(),
        ensures
            match r {
                Some(b) => self.has_event(event_id@) && b == self.ledger.balance_of(
                    self.event(event_id@).vault,
                ),
                None => !self.has_event(event_id@),
            },
    {
        match self.find_event(event_id) {
            Some(i) => {
                proof {
                    lemma_event_at(*self, i as int);
                }
                let vault = self.events[i].vault;
                proof {
                    assert(self.ledger.has_account(vault));
                }
                match self.ledger.balance(vault) {
                    Some(b) => Some(b),
                    None => None,
                }
            },
            None => None,
        }
    }
}

} // verus!
