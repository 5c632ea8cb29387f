//! The general laws of the settlement engine, stated over the same spec
//! functions its operations' contracts use, and proved once for all
//! inputs.

use vstd::prelude::*;

use crate::engine::{claims_on, lemma_claims_on_bounds_element, Redeem, SettlementEngine};
use crate::errors::GuccError;
use crate::ids::AccountId;
use crate::records::{
    payout_of, position_after_deposit, resolve_step, CongestionEvent, UserPosition,
};

verus! {

/// The cumulative sum of a sequence of deposit amounts.
pub open spec fn deposit_sum(amounts: Seq<u64>) -> int
    decreases amounts.len(),
{
    if amounts.len() == 0 {
        0
    } else {
        deposit_sum(amounts.drop_last()) + amounts.last()
    }
}

/// A sum of unsigned amounts is never negative.
pub proof fn lemma_deposit_sum_nonneg(amounts: Seq<u64>)
    ensures
        deposit_sum(amounts) >= 0,
    decreases amounts.len(),
{
    if amounts.len() > 0 {
        lemma_deposit_sum_nonneg(amounts.drop_last());
    }
}

/// The position after a whole sequence of deposits, applied in order.
pub open spec fn position_after_deposits(p: UserPosition, amounts: Seq<u64>) -> UserPosition
    decreases amounts.len(),
{
    if amounts.len() == 0 {
        p
    } else {
        position_after_deposit(position_after_deposits(p, amounts.drop_last()), amounts.last())
    }
}

/// Deposits accumulate: for every sequence of deposits on the same
/// position whose total stays within the balance width, the two claim
/// balances remain equal to each other and grow by exactly the cumulative
/// sum of the deposited amounts, while owner and event never change.
/// Each deposit of the sequence is the very transition `mint_tokens`
/// applies to the depositor's position.
pub proof fn lemma_deposits_accumulate(p: UserPosition, amounts: Seq<u64>)
    requires
        p.yes_amount == p.no_amount,
        p.yes_amount + deposit_sum(amounts) <= u64::MAX,
    ensures
        ({
            let q = position_after_deposits(p, amounts);
            &&& q.yes_amount == q.no_amount
            &&& q.yes_amount == p.yes_amount + deposit_sum(amounts)
            &&& q.owner == p.owner
            &&& q.event == p.event
        }),
    decreases amounts.len(),
{
    if amounts.len() > 0 {
        lemma_deposit_sum_nonneg(amounts.drop_last());
        lemma_deposits_accumulate(p, amounts.drop_last());
    }
}

/// Resolution is final: once an event is resolved, any further resolve
/// attempt — by whatever signer, with whatever outcome — fails and
/// leaves the record, its outcome included, unchanged.
pub proof fn lemma_resolution_is_final(e: CongestionEvent, signer: AccountId, outcome: bool)
    requires
        e.resolved,
    ensures
        resolve_step(e, signer, outcome).1 is Err,
        resolve_step(e, signer, outcome).0 == e,
{
}

/// Resolving twice: after a first successful resolution, the second
/// attempt fails, and the recorded outcome still equals the value the
/// first call set.
pub proof fn lemma_resolve_twice(
    e: CongestionEvent,
    signer1: AccountId,
    outcome1: bool,
    signer2: AccountId,
    outcome2: bool,
)
    requires
        resolve_step(e, signer1, outcome1).1 is Ok,
    ensures
        ({
            let e1 = resolve_step(e, signer1, outcome1).0;
            &&& e1.resolved && e1.outcome == outcome1
            &&& resolve_step(e1, signer2, outcome2).1 is Err
            &&& resolve_step(e1, signer2, outcome2).0 == e1
            &&& resolve_step(e1, signer2, outcome2).0.outcome == outcome1
        }),
{
}

/// Only the stored oracle resolves: a signer other than the event's
/// oracle always fails with `OracleMismatch`, whatever outcome it
/// reports and whether or not the event is already resolved, and the
/// record is left unchanged.
pub proof fn lemma_resolve_requires_oracle(e: CongestionEvent, signer: AccountId, outcome: bool)
    requires
        signer != e.oracle,
    ensures
        resolve_step(e, signer, outcome).1 == Err::<(), GuccError>(GuccError::OracleMismatch),
        resolve_step(e, signer, outcome).0 == e,
{
}

/// A redeemed position redeems again for nothing: once both claim
/// balances are zero — as `redeem` leaves them — the payout owed by any
/// resolved event is exactly zero, so a second redemption succeeds
/// without moving funds.
pub proof fn lemma_redeemed_position_redeems_for_nothing(s: SettlementEngine, ctx: Redeem)
    requires
        s.wf(),
        s.has_event(ctx.congestion_event@),
        s.has_position(ctx.congestion_event@, ctx.user),
        s.event(ctx.congestion_event@).resolved,
        s.position(ctx.congestion_event@, ctx.user).yes_amount == 0,
        s.position(ctx.congestion_event@, ctx.user).no_amount == 0,
    ensures
        payout_of(s.event(ctx.congestion_event@), s.position(ctx.congestion_event@, ctx.user))
            == 0,
{
}

/// Custody covers redemption: in any well-formed engine state, the
/// payout owed to any single position never exceeds the balance of its
/// event's custody account. The pool holds at least the outstanding
/// claims against the event on either side — the two sides are pointwise
/// equal, and only one of them is ever paid — so a redemption is never
/// refused for want of custody funds.
pub proof fn lemma_pool_covers_payout(s: SettlementEngine, ev: Seq<char>, user: AccountId)
    requires
        s.wf(),
        s.has_event(ev),
        s.has_position(ev, user),
    ensures
        payout_of(s.event(ev), s.position(ev, user)) <= s.ledger.balance_of(s.event(ev).vault),
{
    let k = s.event_index(ev);
    let pi = s.position_index(ev, user);
    assert(0 <= k < s.events@.len() && s.events@[k].event_id@ == ev);
    assert(0 <= pi < s.positions@.len() && s.positions@[pi].event@ == ev && s.positions@[pi].owner
        == user);
    lemma_claims_on_bounds_element(s.positions@, pi, ev);
    assert(claims_on(s.positions@, s.events@[k].event_id@) <= s.ledger.balance_of(
        s.events@[k].vault,
    ));
    assert(s.positions@[pi].yes_amount == s.positions@[pi].no_amount);
}

} // verus!
