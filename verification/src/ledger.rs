//! A verified model of the external custody ledger.
//!
//! The ledger holds token accounts: each has an identity, an asset type
//! (its mint), an authority that controls outgoing transfers, and a
//! balance. The settlement engine moves funds only through
//! [`Ledger::transfer`], which checks authorization, asset type and
//! balance exactly; any mismatch fails the whole transfer and changes
//! nothing.

use vstd::prelude::*;

use crate::errors::GuccError;
use crate::ids::{authority_eq, AccountId, Authority};

verus! {

/// One token account of the custody ledger.
pub struct TokenAccount {
    /// Identity of the account itself.
    pub id: AccountId,
    /// Identity of the asset type this account holds.
    pub mint: AccountId,
    /// Who may move funds out of this account.
    pub authority: Authority,
    /// Current balance, in base units of the asset.
    pub balance: u64,
}

/// The same account with its balance replaced.
pub open spec fn with_balance(a: TokenAccount, balance: u64) -> TokenAccount {
    TokenAccount { id: a.id, mint: a.mint, authority: a.authority, balance }
}

/// The custody ledger: all token accounts, with pairwise distinct ids.
pub struct Ledger {
    pub accounts: Vec<TokenAccount>,
}

impl Ledger {
    /// Well-formedness: account identities are pairwise distinct, so an
    /// identity names at most one account.
    pub open spec fn wf(self) -> bool {
        forall|i: int, j: int|
            0 <= i < j < self.accounts@.len() ==> (#[trigger] self.accounts@[i]).id != (
            #[trigger] self.accounts@[j]).id
    }

    /// Does an account with this identity exist?
    pub open spec fn has_account(self, id: AccountId) -> bool {
        exists|i: int| 0 <= i < self.accounts@.len() && (#[trigger] self.accounts@[i]).id == id
    }

    /// Index of the account with this identity (meaningful only when
    /// `has_account(id)` holds; unique when `wf()` holds).
    pub open spec fn account_index(self, id: AccountId) -> int {
        choose|i: int| 0 <= i < self.accounts@.len() && (#[trigger] self.accounts@[i]).id == id
    }

    /// The account with this identity (meaningful only when it exists).
    pub open spec fn account(self, id: AccountId) -> TokenAccount {
        self.accounts@[self.account_index(id)]
    }

    /// Balance of the account with this identity.
    pub open spec fn balance_of(self, id: AccountId) -> u64 {
        self.account(id).balance
    }

    /// When a transfer of `amount` from `from` to `to` under `authority`
    /// succeeds: both accounts exist, the authority controls the source,
    /// the asset types agree, the source holds enough, and the
    /// destination balance does not overflow. A transfer of an account to
    /// itself succeeds under the same checks and moves nothing.
    pub open spec fn can_transfer(
        self,
        from: AccountId,
        to: AccountId,
        authority: Authority,
        amount: u64,
    ) -> bool {
        &&& self.has_account(from)
        &&& self.has_account(to)
        &&& authority_eq(self.account(from).authority, authority)
        &&& self.account(from).mint == self.account(to).mint
        &&& self.account(from).balance >= amount
        &&& (from == to || self.account(to).balance + amount <= u64::MAX)
    }

    /// The error a failing transfer reports, in the order the checks are
    /// made (meaningful only when `can_transfer` does not hold).
    pub open spec fn transfer_error(
        self,
        from: AccountId,
        to: AccountId,
        authority: Authority,
        amount: u64,
    ) -> GuccError {
        if !self.has_account(from) || !self.has_account(to) {
            GuccError::UnknownAccount
        } else if !authority_eq(self.account(from).authority, authority) {
            GuccError::Unauthorized
        } else if self.account(from).mint != self.account(to).mint {
            GuccError::MintMismatch
        } else if self.account(from).balance < amount {
            GuccError::InsufficientBalance
        } else {
            GuccError::Overflow
        }
    }
}

/// In a well-formed ledger, the account found at index `i` is the one
/// identity lookup yields for its id.
pub proof fn lemma_account_at(l: Ledger, i: int)
    requires
        l.wf(),
        0 <= i < l.accounts@.len(),
    ensures
        l.has_account(l.accounts@[i].id),
        l.account_index(l.accounts@[i].id) == i,
        l.account(l.accounts@[i].id) == l.accounts@[i],
{
    let id = l.accounts@[i].id;
    assert(l.has_account(id));
    let j = l.account_index(id);
    assert(0 <= j < l.accounts@.len() && l.accounts@[j].id == id);
    if i < j {
        assert(l.accounts@[i].id != l.accounts@[j].id);
    } else if j < i {
        assert(l.accounts@[j].id != l.accounts@[i].id);
    }
}

/// Replacing one account by another with the same identity keeps the
/// ledger well formed, keeps every identity's existence, and leaves every
/// other account untouched.
pub proof fn lemma_update_frame(l1: Ledger, l2: Ledger, i: int, a: TokenAccount)
    requires
        l1.wf(),
        0 <= i < l1.accounts@.len(),
        a.id == l1.accounts@[i].id,
        l2.accounts@ == l1.accounts@.update(i, a),
    ensures
        l2.wf(),
        forall|id: AccountId| l2.has_account(id) <==> l1.has_account(id),
        l2.has_account(a.id),
        l2.account(a.id) == a,
        forall|id: AccountId|
            l1.has_account(id) && id != a.id ==> l2.account(id) == l1.account(id),
{
    assert forall|id: AccountId| l2.has_account(id) <==> l1.has_account(id) by {
        if l2.has_account(id) {
            let k = choose|k: int|
                0 <= k < l2.accounts@.len() && (#[trigger] l2.accounts@[k]).id == id;
            assert(l1.accounts@[if k == i { i } else { k }].id == id);
        }
        if l1.has_account(id) {
            let k = choose|k: int|
                0 <= k < l1.accounts@.len() && (#[trigger] l1.accounts@[k]).id == id;
            assert(l2.accounts@[if k == i { i } else { k }].id == id);
        }
    }
    assert(l2.accounts@[i] == a);
    lemma_account_at(l2, i);
    assert forall|id: AccountId|
        l1.has_account(id) && id != a.id implies l2.account(id) == l1.account(id) by {
        let k = choose|k: int| 0 <= k < l1.accounts@.len() && (#[trigger] l1.accounts@[k]).id == id;
        lemma_account_at(l1, k);
        assert(k != i);
        assert(l2.accounts@[k].id == id);
        lemma_account_at(l2, k);
    }
}

/// Appending an account under a fresh identity keeps the ledger well
/// formed and leaves every existing account untouched.
pub proof fn lemma_push_frame(l1: Ledger, l2: Ledger, a: TokenAccount)
    requires
        l1.wf(),
        !l1.has_account(a.id),
        l2.accounts@ == l1.accounts@.push(a),
    ensures
        l2.wf(),
        l2.has_account(a.id),
        l2.account(a.id) == a,
        forall|id: AccountId| id != a.id ==> (l2.has_account(id) <==> l1.has_account(id)),
        forall|id: AccountId| l1.has_account(id) ==> l2.account(id) == l1.account(id),
{
    let n = l1.accounts@.len() as int;
    assert(l2.accounts@[n] == a);
    assert forall|i: int, j: int|
        0 <= i < j < l2.accounts@.len() implies (#[trigger] l2.accounts@[i]).id != (
    #[trigger] l2.accounts@[j]).id by {
        if j == n {
            assert(l2.accounts@[i] == l1.accounts@[i]);
            assert(l1.accounts@[i].id != a.id);
        } else {
            assert(l2.accounts@[i] == l1.accounts@[i]);
            assert(l2.accounts@[j] == l1.accounts@[j]);
        }
    }
    lemma_account_at(l2, n);
    assert forall|id: AccountId|
        id != a.id implies (l2.has_account(id) <==> l1.has_account(id)) by {
        if l2.has_account(id) {
            let k = choose|k: int|
                0 <= k < l2.accounts@.len() && (#[trigger] l2.accounts@[k]).id == id;
            assert(k != n);
            assert(l1.accounts@[k].id == id);
        }
        if l1.has_account(id) {
            let k = choose|k: int|
                0 <= k < l1.accounts@.len() && (#[trigger] l1.accounts@[k]).id == id;
            assert(l2.accounts@[k].id == id);
        }
    }
    assert forall|id: AccountId|
        l1.has_account(id) implies l2.account(id) == l1.account(id) by {
        let k = choose|k: int| 0 <= k < l1.accounts@.len() && (#[trigger] l1.accounts@[k]).id == id;
        lemma_account_at(l1, k);
        assert(l2.accounts@[k].id == id);
        lemma_account_at(l2, k);
        assert(l1.accounts@[k].id != a.id);
    }
}

impl Ledger {
    /// A ledger with no accounts.
    pub fn new() -> (l: Ledger)
        ensures
            l.wf(),
            l.accounts@.len() == 0,
    {
        Ledger { accounts: Vec::new() }
    }

    /// Index of the account with identity `id`, if one exists.
    fn find_index(&self, id: AccountId) -> (r: Option<usize>)
        ensures
            match r {
                Some(i) => i < self.accounts@.len() && self.accounts@[i as int].id == id,
                None => !self.has_account(id),
            },
    {
        let mut i: usize = 0;
        while i < self.accounts.len()
            invariant
                i <= self.accounts@.len(),
                forall|j: int| 0 <= j < i ==> (#[trigger] self.accounts@[j]).id != id,
            decreases self.accounts@.len() - i,
        {
            if self.accounts[i].id == id {
                return Some(i);
            }
            i = i + 1;
        }
        None
    }

    /// Balance of the account with identity `id`, if one exists.
    pub fn balance(&self, id: AccountId) -> (r: Option<u64>)
        requires
            self.wf(),
        ensures
            match r {
                Some(b) => self.has_account(id) && b == self.balance_of(id),
                None => !self.has_account(id),
            },
    {
        match self.find_index(id) {
            Some(i) => {
                proof {
                    lemma_account_at(*self, i as int);
                }
                Some(self.accounts[i].balance)
            },
            None => None,
        }
    }

    /// Allocate a fresh, empty account under `id`. Fails, changing
    /// nothing, exactly when the identity is already taken.
    pub fn create_account(&mut self, id: AccountId, mint: AccountId, authority: Authority) -> (r:
        Result<(), GuccError>)
        requires
            old(self).wf(),
        ensures
            final(self).wf(),
            r is Ok <==> !old(self).has_account(id),
            r is Err ==> r == Err::<(), GuccError>(GuccError::AccountInUse) && final(self).accounts@
                == old(self).accounts@,
            r is Ok ==> final(self).accounts@ == old(self).accounts@.push(
                (TokenAccount { id, mint, authority, balance: 0 }),
            ),
            r is Ok ==> final(self).has_account(id) && final(self).account(id) == (TokenAccount {
                id,
                mint,
                authority,
                balance: 0,
            }),
            r is Ok ==> forall|x: AccountId|
                x != id ==> (final(self).has_account(x) <==> old(self).has_account(x)),
            r is Ok ==> forall|x: AccountId|
                old(self).has_account(x) ==> final(self).account(x) == old(self).account(x),
    {
        match self.find_index(id) {
            Some(_) => Err(GuccError::AccountInUse),
            None => {
                let a = TokenAccount { id, mint, authority, balance: 0 };
                let ghost l1 = *self;
                self.accounts.push(a);
                proof {
                    lemma_push_frame(l1, *self, (TokenAccount { id, mint, authority, balance: 0 }));
                }
                Ok(())
            },
        }
    }

    /// Credit `amount` fresh units of the account's asset to `id`: the
    /// inflow from outside the engine (the asset's issuer). Fails,
    /// changing nothing, exactly when the account does not exist or its
    /// balance would overflow.
    pub fn mint_to(&mut self, id: AccountId, amount: u64) -> (r: Result<(), GuccError>)
        requires
            old(self).wf(),
        ensures
            final(self).wf(),
            r is Ok <==> old(self).has_account(id) && old(self).balance_of(id) + amount
                <= u64::MAX,
            !old(self).has_account(id) ==> r == Err::<(), GuccError>(GuccError::UnknownAccount),
            old(self).has_account(id) && old(self).balance_of(id) + amount > u64::MAX ==> r
                == Err::<(), GuccError>(GuccError::Overflow),
            r is Err ==> final(self).accounts@ == old(self).accounts@,
            r is Ok ==> final(self).account(id) == with_balance(
                old(self).account(id),
                (old(self).balance_of(id) + amount) as u64,
            ),
            r is Ok ==> forall|x: AccountId|
                final(self).has_account(x) <==> old(self).has_account(x),
            r is Ok ==> forall|x: AccountId|
                old(self).has_account(x) && x != id ==> final(self).account(x) == old(self).account(
                    x,
                ),
    {
        match self.find_index(id) {
            None => Err(GuccError::UnknownAccount),
            Some(i) => {
                proof {
                    lemma_account_at(*self, i as int);
                }
                let bal = self.accounts[i].balance;
                if amount > u64::MAX - bal {
                    return Err(GuccError::Overflow);
                }
                let acct = &self.accounts[i];
                let updated = TokenAccount {
                    id: acct.id,
                    mint: acct.mint,
                    authority: acct.authority.duplicate(),
                    balance: bal + amount,
                };
                let ghost l1 = *self;
                let ghost up = updated;
                self.accounts[i] = updated;
                proof {
                    lemma_update_frame(l1, *self, i as int, up);
                }
                Ok(())
            },
        }
    }

    /// Move `amount` from `from` to `to` under `authority`. Succeeds
    /// exactly when [`Ledger::can_transfer`] holds; a failing transfer
    /// reports [`Ledger::transfer_error`] and changes nothing. Amounts
    /// and identities must match exactly: nothing is clamped. A transfer
    /// of an account to itself passes the same checks and moves nothing.
    pub fn transfer(&mut self, from: AccountId, to: AccountId, authority: &Authority, amount: u64)
        -> (r: Result<(), GuccError>)
        requires
            old(self).wf(),
        ensures
            final(self).wf(),
            r is Ok <==> old(self).can_transfer(from, to, *authority, amount),
            r is Err ==> r == Err::<(), GuccError>(
                old(self).transfer_error(from, to, *authority, amount),
            ) && final(self).accounts@ == old(self).accounts@,
            r is Ok ==> forall|x: AccountId|
                final(self).has_account(x) <==> old(self).has_account(x),
            r is Ok && from != to ==> final(self).account(from) == with_balance(
                old(self).account(from),
                (old(self).balance_of(from) - amount) as u64,
            ),
            r is Ok && from != to ==> final(self).account(to) == with_balance(
                old(self).account(to),
                (old(self).balance_of(to) + amount) as u64,
            ),
            r is Ok && from == to ==> final(self).accounts@ == old(self).accounts@,
            r is Ok ==> forall|x: AccountId|
                old(self).has_account(x) && x != from && x != to ==> final(self).account(x) == old(
                    self,
                ).account(x),
    {
        let from_i = match self.find_index(from) {
            None => return Err(GuccError::UnknownAccount),
            Some(i) => i,
        };
        let to_i = match self.find_index(to) {
            None => return Err(GuccError::UnknownAccount),
            Some(i) => i,
        };
        proof {
            lemma_account_at(*self, from_i as int);
            lemma_account_at(*self, to_i as int);
        }
        if !self.accounts[from_i].authority.matches(authority) {
            return Err(GuccError::Unauthorized);
        }
        if self.accounts[from_i].mint != self.accounts[to_i].mint {
            return Err(GuccError::MintMismatch);
        }
        let from_bal = self.accounts[from_i].balance;
        if from_bal < amount {
            return Err(GuccError::InsufficientBalance);
        }
        if from_i == to_i {
            return Ok(());
        }
        let to_bal = self.accounts[to_i].balance;
        if amount > u64::MAX - to_bal {
            return Err(GuccError::Overflow);
        }
        let from_acct = &self.accounts[from_i];
        let new_from = TokenAccount {
            id: from_acct.id,
            mint: from_acct.mint,
            authority: from_acct.authority.duplicate(),
            balance: from_bal - amount,
        };
        let ghost l1 = *self;
        let ghost nf = new_from;
        self.accounts[from_i] = new_from;
        proof {
            lemma_update_frame(l1, *self, from_i as int, nf);
        }
        let to_acct = &self.accounts[to_i];
        let new_to = TokenAccount {
            id: to_acct.id,
            mint: to_acct.mint,
            authority: to_acct.authority.duplicate(),
            balance: to_bal + amount,
        };
        let ghost l2 = *self;
        let ghost nt = new_to;
        self.accounts[to_i] = new_to;
        proof {
            lemma_update_frame(l2, *self, to_i as int, nt);
            assert(l2.account(to) == l1.account(to));
        }
        Ok(())
    }
}

} // verus!
