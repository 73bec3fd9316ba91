//! The balance ledger: who holds how much, and the conditional transfer
//! that moves fees and refunds.
//!
//! This models the balance-transfer collaborator as an explicit store owned
//! by the caller. Accounts are plain pairs; an account that was never
//! endowed has balance zero and accounts are never destroyed, so the
//! transfer policy that refuses to destroy the source account never bites.
//! A transfer is refused exactly when the source lacks the funds or the
//! credited balance would not fit its numeric domain.

use vstd::prelude::*;

use crate::types::AccountId;
use crate::types::Balance;
use crate::types::Error;

verus! {

pub struct Ledger {
    pub accounts: Vec<(AccountId, Balance)>,
}

/// Position `i` holds the account of `who`.
pub open spec fn acct_at(a: Seq<(AccountId, Balance)>, i: int, who: AccountId) -> bool {
    0 <= i < a.len() && a[i].0 == who
}

/// Some position holds the account of `who`.
pub open spec fn has_acct(a: Seq<(AccountId, Balance)>, who: AccountId) -> bool {
    exists|i: int| acct_at(a, i, who)
}

/// The balance of `who`: the recorded amount, or zero if never endowed.
pub open spec fn spec_balance(a: Seq<(AccountId, Balance)>, who: AccountId) -> Balance {
    if has_acct(a, who) {
        a[choose|i: int| acct_at(a, i, who)].1
    } else {
        0
    }
}

/// No account is recorded twice.
pub open spec fn uniq_accts(a: Seq<(AccountId, Balance)>) -> bool {
    forall|i: int, j: int| 0 <= i < j < a.len() ==> a[i].0 != a[j].0
}

/// The transfer of `amt` from `from` to `to` is possible: the source holds
/// enough, and the credited balance still fits its domain.
pub open spec fn can_xfer(
    a: Seq<(AccountId, Balance)>,
    from: AccountId,
    to: AccountId,
    amt: Balance,
) -> bool {
    &&& spec_balance(a, from) >= amt
    &&& (from != to ==> spec_balance(a, to) + amt <= Balance::MAX)
}

/// `a1` is `a0` after moving `amt` from `from` to `to`: the source is
/// debited, the destination credited, every other balance unchanged. A
/// transfer to oneself moves nothing.
pub open spec fn xfered(
    a0: Seq<(AccountId, Balance)>,
    a1: Seq<(AccountId, Balance)>,
    from: AccountId,
    to: AccountId,
    amt: Balance,
) -> bool {
    forall|w: AccountId|
        #[trigger] spec_balance(a1, w) as int == if from == to || (w != from && w != to) {
            spec_balance(a0, w) as int
        } else if w == from {
            spec_balance(a0, w) - amt
        } else {
            spec_balance(a0, w) + amt
        }
}

/// The recorded balance at a position is the balance of its account.
pub proof fn lemma_balance_at(a: Seq<(AccountId, Balance)>, i: int, who: AccountId)
    requires
        uniq_accts(a),
        acct_at(a, i, who),
    ensures
        spec_balance(a, who) == a[i].1,
{
    assert(has_acct(a, who));
    let j = choose|j: int| acct_at(a, j, who);
    if j < i {
        assert(a[j].0 != a[i].0);
    } else if i < j {
        assert(a[i].0 != a[j].0);
    }
}

impl View for Ledger {
    type V = Seq<(AccountId, Balance)>;

    open spec fn view(&self) -> Seq<(AccountId, Balance)> {
        self.accounts@
    }
}

impl Ledger {
    pub open spec fn inv(self) -> bool {
        uniq_accts(self@)
    }

    /// An empty ledger: every balance is zero.
    pub fn new() -> (r: Ledger)
        ensures
            r.inv(),
            forall|w: AccountId| spec_balance(r@, w) == 0,
    {
        let r = Ledger { accounts: Vec::new() };
        proof {
            assert(forall|w: AccountId| !has_acct(r@, w));
        }
        r
    }

    /// The position of `who`'s account, if one is recorded.
    fn find(&self, who: AccountId) -> (r: Option<usize>)
        ensures
            match r {
                Some(i) => acct_at(self@, i as int, who),
                None => !has_acct(self@, who),
            },
    {
        let mut i: usize = 0;
        while i < self.accounts.len()
            invariant
                i <= self.accounts.len(),
                forall|k: int| 0 <= k < i ==> self@[k].0 != who,
            decreases self.accounts.len() - i,
        {
            if self.accounts[i].0 == who {
                return Some(i);
            }
            i = i + 1;
        }
        None
    }

    /// Read-only balance lookup.
    pub fn free_balance(&self, who: AccountId) -> (r: Balance)
        requires
            self.inv(),
        ensures
            r == spec_balance(self@, who),
    {
        match self.find(who) {
            Some(i) => {
                proof {
                    lemma_balance_at(self@, i as int, who);
                }
                self.accounts[i].1
            },
            None => 0,
        }
    }

    /// Overwrite the balance of `who`; every other balance is untouched.
    /// This is the endowment step of initial-state loading, before the
    /// registry takes custody of the ledger.
    pub fn set_balance(&mut self, who: AccountId, val: Balance)
        requires
            old(self).inv(),
        ensures
            final(self).inv(),
            spec_balance(final(self)@, who) == val,
            forall|w: AccountId|
                w != who ==> #[trigger] spec_balance(final(self)@, w) == spec_balance(
                    old(self)@,
                    w,
                ),
    {
        let ghost a0 = self@;
        match self.find(who) {
            Some(i) => {
                self.accounts[i] = (who, val);
                proof {
                    let a1 = self@;
                    assert(a1 == a0.update(i as int, (who, val)));
                    assert(uniq_accts(a1)) by {
                        assert(forall|p: int, q: int|
                            0 <= p < q < a1.len() ==> a1[p].0 == a0[p].0 && a1[q].0 == a0[q].0);
                    }
                    lemma_balance_at(a1, i as int, who);
                    assert forall|w: AccountId| w != who implies #[trigger] spec_balance(a1, w)
                        == spec_balance(a0, w) by {
                        Self::lemma_other_balance(a0, a1, i as int, w);
                    }
                }
            },
            None => {
                self.accounts.push((who, val));
                proof {
                    let a1 = self@;
                    assert(a1 == a0.push((who, val)));
                    assert(uniq_accts(a1)) by {
                        assert forall|p: int| 0 <= p < a0.len() implies a1[p] == a0[p] && a0[p].0
                            != who by {
                            if a0[p].0 == who {
                                assert(acct_at(a0, p, who));
                            }
                        }
                    }
                    lemma_balance_at(a1, a0.len() as int, who);
                    assert forall|w: AccountId| w != who implies #[trigger] spec_balance(a1, w)
                        == spec_balance(a0, w) by {
                        if has_acct(a0, w) {
                            let k = choose|k: int| acct_at(a0, k, w);
                            assert(acct_at(a1, k, w));
                            lemma_balance_at(a0, k, w);
                            lemma_balance_at(a1, k, w);
                        } else {
                            assert(!has_acct(a1, w)) by {
                                if has_acct(a1, w) {
                                    let k = choose|k: int| acct_at(a1, k, w);
                                    if k != a0.len() {
                                        assert(acct_at(a0, k, w));
                                    }
                                }
                            }
                        }
                    }
                }
            },
        }
    }

    /// Balances at positions other than the updated one are unchanged.
    proof fn lemma_other_balance(
        a0: Seq<(AccountId, Balance)>,
        a1: Seq<(AccountId, Balance)>,
        i: int,
        w: AccountId,
    )
        requires
            uniq_accts(a0),
            uniq_accts(a1),
            a0.len() == a1.len(),
            0 <= i < a0.len(),
            forall|k: int| 0 <= k < a0.len() && k != i ==> a0[k] == a1[k],
            a0[i].0 != w,
            a1[i].0 != w,
        ensures
            spec_balance(a1, w) == spec_balance(a0, w),
    {
        if has_acct(a0, w) {
            let k = choose|k: int| acct_at(a0, k, w);
            assert(k != i);
            assert(acct_at(a1, k, w));
            lemma_balance_at(a0, k, w);
            lemma_balance_at(a1, k, w);
        } else {
            assert(!has_acct(a1, w)) by {
                if has_acct(a1, w) {
                    let k = choose|k: int| acct_at(a1, k, w);
                    assert(k != i);
                    assert(acct_at(a0, k, w));
                }
            }
        }
    }

    /// True iff a transfer of `amt` from `from` to `to` would go through.
    pub fn can_transfer(&self, from: AccountId, to: AccountId, amt: Balance) -> (r: bool)
        requires
            self.inv(),
        ensures
            r == can_xfer(self@, from, to, amt),
    {
        if self.free_balance(from) < amt {
            return false;
        }
        if from == to {
            return true;
        }
        self.free_balance(to).checked_add(amt).is_some()
    }

    /// Move `amt` from `from` to `to` if the source holds enough and the
    /// credited balance fits; otherwise refuse and change nothing. The
    /// source account persists (possibly with balance zero), so the policy
    /// of never destroying it holds of every outcome.
    pub fn transfer(&mut self, from: AccountId, to: AccountId, amt: Balance) -> (r: Result<
        (),
        Error,
    >)
        requires
            old(self).inv(),
        ensures
            final(self).inv(),
            r is Ok <==> can_xfer(old(self)@, from, to, amt),
            r is Ok ==> xfered(old(self)@, final(self)@, from, to, amt),
            r is Err ==> *final(self) == *old(self) && r == Err::<(), Error>(
                Error::NotEnoughBalance,
            ),
    {
        let bf = self.free_balance(from);
        if bf < amt {
            return Err(Error::NotEnoughBalance);
        }
        if from == to {
            return Ok(());
        }
        let bt = self.free_balance(to);
        match bt.checked_add(amt) {
            None => Err(Error::NotEnoughBalance),
            Some(nt) => {
                let ghost a0 = self@;
                self.set_balance(from, bf - amt);
                let ghost amid = self@;
                self.set_balance(to, nt);
                proof {
                    let a1 = self@;
                    assert forall|w: AccountId| #[trigger] spec_balance(a1, w) as int == if from
                        == to || (w != from && w != to) {
                        spec_balance(a0, w) as int
                    } else if w == from {
                        spec_balance(a0, w) - amt
                    } else {
                        spec_balance(a0, w) + amt
                    } by {
                        if w == from {
                            assert(spec_balance(amid, from) == bf - amt);
                        } else if w == to {
                            assert(spec_balance(a1, to) == nt);
                        }
                    }
                    assert(xfered(a0, a1, from, to, amt));
                }
                Ok(())
            },
        }
    }
}

} // verus!
