use vstd::prelude::*;
use crate::split::{charge_of, payouts, payouts_view, split, split_amounts, transfers};
use crate::types::{amounts_nonneg, lemma_prefix_sum_le, shares_fit, sum_amounts, sum_capped, Error, Payout, Policy, Share, BPS_DENOM};

verus! {

/// The unit of escrow: a payer's budget for an asset, its payees, and how much
/// of the budget has been released so far.
pub struct Agreement {
    pub payer: Vec<u8>,
    pub token: Vec<u8>,
    pub policy: Policy,
    pub payees: Vec<Share>,
    pub budget: i128,
    pub released: i128,
    pub deadline: u64,
    pub approvers: Vec<Vec<u8>>,
    pub closed: bool,
}

/// Whether `who` may trigger releases: the payer or a listed approver.
pub open spec fn may_release(a: Agreement, who: Seq<u8>) -> bool {
    a.payer@ == who || exists|i: int| 0 <= i < a.approvers@.len() && (#[trigger] a.approvers@[i])@ == who
}

/// Why a release by `who` at time `now` that charges `charge` is refused, if it is.
pub open spec fn release_refusal(a: Agreement, who: Seq<u8>, now: u64, charge: int) -> Option<Error> {
    if !may_release(a, who) {
        Some(Error::NotApprover)
    } else if a.closed {
        Some(Error::Closed)
    } else if now > a.deadline {
        Some(Error::PastDeadline)
    } else if a.released + charge > a.budget {
        Some(Error::OverBudget)
    } else {
        None
    }
}

/// Why an agreement with these terms cannot be created by `who`, if it cannot.
pub open spec fn creation_refusal(
    who: Seq<u8>,
    payer: Seq<u8>,
    policy: Policy,
    payees: Seq<Share>,
    budget: int,
) -> Option<Error> {
    if who != payer {
        Some(Error::NotPayer)
    } else if payees.len() == 0 {
        Some(Error::ZeroPayees)
    } else {
        match policy {
            Policy::Fixed => if sum_amounts(payees) > budget {
                Some(Error::OverBudget)
            } else {
                None
            },
            Policy::Proportional => if sum_amounts(payees) != BPS_DENOM {
                Some(Error::BadPercents)
            } else {
                None
            },
        }
    }
}

/// The agreement after a release by `who` at `now` that charges `charge`:
/// the released total grows by the charge unless the release is refused.
pub open spec fn after_release(a: Agreement, who: Seq<u8>, now: u64, charge: int) -> Agreement {
    if release_refusal(a, who, now, charge) is None {
        Agreement { released: (a.released + charge) as i128, ..a }
    } else {
        a
    }
}

/// What closing by `who` returns, and the agreement after it.
pub open spec fn close_outcome(a: Agreement, who: Seq<u8>) -> (Result<bool, Error>, Agreement) {
    if a.payer@ != who {
        (Err(Error::NotPayer), a)
    } else {
        (Ok(!a.closed), Agreement { closed: true, ..a })
    }
}

/// Whether two byte strings are equal.
pub fn same_bytes(a: &Vec<u8>, b: &Vec<u8>) -> (r: bool)
    ensures
        r == (a@ == b@),
{
    if a.len() != b.len() {
        return false;
    }
    let mut i: usize = 0;
    while i < a.len()
        invariant
            a@.len() == b@.len(),
            0 <= i <= a@.len(),
            forall|j: int| 0 <= j < i ==> a@[j] == b@[j],
        decreases a@.len() - i,
    {
        if a[i] != b[i] {
            return false;
        }
        i = i + 1;
    }
    assert(a@ =~= b@);
    true
}

impl Agreement {
    /// The agreement's invariant.
    pub open spec fn wf(&self) -> bool {
        &&& 0 <= self.released <= self.budget
        &&& self.payees@.len() > 0
        &&& shares_fit(self.policy, self.payees@, self.budget as int)
    }

    /// Whether `who` may trigger releases on this agreement.
    pub fn may_release(&self, who: &Vec<u8>) -> (r: bool)
        ensures
            r == may_release(*self, who@),
    {
        if same_bytes(&self.payer, who) {
            return true;
        }
        let mut i: usize = 0;
        while i < self.approvers.len()
            invariant
                0 <= i <= self.approvers@.len(),
                self.payer@ != who@,
                forall|j: int| 0 <= j < i ==> (#[trigger] self.approvers@[j])@ != who@,
            decreases self.approvers@.len() - i,
        {
            if same_bytes(&self.approvers[i], who) {
                return true;
            }
            i = i + 1;
        }
        false
    }

    /// Creates an agreement on behalf of `who`, who must be the payer. Nothing
    /// has been released from a new agreement and it is open.
    pub fn new(
        who: &Vec<u8>,
        payer: Vec<u8>,
        token: Vec<u8>,
        policy: Policy,
        payees: Vec<Share>,
        budget: i128,
        deadline: u64,
        approvers: Vec<Vec<u8>>,
    ) -> (r: Result<Agreement, Error>)
        requires
            budget >= 0,
            amounts_nonneg(payees@),
        ensures
            creation_refusal(who@, payer@, policy, payees@, budget as int) matches Some(e) ==> r == Err::<Agreement, Error>(e),
            creation_refusal(who@, payer@, policy, payees@, budget as int) is None ==> r is Ok,
            r matches Ok(a) ==> {
                &&& a.wf()
                &&& a.released == 0
                &&& !a.closed
                &&& a.payer == payer
                &&& a.token == token
                &&& a.policy == policy
                &&& a.payees == payees
                &&& a.budget == budget
                &&& a.deadline == deadline
                &&& a.approvers == approvers
            },
    {
        if !same_bytes(who, &payer) {
            return Err(Error::NotPayer);
        }
        if payees.len() == 0 {
            return Err(Error::ZeroPayees);
        }
        match policy {
            Policy::Fixed => {
                if sum_capped(&payees, budget).is_none() {
                    return Err(Error::OverBudget);
                }
            },
            Policy::Proportional => {
                match sum_capped(&payees, BPS_DENOM) {
                    Some(v) => {
                        if v != BPS_DENOM {
                            return Err(Error::BadPercents);
                        }
                    },
                    None => {
                        return Err(Error::BadPercents);
                    },
                }
            },
        }
        Ok(Agreement { payer, token, policy, payees, budget, released: 0, deadline, approvers, closed: false })
    }

    /// Releases `amount` to `recipient` on behalf of `who`. On success the
    /// released total grows by `amount` and the transfer to make is returned;
    /// on failure nothing changes.
    pub fn release(&mut self, who: &Vec<u8>, now: u64, recipient: Vec<u8>, amount: i128) -> (r: Result<Payout, Error>)
        requires
            old(self).wf(),
            amount >= 0,
        ensures
            final(self).wf(),
            release_refusal(*old(self), who@, now, amount as int) matches Some(e) ==> r == Err::<Payout, Error>(e),
            release_refusal(*old(self), who@, now, amount as int) is None ==> r is Ok,
            r matches Ok(p) ==> p.recipient == recipient && p.amount == amount
                && *final(self) == (Agreement { released: (old(self).released + amount) as i128, ..*old(self) }),
            r is Err ==> *final(self) == *old(self),
            *final(self) == after_release(*old(self), who@, now, amount as int),
    {
        if !self.may_release(who) {
            return Err(Error::NotApprover);
        }
        if self.closed {
            return Err(Error::Closed);
        }
        if now > self.deadline {
            return Err(Error::PastDeadline);
        }
        if amount > self.budget - self.released {
            return Err(Error::OverBudget);
        }
        self.released = self.released + amount;
        Ok(Payout { recipient, amount })
    }

    /// Releases `total` split among the payees on behalf of `who`. What is
    /// charged to the budget is `total` under the proportional policy and the
    /// sum of the configured amounts under the fixed one. On success the
    /// transfers to make are returned, one for each positive amount of the
    /// split; on failure nothing changes.
    pub fn release_split(&mut self, who: &Vec<u8>, now: u64, total: i128) -> (r: Result<Vec<Payout>, Error>)
        requires
            old(self).wf(),
            total >= 0,
        ensures
            final(self).wf(),
            release_refusal(*old(self), who@, now, charge_of(old(self).policy, total as int, old(self).payees@)) matches Some(e)
                ==> r == Err::<Vec<Payout>, Error>(e),
            release_refusal(*old(self), who@, now, charge_of(old(self).policy, total as int, old(self).payees@)) is None
                ==> r is Ok,
            r matches Ok(ps) ==> payouts_view(ps@) == transfers(
                old(self).payees@,
                split_amounts(old(self).policy, total as int, old(self).payees@),
                old(self).payees@.len() as int,
            ) && *final(self) == (Agreement {
                released: (old(self).released + charge_of(old(self).policy, total as int, old(self).payees@)) as i128,
                ..*old(self)
            }),
            r is Err ==> *final(self) == *old(self),
            *final(self) == after_release(*old(self), who@, now, charge_of(old(self).policy, total as int, old(self).payees@)),
    {
        if !self.may_release(who) {
            return Err(Error::NotApprover);
        }
        if self.closed {
            return Err(Error::Closed);
        }
        if now > self.deadline {
            return Err(Error::PastDeadline);
        }
        let charge = match self.policy {
            Policy::Fixed => match sum_capped(&self.payees, self.budget) {
                Some(v) => v,
                None => {
                    return Err(Error::OverBudget);
                },
            },
            Policy::Proportional => total,
        };
        if charge > self.budget - self.released {
            return Err(Error::OverBudget);
        }
        proof {
            lemma_prefix_sum_le(self.payees@, 0);
        }
        let amounts = split(self.policy, total, &self.payees);
        let ps = payouts(&self.payees, &amounts);
        proof {
            assert(amounts@.map_values(|a: i128| a as int) =~= split_amounts(self.policy, total as int, self.payees@));
        }
        self.released = self.released + charge;
        Ok(ps)
    }

    /// Closes the agreement on behalf of `who`, who must be the payer. Closing
    /// a closed agreement changes nothing and succeeds. Returns whether this
    /// call closed it.
    pub fn close(&mut self, who: &Vec<u8>) -> (r: Result<bool, Error>)
        ensures
            old(self).payer@ != who@ ==> r == Err::<bool, Error>(Error::NotPayer) && *final(self) == *old(self),
            old(self).payer@ == who@ ==> r == Ok::<bool, Error>(!old(self).closed)
                && *final(self) == (Agreement { closed: true, ..*old(self) }),
            (r, *final(self)) == close_outcome(*old(self), who@),
    {
        if !same_bytes(&self.payer, who) {
            return Err(Error::NotPayer);
        }
        if self.closed {
            return Ok(false);
        }
        self.closed = true;
        Ok(true)
    }
}

} // verus!
