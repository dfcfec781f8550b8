use vstd::prelude::*;

verus! {

/// Why an operation on an agreement was refused.
#[derive(Clone, Copy, Debug, PartialEq, Eq, Structural)]
pub enum Error {
    AlreadyExists,
    NotFound,
    NotPayer,
    NotApprover,
    BadPercents,
    ZeroPayees,
    Closed,
    OverBudget,
    PastDeadline,
}

/// How the amounts of an agreement's shares are read, chosen once at creation.
#[derive(Clone, Copy, Debug, PartialEq, Eq, Structural)]
pub enum Policy {
    /// Each share is an amount in the asset's smallest unit.
    Fixed,
    /// Each share is a part of the released total in basis points.
    Proportional,
}

/// Basis points that make up a whole.
pub const BPS_DENOM: i128 = 10000;

/// One payee's entitlement: `amount` is read under the agreement's policy.
pub struct Share {
    pub recipient: Vec<u8>,
    pub amount: i128,
}

/// A transfer to make from the payer to `recipient`.
pub struct Payout {
    pub recipient: Vec<u8>,
    pub amount: i128,
}

impl Payout {
    pub open spec fn view(&self) -> (Seq<u8>, int) {
        (self.recipient@, self.amount as int)
    }
}

/// Sum of the amounts of the shares.
pub open spec fn sum_amounts(s: Seq<Share>) -> int
    decreases s.len(),
{
    if s.len() == 0 {
        0
    } else {
        sum_amounts(s.drop_last()) + s.last().amount
    }
}

pub open spec fn amounts_nonneg(s: Seq<Share>) -> bool {
    forall|i: int| 0 <= i < s.len() ==> s[i].amount >= 0
}

/// The shares fit the policy: under `Fixed` they sum to at most the budget,
/// under `Proportional` to exactly one whole.
pub open spec fn shares_fit(policy: Policy, s: Seq<Share>, budget: int) -> bool {
    &&& amounts_nonneg(s)
    &&& match policy {
        Policy::Fixed => sum_amounts(s) <= budget,
        Policy::Proportional => sum_amounts(s) == BPS_DENOM,
    }
}

/// A prefix of non-negative shares sums to no more than the whole list.
pub proof fn lemma_prefix_sum_le(s: Seq<Share>, i: int)
    requires
        amounts_nonneg(s),
        0 <= i <= s.len(),
    ensures
        0 <= sum_amounts(s.take(i)) <= sum_amounts(s),
    decreases s.len(),
{
    if s.len() > 0 {
        lemma_prefix_sum_le(s.drop_last(), if i == s.len() { i - 1 } else { i });
        if i == s.len() {
            assert(s.take(i) =~= s);
            assert(s.take(i - 1) =~= s.drop_last().take(i - 1));
        } else {
            assert(s.take(i) =~= s.drop_last().take(i));
        }
    }
}

/// Sums the amounts when they come to at most `cap`, and says `None` otherwise.
pub fn sum_capped(s: &Vec<Share>, cap: i128) -> (r: Option<i128>)
    requires
        cap >= 0,
        amounts_nonneg(s@),
    ensures
        r matches Some(v) ==> v == sum_amounts(s@) && v <= cap,
        r is None <==> sum_amounts(s@) > cap,
{
    let mut acc: i128 = 0;
    let mut i: usize = 0;
    while i < s.len()
        invariant
            0 <= i <= s.len(),
            amounts_nonneg(s@),
            acc == sum_amounts(s@.take(i as int)),
            0 <= acc <= cap,
        decreases s.len() - i,
    {
        let v = s[i].amount;
        assert(s@.take(i as int + 1).drop_last() =~= s@.take(i as int));
        if v > cap - acc {
            proof {
                lemma_prefix_sum_le(s@, i as int + 1);
            }
            return None;
        }
        acc = acc + v;
        i = i + 1;
    }
    assert(s@.take(i as int) =~= s@);
    Some(acc)
}

} // verus!
