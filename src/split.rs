use vstd::prelude::*;
use vstd::arithmetic::div_mod::{lemma_fundamental_div_mod, lemma_hoist_over_denominator};
use vstd::arithmetic::mul::lemma_mul_inequality;
use crate::types::{amounts_nonneg, lemma_prefix_sum_le, sum_amounts, Payout, Policy, Share, BPS_DENOM};

verus! {

/// The part of `total` that `bps` basis points give, rounded down.
pub open spec fn bps_part(total: int, bps: int) -> int {
    total * bps / (BPS_DENOM as int)
}

/// Sum of the rounded-down parts of `total` that the shares give.
pub open spec fn sum_parts(total: int, s: Seq<Share>) -> int
    decreases s.len(),
{
    if s.len() == 0 {
        0
    } else {
        sum_parts(total, s.drop_last()) + bps_part(total, s.last().amount as int)
    }
}

/// Proportional split: each payee but the last gets its rounded-down part, the
/// last gets what remains of `total`.
pub open spec fn proportional_amounts(total: int, s: Seq<Share>) -> Seq<int> {
    Seq::new(
        s.len(),
        |i: int|
            if i + 1 < s.len() {
                bps_part(total, s[i].amount as int)
            } else {
                total - sum_parts(total, s.take(s.len() - 1))
            },
    )
}

/// Fixed split: each payee gets its configured amount.
pub open spec fn fixed_amounts(s: Seq<Share>) -> Seq<int> {
    Seq::new(s.len(), |i: int| s[i].amount as int)
}

/// What each payee gets of a release of `total` under the policy.
pub open spec fn split_amounts(policy: Policy, total: int, s: Seq<Share>) -> Seq<int> {
    match policy {
        Policy::Fixed => fixed_amounts(s),
        Policy::Proportional => proportional_amounts(total, s),
    }
}

/// What a split release of `total` charges to the budget under the policy.
pub open spec fn charge_of(policy: Policy, total: int, s: Seq<Share>) -> int {
    match policy {
        Policy::Fixed => sum_amounts(s),
        Policy::Proportional => total,
    }
}

pub open spec fn sum_ints(s: Seq<int>) -> int
    decreases s.len(),
{
    if s.len() == 0 {
        0
    } else {
        sum_ints(s.drop_last()) + s.last()
    }
}

/// The transfers that a split makes: one for each payee whose amount is
/// positive, in payee order.
pub open spec fn transfers(s: Seq<Share>, amounts: Seq<int>, n: int) -> Seq<(Seq<u8>, int)>
    decreases n,
{
    if n <= 0 {
        Seq::empty()
    } else {
        let rest = transfers(s, amounts, n - 1);
        if amounts[n - 1] > 0 {
            rest.push((s[n - 1].recipient@, amounts[n - 1]))
        } else {
            rest
        }
    }
}

pub open spec fn payouts_view(p: Seq<Payout>) -> Seq<(Seq<u8>, int)> {
    p.map_values(|x: Payout| x@)
}

proof fn lemma_bps_part_bounds(total: int, bps: int)
    requires
        total >= 0,
        bps >= 0,
    ensures
        0 <= bps_part(total, bps),
        bps_part(total, bps) * BPS_DENOM <= total * bps,
{
    lemma_fundamental_div_mod(total * bps, BPS_DENOM as int);
    assert(total * bps >= 0) by (nonlinear_arith)
        requires
            total >= 0,
            bps >= 0,
    ;
}

/// The rounded-down parts of `total` never exceed the proportion the shares give.
proof fn lemma_sum_parts_bound(total: int, s: Seq<Share>)
    requires
        total >= 0,
        amounts_nonneg(s),
    ensures
        0 <= sum_parts(total, s),
        sum_parts(total, s) * BPS_DENOM <= total * sum_amounts(s),
    decreases s.len(),
{
    if s.len() > 0 {
        let d = s.drop_last();
        assert(amounts_nonneg(d));
        lemma_sum_parts_bound(total, d);
        lemma_bps_part_bounds(total, s.last().amount as int);
        let a = sum_parts(total, d);
        let b = bps_part(total, s.last().amount as int);
        let x = sum_amounts(d);
        let y = s.last().amount as int;
        assert((a + b) * BPS_DENOM <= total * (x + y)) by (nonlinear_arith)
            requires
                a * BPS_DENOM <= total * x,
                b * BPS_DENOM <= total * y,
        ;
    }
}

/// The parts of a whole number of basis points of `total` sum to at most `total`.
proof fn lemma_prefix_parts_le_total(total: int, s: Seq<Share>, i: int)
    requires
        total >= 0,
        amounts_nonneg(s),
        sum_amounts(s) == BPS_DENOM,
        0 <= i <= s.len(),
    ensures
        0 <= sum_parts(total, s.take(i)) <= total,
{
    let p = s.take(i);
    assert(amounts_nonneg(p));
    lemma_prefix_sum_le(s, i);
    lemma_sum_parts_bound(total, p);
    let a = sum_parts(total, p);
    let x = sum_amounts(p);
    assert(a <= total) by (nonlinear_arith)
        requires
            a * 10000 <= total * x,
            x <= 10000,
            total >= 0,
    ;
}

/// Computes `floor(total * bps / 10000)` without overflow.
pub fn part_of(total: i128, bps: i128) -> (r: i128)
    requires
        total >= 0,
        0 <= bps <= BPS_DENOM,
    ensures
        r == bps_part(total as int, bps as int),
{
    let q = total / BPS_DENOM;
    let rem = total % BPS_DENOM;
    proof {
        lemma_fundamental_div_mod(total as int, BPS_DENOM as int);
        let (t, b, qi, ri) = (total as int, bps as int, q as int, rem as int);
        assert(t * b == ri * b + (qi * b) * 10000) by (nonlinear_arith)
            requires
                t == qi * 10000 + ri,
        ;
        lemma_hoist_over_denominator(ri * b, qi * b, 10000);
        assert(qi * b <= t) by (nonlinear_arith)
            requires
                t == qi * 10000 + ri,
                0 <= ri,
                0 <= qi,
                b <= 10000,
        ;
        assert(qi >= 0);
        lemma_mul_inequality(ri, 10000, b);
        assert(qi * b >= 0) by (nonlinear_arith)
            requires
                qi >= 0,
                b >= 0,
        ;
        assert(ri * b >= 0) by (nonlinear_arith)
            requires
                ri >= 0,
                b >= 0,
        ;
        assert(t * b <= t * 10000) by (nonlinear_arith)
            requires
                t >= 0,
                b <= 10000,
        ;
        lemma_fundamental_div_mod(t * b, 10000);
        lemma_fundamental_div_mod(ri * b, 10000);
        assert((t * b) / 10000 <= t) by (nonlinear_arith)
            requires
                t * b <= t * 10000,
                t * b == 10000 * ((t * b) / 10000) + (t * b) % 10000,
                0 <= (t * b) % 10000,
        ;
    }
    q * bps + rem * bps / BPS_DENOM
}

/// Splits a release of `total` among the payees under the policy.
pub fn split(policy: Policy, total: i128, payees: &Vec<Share>) -> (r: Vec<i128>)
    requires
        total >= 0,
        payees@.len() > 0,
        amounts_nonneg(payees@),
        policy == Policy::Proportional ==> sum_amounts(payees@) == BPS_DENOM,
    ensures
        r@.len() == payees@.len(),
        forall|i: int| 0 <= i < r@.len() ==> r@[i] == #[trigger] split_amounts(policy, total as int, payees@)[i],
{
    let n = payees.len();
    let mut out: Vec<i128> = Vec::new();
    match policy {
        Policy::Fixed => {
            let mut i: usize = 0;
            while i < n
                invariant
                    n == payees@.len(),
                    0 <= i <= n,
                    out@.len() == i,
                    forall|j: int| 0 <= j < i ==> out@[j] == payees@[j].amount,
                decreases n - i,
            {
                out.push(payees[i].amount);
                i = i + 1;
            }
        },
        Policy::Proportional => {
            let ghost s = payees@;
            let mut acc: i128 = 0;
            let mut i: usize = 0;
            while i + 1 < n
                invariant
                    n == s.len(),
                    s == payees@,
                    n > 0,
                    total >= 0,
                    amounts_nonneg(s),
                    sum_amounts(s) == BPS_DENOM,
                    0 <= i < n,
                    out@.len() == i,
                    acc == sum_parts(total as int, s.take(i as int)),
                    forall|j: int| 0 <= j < i ==> out@[j] == bps_part(total as int, s[j].amount as int),
                decreases n - i,
            {
                proof {
                    lemma_prefix_sum_le(s, i as int);
                    lemma_prefix_sum_le(s, i as int + 1);
                    assert(s.take(i as int + 1).drop_last() =~= s.take(i as int));
                    lemma_prefix_parts_le_total(total as int, s, i as int + 1);
                }
                let part = part_of(total, payees[i].amount);
                out.push(part);
                acc = acc + part;
                i = i + 1;
            }
            proof {
                lemma_prefix_parts_le_total(total as int, s, i as int);
            }
            out.push(total - acc);
        },
    }
    out
}

/// An exact copy of a byte string.
pub fn copy_bytes(b: &Vec<u8>) -> (r: Vec<u8>)
    ensures
        r@ == b@,
{
    let r = b.clone();
    assert(r@ =~= b@);
    r
}

/// The transfers to make for a split: a payout for each payee whose amount is
/// positive, in payee order; payees whose amount is zero get none.
pub fn payouts(payees: &Vec<Share>, amounts: &Vec<i128>) -> (r: Vec<Payout>)
    requires
        amounts@.len() == payees@.len(),
    ensures
        payouts_view(r@) == transfers(payees@, amounts@.map_values(|a: i128| a as int), payees@.len() as int),
{
    let ghost am = amounts@.map_values(|a: i128| a as int);
    let mut out: Vec<Payout> = Vec::new();
    let mut i: usize = 0;
    while i < payees.len()
        invariant
            amounts@.len() == payees@.len(),
            am == amounts@.map_values(|a: i128| a as int),
            0 <= i <= payees@.len(),
            payouts_view(out@) == transfers(payees@, am, i as int),
        decreases payees@.len() - i,
    {
        if amounts[i] > 0 {
            let p = Payout { recipient: copy_bytes(&payees[i].recipient), amount: amounts[i] };
            let ghost before = out@;
            out.push(p);
            assert(payouts_view(out@) =~= payouts_view(before).push(p@));
        }
        i = i + 1;
    }
    out
}

/// A proportional split hands out exactly the released total.
pub proof fn lemma_proportional_split_sums_to_total(total: int, s: Seq<Share>)
    requires
        total >= 0,
        s.len() > 0,
        amounts_nonneg(s),
        sum_amounts(s) == BPS_DENOM,
    ensures
        sum_ints(split_amounts(Policy::Proportional, total, s)) == total,
{
    let a = proportional_amounts(total, s);
    let n = s.len() as int;
    lemma_prefix_sums_agree(total, s, n - 1);
    assert(a.drop_last() =~= a.take(n - 1));
}

proof fn lemma_prefix_sums_agree(total: int, s: Seq<Share>, k: int)
    requires
        0 <= k < s.len(),
    ensures
        sum_ints(proportional_amounts(total, s).take(k)) == sum_parts(total, s.take(k)),
    decreases k,
{
    let a = proportional_amounts(total, s);
    if k > 0 {
        lemma_prefix_sums_agree(total, s, k - 1);
        assert(a.take(k).drop_last() =~= a.take(k - 1));
        assert(s.take(k).drop_last() =~= s.take(k - 1));
    } else {
        assert(a.take(0) =~= Seq::<int>::empty());
        assert(s.take(0) =~= Seq::<Share>::empty());
    }
}

/// Under the fixed policy a split release charges the sum of the configured
/// amounts, whatever total the caller names, and hands out exactly that sum.
pub proof fn lemma_fixed_charge_ignores_total(t1: int, t2: int, s: Seq<Share>)
    ensures
        charge_of(Policy::Fixed, t1, s) == charge_of(Policy::Fixed, t2, s),
        charge_of(Policy::Fixed, t1, s) == sum_amounts(s),
        sum_ints(split_amounts(Policy::Fixed, t1, s)) == sum_amounts(s),
    decreases s.len(),
{
    if s.len() > 0 {
        lemma_fixed_charge_ignores_total(t1, t2, s.drop_last());
        assert(fixed_amounts(s).drop_last() =~= fixed_amounts(s.drop_last()));
    } else {
        assert(fixed_amounts(s) =~= Seq::<int>::empty());
    }
}

} // verus!
