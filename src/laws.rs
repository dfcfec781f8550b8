use vstd::prelude::*;
use crate::agreement::{after_release, close_outcome, may_release, release_refusal, Agreement};
use crate::types::Error;

verus! {

/// The agreement after a sequence of releases, each given as the caller, the
/// time and the amount it charges.
pub open spec fn after_releases(a: Agreement, steps: Seq<(Seq<u8>, u64, int)>) -> Agreement
    decreases steps.len(),
{
    if steps.len() == 0 {
        a
    } else {
        let s = steps.last();
        after_release(after_releases(a, steps.drop_last()), s.0, s.1, s.2)
    }
}

/// Over any sequence of releases on one agreement, the released total never
/// decreases and never exceeds the budget, which does not change.
pub proof fn lemma_released_monotone(a: Agreement, steps: Seq<(Seq<u8>, u64, int)>, i: int, j: int)
    requires
        a.wf(),
        forall|k: int| 0 <= k < steps.len() ==> (#[trigger] steps[k]).2 >= 0,
        0 <= i <= j <= steps.len(),
    ensures
        after_releases(a, steps.take(i)).released <= after_releases(a, steps.take(j)).released,
        after_releases(a, steps.take(j)).released <= after_releases(a, steps.take(j)).budget,
        after_releases(a, steps.take(j)).budget == a.budget,
        after_releases(a, steps.take(j)).wf(),
    decreases j,
{
    if j > 0 {
        lemma_released_monotone(a, steps, if i == j { j - 1 } else { i }, j - 1);
        let t = steps.take(j);
        assert(t.drop_last() =~= steps.take(j - 1));
        assert(t.last() == steps[j - 1]);
    } else {
        assert(steps.take(0) =~= Seq::<(Seq<u8>, u64, int)>::empty());
    }
}

/// Closing an agreement a second time changes nothing and succeeds without
/// reporting a new closure.
pub proof fn lemma_close_twice(a: Agreement, who: Seq<u8>)
    requires
        a.payer@ == who,
    ensures
        close_outcome(a, who).0 == Ok::<bool, Error>(!a.closed),
        close_outcome(a, who).1.closed,
        close_outcome(close_outcome(a, who).1, who).0 == Ok::<bool, Error>(false),
        close_outcome(close_outcome(a, who).1, who).1 == close_outcome(a, who).1,
{
}

/// A closed agreement stays closed, whatever is released from it or however
/// often it is closed.
pub proof fn lemma_closed_stays_closed(a: Agreement, who: Seq<u8>, now: u64, charge: int)
    requires
        a.closed,
    ensures
        after_release(a, who, now, charge).closed,
        close_outcome(a, who).1.closed,
{
}

/// A release by an authorised caller on an open agreement after its deadline
/// fails with `PastDeadline`, however much of the budget remains.
pub proof fn lemma_past_deadline(a: Agreement, who: Seq<u8>, now: u64, charge: int)
    requires
        may_release(a, who),
        !a.closed,
        now > a.deadline,
    ensures
        release_refusal(a, who, now, charge) == Some(Error::PastDeadline),
        after_release(a, who, now, charge) == a,
{
}

/// A release by a caller who is neither the payer nor an approver fails with
/// `NotApprover`.
pub proof fn lemma_unauthorised_release(a: Agreement, who: Seq<u8>, now: u64, charge: int)
    requires
        a.payer@ != who,
        forall|i: int| 0 <= i < a.approvers@.len() ==> (#[trigger] a.approvers@[i])@ != who,
    ensures
        release_refusal(a, who, now, charge) == Some(Error::NotApprover),
        after_release(a, who, now, charge) == a,
{
}

} // verus!
