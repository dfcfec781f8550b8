use splitter::agreement::Agreement;
use splitter::registry::SplitterRegistry;
use splitter::split::{part_of, payouts, split};
use splitter::types::{sum_capped, Error, Payout, Policy, Share};

fn acct(name: &str) -> Vec<u8> {
    name.as_bytes().to_vec()
}

fn share(name: &str, amount: i128) -> Share {
    Share { recipient: acct(name), amount }
}

fn pairs(ps: &[Payout]) -> Vec<(Vec<u8>, i128)> {
    ps.iter().map(|p| (p.recipient.clone(), p.amount)).collect()
}

const NOW: u64 = 1_000;
const DAY: u64 = 86400;

#[test]
fn test_splitter_flow() {
    let mut reg = SplitterRegistry::new();
    let payer = acct("payer");
    let token = acct("token");
    let shares = vec![share("alice", 5000), share("bob", 3000), share("carol", 2000)];
    let id = acct("test_job");
    let deadline = NOW + DAY;
    reg.create_agreement(id.clone(), &payer, payer.clone(), token, Policy::Proportional, shares, 500, deadline, vec![])
        .unwrap();

    let out = reg.release_split(&id, &payer, NOW, 500).unwrap();
    assert_eq!(
        pairs(&out),
        vec![(acct("alice"), 250), (acct("bob"), 150), (acct("carol"), 100)]
    );

    let agreement = reg.get(&id).unwrap();
    assert_eq!(agreement.released, 500);
    assert_eq!(agreement.budget, 500);
    assert!(!agreement.closed);
}

#[test]
fn test_individual_release() {
    let mut reg = SplitterRegistry::new();
    let payer = acct("payer");
    let contractor = acct("contractor");
    let id = acct("individual_job");
    reg.create_agreement(
        id.clone(),
        &payer,
        payer.clone(),
        acct("token"),
        Policy::Proportional,
        vec![share("contractor", 10000)],
        500,
        NOW + DAY,
        vec![],
    )
    .unwrap();

    let p = reg.release(&id, &payer, NOW, contractor.clone(), 200).unwrap();
    assert_eq!(p.recipient, contractor);
    assert_eq!(p.amount, 200);
    let agreement = reg.get(&id).unwrap();
    assert_eq!(agreement.released, 200);
}

#[test]
fn test_close_agreement() {
    let mut reg = SplitterRegistry::new();
    let payer = acct("payer");
    let id = acct("closeable_job");
    reg.create_agreement(
        id.clone(),
        &payer,
        payer.clone(),
        acct("token"),
        Policy::Proportional,
        vec![share("contractor", 10000)],
        500,
        NOW + DAY,
        vec![],
    )
    .unwrap();

    reg.close(&id, &payer).unwrap();
    let agreement = reg.get(&id).unwrap();
    assert!(agreement.closed);
}

fn fixed_single(budget: i128, amount: i128) -> (SplitterRegistry, Vec<u8>, Vec<u8>) {
    let mut reg = SplitterRegistry::new();
    let payer = acct("payer");
    let id = acct("job");
    reg.create_agreement(
        id.clone(),
        &payer,
        payer.clone(),
        acct("token"),
        Policy::Fixed,
        vec![share("payee", amount)],
        budget,
        NOW + DAY,
        vec![acct("approver")],
    )
    .unwrap();
    (reg, id, payer)
}

#[test]
fn new_agreement_starts_open_and_empty() {
    let (reg, id, _) = fixed_single(500, 200);
    let a = reg.get(&id).unwrap();
    assert_eq!(a.released, 0);
    assert!(!a.closed);
    assert_eq!(a.policy, Policy::Fixed);
}

#[test]
fn fixed_release_then_over_budget() {
    let (mut reg, id, payer) = fixed_single(500, 200);
    let p = reg.release(&id, &payer, NOW, acct("payee"), 200).unwrap();
    assert_eq!(p.amount, 200);
    assert_eq!(reg.get(&id).unwrap().released, 200);
    assert_eq!(reg.release(&id, &payer, NOW, acct("payee"), 301).err(), Some(Error::OverBudget));
    assert_eq!(reg.get(&id).unwrap().released, 200);
    // exactly reaching the budget is allowed
    reg.release(&id, &payer, NOW, acct("payee"), 300).unwrap();
    assert_eq!(reg.get(&id).unwrap().released, 500);
}

#[test]
fn release_after_deadline_fails() {
    let (mut reg, id, payer) = fixed_single(500, 200);
    let deadline = NOW + DAY;
    reg.release(&id, &payer, deadline, acct("payee"), 1).unwrap();
    assert_eq!(reg.release(&id, &payer, deadline + 1, acct("payee"), 1).err(), Some(Error::PastDeadline));
    assert_eq!(reg.release_split(&id, &payer, deadline + 1, 0).err(), Some(Error::PastDeadline));
    assert_eq!(reg.get(&id).unwrap().released, 1);
}

#[test]
fn close_twice_is_a_no_op() {
    let (mut reg, id, payer) = fixed_single(500, 200);
    assert_eq!(reg.close(&id, &payer), Ok(true));
    assert!(reg.get(&id).unwrap().closed);
    assert_eq!(reg.close(&id, &payer), Ok(false));
    assert!(reg.get(&id).unwrap().closed);
    assert_eq!(reg.release(&id, &payer, NOW, acct("payee"), 1).err(), Some(Error::Closed));
    assert_eq!(reg.release_split(&id, &payer, NOW, 0).err(), Some(Error::Closed));
}

#[test]
fn only_the_payer_closes() {
    let (mut reg, id, _) = fixed_single(500, 200);
    assert_eq!(reg.close(&id, &acct("approver")), Err(Error::NotPayer));
    assert!(!reg.get(&id).unwrap().closed);
}

#[test]
fn bad_percents_are_refused() {
    let mut reg = SplitterRegistry::new();
    let payer = acct("payer");
    let r = reg.create_agreement(
        acct("job"),
        &payer,
        payer.clone(),
        acct("token"),
        Policy::Proportional,
        vec![share("a", 5000), share("b", 4999)],
        500,
        NOW + DAY,
        vec![],
    );
    assert_eq!(r, Err(Error::BadPercents));
    assert!(reg.get(&acct("job")).is_none());
    let over = reg.create_agreement(
        acct("job"),
        &payer,
        payer.clone(),
        acct("token"),
        Policy::Proportional,
        vec![share("a", 5000), share("b", 5001)],
        500,
        NOW + DAY,
        vec![],
    );
    assert_eq!(over, Err(Error::BadPercents));
}

#[test]
fn creation_errors() {
    let mut reg = SplitterRegistry::new();
    let payer = acct("payer");
    let mk = |reg: &mut SplitterRegistry, who: &Vec<u8>, payees: Vec<Share>, budget: i128| {
        reg.create_agreement(acct("job"), who, acct("payer"), acct("token"), Policy::Fixed, payees, budget, NOW, vec![])
    };
    assert_eq!(mk(&mut reg, &acct("mallory"), vec![share("a", 1)], 10), Err(Error::NotPayer));
    assert_eq!(mk(&mut reg, &payer, vec![], 10), Err(Error::ZeroPayees));
    assert_eq!(mk(&mut reg, &payer, vec![share("a", 6), share("b", 5)], 10), Err(Error::OverBudget));
    assert_eq!(mk(&mut reg, &payer, vec![share("a", 5), share("b", 5)], 10), Ok(()));
    assert_eq!(mk(&mut reg, &payer, vec![share("a", 1)], 10), Err(Error::AlreadyExists));
}

#[test]
fn unknown_id_is_not_found() {
    let (mut reg, _, payer) = fixed_single(500, 200);
    let other = acct("other");
    assert!(reg.get(&other).is_none());
    assert_eq!(reg.release(&other, &payer, NOW, acct("payee"), 1).err(), Some(Error::NotFound));
    assert_eq!(reg.release_split(&other, &payer, NOW, 1).err(), Some(Error::NotFound));
    assert_eq!(reg.close(&other, &payer), Err(Error::NotFound));
}

#[test]
fn stranger_cannot_release_but_approver_can() {
    let (mut reg, id, _) = fixed_single(500, 200);
    assert_eq!(reg.release(&id, &acct("mallory"), NOW, acct("payee"), 1).err(), Some(Error::NotApprover));
    assert_eq!(reg.release_split(&id, &acct("mallory"), NOW, 0).err(), Some(Error::NotApprover));
    reg.release(&id, &acct("approver"), NOW, acct("payee"), 7).unwrap();
    assert_eq!(reg.get(&id).unwrap().released, 7);
}

#[test]
fn fixed_split_charges_configured_sum() {
    let mut reg = SplitterRegistry::new();
    let payer = acct("payer");
    let id = acct("job");
    reg.create_agreement(
        id.clone(),
        &payer,
        payer.clone(),
        acct("token"),
        Policy::Fixed,
        vec![share("a", 120), share("z", 0), share("b", 80)],
        500,
        NOW + DAY,
        vec![],
    )
    .unwrap();
    let out = reg.release_split(&id, &payer, NOW, 9999).unwrap();
    assert_eq!(pairs(&out), vec![(acct("a"), 120), (acct("b"), 80)]);
    assert_eq!(reg.get(&id).unwrap().released, 200);
    reg.release_split(&id, &payer, NOW, 0).unwrap();
    assert_eq!(reg.get(&id).unwrap().released, 400);
    assert_eq!(reg.release_split(&id, &payer, NOW, 1).err(), Some(Error::OverBudget));
    assert_eq!(reg.get(&id).unwrap().released, 400);
}

#[test]
fn proportional_split_gives_remainder_to_last() {
    let payees = vec![share("a", 3333), share("b", 3333), share("c", 3334)];
    let amounts = split(Policy::Proportional, 100, &payees);
    assert_eq!(amounts, vec![33, 33, 34]);
    assert_eq!(amounts.iter().sum::<i128>(), 100);
    let amounts = split(Policy::Proportional, 1, &payees);
    assert_eq!(amounts, vec![0, 0, 1]);
    let out = payouts(&payees, &amounts);
    assert_eq!(pairs(&out), vec![(acct("c"), 1)]);
    assert_eq!(split(Policy::Proportional, 0, &payees), vec![0, 0, 0]);
}

#[test]
fn fixed_split_ignores_total() {
    let payees = vec![share("a", 5), share("b", 7)];
    assert_eq!(split(Policy::Fixed, 0, &payees), vec![5, 7]);
    assert_eq!(split(Policy::Fixed, 1_000_000, &payees), vec![5, 7]);
}

#[test]
fn part_of_exact_values() {
    assert_eq!(part_of(500, 3000), 150);
    assert_eq!(part_of(9999, 1), 0);
    assert_eq!(part_of(10001, 5000), 5000);
    assert_eq!(part_of(i128::MAX, 10000), i128::MAX);
    assert_eq!(part_of(i128::MAX, 5000), i128::MAX / 2);
}

#[test]
fn proportional_split_of_the_largest_total() {
    let payees = vec![share("a", 5000), share("b", 5000)];
    let amounts = split(Policy::Proportional, i128::MAX, &payees);
    assert_eq!(amounts[0], i128::MAX / 2);
    assert_eq!(amounts[0] + amounts[1], i128::MAX);
}

#[test]
fn sum_capped_values() {
    let payees = vec![share("a", 5), share("b", 7)];
    assert_eq!(sum_capped(&payees, 12), Some(12));
    assert_eq!(sum_capped(&payees, 11), None);
    assert_eq!(sum_capped(&vec![], 0), Some(0));
    assert_eq!(sum_capped(&vec![share("a", i128::MAX), share("b", i128::MAX)], i128::MAX), None);
}

#[test]
fn agreement_level_transitions() {
    let payer = acct("payer");
    let mut a = Agreement::new(
        &payer,
        payer.clone(),
        acct("token"),
        Policy::Proportional,
        vec![share("a", 10000)],
        50,
        NOW,
        vec![acct("approver")],
    )
    .unwrap();
    assert!(a.may_release(&acct("approver")));
    assert!(a.may_release(&payer));
    assert!(!a.may_release(&acct("approve")));
    let out = a.release_split(&acct("approver"), NOW, 20).unwrap();
    assert_eq!(pairs(&out), vec![(acct("a"), 20)]);
    assert_eq!(a.released, 20);
    assert_eq!(a.release(&payer, NOW, acct("a"), 31).err(), Some(Error::OverBudget));
    assert_eq!(a.close(&payer), Ok(true));
    assert_eq!(a.close(&payer), Ok(false));
    assert!(a.closed);
}
