use vstd::prelude::*;
use crate::agreement::{creation_refusal, release_refusal, same_bytes, Agreement};
use crate::split::{charge_of, payouts_view, split_amounts, transfers};
use crate::types::{amounts_nonneg, Error, Payout, Policy, Share};

verus! {

/// The agreement stored under `k`: the last entry whose identifier is `k`.
pub open spec fn lookup(ids: Seq<Vec<u8>>, ags: Seq<Agreement>, k: Seq<u8>) -> Option<Agreement>
    decreases ids.len(),
{
    if ids.len() == 0 || ags.len() == 0 {
        None
    } else if ids.last()@ == k {
        Some(ags.last())
    } else {
        lookup(ids.drop_last(), ags.drop_last(), k)
    }
}

proof fn lemma_lookup_none(ids: Seq<Vec<u8>>, ags: Seq<Agreement>, k: Seq<u8>)
    requires
        forall|m: int| 0 <= m < ids.len() ==> (#[trigger] ids[m])@ != k,
    ensures
        lookup(ids, ags, k) is None,
    decreases ids.len(),
{
    if ids.len() > 0 && ags.len() > 0 {
        assert(ids.last() == ids[ids.len() - 1]);
        let d = ids.drop_last();
        assert forall|m: int| 0 <= m < d.len() implies (#[trigger] d[m])@ != k by {
            assert(d[m] == ids[m]);
        }
        lemma_lookup_none(d, ags.drop_last(), k);
    }
}

proof fn lemma_lookup_found(ids: Seq<Vec<u8>>, ags: Seq<Agreement>, k: Seq<u8>, i: int)
    requires
        ids.len() == ags.len(),
        0 <= i < ids.len(),
        ids[i]@ == k,
        forall|m: int| i < m < ids.len() ==> (#[trigger] ids[m])@ != k,
    ensures
        lookup(ids, ags, k) == Some(ags[i]),
    decreases ids.len(),
{
    let n = ids.len() - 1;
    assert(ids.last() == ids[n]);
    if i < n {
        let d = ids.drop_last();
        assert forall|m: int| i < m < d.len() implies (#[trigger] d[m])@ != k by {
            assert(d[m] == ids[m]);
        }
        lemma_lookup_found(d, ags.drop_last(), k, i);
    }
}

proof fn lemma_lookup_push(ids: Seq<Vec<u8>>, ags: Seq<Agreement>, id: Vec<u8>, a: Agreement)
    requires
        ids.len() == ags.len(),
    ensures
        forall|k: Seq<u8>|
            #[trigger] lookup(ids.push(id), ags.push(a), k) == if k == id@ {
                Some(a)
            } else {
                lookup(ids, ags, k)
            },
{
    assert(ids.push(id).drop_last() =~= ids);
    assert(ags.push(a).drop_last() =~= ags);
}

proof fn lemma_lookup_update(ids: Seq<Vec<u8>>, ags: Seq<Agreement>, i: int, a: Agreement)
    requires
        ids.len() == ags.len(),
        0 <= i < ids.len(),
        forall|m: int| i < m < ids.len() ==> (#[trigger] ids[m])@ != ids[i]@,
    ensures
        forall|k: Seq<u8>|
            #[trigger] lookup(ids, ags.update(i, a), k) == if k == ids[i]@ {
                Some(a)
            } else {
                lookup(ids, ags, k)
            },
    decreases ids.len(),
{
    let n = ids.len() - 1;
    let u = ags.update(i, a);
    assert(ids.last() == ids[n]);
    if i == n {
        assert(u.drop_last() =~= ags.drop_last());
        assert(u.last() == a);
        assert forall|k: Seq<u8>| #[trigger] lookup(ids, u, k) == if k == ids[i]@ {
            Some(a)
        } else {
            lookup(ids, ags, k)
        } by {}
    } else {
        let d = ids.drop_last();
        assert(d[i] == ids[i]);
        assert forall|m: int| i < m < d.len() implies (#[trigger] d[m])@ != d[i]@ by {
            assert(d[m] == ids[m]);
        }
        lemma_lookup_update(d, ags.drop_last(), i, a);
        assert(u.drop_last() =~= ags.drop_last().update(i, a));
        assert(u.last() == ags.last());
        assert(ids[n]@ != ids[i]@);
        assert forall|k: Seq<u8>| #[trigger] lookup(ids, u, k) == if k == ids[i]@ {
            Some(a)
        } else {
            lookup(ids, ags, k)
        } by {
            assert(lookup(d, u.drop_last(), k) == if k == d[i]@ {
                Some(a)
            } else {
                lookup(d, ags.drop_last(), k)
            });
        }
    }
}

/// The agreements, each under its own identifier. An identifier is taken once
/// and never given again.
pub struct SplitterRegistry {
    ids: Vec<Vec<u8>>,
    agreements: Vec<Agreement>,
}

impl SplitterRegistry {
    pub closed spec fn wf(&self) -> bool {
        &&& self.ids@.len() == self.agreements@.len()
        &&& forall|i: int| 0 <= i < self.agreements@.len() ==> (#[trigger] self.agreements@[i]).wf()
    }

    /// The agreement stored under `id`, if any.
    pub closed spec fn get_spec(&self, id: Seq<u8>) -> Option<Agreement> {
        lookup(self.ids@, self.agreements@, id)
    }

    /// An empty registry.
    pub fn new() -> (r: SplitterRegistry)
        ensures
            r.wf(),
            forall|k: Seq<u8>| (#[trigger] r.get_spec(k)) is None,
    {
        SplitterRegistry { ids: Vec::new(), agreements: Vec::new() }
    }

    /// The index of the agreement stored under `id`.
    fn find(&self, id: &Vec<u8>) -> (r: Option<usize>)
        requires
            self.wf(),
        ensures
            r is None ==> self.get_spec(id@) is None,
            r matches Some(i) ==> i < self.agreements@.len() && self.ids@[i as int]@ == id@ && self.get_spec(id@) == Some(self.agreements@[i as int])
                && forall|m: int| i < m < self.ids@.len() ==> (#[trigger] self.ids@[m])@ != self.ids@[i as int]@,
    {
        let mut j: usize = self.ids.len();
        while j > 0
            invariant
                self.wf(),
                0 <= j <= self.ids@.len(),
                forall|m: int| j <= m < self.ids@.len() ==> (#[trigger] self.ids@[m])@ != id@,
            decreases j,
        {
            j = j - 1;
            if same_bytes(&self.ids[j], id) {
                proof {
                    lemma_lookup_found(self.ids@, self.agreements@, id@, j as int);
                }
                return Some(j);
            }
        }
        proof {
            lemma_lookup_none(self.ids@, self.agreements@, id@);
        }
        None
    }

    /// The agreement stored under `id`, if any.
    pub fn get(&self, id: &Vec<u8>) -> (r: Option<&Agreement>)
        requires
            self.wf(),
        ensures
            r is None ==> self.get_spec(id@) is None,
            r matches Some(a) ==> self.get_spec(id@) == Some(*a),
    {
        match self.find(id) {
            Some(i) => Some(&self.agreements[i]),
            None => None,
        }
    }

    /// Creates an agreement under `id` on behalf of `who`, who must be its
    /// payer. Fails if `id` is taken; on success the new agreement has
    /// released nothing and is open.
    pub fn create_agreement(
        &mut self,
        id: Vec<u8>,
        who: &Vec<u8>,
        payer: Vec<u8>,
        token: Vec<u8>,
        policy: Policy,
        payees: Vec<Share>,
        budget: i128,
        deadline: u64,
        approvers: Vec<Vec<u8>>,
    ) -> (r: Result<(), Error>)
        requires
            old(self).wf(),
            budget >= 0,
            amounts_nonneg(payees@),
        ensures
            final(self).wf(),
            who@ != payer@ ==> r == Err::<(), Error>(Error::NotPayer),
            who@ == payer@ && old(self).get_spec(id@) is Some ==> r == Err::<(), Error>(Error::AlreadyExists),
            who@ == payer@ && old(self).get_spec(id@) is None ==> match creation_refusal(
                who@,
                payer@,
                policy,
                payees@,
                budget as int,
            ) {
                Some(e) => r == Err::<(), Error>(e),
                None => r is Ok,
            },
            r is Ok ==> forall|k: Seq<u8>|
                #[trigger] final(self).get_spec(k) == if k == id@ {
                    Some(
                        Agreement {
                            payer,
                            token,
                            policy,
                            payees,
                            budget,
                            released: 0,
                            deadline,
                            approvers,
                            closed: false,
                        },
                    )
                } else {
                    old(self).get_spec(k)
                },
            r is Err ==> *final(self) == *old(self),
    {
        if !same_bytes(who, &payer) {
            return Err(Error::NotPayer);
        }
        if self.find(&id).is_some() {
            return Err(Error::AlreadyExists);
        }
        let a = Agreement::new(who, payer, token, policy, payees, budget, deadline, approvers);
        match a {
            Ok(a) => {
                proof {
                    lemma_lookup_push(self.ids@, self.agreements@, id, a);
                }
                self.ids.push(id);
                self.agreements.push(a);
                assert(forall|i: int| 0 <= i < self.agreements@.len() ==> (#[trigger] self.agreements@[i]).wf());
                Ok(())
            },
            Err(e) => Err(e),
        }
    }

    /// Releases `amount` to `recipient` from the agreement under `id`, on
    /// behalf of `who`; see `Agreement::release`.
    pub fn release(&mut self, id: &Vec<u8>, who: &Vec<u8>, now: u64, recipient: Vec<u8>, amount: i128) -> (r: Result<Payout, Error>)
        requires
            old(self).wf(),
            amount >= 0,
        ensures
            final(self).wf(),
            old(self).get_spec(id@) is None ==> r == Err::<Payout, Error>(Error::NotFound),
            old(self).get_spec(id@) matches Some(a) ==> match release_refusal(a, who@, now, amount as int) {
                Some(e) => r == Err::<Payout, Error>(e),
                None => r is Ok,
            },
            r matches Ok(p) ==> p.recipient == recipient && p.amount == amount && forall|k: Seq<u8>|
                #[trigger] final(self).get_spec(k) == if k == id@ {
                    Some(
                        (Agreement {
                            released: (old(self).get_spec(id@)->0.released + amount) as i128,
                            ..old(self).get_spec(id@)->0
                        }),
                    )
                } else {
                    old(self).get_spec(k)
                },
            r is Err ==> forall|k: Seq<u8>| #[trigger] final(self).get_spec(k) == old(self).get_spec(k),
    {
        match self.find(id) {
            None => Err(Error::NotFound),
            Some(i) => {
                let ghost before = *self;
                let mut a = self.agreements.remove(i);
                let r = a.release(who, now, recipient, amount);
                self.agreements.insert(i, a);
                proof {
                    assert(self.agreements@ =~= before.agreements@.update(i as int, a));
                    lemma_lookup_update(self.ids@, before.agreements@, i as int, a);
                    if r is Err {
                        assert(self.agreements@ =~= before.agreements@);
                    }
                }
                r
            },
        }
    }

    /// Releases `total` split among the payees of the agreement under `id`, on
    /// behalf of `who`; see `Agreement::release_split`.
    pub fn release_split(&mut self, id: &Vec<u8>, who: &Vec<u8>, now: u64, total: i128) -> (r: Result<Vec<Payout>, Error>)
        requires
            old(self).wf(),
            total >= 0,
        ensures
            final(self).wf(),
            old(self).get_spec(id@) is None ==> r == Err::<Vec<Payout>, Error>(Error::NotFound),
            old(self).get_spec(id@) matches Some(a) ==> match release_refusal(a, who@, now, charge_of(a.policy, total as int, a.payees@)) {
                Some(e) => r == Err::<Vec<Payout>, Error>(e),
                None => r is Ok,
            },
            r matches Ok(ps) ==> {
                let a = old(self).get_spec(id@)->0;
                &&& payouts_view(ps@) == transfers(a.payees@, split_amounts(a.policy, total as int, a.payees@), a.payees@.len() as int)
                &&& forall|k: Seq<u8>|
                    #[trigger] final(self).get_spec(k) == if k == id@ {
                        Some(
                            (Agreement {
                                released: (a.released + charge_of(a.policy, total as int, a.payees@)) as i128,
                                ..a
                            }),
                        )
                    } else {
                        old(self).get_spec(k)
                    }
            },
            r is Err ==> forall|k: Seq<u8>| #[trigger] final(self).get_spec(k) == old(self).get_spec(k),
    {
        match self.find(id) {
            None => Err(Error::NotFound),
            Some(i) => {
                let ghost before = *self;
                let mut a = self.agreements.remove(i);
                let r = a.release_split(who, now, total);
                self.agreements.insert(i, a);
                proof {
                    assert(self.agreements@ =~= before.agreements@.update(i as int, a));
                    lemma_lookup_update(self.ids@, before.agreements@, i as int, a);
                    if r is Err {
                        assert(self.agreements@ =~= before.agreements@);
                    }
                }
                r
            },
        }
    }

    /// Closes the agreement under `id` on behalf of `who`, who must be its
    /// payer; see `Agreement::close`.
    pub fn close(&mut self, id: &Vec<u8>, who: &Vec<u8>) -> (r: Result<bool, Error>)
        requires
            old(self).wf(),
        ensures
            final(self).wf(),
            old(self).get_spec(id@) is None ==> r == Err::<bool, Error>(Error::NotFound),
            old(self).get_spec(id@) matches Some(a) ==> if a.payer@ != who@ {
                r == Err::<bool, Error>(Error::NotPayer)
            } else {
                r == Ok::<bool, Error>(!a.closed)
            },
            r is Ok ==> forall|k: Seq<u8>|
                #[trigger] final(self).get_spec(k) == if k == id@ {
                    Some((Agreement { closed: true, ..old(self).get_spec(id@)->0 }))
                } else {
                    old(self).get_spec(k)
                },
            r is Err ==> forall|k: Seq<u8>| #[trigger] final(self).get_spec(k) == old(self).get_spec(k),
    {
        match self.find(id) {
            None => Err(Error::NotFound),
            Some(i) => {
                let ghost before = *self;
                let mut a = self.agreements.remove(i);
                let r = a.close(who);
                self.agreements.insert(i, a);
                proof {
                    assert(self.agreements@ =~= before.agreements@.update(i as int, a));
                    lemma_lookup_update(self.ids@, before.agreements@, i as int, a);
                    if r is Err {
                        assert(self.agreements@ =~= before.agreements@);
                    }
                }
                r
            },
        }
    }
}

} // verus!
