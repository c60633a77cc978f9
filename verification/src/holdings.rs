use vstd::prelude::*;

use crate::bytes::bytes_eq;
use crate::bytes::copy_bytes;

verus! {

/// One token account: the credential of the party that owns it, the entity
/// whose asset it holds, and its balance.
pub struct HoldingRec {
    pub owner: Vec<u8>,
    pub kol: Vec<u8>,
    pub balance: u64,
}

/// Every token account that is owned by a plain credential (the admin's
/// holding accounts and the users' claim accounts), keyed by the pair of
/// owner credential and entity identifier.  An account that was never
/// credited is simply absent; it stands for a balance of zero and is
/// created the first time value arrives.
pub struct Holdings {
    entries: Vec<HoldingRec>,
}

/// The entries folded into a map from (owner, entity) to balance.
pub open spec fn holdings_map_of(s: Seq<HoldingRec>) -> Map<(Seq<u8>, Seq<u8>), u64>
    decreases s.len(),
{
    if s.len() == 0 {
        Map::empty()
    } else {
        holdings_map_of(s.drop_last()).insert(
            (s.last().owner@, s.last().kol@),
            s.last().balance,
        )
    }
}

/// The balance an owner holds of an entity's asset: zero when no account
/// exists yet.
pub open spec fn holding_bal(m: Map<(Seq<u8>, Seq<u8>), u64>, owner: Seq<u8>, kol: Seq<u8>) -> u64 {
    if m.contains_key((owner, kol)) {
        m[(owner, kol)]
    } else {
        0u64
    }
}

/// Crediting folds a new balance in at the pair key, creating the account
/// when it is absent.
pub open spec fn holding_credit(
    m: Map<(Seq<u8>, Seq<u8>), u64>,
    owner: Seq<u8>,
    kol: Seq<u8>,
    amount: u64,
) -> Map<(Seq<u8>, Seq<u8>), u64> {
    m.insert((owner, kol), (holding_bal(m, owner, kol) + amount) as u64)
}

/// Debiting lowers the balance at the pair key.
pub open spec fn holding_debit(
    m: Map<(Seq<u8>, Seq<u8>), u64>,
    owner: Seq<u8>,
    kol: Seq<u8>,
    amount: u64,
) -> Map<(Seq<u8>, Seq<u8>), u64> {
    m.insert((owner, kol), (holding_bal(m, owner, kol) - amount) as u64)
}

impl View for Holdings {
    type V = Map<(Seq<u8>, Seq<u8>), u64>;

    closed spec fn view(&self) -> Map<(Seq<u8>, Seq<u8>), u64> {
        holdings_map_of(self.entries@)
    }
}

/// No two entries share the (owner, entity) pair.
pub open spec fn distinct_holding_keys(s: Seq<HoldingRec>) -> bool {
    forall|i: int, j: int|
        0 <= i < j < s.len() ==> (s[i].owner@, s[i].kol@) != (s[j].owner@, s[j].kol@)
}

proof fn lemma_holdings_contains_entry(s: Seq<HoldingRec>, i: int)
    requires
        0 <= i < s.len(),
    ensures
        holdings_map_of(s).contains_key((s[i].owner@, s[i].kol@)),
    decreases s.len(),
{
    if i < s.len() - 1 {
        lemma_holdings_contains_entry(s.drop_last(), i);
        assert(s.drop_last()[i] == s[i]);
    }
}

proof fn lemma_holdings_absent(s: Seq<HoldingRec>, k: (Seq<u8>, Seq<u8>))
    requires
        forall|i: int| 0 <= i < s.len() ==> (#[trigger] s[i].owner@, s[i].kol@) != k,
    ensures
        !holdings_map_of(s).contains_key(k),
    decreases s.len(),
{
    if s.len() > 0 {
        lemma_holdings_absent(s.drop_last(), k);
    }
}

proof fn lemma_holdings_entry_value(s: Seq<HoldingRec>, i: int)
    requires
        distinct_holding_keys(s),
        0 <= i < s.len(),
    ensures
        holdings_map_of(s)[(s[i].owner@, s[i].kol@)] == s[i].balance,
    decreases s.len(),
{
    if i == s.len() - 1 {
    } else {
        assert(distinct_holding_keys(s.drop_last())) by {
            assert(forall|p: int, q: int|
                0 <= p < q < s.drop_last().len() ==> s.drop_last()[p] == s[p] && s.drop_last()[q]
                    == s[q]);
        }
        lemma_holdings_entry_value(s.drop_last(), i);
        assert(s.drop_last()[i] == s[i]);
        assert((s[i].owner@, s[i].kol@) != (s.last().owner@, s.last().kol@));
    }
}

proof fn lemma_holdings_update(s1: Seq<HoldingRec>, s2: Seq<HoldingRec>, i: int)
    requires
        distinct_holding_keys(s1),
        0 <= i < s1.len(),
        s2.len() == s1.len(),
        s2[i].owner@ == s1[i].owner@,
        s2[i].kol@ == s1[i].kol@,
        forall|j: int| 0 <= j < s1.len() && j != i ==> s2[j] == s1[j],
    ensures
        holdings_map_of(s2) == holdings_map_of(s1).insert(
            (s1[i].owner@, s1[i].kol@),
            s2[i].balance,
        ),
    decreases s1.len(),
{
    let k = (s1[i].owner@, s1[i].kol@);
    if i == s1.len() - 1 {
        assert(s2.drop_last() =~= s1.drop_last());
        assert(holdings_map_of(s1).insert(k, s2[i].balance) =~= holdings_map_of(
            s1.drop_last(),
        ).insert(k, s2[i].balance));
    } else {
        assert(distinct_holding_keys(s1.drop_last())) by {
            assert(forall|p: int, q: int|
                0 <= p < q < s1.drop_last().len() ==> s1.drop_last()[p] == s1[p]
                    && s1.drop_last()[q] == s1[q]);
        }
        assert(forall|j: int|
            0 <= j < s1.drop_last().len() && j != i ==> s2.drop_last()[j] == s1.drop_last()[j]);
        assert(s2.drop_last()[i].owner@ == s1.drop_last()[i].owner@);
        assert(s2.drop_last()[i].kol@ == s1.drop_last()[i].kol@);
        lemma_holdings_update(s1.drop_last(), s2.drop_last(), i);
        assert(s2.last() == s1.last());
        assert((s1.last().owner@, s1.last().kol@) != k);
        assert(holdings_map_of(s1.drop_last()).insert(k, s2[i].balance).insert(
            (s1.last().owner@, s1.last().kol@),
            s1.last().balance,
        ) =~= holdings_map_of(s1.drop_last()).insert(
            (s1.last().owner@, s1.last().kol@),
            s1.last().balance,
        ).insert(k, s2[i].balance));
    }
}

impl Holdings {
    /// Keys are pairwise distinct.
    pub closed spec fn wf(&self) -> bool {
        distinct_holding_keys(self.entries@)
    }

    /// An empty set of token accounts.
    pub fn new() -> (r: Self)
        ensures
            r.wf(),
            r@ == Map::<(Seq<u8>, Seq<u8>), u64>::empty(),
    {
        Holdings { entries: Vec::new() }
    }

    fn find(&self, owner: &Vec<u8>, kol: &Vec<u8>) -> (r: Option<usize>)
        ensures
            match r {
                Some(i) => i < self.entries@.len() && self.entries@[i as int].owner@ == owner@
                    && self.entries@[i as int].kol@ == kol@,
                None => forall|i: int|
                    0 <= i < self.entries@.len() ==> (#[trigger] self.entries@[i].owner@,
                    self.entries@[i].kol@) != (owner@, kol@),
            },
    {
        let n: usize = self.entries.len();
        let mut i: usize = 0;
        while i < n
            invariant
                n == self.entries@.len(),
                0 <= i <= n,
                forall|k: int|
                    0 <= k < i ==> (#[trigger] self.entries@[k].owner@, self.entries@[k].kol@) != (
                    owner@,
                    kol@,
                    ),
            decreases n - i,
        {
            if bytes_eq(&self.entries[i].owner, owner) && bytes_eq(&self.entries[i].kol, kol) {
                return Some(i);
            }
            i += 1;
        }
        None
    }

    /// The balance this owner holds of this entity's asset; zero when the
    /// account does not exist yet.
    pub fn balance_of(&self, owner: &Vec<u8>, kol: &Vec<u8>) -> (r: u64)
        requires
            self.wf(),
        ensures
            r == holding_bal(self@, owner@, kol@),
    {
        match self.find(owner, kol) {
            Some(i) => {
                proof {
                    lemma_holdings_contains_entry(self.entries@, i as int);
                    lemma_holdings_entry_value(self.entries@, i as int);
                }
                self.entries[i].balance
            },
            None => {
                proof {
                    lemma_holdings_absent(self.entries@, (owner@, kol@));
                }
                0
            },
        }
    }

    /// Debit `amount` from the owner's account for this entity.  Only the
    /// operations of this crate can reach a debit, and only with the
    /// account's own recomputed authority.
    pub fn debit(&mut self, owner: &Vec<u8>, kol: &Vec<u8>, amount: u64)
        requires
            old(self).wf(),
            amount <= holding_bal(old(self)@, owner@, kol@),
        ensures
            final(self).wf(),
            final(self)@ == holding_debit(old(self)@, owner@, kol@, amount),
    {
        let found = self.find(owner, kol);
        match found {
            Some(i) => {
                proof {
                    lemma_holdings_contains_entry(self.entries@, i as int);
                    lemma_holdings_entry_value(self.entries@, i as int);
                }
                let rec = HoldingRec {
                    owner: copy_bytes(owner),
                    kol: copy_bytes(kol),
                    balance: self.entries[i].balance - amount,
                };
                self.entries[i] = rec;
                proof {
                    lemma_holdings_update(old(self).entries@, self.entries@, i as int);
                }
            },
            None => {
                proof {
                    lemma_holdings_absent(self.entries@, (owner@, kol@));
                }
                let rec = HoldingRec { owner: copy_bytes(owner), kol: copy_bytes(kol), balance: 0 };
                self.entries.push(rec);
                proof {
                    assert(self.entries@.drop_last() =~= old(self).entries@);
                    assert(final(self)@ =~= holding_debit(old(self)@, owner@, kol@, amount));
                }
            },
        }
    }

    /// Credit `amount` to the owner's account for this entity, creating the
    /// account when it is absent.
    pub fn credit(&mut self, owner: &Vec<u8>, kol: &Vec<u8>, amount: u64)
        requires
            old(self).wf(),
            holding_bal(old(self)@, owner@, kol@) + amount <= u64::MAX,
        ensures
            final(self).wf(),
            final(self)@ == holding_credit(old(self)@, owner@, kol@, amount),
    {
        let found = self.find(owner, kol);
        match found {
            Some(i) => {
                proof {
                    lemma_holdings_contains_entry(self.entries@, i as int);
                    lemma_holdings_entry_value(self.entries@, i as int);
                }
                let rec = HoldingRec {
                    owner: copy_bytes(owner),
                    kol: copy_bytes(kol),
                    balance: self.entries[i].balance + amount,
                };
                self.entries[i] = rec;
                proof {
                    lemma_holdings_update(old(self).entries@, self.entries@, i as int);
                }
            },
            None => {
                proof {
                    lemma_holdings_absent(self.entries@, (owner@, kol@));
                }
                let rec = HoldingRec {
                    owner: copy_bytes(owner),
                    kol: copy_bytes(kol),
                    balance: amount,
                };
                self.entries.push(rec);
                proof {
                    assert(self.entries@.drop_last() =~= old(self).entries@);
                    assert(final(self)@ =~= holding_credit(old(self)@, owner@, kol@, amount));
                }
            },
        }
    }
}

} // verus!
