use vstd::prelude::*;

use crate::bytes::bytes_eq;
use crate::bytes::copy_bytes;
use crate::seeds::MAX_IDENTIFIER_LEN;

verus! {

/// One per-entity reserve account: the entity identifier and the balance it
/// holds of that entity's asset.  Authority over every vault is the pool's
/// derived authority: nothing outside this crate's operations can debit one.
pub struct VaultRec {
    pub kol: Vec<u8>,
    pub balance: u64,
}

/// The per-entity reserve vaults, keyed by entity identifier.  A vault
/// exists exactly when its identifier is in the view's domain.
pub struct Vaults {
    entries: Vec<VaultRec>,
}

/// The entries folded into a map from identifier to balance.
pub open spec fn vaults_map_of(s: Seq<VaultRec>) -> Map<Seq<u8>, u64>
    decreases s.len(),
{
    if s.len() == 0 {
        Map::empty()
    } else {
        vaults_map_of(s.drop_last()).insert(s.last().kol@, s.last().balance)
    }
}

impl View for Vaults {
    type V = Map<Seq<u8>, u64>;

    closed spec fn view(&self) -> Map<Seq<u8>, u64> {
        vaults_map_of(self.entries@)
    }
}

/// No two entries share an identifier.
pub open spec fn distinct_vault_keys(s: Seq<VaultRec>) -> bool {
    forall|i: int, j: int| 0 <= i < j < s.len() ==> s[i].kol@ != s[j].kol@
}

/// Every entry key is in the folded map.
proof fn lemma_vaults_contains_entry(s: Seq<VaultRec>, i: int)
    requires
        0 <= i < s.len(),
    ensures
        vaults_map_of(s).contains_key(s[i].kol@),
    decreases s.len(),
{
    if i < s.len() - 1 {
        lemma_vaults_contains_entry(s.drop_last(), i);
        assert(s.drop_last()[i] == s[i]);
    }
}

/// A key held by no entry is outside the folded map.
proof fn lemma_vaults_absent(s: Seq<VaultRec>, k: Seq<u8>)
    requires
        forall|i: int| 0 <= i < s.len() ==> #[trigger] s[i].kol@ != k,
    ensures
        !vaults_map_of(s).contains_key(k),
    decreases s.len(),
{
    if s.len() > 0 {
        lemma_vaults_absent(s.drop_last(), k);
    }
}

/// With distinct keys, each entry's balance is its key's value in the map.
proof fn lemma_vaults_entry_value(s: Seq<VaultRec>, i: int)
    requires
        distinct_vault_keys(s),
        0 <= i < s.len(),
    ensures
        vaults_map_of(s)[s[i].kol@] == s[i].balance,
    decreases s.len(),
{
    if i == s.len() - 1 {
    } else {
        assert(distinct_vault_keys(s.drop_last())) by {
            assert(forall|p: int, q: int|
                0 <= p < q < s.drop_last().len() ==> s.drop_last()[p] == s[p] && s.drop_last()[q]
                    == s[q]);
        }
        lemma_vaults_entry_value(s.drop_last(), i);
        assert(s.drop_last()[i] == s[i]);
        assert(s[i].kol@ != s.last().kol@);
    }
}

/// Replacing one entry's balance updates exactly that key in the map.
proof fn lemma_vaults_update(s1: Seq<VaultRec>, s2: Seq<VaultRec>, i: int)
    requires
        distinct_vault_keys(s1),
        0 <= i < s1.len(),
        s2.len() == s1.len(),
        s2[i].kol@ == s1[i].kol@,
        forall|j: int| 0 <= j < s1.len() && j != i ==> s2[j] == s1[j],
    ensures
        vaults_map_of(s2) == vaults_map_of(s1).insert(s1[i].kol@, s2[i].balance),
    decreases s1.len(),
{
    let k = s1[i].kol@;
    if i == s1.len() - 1 {
        assert(s2.drop_last() =~= s1.drop_last());
        assert(vaults_map_of(s2) == vaults_map_of(s1.drop_last()).insert(k, s2[i].balance));
        assert(vaults_map_of(s1) == vaults_map_of(s1.drop_last()).insert(k, s1[i].balance));
        assert(vaults_map_of(s1).insert(k, s2[i].balance) =~= vaults_map_of(s1.drop_last()).insert(
            k,
            s2[i].balance,
        ));
    } else {
        assert(distinct_vault_keys(s1.drop_last())) by {
            assert(forall|p: int, q: int|
                0 <= p < q < s1.drop_last().len() ==> s1.drop_last()[p] == s1[p]
                    && s1.drop_last()[q] == s1[q]);
        }
        assert(forall|j: int|
            0 <= j < s1.drop_last().len() && j != i ==> s2.drop_last()[j] == s1.drop_last()[j]);
        assert(s2.drop_last()[i].kol@ == s1.drop_last()[i].kol@);
        lemma_vaults_update(s1.drop_last(), s2.drop_last(), i);
        assert(s2.last() == s1.last());
        assert(s1.last().kol@ != k);
        assert(vaults_map_of(s2) == vaults_map_of(s1.drop_last()).insert(
            k,
            s2[i].balance,
        ).insert(s1.last().kol@, s1.last().balance));
        assert(vaults_map_of(s1.drop_last()).insert(k, s2[i].balance).insert(
            s1.last().kol@,
            s1.last().balance,
        ) =~= vaults_map_of(s1.drop_last()).insert(s1.last().kol@, s1.last().balance).insert(
            k,
            s2[i].balance,
        ));
    }
}

impl Vaults {
    /// Keys are distinct and every identifier is within the length bound.
    pub closed spec fn wf(&self) -> bool {
        &&& distinct_vault_keys(self.entries@)
        &&& forall|i: int|
            0 <= i < self.entries@.len() ==> #[trigger] self.entries@[i].kol@.len()
                <= MAX_IDENTIFIER_LEN
    }

    /// An empty vault set.
    pub fn new() -> (r: Self)
        ensures
            r.wf(),
            r@ == Map::<Seq<u8>, u64>::empty(),
    {
        Vaults { entries: Vec::new() }
    }

    fn find(&self, kol: &Vec<u8>) -> (r: Option<usize>)
        ensures
            match r {
                Some(i) => i < self.entries@.len() && self.entries@[i as int].kol@ == kol@,
                None => forall|i: int|
                    0 <= i < self.entries@.len() ==> #[trigger] self.entries@[i].kol@ != kol@,
            },
    {
        let n: usize = self.entries.len();
        let mut i: usize = 0;
        while i < n
            invariant
                n == self.entries@.len(),
                0 <= i <= n,
                forall|k: int| 0 <= k < i ==> #[trigger] self.entries@[k].kol@ != kol@,
            decreases n - i,
        {
            if bytes_eq(&self.entries[i].kol, kol) {
                return Some(i);
            }
            i += 1;
        }
        None
    }

    /// Whether a vault for this entity exists.
    pub fn contains(&self, kol: &Vec<u8>) -> (r: bool)
        ensures
            r == self@.contains_key(kol@),
    {
        match self.find(kol) {
            Some(i) => {
                proof {
                    lemma_vaults_contains_entry(self.entries@, i as int);
                }
                true
            },
            None => {
                proof {
                    lemma_vaults_absent(self.entries@, kol@);
                }
                false
            },
        }
    }

    /// The balance of this entity's vault, or `None` when no vault exists.
    pub fn balance_of(&self, kol: &Vec<u8>) -> (r: Option<u64>)
        requires
            self.wf(),
        ensures
            match r {
                Some(v) => self@.contains_key(kol@) && v == self@[kol@],
                None => !self@.contains_key(kol@),
            },
    {
        match self.find(kol) {
            Some(i) => {
                proof {
                    lemma_vaults_contains_entry(self.entries@, i as int);
                    lemma_vaults_entry_value(self.entries@, i as int);
                }
                Some(self.entries[i].balance)
            },
            None => {
                proof {
                    lemma_vaults_absent(self.entries@, kol@);
                }
                None
            },
        }
    }

    /// Create the entity's vault with its opening balance.
    pub fn create(&mut self, kol: &Vec<u8>, amount: u64)
        requires
            old(self).wf(),
            !old(self)@.contains_key(kol@),
            kol@.len() <= MAX_IDENTIFIER_LEN,
        ensures
            final(self).wf(),
            final(self)@ == old(self)@.insert(kol@, amount),
    {
        proof {
            assert forall|i: int| 0 <= i < self.entries@.len() implies #[trigger] self.entries@[i].kol@
                != kol@ by {
                if self.entries@[i].kol@ == kol@ {
                    lemma_vaults_contains_entry(self.entries@, i);
                }
            }
        }
        let rec = VaultRec { kol: copy_bytes(kol), balance: amount };
        self.entries.push(rec);
        proof {
            assert(self.entries@.drop_last() =~= old(self).entries@);
            assert(final(self)@ =~= old(self)@.insert(kol@, amount));
        }
    }

    /// Overwrite the balance of an existing vault.
    pub fn set_balance(&mut self, kol: &Vec<u8>, amount: u64)
        requires
            old(self).wf(),
            old(self)@.contains_key(kol@),
        ensures
            final(self).wf(),
            final(self)@ == old(self)@.insert(kol@, amount),
    {
        let found = self.find(kol);
        match found {
            Some(i) => {
                let rec = VaultRec { kol: copy_bytes(kol), balance: amount };
                self.entries[i] = rec;
                proof {
                    lemma_vaults_update(old(self).entries@, self.entries@, i as int);
                }
            },
            None => {
                proof {
                    lemma_vaults_absent(self.entries@, kol@);
                }
                vstd::pervasive::unreached()
            },
        }
    }
}

} // verus!
