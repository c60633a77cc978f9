use vstd::prelude::*;

use crate::bytes::bytes_eq;
use crate::bytes::copy_bytes;
use crate::seeds::lemma_pack_address_injective;
use crate::seeds::pack_address;
use crate::seeds::pack_address_spec;
use crate::seeds::CANONICAL_BUMP;
use crate::seeds::MAX_IDENTIFIER_LEN;
use crate::state::Pack;

verus! {

/// The ordered four-entity tuple that is a pack's identity.
pub type PackKey = (Seq<u8>, Seq<u8>, Seq<u8>, Seq<u8>);

/// What one pack holds: its bump and the balances of its four sub-accounts,
/// one per listed entity, in the order the identifiers were supplied.
#[verifier::ext_equal]
pub ghost struct PackModel {
    pub bump: u8,
    pub sub_a: u64,
    pub sub_b: u64,
    pub sub_c: u64,
    pub sub_d: u64,
}

/// A pack together with its four sub-accounts.  `addr` is the address
/// derived from the stored identifiers; authority over the sub-accounts is
/// that derived address, so debits recompute it from the record itself.
pub struct PackRec {
    pub record: Pack,
    pub addr: Vec<u8>,
    pub sub_a: u64,
    pub sub_b: u64,
    pub sub_c: u64,
    pub sub_d: u64,
}

/// Every pack, keyed by its ordered identifier tuple.
pub struct Packs {
    entries: Vec<PackRec>,
}

pub open spec fn key_of(r: PackRec) -> PackKey {
    (r.record.kol_a@, r.record.kol_b@, r.record.kol_c@, r.record.kol_d@)
}

pub open spec fn model_of(r: PackRec) -> PackModel {
    PackModel { bump: r.record.bump, sub_a: r.sub_a, sub_b: r.sub_b, sub_c: r.sub_c, sub_d: r.sub_d }
}

/// The four identifiers of a key are pairwise distinct.
pub open spec fn ids_distinct(a: Seq<u8>, b: Seq<u8>, c: Seq<u8>, d: Seq<u8>) -> bool {
    a != b && a != c && a != d && b != c && b != d && c != d
}

/// Every identifier of a key is within the length bound.
pub open spec fn ids_in_bound(a: Seq<u8>, b: Seq<u8>, c: Seq<u8>, d: Seq<u8>) -> bool {
    a.len() <= MAX_IDENTIFIER_LEN && b.len() <= MAX_IDENTIFIER_LEN && c.len()
        <= MAX_IDENTIFIER_LEN && d.len() <= MAX_IDENTIFIER_LEN
}

/// A stored pack is internally consistent: identifiers in bound and
/// pairwise distinct, the canonical bump, and an address that is exactly
/// the derivation of the stored identifiers.
pub open spec fn pack_rec_wf(r: PackRec) -> bool {
    &&& ids_in_bound(key_of(r).0, key_of(r).1, key_of(r).2, key_of(r).3)
    &&& ids_distinct(key_of(r).0, key_of(r).1, key_of(r).2, key_of(r).3)
    &&& r.record.bump == CANONICAL_BUMP
    &&& r.addr@ == pack_address_spec(key_of(r).0, key_of(r).1, key_of(r).2, key_of(r).3)
}

/// The entries folded into a map from ordered tuple to pack contents.
pub open spec fn packs_map_of(s: Seq<PackRec>) -> Map<PackKey, PackModel>
    decreases s.len(),
{
    if s.len() == 0 {
        Map::empty()
    } else {
        packs_map_of(s.drop_last()).insert(key_of(s.last()), model_of(s.last()))
    }
}

impl View for Packs {
    type V = Map<PackKey, PackModel>;

    closed spec fn view(&self) -> Map<PackKey, PackModel> {
        packs_map_of(self.entries@)
    }
}

pub open spec fn distinct_pack_keys(s: Seq<PackRec>) -> bool {
    forall|i: int, j: int| 0 <= i < j < s.len() ==> key_of(s[i]) != key_of(s[j])
}

proof fn lemma_packs_contains_entry(s: Seq<PackRec>, i: int)
    requires
        0 <= i < s.len(),
    ensures
        packs_map_of(s).contains_key(key_of(s[i])),
    decreases s.len(),
{
    if i < s.len() - 1 {
        lemma_packs_contains_entry(s.drop_last(), i);
        assert(s.drop_last()[i] == s[i]);
    }
}

proof fn lemma_packs_absent(s: Seq<PackRec>, k: PackKey)
    requires
        forall|i: int| 0 <= i < s.len() ==> #[trigger] key_of(s[i]) != k,
    ensures
        !packs_map_of(s).contains_key(k),
    decreases s.len(),
{
    if s.len() > 0 {
        lemma_packs_absent(s.drop_last(), k);
    }
}

proof fn lemma_packs_entry_value(s: Seq<PackRec>, i: int)
    requires
        distinct_pack_keys(s),
        0 <= i < s.len(),
    ensures
        packs_map_of(s)[key_of(s[i])] == model_of(s[i]),
    decreases s.len(),
{
    if i == s.len() - 1 {
    } else {
        assert(distinct_pack_keys(s.drop_last())) by {
            assert(forall|p: int, q: int|
                0 <= p < q < s.drop_last().len() ==> s.drop_last()[p] == s[p] && s.drop_last()[q]
                    == s[q]);
        }
        lemma_packs_entry_value(s.drop_last(), i);
        assert(s.drop_last()[i] == s[i]);
        assert(key_of(s[i]) != key_of(s.last()));
    }
}

proof fn lemma_packs_update(s1: Seq<PackRec>, s2: Seq<PackRec>, i: int)
    requires
        distinct_pack_keys(s1),
        0 <= i < s1.len(),
        s2.len() == s1.len(),
        key_of(s2[i]) == key_of(s1[i]),
        forall|j: int| 0 <= j < s1.len() && j != i ==> s2[j] == s1[j],
    ensures
        packs_map_of(s2) == packs_map_of(s1).insert(key_of(s1[i]), model_of(s2[i])),
    decreases s1.len(),
{
    let k = key_of(s1[i]);
    if i == s1.len() - 1 {
        assert(s2.drop_last() =~= s1.drop_last());
        assert(packs_map_of(s1).insert(k, model_of(s2[i])) =~= packs_map_of(
            s1.drop_last(),
        ).insert(k, model_of(s2[i])));
    } else {
        assert(distinct_pack_keys(s1.drop_last())) by {
            assert(forall|p: int, q: int|
                0 <= p < q < s1.drop_last().len() ==> s1.drop_last()[p] == s1[p]
                    && s1.drop_last()[q] == s1[q]);
        }
        assert(forall|j: int|
            0 <= j < s1.drop_last().len() && j != i ==> s2.drop_last()[j] == s1.drop_last()[j]);
        assert(key_of(s2.drop_last()[i]) == key_of(s1.drop_last()[i]));
        lemma_packs_update(s1.drop_last(), s2.drop_last(), i);
        assert(s2.last() == s1.last());
        assert(key_of(s1.last()) != k);
        assert(packs_map_of(s1.drop_last()).insert(k, model_of(s2[i])).insert(
            key_of(s1.last()),
            model_of(s1.last()),
        ) =~= packs_map_of(s1.drop_last()).insert(key_of(s1.last()), model_of(s1.last())).insert(
            k,
            model_of(s2[i]),
        ));
    }
}

proof fn lemma_packs_exists_entry(s: Seq<PackRec>, k: PackKey)
    requires
        packs_map_of(s).contains_key(k),
    ensures
        exists|i: int| 0 <= i < s.len() && key_of(#[trigger] s[i]) == k,
    decreases s.len(),
{
    if s.len() > 0 {
        if key_of(s.last()) == k {
            assert(key_of(s[s.len() - 1]) == k);
        } else {
            lemma_packs_exists_entry(s.drop_last(), k);
            let i = choose|i: int|
                0 <= i < s.drop_last().len() && key_of(#[trigger] s.drop_last()[i]) == k;
            assert(s.drop_last()[i] == s[i]);
        }
    }
}

impl Packs {
    /// Keys are distinct and every stored pack is internally consistent.
    pub closed spec fn wf(&self) -> bool {
        &&& distinct_pack_keys(self.entries@)
        &&& forall|i: int| 0 <= i < self.entries@.len() ==> pack_rec_wf(#[trigger] self.entries@[i])
    }

    /// Whatever ordered tuple keys a stored pack is in bound, pairwise
    /// distinct, and recorded with the canonical bump.
    pub proof fn lemma_key_wf(&self, k: PackKey)
        requires
            self.wf(),
            self@.contains_key(k),
        ensures
            ids_in_bound(k.0, k.1, k.2, k.3),
            ids_distinct(k.0, k.1, k.2, k.3),
            self@[k].bump == CANONICAL_BUMP,
    {
        lemma_packs_exists_entry(self.entries@, k);
        let i = choose|i: int|
            0 <= i < self.entries@.len() && key_of(#[trigger] self.entries@[i]) == k;
        assert(pack_rec_wf(self.entries@[i]));
        lemma_packs_entry_value(self.entries@, i);
    }

    /// An empty pack set.
    pub fn new() -> (r: Self)
        ensures
            r.wf(),
            r@ == Map::<PackKey, PackModel>::empty(),
    {
        Packs { entries: Vec::new() }
    }

    /// Look a pack up the way every debit must: recompute the derived
    /// address from the four identifiers and compare it against the stored
    /// address of each pack.
    fn find(&self, a: &Vec<u8>, b: &Vec<u8>, c: &Vec<u8>, d: &Vec<u8>) -> (r: Option<usize>)
        requires
            self.wf(),
            ids_in_bound(a@, b@, c@, d@),
        ensures
            match r {
                Some(i) => i < self.entries@.len() && key_of(self.entries@[i as int]) == (
                a@,
                b@,
                c@,
                d@,
                ),
                None => forall|i: int|
                    0 <= i < self.entries@.len() ==> #[trigger] key_of(self.entries@[i]) != (
                    a@,
                    b@,
                    c@,
                    d@,
                    ),
            },
    {
        let target = pack_address(a, b, c, d);
        let n: usize = self.entries.len();
        let mut i: usize = 0;
        while i < n
            invariant
                self.wf(),
                ids_in_bound(a@, b@, c@, d@),
                target@ == pack_address_spec(a@, b@, c@, d@),
                n == self.entries@.len(),
                0 <= i <= n,
                forall|k: int|
                    0 <= k < i ==> #[trigger] key_of(self.entries@[k]) != (a@, b@, c@, d@),
            decreases n - i,
        {
            let hit = bytes_eq(&self.entries[i].addr, &target);
            proof {
                let e = self.entries@[i as int];
                assert(pack_rec_wf(e));
                if hit {
                    lemma_pack_address_injective(
                        key_of(e).0,
                        key_of(e).1,
                        key_of(e).2,
                        key_of(e).3,
                        a@,
                        b@,
                        c@,
                        d@,
                    );
                }
            }
            if hit {
                return Some(i);
            }
            i += 1;
        }
        None
    }

    /// Whether the pack keyed by this exact ordered tuple exists.
    pub fn contains(&self, a: &Vec<u8>, b: &Vec<u8>, c: &Vec<u8>, d: &Vec<u8>) -> (r: bool)
        requires
            self.wf(),
            ids_in_bound(a@, b@, c@, d@),
        ensures
            r == self@.contains_key((a@, b@, c@, d@)),
    {
        match self.find(a, b, c, d) {
            Some(i) => {
                proof {
                    lemma_packs_contains_entry(self.entries@, i as int);
                }
                true
            },
            None => {
                proof {
                    lemma_packs_absent(self.entries@, (a@, b@, c@, d@));
                }
                false
            },
        }
    }

    /// The four sub-account balances of the pack keyed by this tuple.
    pub fn sub_balances(&self, a: &Vec<u8>, b: &Vec<u8>, c: &Vec<u8>, d: &Vec<u8>) -> (r: Option<
        (u64, u64, u64, u64),
    >)
        requires
            self.wf(),
            ids_in_bound(a@, b@, c@, d@),
        ensures
            match r {
                Some(t) => self@.contains_key((a@, b@, c@, d@)) && t.0 == self@[(a@, b@, c@, d@)].sub_a
                    && t.1 == self@[(a@, b@, c@, d@)].sub_b && t.2 == self@[(a@, b@, c@, d@)].sub_c
                    && t.3 == self@[(a@, b@, c@, d@)].sub_d,
                None => !self@.contains_key((a@, b@, c@, d@)),
            },
    {
        match self.find(a, b, c, d) {
            Some(i) => {
                proof {
                    lemma_packs_contains_entry(self.entries@, i as int);
                    lemma_packs_entry_value(self.entries@, i as int);
                }
                let e = &self.entries[i];
                Some((e.sub_a, e.sub_b, e.sub_c, e.sub_d))
            },
            None => {
                proof {
                    lemma_packs_absent(self.entries@, (a@, b@, c@, d@));
                }
                None
            },
        }
    }

    /// A copy of the stored pack record for this tuple: the bump and the
    /// four identifiers exactly as they were supplied at creation — the
    /// seed components every later debit recomputes its authority from.
    pub fn record_of(&self, a: &Vec<u8>, b: &Vec<u8>, c: &Vec<u8>, d: &Vec<u8>) -> (r: Option<Pack>)
        requires
            self.wf(),
            ids_in_bound(a@, b@, c@, d@),
        ensures
            match r {
                Some(p) => self@.contains_key((a@, b@, c@, d@)) && p.bump == self@[(
                    a@,
                    b@,
                    c@,
                    d@,
                )].bump && p.kol_a@ == a@ && p.kol_b@ == b@ && p.kol_c@ == c@ && p.kol_d@ == d@,
                None => !self@.contains_key((a@, b@, c@, d@)),
            },
    {
        match self.find(a, b, c, d) {
            Some(i) => {
                proof {
                    lemma_packs_contains_entry(self.entries@, i as int);
                    lemma_packs_entry_value(self.entries@, i as int);
                }
                let e = &self.entries[i];
                Some(
                    Pack {
                        bump: e.record.bump,
                        kol_a: copy_bytes(&e.record.kol_a),
                        kol_b: copy_bytes(&e.record.kol_b),
                        kol_c: copy_bytes(&e.record.kol_c),
                        kol_d: copy_bytes(&e.record.kol_d),
                    },
                )
            },
            None => {
                proof {
                    lemma_packs_absent(self.entries@, (a@, b@, c@, d@));
                }
                None
            },
        }
    }

    /// Record a new pack whose four sub-accounts each open with `sub`.
    pub fn insert(&mut self, a: &Vec<u8>, b: &Vec<u8>, c: &Vec<u8>, d: &Vec<u8>, sub: u64)
        requires
            old(self).wf(),
            ids_in_bound(a@, b@, c@, d@),
            ids_distinct(a@, b@, c@, d@),
            !old(self)@.contains_key((a@, b@, c@, d@)),
        ensures
            final(self).wf(),
            final(self)@ == old(self)@.insert(
                (a@, b@, c@, d@),
                (PackModel { bump: CANONICAL_BUMP, sub_a: sub, sub_b: sub, sub_c: sub, sub_d: sub }),
            ),
    {
        proof {
            assert forall|i: int| 0 <= i < self.entries@.len() implies #[trigger] key_of(
                self.entries@[i],
            ) != (a@, b@, c@, d@) by {
                if key_of(self.entries@[i]) == (a@, b@, c@, d@) {
                    lemma_packs_contains_entry(self.entries@, i);
                }
            }
        }
        let rec = PackRec {
            record: Pack {
                bump: CANONICAL_BUMP,
                kol_a: copy_bytes(a),
                kol_b: copy_bytes(b),
                kol_c: copy_bytes(c),
                kol_d: copy_bytes(d),
            },
            addr: pack_address(a, b, c, d),
            sub_a: sub,
            sub_b: sub,
            sub_c: sub,
            sub_d: sub,
        };
        self.entries.push(rec);
        proof {
            assert(self.entries@.drop_last() =~= old(self).entries@);
            assert(final(self)@ =~= old(self)@.insert(
                (a@, b@, c@, d@),
                (PackModel { bump: CANONICAL_BUMP, sub_a: sub, sub_b: sub, sub_c: sub, sub_d: sub }),
            ));
        }
    }

    /// Overwrite the four sub-account balances of an existing pack.
    pub fn set_sub_balances(
        &mut self,
        a: &Vec<u8>,
        b: &Vec<u8>,
        c: &Vec<u8>,
        d: &Vec<u8>,
        na: u64,
        nb: u64,
        nc: u64,
        nd: u64,
    )
        requires
            old(self).wf(),
            ids_in_bound(a@, b@, c@, d@),
            old(self)@.contains_key((a@, b@, c@, d@)),
        ensures
            final(self).wf(),
            final(self)@ == old(self)@.insert(
                (a@, b@, c@, d@),
                (PackModel {
                    bump: old(self)@[(a@, b@, c@, d@)].bump,
                    sub_a: na,
                    sub_b: nb,
                    sub_c: nc,
                    sub_d: nd,
                }),
            ),
    {
        let found = self.find(a, b, c, d);
        match found {
            Some(i) => {
                proof {
                    lemma_packs_contains_entry(self.entries@, i as int);
                    lemma_packs_entry_value(self.entries@, i as int);
                }
                let e = &self.entries[i];
                let rec = PackRec {
                    record: Pack {
                        bump: e.record.bump,
                        kol_a: copy_bytes(&e.record.kol_a),
                        kol_b: copy_bytes(&e.record.kol_b),
                        kol_c: copy_bytes(&e.record.kol_c),
                        kol_d: copy_bytes(&e.record.kol_d),
                    },
                    addr: copy_bytes(&e.addr),
                    sub_a: na,
                    sub_b: nb,
                    sub_c: nc,
                    sub_d: nd,
                };
                self.entries[i] = rec;
                proof {
                    lemma_packs_update(old(self).entries@, self.entries@, i as int);
                }
            },
            None => {
                proof {
                    lemma_packs_absent(self.entries@, (a@, b@, c@, d@));
                }
                vstd::pervasive::unreached()
            },
        }
    }
}

} // verus!
