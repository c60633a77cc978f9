use vstd::prelude::*;

use crate::bytes::bytes_eq;
use crate::bytes::copy_bytes;
use crate::errors::ErrorCode;
use crate::holdings::holding_bal;
use crate::holdings::holding_credit;
use crate::holdings::holding_debit;
use crate::holdings::Holdings;
use crate::packs::ids_distinct;
use crate::packs::ids_in_bound;
use crate::packs::PackKey;
use crate::packs::PackModel;
use crate::packs::Packs;
use crate::seeds::CANONICAL_BUMP;
use crate::seeds::MAX_IDENTIFIER_LEN;
use crate::state::GlobalPackPool;
use crate::state::Pack;
use crate::vaults::Vaults;

verus! {

/// The abstract ledger slice that the custody operations govern: the
/// configured admin identity, the pool record and its native balance, the
/// per-entity vault balances, every credential-owned token account, and
/// every pack with its four sub-accounts.
#[verifier::ext_equal]
pub ghost struct StateModel {
    pub admin: Seq<u8>,
    pub pool: Option<GlobalPackPool>,
    pub pool_native: u64,
    pub vaults: Map<Seq<u8>, u64>,
    pub holdings: Map<(Seq<u8>, Seq<u8>), u64>,
    pub packs: Map<PackKey, PackModel>,
}

/// What `init_global_pack_pool` does: create the singleton pool record, or
/// report exactly why it cannot.
pub open spec fn init_global_pack_pool_spec(m: StateModel, cred: Seq<u8>, total_kols: u8) -> Result<
    StateModel,
    ErrorCode,
> {
    if cred != m.admin {
        Err(ErrorCode::AdminMismatch)
    } else if m.pool is Some {
        Err(ErrorCode::AlreadyInitialized)
    } else {
        Ok(StateModel { pool: Some(GlobalPackPool { bump: CANONICAL_BUMP, total_kols }), ..m })
    }
}

/// What `transfer_to_pack_pool` does: move a contribution of native
/// currency into the pool's balance.
pub open spec fn transfer_to_pack_pool_spec(m: StateModel, amount: u64) -> Result<
    StateModel,
    ErrorCode,
> {
    if m.pool is None {
        Err(ErrorCode::AccountMissing)
    } else if m.pool_native + amount > u64::MAX {
        Err(ErrorCode::ArithmeticOverflow)
    } else {
        Ok(StateModel { pool_native: (m.pool_native + amount) as u64, ..m })
    }
}

/// What `mint_and_init_kol_token_vault_and_transfer` does, atomically: mint
/// `total_supply` of the entity's asset into the admin's holding account,
/// create the entity's vault, and fund it with `vault_transfer_amount` out
/// of that holding account.  On any error nothing of the three steps is
/// observable.
pub open spec fn mint_and_fund_spec(
    m: StateModel,
    cred: Seq<u8>,
    kol: Seq<u8>,
    total_supply: u64,
    vault_transfer_amount: u64,
) -> Result<StateModel, ErrorCode> {
    if kol.len() > MAX_IDENTIFIER_LEN {
        Err(ErrorCode::InvalidIdentifierLength)
    } else if cred != m.admin {
        Err(ErrorCode::AdminMismatch)
    } else if m.pool is None {
        Err(ErrorCode::AccountMissing)
    } else if m.vaults.contains_key(kol) {
        Err(ErrorCode::AccountExists)
    } else if holding_bal(m.holdings, m.admin, kol) + total_supply > u64::MAX {
        Err(ErrorCode::ArithmeticOverflow)
    } else if vault_transfer_amount > total_supply {
        Err(ErrorCode::InsufficientVaultBalance)
    } else {
        let minted = holding_credit(m.holdings, m.admin, kol, total_supply);
        Ok(
            StateModel {
                vaults: m.vaults.insert(kol, vault_transfer_amount),
                holdings: holding_debit(minted, m.admin, kol, vault_transfer_amount),
                ..m
            },
        )
    }
}

/// What `pack_reveal` does, atomically: create the pack keyed by the
/// ordered tuple, create its four sub-accounts, and fund each with
/// `per_kol_amount` drawn from the matching entity vault.  The four
/// transfers are one atomic step: on any error no pack, no sub-account and
/// no debit is observable.
pub open spec fn pack_reveal_spec(
    m: StateModel,
    cred: Seq<u8>,
    a: Seq<u8>,
    b: Seq<u8>,
    c: Seq<u8>,
    d: Seq<u8>,
    per_kol_amount: u64,
) -> Result<StateModel, ErrorCode> {
    if !ids_in_bound(a, b, c, d) {
        Err(ErrorCode::InvalidIdentifierLength)
    } else if cred != m.admin {
        Err(ErrorCode::AdminMismatch)
    } else if m.pool is None {
        Err(ErrorCode::AccountMissing)
    } else if m.packs.contains_key((a, b, c, d)) {
        Err(ErrorCode::DuplicatePack)
    } else if !ids_distinct(a, b, c, d) {
        Err(ErrorCode::AccountExists)
    } else if !m.vaults.contains_key(a) {
        Err(ErrorCode::AccountMissing)
    } else if m.vaults[a] < per_kol_amount {
        Err(ErrorCode::InsufficientVaultBalance)
    } else if !m.vaults.contains_key(b) {
        Err(ErrorCode::AccountMissing)
    } else if m.vaults[b] < per_kol_amount {
        Err(ErrorCode::InsufficientVaultBalance)
    } else if !m.vaults.contains_key(c) {
        Err(ErrorCode::AccountMissing)
    } else if m.vaults[c] < per_kol_amount {
        Err(ErrorCode::InsufficientVaultBalance)
    } else if !m.vaults.contains_key(d) {
        Err(ErrorCode::AccountMissing)
    } else if m.vaults[d] < per_kol_amount {
        Err(ErrorCode::InsufficientVaultBalance)
    } else {
        Ok(
            StateModel {
                vaults: m.vaults.insert(a, (m.vaults[a] - per_kol_amount) as u64).insert(
                    b,
                    (m.vaults[b] - per_kol_amount) as u64,
                ).insert(c, (m.vaults[c] - per_kol_amount) as u64).insert(
                    d,
                    (m.vaults[d] - per_kol_amount) as u64,
                ),
                packs: m.packs.insert(
                    (a, b, c, d),
                    PackModel {
                        bump: CANONICAL_BUMP,
                        sub_a: per_kol_amount,
                        sub_b: per_kol_amount,
                        sub_c: per_kol_amount,
                        sub_d: per_kol_amount,
                    },
                ),
                ..m
            },
        )
    }
}

/// What `claim_from_pack` does, atomically: recompute the pack from the
/// ordered tuple and move `amount_per_kol` of each listed entity's asset
/// from the pack's sub-account into the caller's account for that asset.
pub open spec fn claim_from_pack_spec(
    m: StateModel,
    user: Seq<u8>,
    a: Seq<u8>,
    b: Seq<u8>,
    c: Seq<u8>,
    d: Seq<u8>,
    amount_per_kol: u64,
) -> Result<StateModel, ErrorCode> {
    if !ids_in_bound(a, b, c, d) {
        Err(ErrorCode::InvalidIdentifierLength)
    } else if !m.packs.contains_key((a, b, c, d)) {
        Err(ErrorCode::InvalidPackDerivation)
    } else {
        let p = m.packs[(a, b, c, d)];
        if p.sub_a < amount_per_kol {
            Err(ErrorCode::InsufficientVaultBalance)
        } else if holding_bal(m.holdings, user, a) + amount_per_kol > u64::MAX {
            Err(ErrorCode::ArithmeticOverflow)
        } else if p.sub_b < amount_per_kol {
            Err(ErrorCode::InsufficientVaultBalance)
        } else if holding_bal(m.holdings, user, b) + amount_per_kol > u64::MAX {
            Err(ErrorCode::ArithmeticOverflow)
        } else if p.sub_c < amount_per_kol {
            Err(ErrorCode::InsufficientVaultBalance)
        } else if holding_bal(m.holdings, user, c) + amount_per_kol > u64::MAX {
            Err(ErrorCode::ArithmeticOverflow)
        } else if p.sub_d < amount_per_kol {
            Err(ErrorCode::InsufficientVaultBalance)
        } else if holding_bal(m.holdings, user, d) + amount_per_kol > u64::MAX {
            Err(ErrorCode::ArithmeticOverflow)
        } else {
            let h1 = holding_credit(m.holdings, user, a, amount_per_kol);
            let h2 = holding_credit(h1, user, b, amount_per_kol);
            let h3 = holding_credit(h2, user, c, amount_per_kol);
            let h4 = holding_credit(h3, user, d, amount_per_kol);
            Ok(
                StateModel {
                    packs: m.packs.insert(
                        (a, b, c, d),
                        PackModel {
                            bump: p.bump,
                            sub_a: (p.sub_a - amount_per_kol) as u64,
                            sub_b: (p.sub_b - amount_per_kol) as u64,
                            sub_c: (p.sub_c - amount_per_kol) as u64,
                            sub_d: (p.sub_d - amount_per_kol) as u64,
                        },
                    ),
                    holdings: h4,
                    ..m
                },
            )
        }
    }
}

/// The ledger slice as executable state.  The collections are private:
/// authority over vaults is the pool's derived authority and authority over
/// pack sub-accounts is the pack's derived address, so the only code paths
/// that can debit them are the operations below, each of which recomputes
/// the derivation from stored record fields.
pub struct LedgerState {
    admin: Vec<u8>,
    pool: Option<GlobalPackPool>,
    pool_native: u64,
    vaults: Vaults,
    holdings: Holdings,
    packs: Packs,
}

impl View for LedgerState {
    type V = StateModel;

    closed spec fn view(&self) -> StateModel {
        StateModel {
            admin: self.admin@,
            pool: self.pool,
            pool_native: self.pool_native,
            vaults: self.vaults@,
            holdings: self.holdings@,
            packs: self.packs@,
        }
    }
}

impl LedgerState {
    /// The collection invariants all hold.
    pub closed spec fn wf(&self) -> bool {
        &&& self.vaults.wf()
        &&& self.holdings.wf()
        &&& self.packs.wf()
    }

    /// A fresh ledger slice configured with the given admin identity:
    /// no pool, no vaults, no token accounts, no packs.
    pub fn new(admin: Vec<u8>) -> (r: Self)
        ensures
            r.wf(),
            r@.admin == admin@,
            r@.pool is None,
            r@.pool_native == 0,
            r@.vaults == Map::<Seq<u8>, u64>::empty(),
            r@.holdings == Map::<(Seq<u8>, Seq<u8>), u64>::empty(),
            r@.packs == Map::<PackKey, PackModel>::empty(),
    {
        LedgerState {
            admin,
            pool: None,
            pool_native: 0,
            vaults: Vaults::new(),
            holdings: Holdings::new(),
            packs: Packs::new(),
        }
    }

    /// Create the pool record with its configured entity count.
    pub fn init_global_pack_pool(&mut self, cred: &Vec<u8>, total_kols: u8) -> (r: Result<
        (),
        ErrorCode,
    >)
        requires
            old(self).wf(),
        ensures
            final(self).wf(),
            match init_global_pack_pool_spec(old(self)@, cred@, total_kols) {
                Ok(m2) => r == Ok::<(), ErrorCode>(()) && final(self)@ == m2,
                Err(e) => r == Err::<(), ErrorCode>(e) && final(self)@ == old(self)@,
            },
    {
        if !bytes_eq(cred, &self.admin) {
            return Err(ErrorCode::AdminMismatch);
        }
        if self.pool.is_some() {
            return Err(ErrorCode::AlreadyInitialized);
        }
        self.pool = Some(GlobalPackPool { bump: CANONICAL_BUMP, total_kols });
        proof {
            assert(final(self)@ =~= init_global_pack_pool_spec(
                old(self)@,
                cred@,
                total_kols,
            ).unwrap());
        }
        Ok(())
    }

    /// Move a contribution of native currency into the pool's balance.
    /// The contributor's own wallet lives outside this slice; the pool is a
    /// pure aggregator and keeps no per-contributor bookkeeping.
    pub fn transfer_to_pack_pool(&mut self, amount: u64) -> (r: Result<(), ErrorCode>)
        requires
            old(self).wf(),
        ensures
            final(self).wf(),
            match transfer_to_pack_pool_spec(old(self)@, amount) {
                Ok(m2) => r == Ok::<(), ErrorCode>(()) && final(self)@ == m2,
                Err(e) => r == Err::<(), ErrorCode>(e) && final(self)@ == old(self)@,
            },
    {
        if self.pool.is_none() {
            return Err(ErrorCode::AccountMissing);
        }
        if amount > u64::MAX - self.pool_native {
            return Err(ErrorCode::ArithmeticOverflow);
        }
        self.pool_native = self.pool_native + amount;
        proof {
            assert(final(self)@ =~= transfer_to_pack_pool_spec(old(self)@, amount).unwrap());
        }
        Ok(())
    }

    /// Mint the entity's supply to the admin's holding account, create the
    /// entity's vault, and fund it — one atomic operation.
    pub fn mint_and_init_kol_token_vault_and_transfer(
        &mut self,
        cred: &Vec<u8>,
        kol_ticker: &Vec<u8>,
        total_supply: u64,
        vault_transfer_amount: u64,
    ) -> (r: Result<(), ErrorCode>)
        requires
            old(self).wf(),
        ensures
            final(self).wf(),
            match mint_and_fund_spec(
                old(self)@,
                cred@,
                kol_ticker@,
                total_supply,
                vault_transfer_amount,
            ) {
                Ok(m2) => r == Ok::<(), ErrorCode>(()) && final(self)@ == m2,
                Err(e) => r == Err::<(), ErrorCode>(e) && final(self)@ == old(self)@,
            },
    {
        if kol_ticker.len() > MAX_IDENTIFIER_LEN {
            return Err(ErrorCode::InvalidIdentifierLength);
        }
        if !bytes_eq(cred, &self.admin) {
            return Err(ErrorCode::AdminMismatch);
        }
        if self.pool.is_none() {
            return Err(ErrorCode::AccountMissing);
        }
        if self.vaults.contains(kol_ticker) {
            return Err(ErrorCode::AccountExists);
        }
        let prior = self.holdings.balance_of(&self.admin, kol_ticker);
        if total_supply > u64::MAX - prior {
            return Err(ErrorCode::ArithmeticOverflow);
        }
        if vault_transfer_amount > total_supply {
            return Err(ErrorCode::InsufficientVaultBalance);
        }
        let admin_cred = copy_bytes(&self.admin);
        self.holdings.credit(&admin_cred, kol_ticker, total_supply);
        self.holdings.debit(&admin_cred, kol_ticker, vault_transfer_amount);
        self.vaults.create(kol_ticker, vault_transfer_amount);
        proof {
            assert(final(self)@ =~= mint_and_fund_spec(
                old(self)@,
                cred@,
                kol_ticker@,
                total_supply,
                vault_transfer_amount,
            ).unwrap());
        }
        Ok(())
    }

    /// Create the pack keyed by the ordered four-entity tuple, create its
    /// four sub-accounts, and fund each from the matching vault, signed
    /// with the pool's derived authority — one atomic operation.  Which
    /// four entities compose the pack is decided by the caller; randomized
    /// selection is an external concern and no responsibility of this
    /// operation.
    pub fn pack_reveal(
        &mut self,
        cred: &Vec<u8>,
        kol_a: &Vec<u8>,
        kol_b: &Vec<u8>,
        kol_c: &Vec<u8>,
        kol_d: &Vec<u8>,
        per_kol_amount: u64,
    ) -> (r: Result<(), ErrorCode>)
        requires
            old(self).wf(),
        ensures
            final(self).wf(),
            match pack_reveal_spec(
                old(self)@,
                cred@,
                kol_a@,
                kol_b@,
                kol_c@,
                kol_d@,
                per_kol_amount,
            ) {
                Ok(m2) => r == Ok::<(), ErrorCode>(()) && final(self)@ == m2,
                Err(e) => r == Err::<(), ErrorCode>(e) && final(self)@ == old(self)@,
            },
    {
        if kol_a.len() > MAX_IDENTIFIER_LEN || kol_b.len() > MAX_IDENTIFIER_LEN || kol_c.len()
            > MAX_IDENTIFIER_LEN || kol_d.len() > MAX_IDENTIFIER_LEN {
            return Err(ErrorCode::InvalidIdentifierLength);
        }
        if !bytes_eq(cred, &self.admin) {
            return Err(ErrorCode::AdminMismatch);
        }
        if self.pool.is_none() {
            return Err(ErrorCode::AccountMissing);
        }
        if self.packs.contains(kol_a, kol_b, kol_c, kol_d) {
            return Err(ErrorCode::DuplicatePack);
        }
        if bytes_eq(kol_a, kol_b) || bytes_eq(kol_a, kol_c) || bytes_eq(kol_a, kol_d) || bytes_eq(
            kol_b,
            kol_c,
        ) || bytes_eq(kol_b, kol_d) || bytes_eq(kol_c, kol_d) {
            return Err(ErrorCode::AccountExists);
        }
        let va = match self.vaults.balance_of(kol_a) {
            Some(v) => v,
            None => { return Err(ErrorCode::AccountMissing) },
        };
        if va < per_kol_amount {
            return Err(ErrorCode::InsufficientVaultBalance);
        }
        let vb = match self.vaults.balance_of(kol_b) {
            Some(v) => v,
            None => { return Err(ErrorCode::AccountMissing) },
        };
        if vb < per_kol_amount {
            return Err(ErrorCode::InsufficientVaultBalance);
        }
        let vc = match self.vaults.balance_of(kol_c) {
            Some(v) => v,
            None => { return Err(ErrorCode::AccountMissing) },
        };
        if vc < per_kol_amount {
            return Err(ErrorCode::InsufficientVaultBalance);
        }
        let vd = match self.vaults.balance_of(kol_d) {
            Some(v) => v,
            None => { return Err(ErrorCode::AccountMissing) },
        };
        if vd < per_kol_amount {
            return Err(ErrorCode::InsufficientVaultBalance);
        }
        self.vaults.set_balance(kol_a, va - per_kol_amount);
        self.vaults.set_balance(kol_b, vb - per_kol_amount);
        self.vaults.set_balance(kol_c, vc - per_kol_amount);
        self.vaults.set_balance(kol_d, vd - per_kol_amount);
        self.packs.insert(kol_a, kol_b, kol_c, kol_d, per_kol_amount);
        proof {
            assert(final(self)@ =~= pack_reveal_spec(
                old(self)@,
                cred@,
                kol_a@,
                kol_b@,
                kol_c@,
                kol_d@,
                per_kol_amount,
            ).unwrap());
        }
        Ok(())
    }

    /// Recompute the pack from the ordered tuple and move the requested
    /// amount of each listed entity's asset from the pack's sub-account to
    /// the caller's account, signed with the pack's derived authority — one
    /// atomic operation.  No entitlement record is kept: any caller may
    /// repeat this until the sub-accounts are exhausted.
    pub fn claim_from_pack(
        &mut self,
        user: &Vec<u8>,
        kol_a: &Vec<u8>,
        kol_b: &Vec<u8>,
        kol_c: &Vec<u8>,
        kol_d: &Vec<u8>,
        amount_per_kol: u64,
    ) -> (r: Result<(), ErrorCode>)
        requires
            old(self).wf(),
        ensures
            final(self).wf(),
            match claim_from_pack_spec(
                old(self)@,
                user@,
                kol_a@,
                kol_b@,
                kol_c@,
                kol_d@,
                amount_per_kol,
            ) {
                Ok(m2) => r == Ok::<(), ErrorCode>(()) && final(self)@ == m2,
                Err(e) => r == Err::<(), ErrorCode>(e) && final(self)@ == old(self)@,
            },
    {
        if kol_a.len() > MAX_IDENTIFIER_LEN || kol_b.len() > MAX_IDENTIFIER_LEN || kol_c.len()
            > MAX_IDENTIFIER_LEN || kol_d.len() > MAX_IDENTIFIER_LEN {
            return Err(ErrorCode::InvalidIdentifierLength);
        }
        let subs = match self.packs.sub_balances(kol_a, kol_b, kol_c, kol_d) {
            Some(t) => t,
            None => { return Err(ErrorCode::InvalidPackDerivation) },
        };
        proof {
            self.packs.lemma_key_wf((kol_a@, kol_b@, kol_c@, kol_d@));
        }
        if subs.0 < amount_per_kol {
            return Err(ErrorCode::InsufficientVaultBalance);
        }
        let ua = self.holdings.balance_of(user, kol_a);
        if amount_per_kol > u64::MAX - ua {
            return Err(ErrorCode::ArithmeticOverflow);
        }
        if subs.1 < amount_per_kol {
            return Err(ErrorCode::InsufficientVaultBalance);
        }
        let ub = self.holdings.balance_of(user, kol_b);
        if amount_per_kol > u64::MAX - ub {
            return Err(ErrorCode::ArithmeticOverflow);
        }
        if subs.2 < amount_per_kol {
            return Err(ErrorCode::InsufficientVaultBalance);
        }
        let uc = self.holdings.balance_of(user, kol_c);
        if amount_per_kol > u64::MAX - uc {
            return Err(ErrorCode::ArithmeticOverflow);
        }
        if subs.3 < amount_per_kol {
            return Err(ErrorCode::InsufficientVaultBalance);
        }
        let ud = self.holdings.balance_of(user, kol_d);
        if amount_per_kol > u64::MAX - ud {
            return Err(ErrorCode::ArithmeticOverflow);
        }
        self.packs.set_sub_balances(
            kol_a,
            kol_b,
            kol_c,
            kol_d,
            subs.0 - amount_per_kol,
            subs.1 - amount_per_kol,
            subs.2 - amount_per_kol,
            subs.3 - amount_per_kol,
        );
        proof {
            assert((user@, kol_b@) != (user@, kol_a@));
            assert((user@, kol_c@) != (user@, kol_a@));
            assert((user@, kol_c@) != (user@, kol_b@));
            assert((user@, kol_d@) != (user@, kol_a@));
            assert((user@, kol_d@) != (user@, kol_b@));
            assert((user@, kol_d@) != (user@, kol_c@));
        }
        self.holdings.credit(user, kol_a, amount_per_kol);
        self.holdings.credit(user, kol_b, amount_per_kol);
        self.holdings.credit(user, kol_c, amount_per_kol);
        self.holdings.credit(user, kol_d, amount_per_kol);
        proof {
            assert(final(self)@ =~= claim_from_pack_spec(
                old(self)@,
                user@,
                kol_a@,
                kol_b@,
                kol_c@,
                kol_d@,
                amount_per_kol,
            ).unwrap());
        }
        Ok(())
    }

    /// The pool record, when the pool has been initialized.
    pub fn pool_info(&self) -> (r: Option<GlobalPackPool>)
        ensures
            r == self@.pool,
    {
        self.pool
    }

    /// The native currency the pool has aggregated.
    pub fn pool_native_balance(&self) -> (r: u64)
        ensures
            r == self@.pool_native,
    {
        self.pool_native
    }

    /// The balance of an entity's vault, or `None` when no vault exists.
    pub fn vault_balance(&self, kol: &Vec<u8>) -> (r: Option<u64>)
        requires
            self.wf(),
        ensures
            match r {
                Some(v) => self@.vaults.contains_key(kol@) && v == self@.vaults[kol@],
                None => !self@.vaults.contains_key(kol@),
            },
    {
        self.vaults.balance_of(kol)
    }

    /// The balance a credential owns of an entity's asset; zero when that
    /// account was never credited.
    pub fn holding_balance(&self, owner: &Vec<u8>, kol: &Vec<u8>) -> (r: u64)
        requires
            self.wf(),
        ensures
            r == holding_bal(self@.holdings, owner@, kol@),
    {
        self.holdings.balance_of(owner, kol)
    }

    /// Whether the pack keyed by this exact ordered tuple exists.
    pub fn pack_exists(&self, kol_a: &Vec<u8>, kol_b: &Vec<u8>, kol_c: &Vec<u8>, kol_d: &Vec<u8>) -> (r:
        bool)
        requires
            self.wf(),
        ensures
            r == self@.packs.contains_key((kol_a@, kol_b@, kol_c@, kol_d@)),
    {
        if kol_a.len() > MAX_IDENTIFIER_LEN || kol_b.len() > MAX_IDENTIFIER_LEN || kol_c.len()
            > MAX_IDENTIFIER_LEN || kol_d.len() > MAX_IDENTIFIER_LEN {
            proof {
                if self@.packs.contains_key((kol_a@, kol_b@, kol_c@, kol_d@)) {
                    self.packs.lemma_key_wf((kol_a@, kol_b@, kol_c@, kol_d@));
                }
            }
            return false;
        }
        self.packs.contains(kol_a, kol_b, kol_c, kol_d)
    }

    /// A copy of the stored pack record for this exact ordered tuple: the
    /// bump and the four identifiers as supplied at reveal, the seed
    /// components each claim recomputes the pack's authority from.
    pub fn pack_record(
        &self,
        kol_a: &Vec<u8>,
        kol_b: &Vec<u8>,
        kol_c: &Vec<u8>,
        kol_d: &Vec<u8>,
    ) -> (r: Option<Pack>)
        requires
            self.wf(),
        ensures
            match r {
                Some(p) => self@.packs.contains_key((kol_a@, kol_b@, kol_c@, kol_d@)) && p.bump
                    == self@.packs[(kol_a@, kol_b@, kol_c@, kol_d@)].bump && p.kol_a@ == kol_a@
                    && p.kol_b@ == kol_b@ && p.kol_c@ == kol_c@ && p.kol_d@ == kol_d@,
                None => !self@.packs.contains_key((kol_a@, kol_b@, kol_c@, kol_d@)),
            },
    {
        if kol_a.len() > MAX_IDENTIFIER_LEN || kol_b.len() > MAX_IDENTIFIER_LEN || kol_c.len()
            > MAX_IDENTIFIER_LEN || kol_d.len() > MAX_IDENTIFIER_LEN {
            proof {
                if self@.packs.contains_key((kol_a@, kol_b@, kol_c@, kol_d@)) {
                    self.packs.lemma_key_wf((kol_a@, kol_b@, kol_c@, kol_d@));
                }
            }
            return None;
        }
        self.packs.record_of(kol_a, kol_b, kol_c, kol_d)
    }

    /// The four sub-account balances of the pack keyed by this tuple, in
    /// the stored order, or `None` when no such pack exists.
    pub fn pack_sub_balances(
        &self,
        kol_a: &Vec<u8>,
        kol_b: &Vec<u8>,
        kol_c: &Vec<u8>,
        kol_d: &Vec<u8>,
    ) -> (r: Option<(u64, u64, u64, u64)>)
        requires
            self.wf(),
        ensures
            match r {
                Some(t) => self@.packs.contains_key((kol_a@, kol_b@, kol_c@, kol_d@)) && t.0
                    == self@.packs[(kol_a@, kol_b@, kol_c@, kol_d@)].sub_a && t.1 == self@.packs[(
                    kol_a@,
                    kol_b@,
                    kol_c@,
                    kol_d@,
                )].sub_b && t.2 == self@.packs[(kol_a@, kol_b@, kol_c@, kol_d@)].sub_c && t.3
                    == self@.packs[(kol_a@, kol_b@, kol_c@, kol_d@)].sub_d,
                None => !self@.packs.contains_key((kol_a@, kol_b@, kol_c@, kol_d@)),
            },
    {
        if kol_a.len() > MAX_IDENTIFIER_LEN || kol_b.len() > MAX_IDENTIFIER_LEN || kol_c.len()
            > MAX_IDENTIFIER_LEN || kol_d.len() > MAX_IDENTIFIER_LEN {
            proof {
                if self@.packs.contains_key((kol_a@, kol_b@, kol_c@, kol_d@)) {
                    self.packs.lemma_key_wf((kol_a@, kol_b@, kol_c@, kol_d@));
                }
            }
            return None;
        }
        self.packs.sub_balances(kol_a, kol_b, kol_c, kol_d)
    }
}

} // verus!
