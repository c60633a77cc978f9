use vstd::prelude::*;

use crate::errors::ErrorCode;
use crate::holdings::holding_bal;
use crate::ledger::claim_from_pack_spec;
use crate::ledger::mint_and_fund_spec;
use crate::ledger::pack_reveal_spec;
use crate::ledger::StateModel;
use crate::packs::ids_in_bound;

verus! {

/// No duplicate reveal: after a reveal of an ordered four-entity tuple
/// succeeds, revealing that exact ordered tuple again fails with
/// `DuplicatePack`, whatever amount the second call asks for — and by the
/// operation's contract the failing call changes nothing.
pub proof fn lemma_no_duplicate_reveal(
    m: StateModel,
    cred: Seq<u8>,
    a: Seq<u8>,
    b: Seq<u8>,
    c: Seq<u8>,
    d: Seq<u8>,
    x: u64,
    m1: StateModel,
    y: u64,
)
    requires
        pack_reveal_spec(m, cred, a, b, c, d, x) == Ok::<StateModel, ErrorCode>(m1),
    ensures
        pack_reveal_spec(m1, cred, a, b, c, d, y) == Err::<StateModel, ErrorCode>(
            ErrorCode::DuplicatePack,
        ),
{
    assert(m1.packs.contains_key((a, b, c, d)));
}

/// Atomicity of the mint-and-fund operation: when the funding transfer
/// would overdraw the freshly minted supply, the operation reports an
/// error, so by its contract neither the mint nor the vault creation is
/// observable afterwards.
pub proof fn lemma_mint_and_fund_atomic(
    m: StateModel,
    cred: Seq<u8>,
    kol: Seq<u8>,
    total_supply: u64,
    vault_transfer_amount: u64,
)
    requires
        vault_transfer_amount > total_supply,
    ensures
        mint_and_fund_spec(m, cred, kol, total_supply, vault_transfer_amount) is Err,
{
}

/// Conservation of a successful reveal: each listed vault decreases by
/// exactly the per-entity amount, the matching sub-account opens with
/// exactly that amount — so per entity the total across vault and pack is
/// unchanged — every other vault is untouched, and no token account or
/// pool balance moves.
pub proof fn lemma_reveal_conservation(
    m: StateModel,
    cred: Seq<u8>,
    a: Seq<u8>,
    b: Seq<u8>,
    c: Seq<u8>,
    d: Seq<u8>,
    x: u64,
    m1: StateModel,
)
    requires
        pack_reveal_spec(m, cred, a, b, c, d, x) == Ok::<StateModel, ErrorCode>(m1),
    ensures
        m.vaults.contains_key(a) && m1.vaults[a] == m.vaults[a] - x,
        m.vaults.contains_key(b) && m1.vaults[b] == m.vaults[b] - x,
        m.vaults.contains_key(c) && m1.vaults[c] == m.vaults[c] - x,
        m.vaults.contains_key(d) && m1.vaults[d] == m.vaults[d] - x,
        m1.packs[(a, b, c, d)].sub_a == x && m1.vaults[a] + m1.packs[(a, b, c, d)].sub_a == m.vaults[a],
        m1.packs[(a, b, c, d)].sub_b == x && m1.vaults[b] + m1.packs[(a, b, c, d)].sub_b == m.vaults[b],
        m1.packs[(a, b, c, d)].sub_c == x && m1.vaults[c] + m1.packs[(a, b, c, d)].sub_c == m.vaults[c],
        m1.packs[(a, b, c, d)].sub_d == x && m1.vaults[d] + m1.packs[(a, b, c, d)].sub_d == m.vaults[d],
        forall|k: Seq<u8>|
            m.vaults.contains_key(k) && k != a && k != b && k != c && k != d
                ==> m1.vaults.contains_key(k) && m1.vaults[k] == m.vaults[k],
        m1.holdings == m.holdings,
        m1.pool_native == m.pool_native,
{
}

/// Claim bound: a claim that asks for more than some listed sub-account
/// holds fails, and — provided the caller's credited accounts have room,
/// so no overflow masks it — the error is exactly
/// `InsufficientVaultBalance`; by the operation's contract the failing
/// call leaves every balance unchanged.
pub proof fn lemma_claim_bound(
    m: StateModel,
    user: Seq<u8>,
    a: Seq<u8>,
    b: Seq<u8>,
    c: Seq<u8>,
    d: Seq<u8>,
    x: u64,
)
    requires
        ids_in_bound(a, b, c, d),
        m.packs.contains_key((a, b, c, d)),
        m.packs[(a, b, c, d)].sub_a < x || m.packs[(a, b, c, d)].sub_b < x || m.packs[(
            a,
            b,
            c,
            d,
        )].sub_c < x || m.packs[(a, b, c, d)].sub_d < x,
        holding_bal(m.holdings, user, a) + x <= u64::MAX,
        holding_bal(m.holdings, user, b) + x <= u64::MAX,
        holding_bal(m.holdings, user, c) + x <= u64::MAX,
        holding_bal(m.holdings, user, d) + x <= u64::MAX,
    ensures
        claim_from_pack_spec(m, user, a, b, c, d, x) == Err::<StateModel, ErrorCode>(
            ErrorCode::InsufficientVaultBalance,
        ),
{
}

/// Identifier bound: an ordered tuple holding any identifier longer than
/// the bound is rejected by the reveal and by the claim with exactly
/// `InvalidIdentifierLength`, before any account is touched.
pub proof fn lemma_identifier_bound(
    m: StateModel,
    cred: Seq<u8>,
    user: Seq<u8>,
    a: Seq<u8>,
    b: Seq<u8>,
    c: Seq<u8>,
    d: Seq<u8>,
    x: u64,
)
    requires
        !ids_in_bound(a, b, c, d),
    ensures
        pack_reveal_spec(m, cred, a, b, c, d, x) == Err::<StateModel, ErrorCode>(
            ErrorCode::InvalidIdentifierLength,
        ),
        claim_from_pack_spec(m, user, a, b, c, d, x) == Err::<StateModel, ErrorCode>(
            ErrorCode::InvalidIdentifierLength,
        ),
{
}

} // verus!
