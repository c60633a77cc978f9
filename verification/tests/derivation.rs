use pnlpackprogram::errors::ErrorCode;
use pnlpackprogram::seeds::derive_address;
use pnlpackprogram::seeds::pack_address;
use pnlpackprogram::seeds::CANONICAL_BUMP;

fn bytes(s: &str) -> Vec<u8> {
    s.as_bytes().to_vec()
}

fn pack_tuple(a: &str, b: &str, c: &str, d: &str) -> Vec<Vec<u8>> {
    vec![bytes("pack"), bytes(a), bytes(b), bytes(c), bytes(d)]
}

#[test]
fn derive_is_deterministic() {
    let seeds = pack_tuple("A", "B", "C", "D");
    let first = derive_address(&seeds).unwrap();
    let second = derive_address(&seeds).unwrap();
    assert_eq!(first, second);
    assert_eq!(first.1, CANONICAL_BUMP);
}

#[test]
fn derive_is_order_sensitive() {
    let left = derive_address(&pack_tuple("A", "B", "C", "D")).unwrap();
    let right = derive_address(&pack_tuple("B", "A", "C", "D")).unwrap();
    assert_ne!(left.0, right.0);
}

#[test]
fn derive_rejects_overlong_seed() {
    let seeds = vec![bytes("pack"), vec![0u8; 33]];
    assert_eq!(derive_address(&seeds), Err(ErrorCode::InvalidSeedLength));
}

#[test]
fn derive_accepts_seed_at_bound() {
    let seeds = vec![vec![0u8; 32]];
    assert!(derive_address(&seeds).is_ok());
}

#[test]
fn pack_address_matches_generic_derivation() {
    let via_pack = pack_address(&bytes("PEPE"), &bytes("DOGE"), &bytes("WIF"), &bytes("BONK"));
    let via_seeds = derive_address(&pack_tuple("PEPE", "DOGE", "WIF", "BONK")).unwrap();
    assert_eq!(via_pack, via_seeds.0);
}

#[test]
fn distinct_identifiers_never_collide() {
    let one = pack_address(&bytes("PEPE"), &bytes("DOGE"), &bytes("WIF"), &bytes("BONK"));
    let two = pack_address(&bytes("PEPED"), &bytes("OGE"), &bytes("WIF"), &bytes("BONK"));
    assert_ne!(one, two);
}
