use vstd::prelude::*;

use crate::bytes::copy_bytes;
use crate::errors::ErrorCode;

verus! {

/// Longest raw seed the deriver accepts.
pub const MAX_SEED_LEN: usize = 32;

/// Longest entity identifier the custody operations accept.
pub const MAX_IDENTIFIER_LEN: usize = 16;

/// In this model every bump candidate is valid, so the first value of the
/// bounded counter is always the canonical bump.
pub const CANONICAL_BUMP: u8 = 255;

/// The views of an ordered seed vector, in order.
pub open spec fn seed_views(v: Vec<Vec<u8>>) -> Seq<Seq<u8>> {
    Seq::new(v@.len(), |i: int| v@[i]@)
}

/// One seed, prefixed by its own length.
pub open spec fn encode_seed(s: Seq<u8>) -> Seq<u8> {
    seq![s.len() as u8] + s
}

/// The ordered seeds, each length-prefixed, laid end to end.  The prefix
/// keeps the encoding injective, so distinct ordered tuples can never share
/// an address.
pub open spec fn encode_seeds(ss: Seq<Seq<u8>>) -> Seq<u8>
    decreases ss.len(),
{
    if ss.len() == 0 {
        Seq::empty()
    } else {
        encode_seed(ss[0]) + encode_seeds(ss.drop_first())
    }
}

/// Every seed short enough for its length to fit in the one-byte prefix.
pub open spec fn seeds_ok(ss: Seq<Seq<u8>>) -> bool {
    forall|i: int| 0 <= i < ss.len() ==> #[trigger] ss[i].len() <= MAX_SEED_LEN
}

/// The address derived from an ordered seed tuple: the encoded seeds with
/// the canonical bump folded in at the end.
pub open spec fn address_of(ss: Seq<Seq<u8>>) -> Seq<u8> {
    encode_seeds(ss).push(CANONICAL_BUMP)
}

/// Appending one seed extends the encoding on the right.
pub proof fn lemma_encode_seeds_push(ss: Seq<Seq<u8>>, s: Seq<u8>)
    ensures
        encode_seeds(ss.push(s)) == encode_seeds(ss) + encode_seed(s),
    decreases ss.len(),
{
    if ss.len() == 0 {
        assert(ss.push(s)[0] == s);
        assert(ss =~= Seq::<Seq<u8>>::empty());
        assert(ss.push(s).drop_first() =~= ss);
        assert(encode_seeds(ss.push(s)) == encode_seed(s) + encode_seeds(ss));
        assert(encode_seed(s) + Seq::<u8>::empty() =~= encode_seed(s));
        assert(Seq::<u8>::empty() + encode_seed(s) =~= encode_seed(s));
        assert(encode_seeds(ss.push(s)) =~= encode_seeds(ss) + encode_seed(s));
    } else {
        lemma_encode_seeds_push(ss.drop_first(), s);
        assert(ss.push(s).drop_first() =~= ss.drop_first().push(s));
        assert(ss.push(s)[0] == ss[0]);
        assert(encode_seed(ss[0]) + (encode_seeds(ss.drop_first()) + encode_seed(s)) =~= (
        encode_seed(ss[0]) + encode_seeds(ss.drop_first())) + encode_seed(s));
        assert(encode_seeds(ss.push(s)) =~= encode_seeds(ss) + encode_seed(s));
    }
}

/// Within the length bound the encoding is injective: equal encodings can
/// only come from equal ordered seed tuples.
pub proof fn lemma_encode_seeds_injective(ss1: Seq<Seq<u8>>, ss2: Seq<Seq<u8>>)
    requires
        seeds_ok(ss1),
        seeds_ok(ss2),
        encode_seeds(ss1) == encode_seeds(ss2),
    ensures
        ss1 == ss2,
    decreases ss1.len(),
{
    if ss1.len() == 0 && ss2.len() == 0 {
        assert(ss1 =~= ss2);
    } else if ss1.len() == 0 {
        assert(encode_seeds(ss2).len() >= 1);
        assert(false);
    } else if ss2.len() == 0 {
        assert(encode_seeds(ss1).len() >= 1);
        assert(false);
    } else {
        let e = encode_seeds(ss1);
        let a0 = ss1[0];
        let b0 = ss2[0];
        let t1 = encode_seeds(ss1.drop_first());
        let t2 = encode_seeds(ss2.drop_first());
        assert(a0.len() <= MAX_SEED_LEN);
        assert(b0.len() <= MAX_SEED_LEN);
        assert(e == encode_seed(a0) + t1);
        assert(encode_seeds(ss2) == encode_seed(b0) + t2);
        assert(e[0] == a0.len() as u8);
        assert(e[0] == b0.len() as u8);
        assert(a0.len() == b0.len());
        let l = a0.len() as int;
        assert forall|j: int| 0 <= j < l implies a0[j] == b0[j] by {
            assert(e[1 + j] == a0[j]);
            assert(e[1 + j] == b0[j]);
        }
        assert(a0 =~= b0);
        assert(e.len() == 1 + l + t1.len());
        assert(e.len() == 1 + l + t2.len());
        assert forall|j: int| 0 <= j < t1.len() implies t1[j] == t2[j] by {
            assert(e[1 + l + j] == t1[j]);
            assert(e[1 + l + j] == t2[j]);
        }
        assert(t1 =~= t2);
        assert(seeds_ok(ss1.drop_first())) by {
            assert forall|i: int| 0 <= i < ss1.drop_first().len() implies #[trigger] ss1
                .drop_first()[i].len() <= MAX_SEED_LEN by {
                assert(ss1.drop_first()[i] == ss1[i + 1]);
            }
        }
        assert(seeds_ok(ss2.drop_first())) by {
            assert forall|i: int| 0 <= i < ss2.drop_first().len() implies #[trigger] ss2
                .drop_first()[i].len() <= MAX_SEED_LEN by {
                assert(ss2.drop_first()[i] == ss2[i + 1]);
            }
        }
        lemma_encode_seeds_injective(ss1.drop_first(), ss2.drop_first());
        assert forall|i: int| 0 <= i < ss1.len() implies ss1[i] == ss2[i] by {
            if i > 0 {
                assert(ss1.drop_first()[i - 1] == ss2.drop_first()[i - 1]);
                assert(ss1[i] == ss1.drop_first()[i - 1]);
                assert(ss2[i] == ss2.drop_first()[i - 1]);
            }
        }
        assert(ss1 =~= ss2);
    }
}

/// Derived addresses inherit injectivity from the encoding.
pub proof fn lemma_address_of_injective(ss1: Seq<Seq<u8>>, ss2: Seq<Seq<u8>>)
    requires
        seeds_ok(ss1),
        seeds_ok(ss2),
        address_of(ss1) == address_of(ss2),
    ensures
        ss1 == ss2,
{
    let e1 = encode_seeds(ss1);
    let e2 = encode_seeds(ss2);
    assert(e1.push(CANONICAL_BUMP).len() == e1.len() + 1);
    assert(e2.push(CANONICAL_BUMP).len() == e2.len() + 1);
    assert(e1.len() == e2.len());
    assert forall|j: int| 0 <= j < e1.len() implies e1[j] == e2[j] by {
        assert(e1.push(CANONICAL_BUMP)[j] == e1[j]);
        assert(e2.push(CANONICAL_BUMP)[j] == e2[j]);
    }
    assert(e1 =~= e2);
    lemma_encode_seeds_injective(ss1, ss2);
}

/// Determinism: any two outcomes that meet the deriver's contract for the
/// same ordered seeds are the identical (address, bump) pair, so deriving
/// twice from identical ordered seeds can never differ.
pub proof fn lemma_derive_deterministic(ss: Seq<Seq<u8>>, a1: Seq<u8>, b1: u8, a2: Seq<u8>, b2: u8)
    requires
        a1 == address_of(ss) && b1 == CANONICAL_BUMP,
        a2 == address_of(ss) && b2 == CANONICAL_BUMP,
    ensures
        a1 == a2,
        b1 == b2,
{
}

/// Order sensitivity: distinct ordered seed tuples derive distinct
/// addresses, in particular tuples holding the same seeds in another order.
pub proof fn lemma_address_of_distinct(ss1: Seq<Seq<u8>>, ss2: Seq<Seq<u8>>)
    requires
        seeds_ok(ss1),
        seeds_ok(ss2),
        ss1 != ss2,
    ensures
        address_of(ss1) != address_of(ss2),
{
    if address_of(ss1) == address_of(ss2) {
        lemma_address_of_injective(ss1, ss2);
        assert(false);
    }
}

/// Deterministic address derivation from an ordered seed tuple.  The result
/// is a function of the seed views alone, so two calls on identical ordered
/// seeds always yield the identical address and bump.
pub fn derive_address(seeds: &Vec<Vec<u8>>) -> (r: Result<(Vec<u8>, u8), ErrorCode>)
    ensures
        match r {
            Ok(p) => seeds_ok(seed_views(*seeds)) && p.0@ == address_of(seed_views(*seeds))
                && p.1 == CANONICAL_BUMP,
            Err(e) => !seeds_ok(seed_views(*seeds)) && e == ErrorCode::InvalidSeedLength,
        },
{
    let ghost ss = seed_views(*seeds);
    let mut out: Vec<u8> = Vec::new();
    let n: usize = seeds.len();
    let mut i: usize = 0;
    while i < n
        invariant
            ss == seed_views(*seeds),
            n == seeds@.len(),
            0 <= i <= n,
            forall|k: int| 0 <= k < i ==> #[trigger] ss[k].len() <= MAX_SEED_LEN,
            out@ == encode_seeds(ss.subrange(0, i as int)),
        decreases n - i,
    {
        let s: &Vec<u8> = &seeds[i];
        assert(s@ == ss[i as int]);
        if s.len() > MAX_SEED_LEN {
            assert(!seeds_ok(ss));
            return Err(ErrorCode::InvalidSeedLength);
        }
        let ghost base = encode_seeds(ss.subrange(0, i as int));
        out.push(s.len() as u8);
        let m: usize = s.len();
        let mut j: usize = 0;
        while j < m
            invariant
                m == s@.len(),
                s@ == ss[i as int],
                0 <= j <= m,
                out@ == base + seq![s@.len() as u8] + s@.subrange(0, j as int),
            decreases m - j,
        {
            out.push(s[j]);
            assert(out@ =~= base + seq![s@.len() as u8] + s@.subrange(0, j as int + 1));
            j += 1;
        }
        proof {
            lemma_encode_seeds_push(ss.subrange(0, i as int), ss[i as int]);
            assert(ss.subrange(0, i as int + 1) =~= ss.subrange(0, i as int).push(ss[i as int]));
            assert(s@.subrange(0, m as int) =~= s@);
            assert(out@ =~= encode_seeds(ss.subrange(0, i as int + 1)));
        }
        i += 1;
    }
    proof {
        assert(ss.subrange(0, n as int) =~= ss);
    }
    out.push(CANONICAL_BUMP);
    Ok((out, CANONICAL_BUMP))
}

/// The namespace tag of the pack addressing scheme.
pub open spec fn pack_tag() -> Seq<u8> {
    seq![112u8, 97u8, 99u8, 107u8]
}

/// The ordered seed tuple of a pack: the namespace tag, then the four
/// entity identifiers in exactly the order supplied.
pub open spec fn pack_seeds(a: Seq<u8>, b: Seq<u8>, c: Seq<u8>, d: Seq<u8>) -> Seq<Seq<u8>> {
    seq![pack_tag(), a, b, c, d]
}

/// The derived address of the pack keyed by the ordered tuple `(a, b, c, d)`.
pub open spec fn pack_address_spec(a: Seq<u8>, b: Seq<u8>, c: Seq<u8>, d: Seq<u8>) -> Seq<u8> {
    address_of(pack_seeds(a, b, c, d))
}

fn pack_tag_vec() -> (r: Vec<u8>)
    ensures
        r@ == pack_tag(),
{
    let mut v: Vec<u8> = Vec::new();
    v.push(112);
    v.push(97);
    v.push(99);
    v.push(107);
    assert(v@ =~= pack_tag());
    v
}

/// Recompute the pack address from four in-bound identifiers.
pub fn pack_address(a: &Vec<u8>, b: &Vec<u8>, c: &Vec<u8>, d: &Vec<u8>) -> (r: Vec<u8>)
    requires
        a@.len() <= MAX_IDENTIFIER_LEN,
        b@.len() <= MAX_IDENTIFIER_LEN,
        c@.len() <= MAX_IDENTIFIER_LEN,
        d@.len() <= MAX_IDENTIFIER_LEN,
    ensures
        r@ == pack_address_spec(a@, b@, c@, d@),
{
    let mut seeds: Vec<Vec<u8>> = Vec::new();
    seeds.push(pack_tag_vec());
    seeds.push(copy_bytes(a));
    seeds.push(copy_bytes(b));
    seeds.push(copy_bytes(c));
    seeds.push(copy_bytes(d));
    proof {
        assert(seed_views(seeds) =~= pack_seeds(a@, b@, c@, d@));
        assert(seeds_ok(seed_views(seeds)));
    }
    match derive_address(&seeds) {
        Ok(p) => p.0,
        Err(_) => vstd::pervasive::unreached(),
    }
}

/// Distinct ordered identifier tuples always address distinct packs.
pub proof fn lemma_pack_address_injective(
    a1: Seq<u8>,
    b1: Seq<u8>,
    c1: Seq<u8>,
    d1: Seq<u8>,
    a2: Seq<u8>,
    b2: Seq<u8>,
    c2: Seq<u8>,
    d2: Seq<u8>,
)
    requires
        a1.len() <= MAX_IDENTIFIER_LEN,
        b1.len() <= MAX_IDENTIFIER_LEN,
        c1.len() <= MAX_IDENTIFIER_LEN,
        d1.len() <= MAX_IDENTIFIER_LEN,
        a2.len() <= MAX_IDENTIFIER_LEN,
        b2.len() <= MAX_IDENTIFIER_LEN,
        c2.len() <= MAX_IDENTIFIER_LEN,
        d2.len() <= MAX_IDENTIFIER_LEN,
        pack_address_spec(a1, b1, c1, d1) == pack_address_spec(a2, b2, c2, d2),
    ensures
        a1 == a2 && b1 == b2 && c1 == c2 && d1 == d2,
{
    let s1 = pack_seeds(a1, b1, c1, d1);
    let s2 = pack_seeds(a2, b2, c2, d2);
    assert(seeds_ok(s1));
    assert(seeds_ok(s2));
    lemma_address_of_injective(s1, s2);
    assert(s1[1] == s2[1]);
    assert(s1[2] == s2[2]);
    assert(s1[3] == s2[3]);
    assert(s1[4] == s2[4]);
}

} // verus!
