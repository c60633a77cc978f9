use vstd::prelude::*;

verus! {

/// The singleton aggregation record: the bump of its derived address and the
/// number of tracked entities it was configured with.
#[derive(Clone, Copy, Debug, PartialEq, Eq, Structural)]
pub struct GlobalPackPool {
    pub bump: u8,
    pub total_kols: u8,
}

/// A pack record.  The ordered four identifiers are part of the pack's
/// identity: they are exactly the seed components its address was derived
/// from, stored so every later debit can recompute that derivation from the
/// record itself rather than from free-form caller input.
pub struct Pack {
    pub bump: u8,
    pub kol_a: Vec<u8>,
    pub kol_b: Vec<u8>,
    pub kol_c: Vec<u8>,
    pub kol_d: Vec<u8>,
}

} // verus!
