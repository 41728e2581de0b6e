//! 256-bit unsigned integers.
use vstd::prelude::*;

verus! {

/// The number that four limbs stand for, least significant first.
pub open spec fn limbs_value(limbs: [u64; 4]) -> nat {
    (limbs[0] + 0x1_0000_0000_0000_0000 * limbs[1] + 0x1_0000_0000_0000_0000_0000_0000_0000_0000
        * limbs[2] + 0x1_0000_0000_0000_0000_0000_0000_0000_0000_0000_0000_0000_0000
        * limbs[3]) as nat
}

/// `U256::from` of alloy-primitives on a `u128`: the same number. It never fails, as every
/// `u128` has room in 256 bits.
#[verifier::external_body]
fn limbs_from_u128(value: u128) -> (limbs: [u64; 4])
    ensures
        limbs_value(limbs) == value,
{
    alloy_primitives::U256::from(value).into_limbs()
}

/// `u64::try_from` on a `U256` of alloy-primitives: the same number, or none exactly if it is
/// too large. (`U256::to` gives the same number and panics where this gives none.)
#[verifier::external_body]
fn limbs_to_u64(limbs: [u64; 4]) -> (value: Option<u64>)
    ensures
        value is Some <==> limbs_value(limbs) <= u64::MAX,
        value is Some ==> value->0 == limbs_value(limbs),
{
    u64::try_from(alloy_primitives::U256::from_limbs(limbs)).ok()
}

/// A 256-bit unsigned integer.
#[derive(Debug, Clone, Copy, PartialEq, Eq)]
pub struct U256 {
    /// Least significant first.
    pub limbs: [u64; 4],
}

impl View for U256 {
    type V = nat;

    open spec fn view(&self) -> nat {
        limbs_value(self.limbs)
    }
}

impl U256 {
    pub fn from_u128(value: u128) -> (number: Self)
        ensures
            number@ == value,
    {
        U256 { limbs: limbs_from_u128(value) }
    }

    /// The number as a `u64`, if it is small enough.
    pub fn to_u64(&self) -> (value: Option<u64>)
        ensures
            value is Some <==> self@ <= u64::MAX,
            value is Some ==> value->0 == self@,
    {
        limbs_to_u64(self.limbs)
    }
}

/// A number has one representation only.
pub proof fn lemma_u256_determined_by_value(a: U256, b: U256)
    requires
        a@ == b@,
    ensures
        a == b,
{
    assert(a.limbs[0] == b.limbs[0]);
    assert(a.limbs[1] == b.limbs[1]);
    assert(a.limbs[2] == b.limbs[2]);
    assert(a.limbs[3] == b.limbs[3]);
    assert(a.limbs =~= b.limbs);
}

/// Each limb holds the 64 bits of its place.
pub proof fn lemma_limbs_are_places(number: U256)
    ensures
        number@ % 0x1_0000_0000_0000_0000nat == number.limbs[0],
        number@ / 0x1_0000_0000_0000_0000nat % 0x1_0000_0000_0000_0000nat == number.limbs[1],
        number@ / 0x1_0000_0000_0000_0000_0000_0000_0000_0000nat % 0x1_0000_0000_0000_0000nat
            == number.limbs[2],
        number@ / 0x1_0000_0000_0000_0000_0000_0000_0000_0000_0000_0000_0000_0000nat
            == number.limbs[3],
{
}

} // verus!
