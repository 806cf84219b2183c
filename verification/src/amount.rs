//! Arbitrary-precision non-negative amounts.
//!
//! An [`Amount`] is the unit of account of the ledger. It is held as a vector
//! of base-2^32 digits (limbs), least significant first, and its view is the
//! mathematical natural number those digits denote. Arithmetic is exact:
//! addition and subtraction go through `candid::Nat` (backed by
//! `num_bigint::BigUint`), so no amount ever wraps or loses precision.

use vstd::prelude::*;

verus! {

use vstd::arithmetic::div_mod::lemma_fundamental_div_mod;

/// The natural number denoted by a sequence of base-2^32 digits ordered
/// least significant digit first.
pub open spec fn limbs_value(s: Seq<u32>) -> nat
    decreases s.len(),
{
    if s.len() == 0 {
        0
    } else {
        (s[0] + 0x1_0000_0000 * limbs_value(s.drop_first())) as nat
    }
}

/// An arbitrary-precision non-negative integer. Its view is its numeric
/// value; distinct limb vectors may denote the same value (trailing zero
/// limbs are allowed), and equality compares values, not limb vectors.
#[derive(Debug)]
pub struct Amount {
    limbs: Vec<u32>,
}

impl View for Amount {
    type V = nat;

    closed spec fn view(&self) -> nat {
        limbs_value(self.limbs@)
    }
}

/// A value is zero exactly when every limb is zero.
proof fn lemma_value_zero(s: Seq<u32>)
    ensures
        limbs_value(s) == 0 <==> (forall|i: int| 0 <= i < s.len() ==> s[i] == 0),
    decreases s.len(),
{
    if s.len() > 0 {
        lemma_value_zero(s.drop_first());
        assert((0x1_0000_0000 * limbs_value(s.drop_first()) == 0) <==> (limbs_value(
            s.drop_first(),
        ) == 0)) by (nonlinear_arith);
        assert forall|i: int| 0 <= i < s.drop_first().len() implies s.drop_first()[i] == s[i
            + 1] by {}
        if forall|i: int| 0 <= i < s.len() ==> s[i] == 0 {
            assert(s[0] == 0);
            assert(forall|i: int| 0 <= i < s.drop_first().len() ==> s.drop_first()[i] == 0);
        }
        if limbs_value(s) == 0 {
            assert(s[0] == 0);
            assert forall|i: int| 0 <= i < s.len() implies s[i] == 0 by {
                if i > 0 {
                    assert(s.drop_first()[i - 1] == s[i]);
                }
            }
        }
    }
}

impl Amount {
    /// The amount zero.
    pub fn zero() -> (r: Amount)
        ensures
            r@ == 0,
    {
        let limbs: Vec<u32> = Vec::new();
        Amount { limbs }
    }

    /// The amount with the value of a 64-bit unsigned integer.
    pub fn from_u64(v: u64) -> (r: Amount)
        ensures
            r@ == v as nat,
    {
        let lo: u32 = (v % 0x1_0000_0000) as u32;
        let hi: u32 = (v / 0x1_0000_0000) as u32;
        let mut limbs: Vec<u32> = Vec::new();
        limbs.push(lo);
        limbs.push(hi);
        proof {
            assert(limbs@ =~= seq![lo, hi]);
            assert(seq![lo, hi].drop_first() =~= seq![hi]);
            assert(seq![hi].drop_first() =~= Seq::<u32>::empty());
            assert(limbs_value(Seq::<u32>::empty()) == 0);
            assert(limbs_value(seq![hi]) == hi);
            assert(limbs_value(limbs@) == lo + 0x1_0000_0000 * hi);
            lemma_fundamental_div_mod(v as int, 0x1_0000_0000);
        }
        Amount { limbs }
    }

    /// The amount denoted by a vector of base-2^32 digits, least significant
    /// digit first.
    pub fn from_limbs(limbs: Vec<u32>) -> (r: Amount)
        ensures
            r@ == limbs_value(limbs@),
    {
        Amount { limbs }
    }

    /// A fresh copy of this amount's limbs.
    fn copy_limbs(&self) -> (r: Vec<u32>)
        ensures
            r@ == self.limbs@,
    {
        let mut r: Vec<u32> = Vec::new();
        let mut i: usize = 0;
        while i < self.limbs.len()
            invariant
                i <= self.limbs@.len(),
                r@ == self.limbs@.subrange(0, i as int),
            decreases self.limbs@.len() - i,
        {
            r.push(self.limbs[i]);
            i = i + 1;
            proof {
                assert(r@ =~= self.limbs@.subrange(0, i as int));
            }
        }
        proof {
            assert(r@ =~= self.limbs@);
        }
        r
    }

    /// This amount's base-2^32 digits, least significant digit first.
    pub fn to_limbs(&self) -> (r: Vec<u32>)
        ensures
            limbs_value(r@) == self@,
    {
        self.copy_limbs()
    }

    /// A copy with the same value.
    pub fn duplicate(&self) -> (r: Amount)
        ensures
            r@ == self@,
    {
        Amount { limbs: self.copy_limbs() }
    }

    /// Whether this amount is zero.
    pub fn is_zero(&self) -> (r: bool)
        ensures
            r == (self@ == 0),
    {
        proof {
            lemma_value_zero(self.limbs@);
        }
        let mut i: usize = 0;
        while i < self.limbs.len()
            invariant
                i <= self.limbs@.len(),
                forall|k: int| 0 <= k < i ==> self.limbs@[k] == 0,
                limbs_value(self.limbs@) == 0 <==> (forall|k: int|
                    0 <= k < self.limbs@.len() ==> self.limbs@[k] == 0),
            decreases self.limbs@.len() - i,
        {
            if self.limbs[i] != 0 {
                return false;
            }
            i = i + 1;
        }
        true
    }

    /// The exact sum of the two values.
    ///
    /// Relies on `candid::Nat`'s `+`, which delegates to
    /// `num_bigint::BigUint` addition; `BigUint::new` and `to_u32_digits`
    /// convert base-2^32 digit vectors, least significant digit first.
    #[verifier::external_body]
    pub fn add(&self, other: &Amount) -> (r: Amount)
        ensures
            r@ == self@ + other@,
    {
        let a = candid::Nat::from(num_bigint::BigUint::new(self.limbs.clone()));
        let b = candid::Nat::from(num_bigint::BigUint::new(other.limbs.clone()));
        Amount { limbs: (a + b).0.to_u32_digits() }
    }

    /// The exact difference of the two values. The subtrahend must not
    /// exceed this amount: `num_bigint::BigUint`'s subtraction does not
    /// return on underflow.
    ///
    /// Relies on `candid::Nat`'s `-`, which delegates to
    /// `num_bigint::BigUint` subtraction; `BigUint::new` and `to_u32_digits`
    /// convert base-2^32 digit vectors, least significant digit first.
    #[verifier::external_body]
    pub fn sub(&self, other: &Amount) -> (r: Amount)
        requires
            other@ <= self@,
        ensures
            r@ == self@ - other@,
    {
        let a = candid::Nat::from(num_bigint::BigUint::new(self.limbs.clone()));
        let b = candid::Nat::from(num_bigint::BigUint::new(other.limbs.clone()));
        Amount { limbs: (a - b).0.to_u32_digits() }
    }

    /// Whether this value is at most the other.
    ///
    /// Relies on `candid::Nat`'s ordering, derived from
    /// `num_bigint::BigUint`'s `Ord`, which compares numeric values;
    /// `BigUint::new` converts a base-2^32 digit vector, least significant
    /// digit first.
    #[verifier::external_body]
    pub fn le(&self, other: &Amount) -> (r: bool)
        ensures
            r == (self@ <= other@),
    {
        let a = candid::Nat::from(num_bigint::BigUint::new(self.limbs.clone()));
        let b = candid::Nat::from(num_bigint::BigUint::new(other.limbs.clone()));
        a <= b
    }
}

impl PartialEq for Amount {
    /// Two amounts are equal exactly when they denote the same value, even
    /// when their limb vectors differ in trailing zeros.
    fn eq(&self, other: &Amount) -> (r: bool) {
        self.le(other) && other.le(self)
    }
}

impl vstd::std_specs::cmp::PartialEqSpecImpl for Amount {
    open spec fn obeys_eq_spec() -> bool {
        true
    }

    open spec fn eq_spec(&self, other: &Amount) -> bool {
        self@ == other@
    }
}

} // verus!
