use vstd::prelude::*;

verus! {

/// An unsigned 256-bit integer, held as four 64-bit limbs, least
/// significant first.  The counters and attached call values of the
/// contract live in this type; its mathematical value is [`U256::as_nat`].
#[derive(Clone, Copy, PartialEq, Eq, Structural, Debug, Hash)]
pub struct U256 {
    pub limb0: u64,
    pub limb1: u64,
    pub limb2: u64,
    pub limb3: u64,
}

/// `2^64`, the weight of the second limb.
pub open spec fn two_to_64() -> nat {
    0x10000000000000000
}

/// `2^128`, the weight of the third limb.
pub open spec fn two_to_128() -> nat {
    two_to_64() * two_to_64()
}

/// `2^192`, the weight of the fourth limb.
pub open spec fn two_to_192() -> nat {
    two_to_128() * two_to_64()
}

/// The largest value a [`U256`] can hold: `2^256 - 1`.
pub open spec fn u256_max() -> nat {
    (two_to_192() * two_to_64() - 1) as nat
}

proof fn lemma_mul_mono(a: nat, b: nat)
    requires
        a >= 1,
        b >= 1,
    ensures
        a * b >= b,
{
    assert(a * b >= b) by (nonlinear_arith)
        requires
            a >= 1,
            b >= 1,
    ;
}

proof fn lemma_powers_positive()
    ensures
        two_to_64() >= 1,
        two_to_128() >= 1,
        two_to_192() >= 1,
{
    lemma_mul_mono(two_to_64(), two_to_64());
    lemma_mul_mono(two_to_128(), two_to_64());
}

proof fn lemma_scaled_limb(x: u64, w: nat)
    requires
        w >= 1,
    ensures
        x == 0 ==> x * w == 0,
        x != 0 ==> x * w >= w,
{
    if x == 0 {
        assert(x * w == 0) by (nonlinear_arith)
            requires
                x == 0,
        ;
    } else {
        assert(x * w >= w) by (nonlinear_arith)
            requires
                x >= 1,
                w >= 1,
        ;
    }
}

proof fn lemma_limb_max_bound(x: u64, w: nat)
    requires
        w >= 1,
    ensures
        x * w <= u64::MAX * w,
        x < u64::MAX ==> x * w + w <= u64::MAX * w,
{
    assert(x * w <= u64::MAX * w) by (nonlinear_arith)
        requires
            x <= u64::MAX,
    ;
    if x < u64::MAX {
        assert(x * w + w <= u64::MAX * w) by (nonlinear_arith)
            requires
                x + 1 <= u64::MAX,
                w >= 1,
        ;
    }
}

impl U256 {
    /// The mathematical value of the four limbs.
    pub open spec fn as_nat(self) -> nat {
        (self.limb0 + self.limb1 * two_to_64() + self.limb2 * two_to_128() + self.limb3
            * two_to_192()) as nat
    }

    /// The zero value.
    pub fn zero() -> (r: U256)
        ensures
            r == (U256 { limb0: 0, limb1: 0, limb2: 0, limb3: 0 }),
            r.as_nat() == 0,
    {
        U256 { limb0: 0, limb1: 0, limb2: 0, limb3: 0 }
    }

    /// The value of a 64-bit integer.
    pub fn from_u64(x: u64) -> (r: U256)
        ensures
            r == (U256 { limb0: x, limb1: 0, limb2: 0, limb3: 0 }),
            r.as_nat() == x,
    {
        U256 { limb0: x, limb1: 0, limb2: 0, limb3: 0 }
    }

    /// The value of the given limbs, least significant first.
    pub fn from_limbs(limb0: u64, limb1: u64, limb2: u64, limb3: u64) -> (r: U256)
        ensures
            r == (U256 { limb0, limb1, limb2, limb3 }),
    {
        U256 { limb0, limb1, limb2, limb3 }
    }

    /// Whether the value is zero.
    pub fn is_zero(&self) -> (r: bool)
        ensures
            r == (self.as_nat() == 0),
    {
        let r = self.limb0 == 0 && self.limb1 == 0 && self.limb2 == 0 && self.limb3 == 0;
        proof {
            lemma_powers_positive();
            lemma_scaled_limb(self.limb1, two_to_64());
            lemma_scaled_limb(self.limb2, two_to_128());
            lemma_scaled_limb(self.limb3, two_to_192());
        }
        r
    }

    /// Whether the value is the largest representable one, `2^256 - 1`.
    pub fn is_max(&self) -> (r: bool)
        ensures
            r == (self.as_nat() == u256_max()),
    {
        let r = self.limb0 == u64::MAX && self.limb1 == u64::MAX && self.limb2 == u64::MAX
            && self.limb3 == u64::MAX;
        proof {
            lemma_powers_positive();
            lemma_limb_max_bound(self.limb1, two_to_64());
            lemma_limb_max_bound(self.limb2, two_to_128());
            lemma_limb_max_bound(self.limb3, two_to_192());
            assert(u64::MAX + u64::MAX * two_to_64() + u64::MAX * two_to_128() + u64::MAX
                * two_to_192() == u256_max());
        }
        r
    }

    /// The successor value, with the carry rippled through the limbs.
    pub fn add_one(&self) -> (r: U256)
        requires
            self.as_nat() < u256_max(),
        ensures
            r.as_nat() == self.as_nat() + 1,
    {
        if self.limb0 < u64::MAX {
            let r = U256 {
                limb0: self.limb0 + 1,
                limb1: self.limb1,
                limb2: self.limb2,
                limb3: self.limb3,
            };
            assert(r.as_nat() == self.as_nat() + 1);
            r
        } else if self.limb1 < u64::MAX {
            let r = U256 { limb0: 0, limb1: self.limb1 + 1, limb2: self.limb2, limb3: self.limb3 };
            assert((self.limb1 + 1) * two_to_64() == self.limb1 * two_to_64() + two_to_64())
                by (nonlinear_arith);
            assert(r.as_nat() == self.as_nat() + 1);
            r
        } else if self.limb2 < u64::MAX {
            let r = U256 { limb0: 0, limb1: 0, limb2: self.limb2 + 1, limb3: self.limb3 };
            assert((self.limb2 + 1) * two_to_128() == self.limb2 * two_to_128() + two_to_128())
                by (nonlinear_arith);
            assert(r.as_nat() == self.as_nat() + 1);
            r
        } else {
            proof {
                if self.limb3 == u64::MAX {
                    assert(self.as_nat() == u256_max());
                    assert(false);
                }
            }
            let r = U256 { limb0: 0, limb1: 0, limb2: 0, limb3: self.limb3 + 1 };
            assert((self.limb3 + 1) * two_to_192() == self.limb3 * two_to_192() + two_to_192())
                by (nonlinear_arith);
            assert(r.as_nat() == self.as_nat() + 1);
            r
        }
    }
}

} // verus!
