//! Elements of the prime field with modulus `2^64 - 2^32 + 1`, held as
//! canonical `u64` values. All arithmetic is modular and verified against
//! the mathematical definitions below.

use vstd::prelude::*;

verus! {

/// The field modulus `2^64 - 2^32 + 1`.
pub const MODULUS: u64 = 18446744069414584321;

/// Mathematical addition in the field.
pub open spec fn f_add(a: int, b: int) -> int {
    (a + b) % (MODULUS as int)
}

/// Mathematical subtraction in the field.
pub open spec fn f_sub(a: int, b: int) -> int {
    (a - b) % (MODULUS as int)
}

/// Mathematical multiplication in the field.
pub open spec fn f_mul(a: int, b: int) -> int {
    (a * b) % (MODULUS as int)
}

/// Mathematical exponentiation in the field: `b^e mod MODULUS`.
pub open spec fn f_pow(b: int, e: nat) -> int
    decreases e,
{
    if e == 0 {
        1
    } else {
        f_mul(b, f_pow(b, (e - 1) as nat))
    }
}

/// A field element in canonical form.
#[derive(Clone, Copy, Debug, PartialEq, Eq, Structural, Hash)]
pub struct Felt {
    pub val: u64,
}

impl Felt {
    /// A field element is well formed when its representative is canonical.
    pub open spec fn wf(self) -> bool {
        self.val < MODULUS
    }

    /// Builds a field element from an arbitrary integer, reducing it.
    pub fn new(x: u64) -> (r: Felt)
        ensures
            r.val == x as int % (MODULUS as int),
            r.wf(),
    {
        Felt { val: x % MODULUS }
    }

    /// The additive identity.
    pub fn zero() -> (r: Felt)
        ensures
            r.val == 0,
            r.wf(),
    {
        Felt { val: 0 }
    }

    /// The multiplicative identity.
    pub fn one() -> (r: Felt)
        ensures
            r.val == 1,
            r.wf(),
    {
        Felt { val: 1 }
    }

    /// Field addition.
    pub fn add(self, other: Felt) -> (r: Felt)
        requires
            self.wf(),
            other.wf(),
        ensures
            r.val == f_add(self.val as int, other.val as int),
            r.wf(),
    {
        let s: u128 = self.val as u128 + other.val as u128;
        let m: u128 = MODULUS as u128;
        if s >= m {
            proof {
                vstd::arithmetic::div_mod::lemma_mod_sub_multiples_vanish(
                    s as int,
                    MODULUS as int,
                );
                vstd::arithmetic::div_mod::lemma_small_mod(
                    (s - m) as nat,
                    MODULUS as nat,
                );
            }
            Felt { val: (s - m) as u64 }
        } else {
            proof {
                vstd::arithmetic::div_mod::lemma_small_mod(s as nat, MODULUS as nat);
            }
            Felt { val: s as u64 }
        }
    }

    /// Field subtraction.
    pub fn sub(self, other: Felt) -> (r: Felt)
        requires
            self.wf(),
            other.wf(),
        ensures
            r.val == f_sub(self.val as int, other.val as int),
            r.wf(),
    {
        let r: u64 = if self.val >= other.val {
            proof {
                vstd::arithmetic::div_mod::lemma_small_mod(
                    (self.val - other.val) as nat,
                    MODULUS as nat,
                );
            }
            self.val - other.val
        } else {
            proof {
                vstd::arithmetic::div_mod::lemma_mod_add_multiples_vanish(
                    self.val - other.val,
                    MODULUS as int,
                );
                vstd::arithmetic::div_mod::lemma_small_mod(
                    (self.val + MODULUS - other.val) as nat,
                    MODULUS as nat,
                );
            }
            (MODULUS - other.val) + self.val
        };
        Felt { val: r }
    }

    /// Field negation.
    pub fn neg(self) -> (r: Felt)
        requires
            self.wf(),
        ensures
            r.val == f_sub(0, self.val as int),
            r.wf(),
    {
        Felt { val: 0 }.sub(self)
    }

    /// Field multiplication.
    pub fn mul(self, other: Felt) -> (r: Felt)
        requires
            self.wf(),
            other.wf(),
        ensures
            r.val == f_mul(self.val as int, other.val as int),
            r.wf(),
    {
        proof {
            let a = self.val as int;
            let b = other.val as int;
            assert(a * b < 0x100000000000000000000000000000000) by (nonlinear_arith)
                requires
                    0 <= a < 0x10000000000000000,
                    0 <= b < 0x10000000000000000,
            ;
        }
        let p: u128 = self.val as u128 * other.val as u128;
        let m: u128 = MODULUS as u128;
        let r: u128 = p % m;
        proof {
            vstd::arithmetic::div_mod::lemma_mod_bound(p as int, MODULUS as int);
        }
        Felt { val: r as u64 }
    }

    /// Field exponentiation by repeated multiplication.
    pub fn pow(self, e: u64) -> (r: Felt)
        requires
            self.wf(),
        ensures
            r.val == f_pow(self.val as int, e as nat),
            r.wf(),
    {
        let mut acc = Felt { val: 1u64 };
        let mut i: u64 = 0;
        proof {
            vstd::arithmetic::div_mod::lemma_small_mod(1nat, MODULUS as nat);
        }
        while i < e
            invariant
                i <= e,
                self.wf(),
                acc.wf(),
                acc.val == f_pow(self.val as int, i as nat),
            decreases e - i,
        {
            proof {
                let b = self.val as int;
                assert(f_pow(b, (i + 1) as nat) == f_mul(b, f_pow(b, i as nat)));
            }
            acc = acc.mul(self);
            i = i + 1;
        }
        acc
    }
}


/// All entries of the assignment are canonical field values.
pub open spec fn in_range(a: Seq<int>) -> bool {
    forall|k: int| 0 <= k < a.len() ==> 0 <= #[trigger] a[k] < MODULUS
}

/// Adding after reducing either operand changes nothing.
pub proof fn lemma_f_add_noop(x: int, y: int)
    ensures
        f_add(x % (MODULUS as int), y) == f_add(x, y),
        f_add(x, y % (MODULUS as int)) == f_add(x, y),
{
    let m = MODULUS as int;
    vstd::arithmetic::div_mod::lemma_add_mod_noop_right(y, x, m);
    vstd::arithmetic::div_mod::lemma_add_mod_noop_right(x, y, m);
}

/// Associativity of field addition: both groupings reduce the plain sum.
pub proof fn lemma_f_add_assoc(x: int, y: int, z: int)
    ensures
        f_add(f_add(x, y), z) == (x + y + z) % (MODULUS as int),
        f_add(x, f_add(y, z)) == (x + y + z) % (MODULUS as int),
{
    let m = MODULUS as int;
    vstd::arithmetic::div_mod::lemma_add_mod_noop_right(z, x + y, m);
    vstd::arithmetic::div_mod::lemma_add_mod_noop_right(x, y + z, m);
}

/// Multiplying after reducing either factor changes nothing.
pub proof fn lemma_f_mul_noop(x: int, y: int)
    ensures
        f_mul(x % (MODULUS as int), y) == f_mul(x, y),
        f_mul(x, y % (MODULUS as int)) == f_mul(x, y),
{
    let m = MODULUS as int;
    vstd::arithmetic::div_mod::lemma_mul_mod_noop_left(x, y, m);
    vstd::arithmetic::div_mod::lemma_mul_mod_noop_right(x, y, m);
}

/// Associativity of field multiplication.
pub proof fn lemma_f_mul_assoc(x: int, y: int, z: int)
    ensures
        f_mul(f_mul(x, y), z) == f_mul(x, f_mul(y, z)),
{
    let m = MODULUS as int;
    vstd::arithmetic::div_mod::lemma_mul_mod_noop_left(x * y, z, m);
    vstd::arithmetic::div_mod::lemma_mul_mod_noop_right(x, y * z, m);
    vstd::arithmetic::mul::lemma_mul_is_associative(x, y, z);
}

/// Multiplication distributes over field addition.
pub proof fn lemma_f_mul_distrib(c: int, x: int, y: int)
    ensures
        f_mul(c, f_add(x, y)) == f_add(f_mul(c, x), f_mul(c, y)),
{
    let m = MODULUS as int;
    vstd::arithmetic::div_mod::lemma_mul_mod_noop_right(c, x + y, m);
    vstd::arithmetic::mul::lemma_mul_is_distributive_add(c, x, y);
    vstd::arithmetic::div_mod::lemma_add_mod_noop(c * x, c * y, m);
}

/// A negated factor negates the product.
pub proof fn lemma_f_mul_neg(c: int, x: int)
    ensures
        f_mul(f_sub(0, c), x) == f_sub(0, f_mul(c, x)),
{
    let m = MODULUS as int;
    vstd::arithmetic::div_mod::lemma_mul_mod_noop_left(0 - c, x, m);
    vstd::arithmetic::mul::lemma_mul_unary_negation(c, x);
    vstd::arithmetic::div_mod::lemma_sub_mod_noop_right(0, c * x, m);
}

/// Negations add to the negation of the sum.
pub proof fn lemma_f_add_neg(x: int, y: int)
    ensures
        f_add(f_sub(0, x), f_sub(0, y)) == f_sub(0, f_add(x, y)),
{
    let m = MODULUS as int;
    vstd::arithmetic::div_mod::lemma_add_mod_noop(0 - x, 0 - y, m);
    vstd::arithmetic::div_mod::lemma_sub_mod_noop_right(0, x + y, m);
}

/// Adding a negation subtracts.
pub proof fn lemma_f_add_sub(x: int, y: int)
    ensures
        f_add(x, f_sub(0, y)) == f_sub(x, y),
{
    let m = MODULUS as int;
    vstd::arithmetic::div_mod::lemma_add_mod_noop_right(x, 0 - y, m);
}

/// The first power reduces the base.
pub proof fn lemma_f_pow_one(x: int)
    ensures
        f_pow(x, 1) == x % (MODULUS as int),
{
    assert(f_pow(x, 1) == f_mul(x, f_pow(x, 0)));
}

} // verus!

