//! A 256-bit unsigned integer held as two 128-bit limbs.
//!
//! All quoting arithmetic in this crate runs on this type, with the
//! saturation and truncation discipline that on-chain token amounts demand:
//! additions and multiplications clamp silently at `2^256 - 1`, division by
//! zero yields zero, and nothing ever panics.

use vstd::prelude::*;

verus! {

use vstd::arithmetic::power2::pow2;
use vstd::arithmetic::power2::lemma_pow2_adds;
use vstd::arithmetic::power2::lemma2_to64;
use vstd::arithmetic::div_mod::lemma_fundamental_div_mod;
use vstd::arithmetic::div_mod::lemma_fundamental_div_mod_converse;
use vstd::arithmetic::div_mod::lemma_mod_mod;
use vstd::arithmetic::div_mod::lemma_mod_pos_bound;
use vstd::arithmetic::mul::lemma_mul_inequality;
use vstd::arithmetic::power2::lemma_pow2_pos;

/// 2^128, the weight of the high limb.
pub open spec fn pow128() -> nat {
    0x100000000000000000000000000000000nat
}

/// 2^256, one past the largest representable value.
pub open spec fn pow256() -> nat {
    0x10000000000000000000000000000000000000000000000000000000000000000nat
}

/// The largest representable value, 2^256 - 1.
pub open spec fn u256_max() -> nat {
    (pow256() - 1) as nat
}

/// An unsigned 256-bit integer: `lo + hi * 2^128`.
#[derive(Clone, Copy, PartialEq, Eq, Structural, Debug)]
pub struct U256 {
    pub lo: u128,
    pub hi: u128,
}

impl View for U256 {
    type V = nat;

    open spec fn view(&self) -> nat {
        (self.lo + self.hi * pow128()) as nat
    }
}

impl U256 {
    /// Every value of the type lies below 2^256.
    pub proof fn lemma_in_range(self)
        ensures
            self@ < pow256(),
    {
        assert(self.hi * pow128() <= (pow128() - 1) * pow128()) by (nonlinear_arith)
            requires
                self.hi < pow128(),
        ;
    }

    /// Two values with equal views are equal limb for limb.
    pub proof fn lemma_view_injective(self, other: U256)
        ensures
            self@ == other@ <==> self == other,
    {
        if self@ == other@ && self != other {
            assert(self.lo + self.hi * pow128() != other.lo + other.hi * pow128())
                by (nonlinear_arith)
                requires
                    self.lo < pow128(),
                    other.lo < pow128(),
                    self.hi != other.hi || self.lo != other.lo,
            ;
        }
    }

    pub fn zero() -> (r: U256)
        ensures
            r@ == 0,
    {
        U256 { lo: 0, hi: 0 }
    }

    pub fn from_u64(v: u64) -> (r: U256)
        ensures
            r@ == v,
    {
        U256 { lo: v as u128, hi: 0 }
    }

    pub fn from_u128(v: u128) -> (r: U256)
        ensures
            r@ == v,
    {
        U256 { lo: v, hi: 0 }
    }

    /// The largest representable value.
    pub fn max_value() -> (r: U256)
        ensures
            r@ == u256_max(),
    {
        U256 { lo: u128::MAX, hi: u128::MAX }
    }

    pub fn is_zero(&self) -> (r: bool)
        ensures
            r == (self@ == 0),
    {
        proof {
            if self.hi != 0 {
                assert(self.hi * pow128() >= pow128()) by (nonlinear_arith)
                    requires
                        self.hi >= 1,
                ;
            } else {
                assert(self.hi * pow128() == 0);
            }
        }
        self.lo == 0 && self.hi == 0
    }

    /// Strict comparison by value.
    pub fn lt(&self, other: &U256) -> (r: bool)
        ensures
            r == (self@ < other@),
    {
        proof {
            lemma_limb_order(*self, *other);
        }
        if self.hi != other.hi {
            self.hi < other.hi
        } else {
            self.lo < other.lo
        }
    }

    pub fn le(&self, other: &U256) -> (r: bool)
        ensures
            r == (self@ <= other@),
    {
        proof {
            lemma_limb_order(*self, *other);
            lemma_limb_order(*other, *self);
        }
        if self.hi != other.hi {
            self.hi < other.hi
        } else {
            self.lo <= other.lo
        }
    }
}

/// Clamp an unbounded value to the representable range.
pub open spec fn clamp256(v: nat) -> nat {
    if v > u256_max() {
        u256_max()
    } else {
        v
    }
}

impl U256 {
    /// Saturating addition: the exact sum, clamped at `2^256 - 1`.
    pub fn add_sat(&self, other: &U256) -> (r: U256)
        ensures
            r@ == clamp256(self@ + other@),
    {
        let (lo, carry): (u128, bool) = if self.lo <= u128::MAX - other.lo {
            (self.lo + other.lo, false)
        } else {
            ((self.lo - (u128::MAX - other.lo)) - 1, true)
        };
        let c: u128 = if carry {
            1
        } else {
            0
        };
        if self.hi <= u128::MAX - other.hi && self.hi + other.hi <= u128::MAX - c {
            let r = U256 { lo, hi: self.hi + other.hi + c };
            proof {
                assert(r@ == self@ + other@);
            }
            r
        } else {
            proof {
                assert(self.lo + other.lo == (if carry {
                    pow128()
                } else {
                    0nat
                }) + lo);
                assert((self.hi + other.hi + c) * pow128() >= pow128() * pow128())
                    by (nonlinear_arith)
                    requires
                        self.hi + other.hi + c >= pow128(),
                ;
                assert(pow128() * pow128() == pow256()) by (nonlinear_arith);
                assert(self@ + other@ > u256_max());
            }
            U256::max_value()
        }
    }

    /// Exact subtraction; the caller must show the difference is not negative.
    pub fn sub_exact(&self, other: &U256) -> (r: U256)
        requires
            other@ <= self@,
        ensures
            r@ == self@ - other@,
    {
        let (lo, borrow): (u128, bool) = if self.lo >= other.lo {
            (self.lo - other.lo, false)
        } else {
            ((u128::MAX - other.lo) + self.lo + 1, true)
        };
        let b: u128 = if borrow {
            1
        } else {
            0
        };
        proof {
            let p = pow128();
            if self.hi < other.hi + b {
                assert(false) by (nonlinear_arith)
                    requires
                        self.lo < p,
                        other.lo < p,
                        p > 0,
                        b <= 1,
                        (b == 1 ==> self.lo < other.lo) && (b == 0 ==> self.lo >= other.lo),
                        self.hi + 1 <= other.hi + b,
                        other.lo + other.hi * p <= self.lo + self.hi * p,
                ;
            }
        }
        let hi: u128 = self.hi - other.hi - b;
        let r = U256 { lo, hi };
        proof {
            assert(lo == self.lo - other.lo + (if borrow {
                pow128()
            } else {
                0nat
            }));
            assert(r@ == self@ - other@);
        }
        r
    }

    /// Subtraction modulo `2^256`.
    fn sub_wrap(&self, other: &U256) -> (r: U256)
        ensures
            r@ == if other@ <= self@ {
                (self@ - other@) as nat
            } else {
                (self@ - other@ + pow256()) as nat
            },
    {
        if other.le(self) {
            self.sub_exact(other)
        } else {
            // self - other + 2^256 == (2^256 - 1 - other) + self + 1, all steps in range
            let t = U256::max_value().sub_exact(other);
            proof {
                self.lemma_in_range();
            }
            let u = t.add_sat(self);
            let r = u.add_sat(&U256 { lo: 1, hi: 0 });
            proof {
                assert(u@ == t@ + self@);
                assert(r@ == u@ + 1);
            }
            r
        }
    }
}

/// Concrete values of the powers of two this module leans on.
proof fn lemma_pow2_values()
    ensures
        pow2(128) == pow128(),
        pow2(256) == pow256(),
        pow2(0) == 1,
        pow2(1) == 2,
{
    lemma2_to64();
    lemma_pow2_adds(64, 64);
    lemma_pow2_adds(128, 128);
    assert(pow2(128) == 0x100000000000000000000000000000000nat) by (nonlinear_arith)
        requires
            pow2(128) == pow2(64) * pow2(64),
            pow2(64) == 0x10000000000000000nat,
    ;
    assert(pow2(256)
        == 0x10000000000000000000000000000000000000000000000000000000000000000nat)
        by (nonlinear_arith)
        requires
            pow2(256) == pow2(128) * pow2(128),
            pow2(128) == 0x100000000000000000000000000000000nat,
    ;
}

/// A value below `2^256` splits off its carry past `2^256` uniquely.
proof fn lemma_unique_carry(x: nat, c1: nat, r1: nat, c2: nat, r2: nat)
    requires
        c1 <= 1,
        c2 <= 1,
        r1 < pow256(),
        r2 < pow256(),
        x == c1 * pow256() + r1,
        x == c2 * pow256() + r2,
    ensures
        c1 == c2,
        r1 == r2,
{
}

/// One step of consuming the bits of `v` from the top: shifting the
/// already-consumed prefix left brings in bit `255 - k` of `v`.
proof fn lemma_shift_step(v: nat, k: nat)
    requires
        k < 256,
        v < pow256(),
    ensures
        ({
            let rest = v % pow2((256 - k) as nat);
            let bit = rest / pow2((255 - k) as nat);
            &&& bit <= 1
            &&& 2 * (rest * pow2(k)) == bit * pow256() + (v % pow2((255 - k) as nat)) * pow2(
                (k + 1) as nat,
            )
            &&& (v % pow2((255 - k) as nat)) * pow2((k + 1) as nat) < pow256()
            &&& v / pow2((255 - k) as nat) == 2 * (v / pow2((256 - k) as nat)) + bit
        }),
{
    let kk = (256 - k) as nat;
    let h = pow2((255 - k) as nat);
    let pk = pow2(k);
    let pk1 = pow2((k + 1) as nat);
    let p255 = pow2(255);
    let p256 = pow2(256);
    lemma_pow2_pos((255 - k) as nat);
    lemma_pow2_pos(k);
    lemma_pow2_pos(kk);
    lemma_pow2_adds((255 - k) as nat, 1);
    lemma_pow2_adds(k, 1);
    lemma_pow2_adds((255 - k) as nat, k);
    lemma_pow2_adds(255, 1);
    lemma_pow2_values();
    assert(pow2(kk) == 2 * h);
    assert(pk1 == 2 * pk);
    assert(p255 == h * pk);
    assert(p256 == 2 * p255);
    let rest = v % pow2(kk);
    let cons = v / pow2(kk);
    lemma_mod_pos_bound(v as int, pow2(kk) as int);
    lemma_fundamental_div_mod(v as int, pow2(kk) as int);
    let bit = rest / h;
    let r2 = rest % h;
    lemma_mod_pos_bound(rest as int, h as int);
    lemma_fundamental_div_mod(rest as int, h as int);
    // bit is a single binary digit
    assert(bit <= 1) by {
        if bit >= 2 {
            assert(h * bit >= 2 * h) by (nonlinear_arith)
                requires
                    bit >= 2,
                    h >= 0,
            ;
        }
    }
    // the tail below bit `255 - k` is the same whether taken from v or from rest
    assert(r2 == v % h) by {
        lemma_mod_mod(v as int, h as int, 2);
    }
    assert(2 * (rest * pk) == bit * p256 + r2 * pk1) by (nonlinear_arith)
        requires
            rest == bit * h + r2,
            p255 == h * pk,
            p256 == 2 * p255,
            pk1 == 2 * pk,
    ;
    assert(h * pk1 == p256) by (nonlinear_arith)
        requires
            pk1 == 2 * pk,
            p255 == h * pk,
            p256 == 2 * p255,
    ;
    assert(r2 * pk1 < p256) by (nonlinear_arith)
        requires
            r2 < h,
            pk1 > 0,
            h * pk1 == p256,
    ;
    // the consumed prefix gains that bit at the bottom
    assert(v == (2 * cons + bit) * h + r2) by (nonlinear_arith)
        requires
            v == pow2(kk) * cons + rest,
            rest == bit * h + r2,
            pow2(kk) == 2 * h,
    ;
    lemma_fundamental_div_mod_converse(v as int, h as int, (2 * cons + bit) as int, r2 as int);
}

impl U256 {
    /// Shift left one bit, inserting `bit` at the bottom; the second result
    /// is the bit shifted out at the top.
    fn shl1_with(&self, bit: bool) -> (r: (U256, bool))
        ensures
            2 * self@ + (if bit {
                1nat
            } else {
                0nat
            }) == (if r.1 {
                pow256()
            } else {
                0nat
            }) + r.0@,
    {
        let h: u128 = 0x80000000000000000000000000000000;
        let carry: bool = self.hi >= h;
        let hi: u128 = (self.hi % h) * 2 + self.lo / h;
        let lo: u128 = (self.lo % h) * 2 + if bit {
            1
        } else {
            0
        };
        let r = U256 { lo, hi };
        proof {
            lemma_fundamental_div_mod(self.lo as int, h as int);
            lemma_fundamental_div_mod(self.hi as int, h as int);
            assert(2 * self@ + (if bit {
                1nat
            } else {
                0nat
            }) == (if carry {
                pow256()
            } else {
                0nat
            }) + r@);
        }
        (r, carry)
    }

    /// Saturating doubling.
    fn sat_double(&self) -> (r: U256)
        ensures
            r@ == clamp256(2 * self@),
    {
        let (d, carry) = self.shl1_with(false);
        if carry {
            U256::max_value()
        } else {
            proof {
                d.lemma_in_range();
            }
            d
        }
    }
}

/// How one shift-and-add step moves the clamped partial product.
proof fn lemma_sat_mul_step(a: nat, c: nat, bit: nat, acc: nat, doubled: nat, next: nat)
    requires
        bit <= 1,
        a <= u256_max(),
        acc == clamp256(a * c),
        doubled == clamp256(2 * acc),
        next == clamp256((doubled + bit * a) as nat),
    ensures
        next == clamp256(a * (2 * c + bit)),
{
    let m = u256_max();
    assert(a * (2 * c + bit) == 2 * (a * c) + bit * a) by (nonlinear_arith);
    if a * c <= m {
        if 2 * (a * c) <= m {
            assert(next == clamp256(a * (2 * c + bit)));
        } else {
            assert(doubled == m);
            assert(next == m);
        }
    } else {
        assert(acc == m && doubled == m && next == m);
        assert(a * c <= a * (2 * c + bit)) by (nonlinear_arith);
    }
}

impl U256 {
    /// Saturating multiplication: the exact product, clamped at `2^256 - 1`.
    pub fn mul_sat(&self, other: &U256) -> (r: U256)
        ensures
            r@ == clamp256(self@ * other@),
    {
        let a = *self;
        let mut acc = U256::zero();
        let mut work = *other;
        let mut k: usize = 0;
        proof {
            lemma_pow2_values();
            other.lemma_in_range();
            self.lemma_in_range();
            lemma_mod_pos_bound(other@ as int, pow2(256) as int);
            assert(other@ % pow2(256) == other@) by {
                vstd::arithmetic::div_mod::lemma_small_mod(other@, pow2(256));
            }
            assert(other@ / pow2(256) == 0) by {
                vstd::arithmetic::div_mod::lemma_basic_div(other@ as int, pow2(256) as int);
            }
            assert(work@ == (other@ % pow2((256 - k) as nat)) * pow2(k as nat));
        }
        while k < 256
            invariant
                k <= 256,
                a == *self,
                a@ <= u256_max(),
                other@ < pow256(),
                acc@ == clamp256(a@ * (other@ / pow2((256 - k) as nat))),
                work@ == (other@ % pow2((256 - k) as nat)) * pow2(k as nat),
            decreases 256 - k,
        {
            let ghost cons = other@ / pow2((256 - k) as nat);
            let (w2, bit) = work.shl1_with(false);
            proof {
                lemma_shift_step(other@, k as nat);
                w2.lemma_in_range();
                let sbit = (other@ % pow2((256 - k) as nat)) / pow2((255 - k) as nat);
                lemma_unique_carry(
                    2 * work@,
                    if bit {
                        1nat
                    } else {
                        0nat
                    },
                    w2@,
                    sbit,
                    (other@ % pow2((255 - k) as nat)) * pow2((k + 1) as nat),
                );
            }
            let doubled = acc.sat_double();
            let addend = if bit {
                a
            } else {
                U256::zero()
            };
            let next = doubled.add_sat(&addend);
            proof {
                let sbit: nat = if bit {
                    1
                } else {
                    0
                };
                lemma_sat_mul_step(a@, cons, sbit, acc@, doubled@, next@);
            }
            acc = next;
            work = w2;
            k = k + 1;
        }
        proof {
            lemma_pow2_values();
            assert(other@ / pow2(0) == other@);
        }
        acc
    }

    /// Division with remainder by a nonzero divisor.
    pub fn div_rem(&self, divisor: &U256) -> (qr: (U256, U256))
        requires
            divisor@ > 0,
        ensures
            self@ == qr.0@ * divisor@ + qr.1@,
            qr.1@ < divisor@,
            qr.0@ == self@ / divisor@,
            qr.1@ == self@ % divisor@,
    {
        let b = *divisor;
        let mut q = U256::zero();
        let mut rem = U256::zero();
        let mut work = *self;
        let mut k: usize = 0;
        proof {
            lemma_pow2_values();
            self.lemma_in_range();
            divisor.lemma_in_range();
            assert(self@ % pow2(256) == self@) by {
                vstd::arithmetic::div_mod::lemma_small_mod(self@, pow2(256));
            }
            assert(self@ / pow2(256) == 0) by {
                vstd::arithmetic::div_mod::lemma_basic_div(self@ as int, pow2(256) as int);
            }
        }
        while k < 256
            invariant
                k <= 256,
                b == *divisor,
                0 < b@ < pow256(),
                self@ < pow256(),
                work@ == (self@ % pow2((256 - k) as nat)) * pow2(k as nat),
                self@ / pow2((256 - k) as nat) == q@ * b@ + rem@,
                rem@ < b@,
            decreases 256 - k,
        {
            let ghost cons = self@ / pow2((256 - k) as nat);
            let ghost rem0 = rem@;
            let ghost q0 = q@;
            let (w2, bit) = work.shl1_with(false);
            proof {
                lemma_shift_step(self@, k as nat);
                w2.lemma_in_range();
                let sbit = (self@ % pow2((256 - k) as nat)) / pow2((255 - k) as nat);
                lemma_unique_carry(
                    2 * work@,
                    if bit {
                        1nat
                    } else {
                        0nat
                    },
                    w2@,
                    sbit,
                    (self@ % pow2((255 - k) as nat)) * pow2((k + 1) as nat),
                );
            }
            let ghost bitn: nat = if bit {
                1
            } else {
                0
            };
            let ghost cons2 = 2 * cons + bitn;
            let (rem2, carry2) = rem.shl1_with(bit);
            // the true value of the shifted remainder is 2*rem + bit, at most 2*b - 1
            let ghost rem2_true: nat = 2 * rem0 + bitn;
            proof {
                rem2.lemma_in_range();
            }
            let qbit: bool = carry2 || !rem2.lt(&b);
            if qbit {
                proof {
                    if carry2 {
                        assert(rem2_true == pow256() + rem2@);
                        assert(rem2@ < b@);
                    } else {
                        assert(rem2_true == rem2@);
                        assert(rem2@ >= b@);
                    }
                }
                let reduced = rem2.sub_wrap(&b);
                proof {
                    assert(reduced@ == rem2_true - b@);
                }
                rem = reduced;
            } else {
                proof {
                    assert(rem2_true == rem2@ && rem2@ < b@);
                }
                rem = rem2;
            }
            // the quotient gains the matching bit; no carry can leave it
            proof {
                assert(q0 <= cons) by (nonlinear_arith)
                    requires
                        cons == q0 * b@ + rem0,
                        b@ >= 1,
                        rem0 >= 0,
                ;
                lemma_pow2_pos((256 - k) as nat);
                lemma_pow2_pos(k as nat);
                lemma_fundamental_div_mod(self@ as int, pow2((256 - k) as nat) as int);
                lemma_mod_pos_bound(self@ as int, pow2((256 - k) as nat) as int);
                lemma_pow2_adds((256 - k) as nat, k as nat);
                lemma_pow2_values();
                assert(cons < pow2(k as nat)) by (nonlinear_arith)
                    requires
                        self@ == pow2((256 - k) as nat) * cons + (self@ % pow2(
                            (256 - k) as nat,
                        )),
                        self@ % pow2((256 - k) as nat) >= 0,
                        self@ < pow2(256),
                        pow2(256) == pow2((256 - k) as nat) * pow2(k as nat),
                        pow2((256 - k) as nat) > 0,
                ;
                lemma_pow2_adds(k as nat, 1);
                lemma_pow2_values();
                assert(pow2((k + 1) as nat) <= pow2(256)) by {
                    lemma_pow2_adds((k + 1) as nat, (255 - k) as nat);
                    lemma_pow2_pos((k + 1) as nat);
                    lemma_pow2_pos((255 - k) as nat);
                    lemma_mul_inequality(
                        1,
                        pow2((255 - k) as nat) as int,
                        pow2((k + 1) as nat) as int,
                    );
                }
            }
            let (q2, qcarry) = q.shl1_with(qbit);
            proof {
                let qbitn: nat = if qbit {
                    1
                } else {
                    0
                };
                q2.lemma_in_range();
                assert(!qcarry);
                assert(q2@ == 2 * q@ + qbitn);
                if qbit {
                    assert(q2@ * b@ + (rem2_true - b@) == cons2) by (nonlinear_arith)
                        requires
                            q2@ == 2 * q0 + 1,
                            cons == q0 * b@ + rem0,
                            cons2 == 2 * cons + bitn,
                            rem2_true == 2 * rem0 + bitn,
                    ;
                } else {
                    assert(q2@ * b@ + rem2_true == cons2) by (nonlinear_arith)
                        requires
                            q2@ == 2 * q0,
                            cons == q0 * b@ + rem0,
                            cons2 == 2 * cons + bitn,
                            rem2_true == 2 * rem0 + bitn,
                    ;
                }
            }
            q = q2;
            work = w2;
            k = k + 1;
        }
        proof {
            lemma_pow2_values();
            assert(self@ / pow2(0) == self@);
            lemma_fundamental_div_mod_converse(
                self@ as int,
                b@ as int,
                q@ as int,
                rem@ as int,
            );
        }
        (q, rem)
    }

    /// Division that yields zero on a zero divisor, as the quoting rules ask.
    pub fn checked_div_or_zero(&self, divisor: &U256) -> (r: U256)
        ensures
            r@ == if divisor@ == 0 {
                0nat
            } else {
                self@ / divisor@
            },
    {
        if divisor.is_zero() {
            U256::zero()
        } else {
            self.div_rem(divisor).0
        }
    }
}

/// The canonical decimal rendering of a value: no sign, no leading zero
/// except for zero itself, never exponent notation.
pub open spec fn spec_dec_string(n: nat) -> Seq<char>
    decreases n,
{
    if n < 10 {
        seq![crate::text::dec_digit_char(n)]
    } else {
        spec_dec_string(n / 10).push(crate::text::dec_digit_char(n % 10))
    }
}

/// The value of a sequence of decimal digit characters, most significant
/// first.
pub open spec fn spec_dec_value(s: Seq<char>) -> nat
    decreases s.len(),
{
    if s.len() == 0 {
        0
    } else {
        spec_dec_value(s.drop_last()) * 10 + crate::text::char_digit(s.last())
    }
}

pub open spec fn all_dec_digits(s: Seq<char>) -> bool {
    forall|i: int| 0 <= i < s.len() ==> crate::text::is_dec_digit(#[trigger] s[i])
}

/// Appending a digit multiplies the rendered value by ten and adds it.
proof fn lemma_dec_value_push(s: Seq<char>, c: char)
    ensures
        spec_dec_value(s.push(c)) == spec_dec_value(s) * 10 + crate::text::char_digit(c),
{
    assert(s.push(c).drop_last() =~= s);
    assert(s.push(c).last() == c);
}

/// A prefix of a digit string never renders a larger value than the whole.
proof fn lemma_dec_value_prefix_le(s: Seq<char>, i: int)
    requires
        0 <= i <= s.len(),
    ensures
        spec_dec_value(s.take(i)) <= spec_dec_value(s),
    decreases s.len() - i,
{
    if i < s.len() {
        lemma_dec_value_prefix_le(s, i + 1);
        assert(s.take(i + 1).drop_last() =~= s.take(i));
        assert(spec_dec_value(s.take(i + 1)) == spec_dec_value(s.take(i)) * 10
            + crate::text::char_digit(s.take(i + 1).last()));
        assert(spec_dec_value(s.take(i)) * 10 >= spec_dec_value(s.take(i)));
    } else {
        assert(s.take(i) =~= s);
    }
}

/// Why parsing a decimal string failed.
#[derive(Clone, Copy, PartialEq, Eq, Structural, Debug)]
pub enum DecParseError {
    /// The string is empty.
    Empty,
    /// Some character is not a decimal digit.
    InvalidDigit,
    /// The value does not fit in 256 bits.
    TooLarge,
}

impl U256 {
    /// Render the value in decimal.
    pub fn to_dec_string(&self) -> (r: String)
        ensures
            r@ == spec_dec_string(self@),
    {
        let ten = U256::from_u64(10);
        let mut digits: Vec<u8> = Vec::new();
        let mut cur = *self;
        let ghost orig = self@;
        let ghost mut tail: Seq<char> = Seq::empty();
        if cur.is_zero() {
            let mut s = String::new();
            s.push('0');
            return s;
        }
        while !cur.is_zero()
            invariant
                ten@ == 10,
                cur@ > 0 ==> spec_dec_string(orig) == spec_dec_string(cur@) + tail,
                cur@ == 0 ==> spec_dec_string(orig) == tail,
                tail.len() == digits.len(),
                forall|i: int|
                    0 <= i < digits.len() ==> digits@[i] < 10 && tail[digits.len() - 1 - i]
                        == crate::text::dec_digit_char(#[trigger] digits@[i] as nat),
            decreases cur@,
        {
            let (q, r) = cur.div_rem(&ten);
            proof {
                assert(r@ < 10);
                assert(r.hi == 0) by {
                    if r.hi >= 1 {
                        assert(r.hi * pow128() >= 1 * pow128()) by (nonlinear_arith)
                            requires
                                r.hi >= 1,
                        ;
                    }
                }
                assert(q@ < cur@) by {
                    assert(cur@ == q@ * 10 + r@);
                    if q@ >= cur@ {
                        assert(q@ * 10 >= cur@ * 10) by (nonlinear_arith)
                            requires
                                q@ >= cur@,
                        ;
                    }
                }
                if cur@ >= 10 {
                    assert(spec_dec_string(cur@) == spec_dec_string(cur@ / 10).push(
                        crate::text::dec_digit_char(cur@ % 10),
                    ));
                } else {
                    assert(spec_dec_string(cur@) == seq![
                        crate::text::dec_digit_char(cur@ as nat),
                    ]);
                }
                assert(spec_dec_string(cur@ / 10).push(crate::text::dec_digit_char(cur@ % 10))
                    + tail =~= spec_dec_string(cur@ / 10) + (seq![
                    crate::text::dec_digit_char(cur@ % 10),
                ] + tail));
                assert(seq![crate::text::dec_digit_char(cur@ as nat)] + tail =~= seq![
                    crate::text::dec_digit_char(cur@ as nat),
                ] + tail);
            }
            let d: u8 = r.lo as u8;
            digits.push(d);
            proof {
                tail = seq![crate::text::dec_digit_char(d as nat)] + tail;
            }
            cur = q;
        }
        let mut s = String::new();
        let mut j: usize = digits.len();
        while j > 0
            invariant
                j <= digits.len(),
                tail.len() == digits.len(),
                forall|i: int|
                    0 <= i < digits.len() ==> digits@[i] < 10 && tail[digits.len() - 1 - i]
                        == crate::text::dec_digit_char(#[trigger] digits@[i] as nat),
                s@ == tail.take(digits.len() - j),
            decreases j,
        {
            let c = crate::text::digit_char(digits[j - 1]);
            s.push(c);
            proof {
                assert(s@ =~= tail.take(digits.len() - (j - 1)));
            }
            j = j - 1;
        }
        proof {
            assert(s@ =~= tail);
        }
        s
    }

    /// Parse a decimal string: every character a digit, the value within
    /// 256 bits. Mirrors the decimal constructor the quoting pipeline uses
    /// for its configured amounts.
    pub fn from_dec_str(s: &str) -> (r: Result<U256, DecParseError>)
        ensures
            match r {
                Ok(v) => s@.len() > 0 && all_dec_digits(s@) && spec_dec_value(s@) <= u256_max()
                    && v@ == spec_dec_value(s@),
                Err(e) => match e {
                    DecParseError::Empty => s@.len() == 0,
                    DecParseError::InvalidDigit => s@.len() > 0 && !all_dec_digits(s@),
                    DecParseError::TooLarge => s@.len() > 0 && all_dec_digits(s@)
                        && spec_dec_value(s@) > u256_max(),
                },
            },
    {
        let chars = crate::text::str_chars(s);
        if chars.len() == 0 {
            return Err(DecParseError::Empty);
        }
        let mut i: usize = 0;
        while i < chars.len()
            invariant
                i <= chars.len(),
                chars@ == s@,
                all_dec_digits(s@.take(i as int)),
            decreases chars.len() - i,
        {
            if crate::text::digit_value(chars[i]) >= 10 {
                assert(!crate::text::is_dec_digit(s@[i as int]));
                return Err(DecParseError::InvalidDigit);
            }
            proof {
                assert(s@.take(i + 1) =~= s@.take(i as int).push(s@[i as int]));
            }
            i = i + 1;
        }
        proof {
            assert(s@.take(i as int) =~= s@);
        }
        let ten = U256::from_u64(10);
        let max = U256::max_value();
        let mut acc = U256::zero();
        i = 0;
        while i < chars.len()
            invariant
                ten@ == 10,
                max@ == u256_max(),
                i <= chars.len(),
                chars@ == s@,
                chars@.len() > 0,
                all_dec_digits(s@),
                acc@ == spec_dec_value(s@.take(i as int)),
                acc@ <= u256_max(),
            decreases chars.len() - i,
        {
            let d = crate::text::digit_value(chars[i]);
            assert(crate::text::is_dec_digit(s@[i as int]));
            let dv = U256::from_u64(d as u64);
            // acc * 10 + d fits exactly when acc is at most (max - d) / 10
            let limit = max.sub_exact(&dv).div_rem(&ten).0;
            proof {
                let m = u256_max() as int;
                let q = (m - d) / 10;
                lemma_fundamental_div_mod(m - d, 10);
                assert(q * 10 <= m - d);
                if acc@ <= q {
                    assert(acc@ * 10 <= q * 10) by (nonlinear_arith)
                        requires
                            acc@ <= q,
                    ;
                }
                if acc@ > q {
                    // then acc * 10 + d exceeds the maximum
                    assert(acc@ * 10 >= (q + 1) * 10) by (nonlinear_arith)
                        requires
                            acc@ >= q + 1,
                    ;
                    assert((q + 1) * 10 == q * 10 + 10);
                    assert(m - d < (q + 1) * 10);
                }
                lemma_dec_value_push(s@.take(i as int), s@[i as int]);
                assert(s@.take(i + 1).drop_last() =~= s@.take(i as int));
                assert(s@.take(i + 1) =~= s@.take(i as int).push(s@[i as int]));
            }
            if limit.lt(&acc) {
                proof {
                    lemma_dec_value_prefix_le(s@, i + 1);
                }
                return Err(DecParseError::TooLarge);
            }
            let shifted = acc.mul_sat(&ten);
            proof {
                assert(clamp256(acc@ * 10) == acc@ * 10);
            }
            acc = shifted.add_sat(&dv);
            i = i + 1;
        }
        proof {
            assert(s@.take(i as int) =~= s@);
        }
        Ok(acc)
    }
}

/// Limb-wise comparison agrees with comparison of the values.
proof fn lemma_limb_order(a: U256, b: U256)
    ensures
        a@ < b@ <==> (a.hi < b.hi || (a.hi == b.hi && a.lo < b.lo)),
{
    assert(a.lo + a.hi * pow128() < b.lo + b.hi * pow128() <==> (a.hi < b.hi || (a.hi == b.hi
        && a.lo < b.lo))) by (nonlinear_arith)
        requires
            a.lo < pow128(),
            b.lo < pow128(),
    ;
}

} // verus!
