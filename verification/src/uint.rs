//! Unsigned 256-bit words, as the chain hands them out (competition ids,
//! rewards, fees, competitor counts), held as two 128-bit halves.
use vstd::prelude::*;

verus! {

/// 2^128, the weight of the high half.
pub open spec fn half_base() -> nat {
    0x1_0000_0000_0000_0000_0000_0000_0000_0000nat
}

/// 2^256, the modulus of word arithmetic.
pub open spec fn word_modulus() -> nat {
    half_base() * half_base()
}

/// An unsigned 256-bit word: `hi * 2^128 + lo`.
#[derive(Clone, Copy, Debug, PartialEq, Eq, Structural, Hash)]
pub struct Uint256 {
    pub hi: u128,
    pub lo: u128,
}

impl Uint256 {
    /// The number this word stands for.
    pub open spec fn value(self) -> nat {
        self.hi as nat * half_base() + self.lo as nat
    }

    /// The word zero.
    pub fn zero() -> (r: Uint256)
        ensures
            r.value() == 0,
    {
        Uint256 { hi: 0, lo: 0 }
    }

    /// The word that holds `n`.
    pub fn from_u64(n: u64) -> (r: Uint256)
        ensures
            r.value() == n,
    {
        Uint256 { hi: 0, lo: n as u128 }
    }

    /// Whether the word is zero.
    pub fn is_zero(&self) -> (r: bool)
        ensures
            r == (self.value() == 0),
    {
        self.hi == 0 && self.lo == 0
    }

    /// Addition modulo 2^256, as the chain's `U256` `+` computes it.
    pub fn wrapping_add(&self, other: &Uint256) -> (r: Uint256)
        ensures
            r.value() == (self.value() + other.value()) % word_modulus(),
    {
        let (lo, carry): (u128, u128) = if self.lo <= u128::MAX - other.lo {
            (self.lo + other.lo, 0)
        } else {
            (self.lo - (u128::MAX - other.lo) - 1, 1)
        };
        let hi: u128 = if self.hi <= u128::MAX - other.hi && self.hi + other.hi <= u128::MAX - carry {
            self.hi + other.hi + carry
        } else {
            let room: u128 = u128::MAX - self.hi;
            // self.hi + other.hi + carry - 2^128
            if other.hi > room {
                (other.hi - room - 1) + carry
            } else {
                0
            }
        };
        proof {
            lemma_add_halves(self.hi as int, self.lo as int, other.hi as int, other.lo as int,
                hi as int, lo as int, carry as int);
        }
        Uint256 { hi, lo }
    }

    /// Adds one modulo 2^256, as the chain's `U256` `+= 1` does.
    pub fn wrapping_increment(&self) -> (r: Uint256)
        ensures
            r.value() == (self.value() + 1) % word_modulus(),
    {
        let one = Uint256::from_u64(1);
        self.wrapping_add(&one)
    }

    /// Subtracts one from a word that is not zero.
    pub fn decrement(&self) -> (r: Uint256)
        requires
            self.value() > 0,
        ensures
            r.value() == self.value() - 1,
    {
        if self.lo > 0 {
            Uint256 { hi: self.hi, lo: self.lo - 1 }
        } else {
            assert(self.hi > 0) by (nonlinear_arith)
                requires self.value() > 0, self.lo == 0, self.value() == self.hi * half_base() + self.lo;
            assert((self.hi - 1) * half_base() + (half_base() - 1) == self.hi * half_base() - 1)
                by (nonlinear_arith);
            Uint256 { hi: self.hi - 1, lo: u128::MAX }
        }
    }
}

/// Carry arithmetic behind `wrapping_add`.
proof fn lemma_add_halves(ah: int, al: int, bh: int, bl: int, h: int, l: int, c: int)
    requires
        0 <= ah < half_base(),
        0 <= al < half_base(),
        0 <= bh < half_base(),
        0 <= bl < half_base(),
        0 <= h < half_base(),
        0 <= l < half_base(),
        c == 0 || c == 1,
        al + bl == l + c * half_base(),
        h == ah + bh + c || h == ah + bh + c - half_base(),
    ensures
        h * half_base() + l == ((ah * half_base() + al) + (bh * half_base() + bl)) % (
        word_modulus() as int),
{
    let t = half_base() as int;
    let sum = (ah * t + al) + (bh * t + bl);
    assert(sum == (ah + bh + c) * t + l) by (nonlinear_arith)
        requires sum == (ah * t + al) + (bh * t + bl), al + bl == l + c * t;
    assert(0 <= h * t + l < t * t) by (nonlinear_arith)
        requires 0 <= h < t, 0 <= l < t;
    if h == ah + bh + c {
        assert(sum == h * t + l);
        vstd::arithmetic::div_mod::lemma_small_mod((h * t + l) as nat, (t * t) as nat);
    } else {
        assert(sum == (h * t + l) + t * t) by (nonlinear_arith)
            requires sum == (ah + bh + c) * t + l, h == ah + bh + c - t;
        vstd::arithmetic::div_mod::lemma_mod_add_multiples_vanish(h * t + l, t * t);
        vstd::arithmetic::div_mod::lemma_small_mod((h * t + l) as nat, (t * t) as nat);
    }
}

/// Two words are the same word exactly when they stand for the same number.
pub proof fn lemma_value_injective(a: Uint256, b: Uint256)
    ensures
        (a == b) <==> (a.value() == b.value()),
{
    if a.value() == b.value() {
        let t = half_base() as int;
        if a.hi < b.hi {
            assert(a.hi * t + a.lo < b.hi * t + b.lo) by (nonlinear_arith)
                requires a.hi < b.hi, 0 <= a.lo < t, 0 <= b.lo, t > 0;
        } else if a.hi > b.hi {
            assert(b.hi * t + b.lo < a.hi * t + a.lo) by (nonlinear_arith)
                requires b.hi < a.hi, 0 <= b.lo < t, 0 <= a.lo, t > 0;
        }
    }
}

/// Every word stands for a number below 2^256.
pub proof fn lemma_value_bounded(a: Uint256)
    ensures
        a.value() < word_modulus(),
{
    let t = half_base() as int;
    assert(a.hi * t + a.lo < t * t) by (nonlinear_arith)
        requires 0 <= a.hi < t, 0 <= a.lo < t;
}

} // verus!
