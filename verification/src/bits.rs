//! The machine word: sixteen bits, least significant first.
//!
//! A word is kept as its individual bits, the way the simulated hardware
//! holds it. Its view is the unsigned number those bits spell, and every
//! operation is specified over that number.

use vstd::arithmetic::div_mod::{lemma_breakdown, lemma_fundamental_div_mod_converse};
use vstd::arithmetic::power2::{lemma2_to64, lemma_pow2_unfold, pow2};
use vstd::prelude::*;

verus! {

/// Width of a machine word in bits.
pub const BITNESS: usize = 16;

/// Number of distinct values a word can take.
pub const WORD_MODULUS: u32 = 0x1_0000;

/// The number spelled by the lowest `n` entries of `bits`, entry `i`
/// weighing `2^i`.
pub open spec fn low_value(bits: Seq<bool>, n: nat) -> nat
    decreases n,
{
    if n == 0 {
        0
    } else {
        low_value(bits, (n - 1) as nat) + if bits[n - 1] {
            pow2((n - 1) as nat)
        } else {
            0
        }
    }
}

/// Whether the binary expansion of `value` has a one at position `i`.
pub open spec fn bit_of(value: nat, i: nat) -> bool {
    (value / pow2(i)) % 2 == 1
}

/// The binary digit that shows a bit.
pub open spec fn bit_char(bit: bool) -> char {
    if bit {
        '1'
    } else {
        '0'
    }
}

/// The sixteen binary digits of `value`, most significant first.
pub open spec fn binary_digits(value: nat) -> Seq<char> {
    Seq::new(16, |k: int| bit_char(bit_of(value, (15 - k) as nat)))
}

/// The number that a word holds when it is made from `num`: the low
/// sixteen bits of `num`.
pub open spec fn word_of(num: u32) -> u16 {
    (num % 0x1_0000) as u16
}

/// A number below `2^16` is held as it is, and shows as sixteen binary
/// digits.
pub proof fn lemma_word_holds_number(u: u32)
    requires
        u < 0x1_0000,
    ensures
        word_of(u) == u,
        binary_digits(word_of(u) as nat).len() == 16,
{
}

/// `value` with the bit at position `i` forced to `bit`.
pub open spec fn with_bit(value: nat, i: nat, bit: bool) -> int {
    value - (if bit_of(value, i) {
        pow2(i) as int
    } else {
        0
    }) + (if bit {
        pow2(i) as int
    } else {
        0
    })
}

proof fn lemma_low_value_bound(bits: Seq<bool>, n: nat)
    ensures
        low_value(bits, n) < pow2(n),
    decreases n,
{
    if n == 0 {
        lemma2_to64();
    } else {
        lemma_low_value_bound(bits, (n - 1) as nat);
        lemma_pow2_unfold(n);
    }
}

proof fn lemma_low_value_frame(a: Seq<bool>, b: Seq<bool>, n: nat)
    requires
        forall|i: int| 0 <= i < n ==> a[i] == b[i],
    ensures
        low_value(a, n) == low_value(b, n),
    decreases n,
{
    if n > 0 {
        lemma_low_value_frame(a, b, (n - 1) as nat);
    }
}

/// The lowest `n` bits spell the whole number reduced modulo `2^n`.
proof fn lemma_low_value_is_mod(bits: Seq<bool>, m: nat, n: nat)
    requires
        n <= m,
    ensures
        low_value(bits, n) == low_value(bits, m) % pow2(n),
    decreases m - n,
{
    lemma_low_value_bound(bits, n);
    if n == m {
        vstd::arithmetic::div_mod::lemma_small_mod(low_value(bits, n), pow2(n));
    } else {
        lemma_low_value_is_mod(bits, m, n + 1);
        let whole = low_value(bits, m) as int;
        let p = pow2(n) as int;
        lemma_pow2_unfold(n + 1);
        lemma_breakdown(whole, p, 2);
        // whole % (p * 2) == p * ((whole / p) % 2) + whole % p
        let upper = low_value(bits, n + 1) as int;
        assert(upper == whole % (p * 2)) by {
            assert(pow2(n + 1) == p * 2);
        }
        let digit = (whole / p) % 2;
        assert(p * digit == if digit == 1 {
            p
        } else {
            0
        }) by (nonlinear_arith)
            requires
                digit == 0 || digit == 1,
        ;
        let low = low_value(bits, n) as int;
        // upper == low + (bits[n] ? p : 0), with low < p, and
        // upper == p * digit + whole % p, with whole % p < p.
        lemma_fundamental_div_mod_converse(
            upper,
            p,
            if bits[n as int] {
                1
            } else {
                0
            },
            low,
        );
        lemma_fundamental_div_mod_converse(upper, p, digit, whole % p);
    }
}

/// Each bit is the matching digit of the number that the bits spell.
proof fn lemma_bit_of_low_value(bits: Seq<bool>, m: nat, i: nat)
    requires
        i < m,
    ensures
        bits[i as int] == bit_of(low_value(bits, m), i),
{
    let whole = low_value(bits, m) as int;
    let p = pow2(i) as int;
    lemma_low_value_is_mod(bits, m, i);
    lemma_low_value_is_mod(bits, m, i + 1);
    lemma_low_value_bound(bits, i);
    lemma_pow2_unfold(i + 1);
    lemma_breakdown(whole, p, 2);
    let digit = (whole / p) % 2;
    assert(pow2(i + 1) == p * 2);
    assert(p * digit == if digit == 1 {
        p
    } else {
        0
    }) by (nonlinear_arith)
        requires
            digit == 0 || digit == 1,
    ;
}

/// Testing a number against a one-bit mask reads the digit at that place.
proof fn lemma_mask_test(num: u32, two: u32, i: u32)
    requires
        i < 16,
        two == pow2(i as nat),
    ensures
        ((two & num) != 0) == bit_of(num as nat, i as nat),
{
    lemma2_to64();
    vstd::bits::lemma_u32_shl_is_mul(1, i);
    assert(two == 1u32 << i);
    assert(((two & num) != 0) == ((num >> i) & 1 == 1)) by (bit_vector)
        requires
            i < 16,
            two == 1u32 << i,
    ;
    vstd::bits::lemma_u32_shr_is_div(num, i);
    let shifted: u32 = num >> i;
    assert(shifted & 1 == shifted % 2) by (bit_vector);
}

/// The level that every bit of a fresh word, and every control line, starts at.
pub(crate) fn low_level(index: usize) -> (level: bool)
    ensures
        !level,
{
    false
}

/// An array of `N` levels, all low.
///
/// Trusted: `array_init::array_init` calls the initializer once for each
/// index of the array and stores at that index what the call returned, so
/// with an initializer that always answers low every entry is low.
#[verifier::external_body]
pub(crate) fn all_low<const N: usize>() -> (levels: [bool; N])
    ensures
        forall|i: int| 0 <= i < N ==> !levels[i],
{
    array_init::array_init(|i| low_level(i))
}

/// A sixteen-bit unsigned machine word.
#[derive(Debug)]
pub struct MValue {
    val: [bool; 16],
}

impl View for MValue {
    type V = u16;

    /// The unsigned number that the bits spell.
    closed spec fn view(&self) -> u16 {
        low_value(self.val@, 16) as u16
    }
}

impl MValue {
    proof fn lemma_view(&self)
        ensures
            self@ == low_value(self.val@, 16),
            pow2(16) == 0x1_0000,
    {
        lemma_low_value_bound(self.val@, 16);
        lemma2_to64();
    }

    /// The level of bit `i`, bit 0 being the least significant.
    pub fn bit(&self, i: usize) -> (level: bool)
        requires
            i < BITNESS,
        ensures
            level == bit_of(self@ as nat, i as nat),
    {
        proof {
            self.lemma_view();
            lemma_bit_of_low_value(self.val@, 16, i as nat);
        }
        self.val[i]
    }

    /// Forces bit `i` to `level` and leaves the other bits alone.
    pub fn set_bit(&mut self, i: usize, level: bool)
        requires
            i < BITNESS,
        ensures
            final(self)@ == with_bit(old(self)@ as nat, i as nat, level),
            bit_of(final(self)@ as nat, i as nat) == level,
            forall|j: nat|
                j < 16 && j != i ==> bit_of(final(self)@ as nat, j) == bit_of(old(self)@ as nat, j),
    {
        let ghost before = self.val@;
        self.val[i] = level;
        proof {
            let after = self.val@;
            old(self).lemma_view();
            self.lemma_view();
            lemma_bit_of_low_value(before, 16, i as nat);
            lemma_bit_of_low_value(after, 16, i as nat);
            assert forall|j: nat| j < 16 && j != i implies bit_of(self@ as nat, j) == bit_of(
                old(self)@ as nat,
                j,
            ) by {
                lemma_bit_of_low_value(before, 16, j);
                lemma_bit_of_low_value(after, 16, j);
            }
            lemma_low_value_update(before, after, 16, i as nat);
        }
    }

    /// Copies every bit of `other` into this word.
    pub fn set(&mut self, other: &MValue)
        ensures
            final(self)@ == other@,
    {
        let mut i: usize = 0;
        while i < BITNESS
            invariant
                i <= 16,
                forall|j: int| 0 <= j < i ==> self.val@[j] == other.val@[j],
            decreases 16 - i,
        {
            self.val[i] = other.val[i];
            i += 1;
        }
        proof {
            lemma_low_value_frame(self.val@, other.val@, 16);
        }
    }

    /// The word read as an unsigned integer.
    pub fn as_u32(&self) -> (value: u32)
        ensures
            value == self@,
    {
        let mut ret: u32 = 0;
        let mut two: u32 = 1;
        let mut i: usize = 0;
        proof {
            lemma2_to64();
        }
        while i < BITNESS
            invariant
                i <= 16,
                two == pow2(i as nat),
                two <= 0x1_0000,
                ret == low_value(self.val@, i as nat),
                ret < two,
            decreases 16 - i,
        {
            proof {
                lemma_pow2_unfold((i + 1) as nat);
                lemma2_to64();
                if i < 15 {
                    vstd::arithmetic::power2::lemma_pow2_strictly_increases(
                        (i + 1) as nat,
                        16,
                    );
                }
            }
            if self.val[i] {
                ret += two;
            }
            two *= 2;
            i += 1;
        }
        proof {
            self.lemma_view();
        }
        ret
    }

    /// The word as sixteen binary digits, most significant first.
    pub fn as_string(&self) -> (digits: String)
        ensures
            digits@ == binary_digits(self@ as nat),
            digits@.len() == 16,
    {
        let mut ret = String::new();
        let mut i: usize = 0;
        proof {
            reveal_strlit("1");
            reveal_strlit("0");
            self.lemma_view();
        }
        while i < BITNESS
            invariant
                i <= 16,
                ret@.len() == i,
                "1"@ == seq!['1'],
                "0"@ == seq!['0'],
                forall|k: int| 0 <= k < i ==> ret@[k] == bit_char(self.val@[15 - k]),
            decreases 16 - i,
        {
            ret.append(
                if self.val[BITNESS - 1 - i] {
                    "1"
                } else {
                    "0"
                },
            );
            i += 1;
        }
        proof {
            assert forall|k: int| 0 <= k < 16 implies ret@[k] == binary_digits(self@ as nat)[k] by {
                lemma_bit_of_low_value(self.val@, 16, (15 - k) as nat);
            }
            assert(ret@ =~= binary_digits(self@ as nat));
        }
        ret
    }

    /// The word that holds the low sixteen bits of `num`.
    pub fn from_u32(num: u32) -> (word: MValue)
        ensures
            word@ == word_of(num),
    {
        let mut ret = MValue { val: all_low::<16>() };
        let mut two: u32 = 1;
        let mut i: usize = 0;
        proof {
            lemma2_to64();
            assert(num as nat % 1 == 0);
        }
        while i < BITNESS
            invariant
                i <= 16,
                two == pow2(i as nat),
                0 < two <= 0x1_0000,
                low_value(ret.val@, i as nat) == (num as nat) % pow2(i as nat),
            decreases 16 - i,
        {
            let ghost before = ret.val@;
            ret.val[i] = (two & num) != 0;
            proof {
                lemma_mask_test(num, two, i as u32);
                lemma_low_value_frame(before, ret.val@, i as nat);
                lemma_pow2_unfold((i + 1) as nat);
                lemma_breakdown(num as int, two as int, 2);
                let digit = (num as int / two as int) % 2;
                assert(two as int * digit == if digit == 1 {
                    two as int
                } else {
                    0
                }) by (nonlinear_arith)
                    requires
                        digit == 0 || digit == 1,
                ;
                lemma2_to64();
                if i < 15 {
                    vstd::arithmetic::power2::lemma_pow2_strictly_increases(
                        (i + 1) as nat,
                        16,
                    );
                }
            }
            two *= 2;
            i += 1;
        }
        proof {
            ret.lemma_view();
        }
        ret
    }
}

impl MValue {
    /// Adds `other` to this word, wrapping modulo `2^16`.
    ///
    /// A ripple-carry adder over the sixteen bit positions.
    pub fn add(&mut self, other: &MValue)
        ensures
            final(self)@ == (old(self)@ + other@) % 0x1_0000,
    {
        let mut result = MValue::from_u32(0);
        let mut carry = false;
        let mut i: usize = 0;
        while i < BITNESS
            invariant
                i <= 16,
                low_value(result.val@, i as nat) + (if carry {
                    pow2(i as nat)
                } else {
                    0
                }) == low_value(self.val@, i as nat) + low_value(other.val@, i as nat),
            decreases 16 - i,
        {
            let a_bit = self.val[i];
            let b_bit = other.val[i];
            let sum = (a_bit ^ b_bit) ^ carry;
            let ghost before = result.val@;
            result.val[i] = sum;
            proof {
                lemma_low_value_frame(before, result.val@, i as nat);
                lemma_pow2_unfold((i + 1) as nat);
            }
            carry = (a_bit && b_bit) || (a_bit && carry) || (b_bit && carry);
            i += 1;
        }
        proof {
            self.lemma_view();
            other.lemma_view();
            result.lemma_view();
            let total = self@ + other@;
            lemma_fundamental_div_mod_converse(
                total,
                0x1_0000,
                if carry {
                    1
                } else {
                    0
                },
                result@ as int,
            );
        }
        self.set(&result);
    }

    /// Subtracts `other` from this word, wrapping modulo `2^16`.
    ///
    /// A ripple-borrow subtractor over the sixteen bit positions.
    pub fn sub(&mut self, other: &MValue)
        ensures
            final(self)@ == (old(self)@ - other@) % 0x1_0000,
    {
        let mut result = MValue::from_u32(0);
        let mut borrow = false;
        let mut i: usize = 0;
        while i < BITNESS
            invariant
                i <= 16,
                low_value(result.val@, i as nat) - (if borrow {
                    pow2(i as nat) as int
                } else {
                    0
                }) == low_value(self.val@, i as nat) - low_value(other.val@, i as nat),
            decreases 16 - i,
        {
            let a_bit = self.val[i];
            let b_bit = other.val[i];
            let diff = (a_bit ^ b_bit) ^ borrow;
            let ghost before = result.val@;
            result.val[i] = diff;
            proof {
                lemma_low_value_frame(before, result.val@, i as nat);
                lemma_pow2_unfold((i + 1) as nat);
            }
            borrow = (!a_bit && b_bit) || ((!a_bit || b_bit) && borrow);
            i += 1;
        }
        proof {
            self.lemma_view();
            other.lemma_view();
            result.lemma_view();
            let total = self@ - other@;
            lemma_fundamental_div_mod_converse(
                total,
                0x1_0000,
                if borrow {
                    -1
                } else {
                    0
                },
                result@ as int,
            );
        }
        self.set(&result);
    }

    /// Multiplies this word by `other`, wrapping modulo `2^16`.
    pub fn mul(&mut self, other: &MValue)
        ensures
            final(self)@ == (old(self)@ * other@) % 0x1_0000,
    {
        let my_val = self.as_u32();
        let other_val = other.as_u32();
        assert(my_val * other_val <= 0xffff * 0xffff) by (nonlinear_arith)
            requires
                my_val <= 0xffff,
                other_val <= 0xffff,
        ;
        let ret = (my_val * other_val) % WORD_MODULUS;
        self.set(&MValue::from_u32(ret));
    }

    /// Divides this word by `other`, dropping the remainder.
    pub fn div(&mut self, other: &MValue)
        requires
            other@ != 0,
        ensures
            final(self)@ == old(self)@ / other@,
    {
        let my_val = self.as_u32();
        let other_val = other.as_u32();
        let ret = my_val / other_val;
        proof {
            vstd::arithmetic::div_mod::lemma_div_is_ordered_by_denominator(
                my_val as int,
                1,
                other_val as int,
            );
        }
        self.set(&MValue::from_u32(ret));
    }
}

impl Clone for MValue {
    /// A word of its own that spells the same number.
    fn clone(&self) -> (copy: Self)
        ensures
            copy@ == self@,
    {
        let mut ret = MValue::from_u32(0);
        ret.set(self);
        ret
    }
}

impl Default for MValue {
    /// The word zero.
    fn default() -> (word: Self)
        ensures
            word@ == 0,
    {
        MValue::from_u32(0)
    }
}

/// Two words that spell the same number hold the same bits.
pub proof fn lemma_same_number_same_word(a: MValue, b: MValue)
    requires
        a@ == b@,
    ensures
        a == b,
{
    a.lemma_view();
    b.lemma_view();
    assert forall|i: int| 0 <= i < 16 implies a.val@[i] == b.val@[i] by {
        lemma_bit_of_low_value(a.val@, 16, i as nat);
        lemma_bit_of_low_value(b.val@, 16, i as nat);
    }
    assert(a.val@ =~= b.val@);
    assert(a.val == b.val);
}

/// Changing one bit moves the number by that bit's weight.
proof fn lemma_low_value_update(before: Seq<bool>, after: Seq<bool>, m: nat, i: nat)
    requires
        i < m,
        before.len() == after.len(),
        forall|j: int| 0 <= j < m && j != i ==> before[j] == after[j],
    ensures
        low_value(after, m) == low_value(before, m) - (if before[i as int] {
            pow2(i) as int
        } else {
            0
        }) + (if after[i as int] {
            pow2(i) as int
        } else {
            0
        }),
    decreases m,
{
    if m == i + 1 {
        lemma_low_value_frame(before, after, i);
    } else {
        lemma_low_value_update(before, after, (m - 1) as nat, i);
    }
}

} // verus!
