//! Arbitrary-precision integers, held as two's-complement little-endian bytes and computed on
//! by `num_bigint`.

use num_bigint::BigInt as NumBigInt;
use vstd::arithmetic::div_mod::{lemma_div_decreases, lemma_div_nonincreasing, lemma_div_pos_is_pos, lemma_fundamental_div_mod, lemma_fundamental_div_mod_converse, lemma_mod_bound};
use vstd::arithmetic::power::pow;
use vstd::arithmetic::power2::pow2;
use vstd::prelude::*;

verus! {

/// The unsigned value of little-endian base-256 digits.
pub open spec fn le_bytes_value(bytes: Seq<u8>) -> nat
    decreases bytes.len(),
{
    if bytes.len() == 0 {
        0
    } else {
        bytes[0] as nat + 256 * le_bytes_value(bytes.drop_first())
    }
}

/// The signed value of a two's-complement little-endian byte string (the empty string is 0).
pub open spec fn twos_complement_value(bytes: Seq<u8>) -> int {
    if bytes.len() > 0 && bytes.last() >= 128 {
        le_bytes_value(bytes) - pow(256, bytes.len())
    } else {
        le_bytes_value(bytes) as int
    }
}

/// An arbitrary-precision integer.
#[derive(Clone, Debug, PartialEq, Eq)]
pub struct BigInt {
    bytes: Vec<u8>,
}

impl View for BigInt {
    type V = int;

    closed spec fn view(&self) -> int {
        twos_complement_value(self.bytes@)
    }
}

/// Quotient of `a / b` rounded toward zero, as Rust's and `num_bigint`'s `/` compute it.
pub open spec fn trunc_div(a: int, b: int) -> int {
    let q = (if a < 0 { -a } else { a }) / (if b < 0 { -b } else { b });
    if (a < 0) != (b < 0) {
        -q
    } else {
        q
    }
}

/// Remainder of `a % b` under truncating division: it takes the dividend's sign.
pub open spec fn trunc_rem(a: int, b: int) -> int {
    a - b * trunc_div(a, b)
}


/// For a positive divisor, the truncating remainder lies strictly between `-m` and `m`, and is the
/// Euclidean remainder, or that minus `m` when it is negative.
pub proof fn lemma_trunc_rem_to_mod(a: int, m: int)
    requires
        m > 0,
    ensures
        -m < trunc_rem(a, m) < m,
        trunc_rem(a, m) >= 0 ==> trunc_rem(a, m) == a % m,
        trunc_rem(a, m) < 0 ==> trunc_rem(a, m) + m == a % m,
        a >= 0 ==> trunc_rem(a, m) >= 0,
        a <= 0 ==> trunc_rem(a, m) <= 0,
{
    if a >= 0 {
        lemma_fundamental_div_mod(a, m);
        lemma_mod_bound(a, m);
        assert(trunc_div(a, m) == a / m);
    } else {
        let q = (-a) / m;
        let r = (-a) % m;
        lemma_fundamental_div_mod(-a, m);
        lemma_mod_bound(-a, m);
        assert(trunc_div(a, m) == -q);
        assert(trunc_rem(a, m) == a + m * q) by (nonlinear_arith)
            requires
                trunc_div(a, m) == -q,
                trunc_rem(a, m) == a - m * trunc_div(a, m),
        ;
        assert(trunc_rem(a, m) == -r);
        if r == 0 {
            assert(a == (-q) * m + 0) by (nonlinear_arith)
                requires
                    -a == m * q + r,
                    r == 0,
            ;
            lemma_fundamental_div_mod_converse(a, m, -q, 0);
        } else {
            assert(a == (-q - 1) * m + (m - r)) by (nonlinear_arith)
                requires
                    -a == m * q + r,
            ;
            lemma_fundamental_div_mod_converse(a, m, -q - 1, m - r);
        }
    }
}


/// The absolute value.
pub open spec fn abs(a: int) -> int {
    if a < 0 {
        -a
    } else {
        a
    }
}

/// Truncating division in terms of the magnitudes: the quotient's magnitude is `|a| / |b|`, at
/// most `|a|` and equal to it only when `|a|` is zero or `|b|` is one; the remainder has the
/// dividend's sign and magnitude `|a| % |b| < |b|`.
pub proof fn lemma_trunc_div_rem(a: int, b: int)
    requires
        b != 0,
    ensures
        a == b * trunc_div(a, b) + trunc_rem(a, b),
        trunc_div(a, b) == (if (a < 0) != (b < 0) { -(abs(a) / abs(b)) } else { abs(a) / abs(b) }),
        0 <= abs(a) / abs(b) <= abs(a),
        abs(a) / abs(b) == abs(a) ==> (abs(a) == 0 || abs(b) == 1),
        trunc_rem(a, b) == (if a < 0 { -(abs(a) % abs(b)) } else { abs(a) % abs(b) }),
        0 <= abs(a) % abs(b) < abs(b),
{
    let aa = abs(a);
    let bb = abs(b);
    lemma_fundamental_div_mod(aa, bb);
    lemma_mod_bound(aa, bb);
    lemma_div_pos_is_pos(aa, bb);
    lemma_div_nonincreasing(aa, bb);
    if aa > 0 && bb > 1 {
        lemma_div_decreases(aa, bb);
    }
    let q = aa / bb;
    let r = aa % bb;
    assert(trunc_rem(a, b) == (if a < 0 { -r } else { r })) by (nonlinear_arith)
        requires
            aa == bb * q + r,
            aa == abs(a),
            bb == abs(b),
            b != 0,
            trunc_div(a, b) == (if (a < 0) != (b < 0) { -q } else { q }),
            trunc_rem(a, b) == a - b * trunc_div(a, b),
    ;
}

/// `a >> n` rounded toward negative infinity.
pub open spec fn floor_shr(a: int, n: nat) -> int {
    a / (pow2(n) as int)
}

/// Bitwise AND of two naturals.
pub open spec fn nat_and(a: nat, b: nat) -> nat
    decreases a,
{
    if a == 0 || b == 0 {
        0
    } else {
        2 * nat_and(a / 2, b / 2) + (if a % 2 == 1 && b % 2 == 1 { 1nat } else { 0nat })
    }
}

/// Bitwise OR of two naturals.
pub open spec fn nat_or(a: nat, b: nat) -> nat
    decreases a + b,
{
    if a == 0 {
        b
    } else if b == 0 {
        a
    } else {
        2 * nat_or(a / 2, b / 2) + (if a % 2 == 1 || b % 2 == 1 { 1nat } else { 0nat })
    }
}

/// Bitwise XOR of two naturals.
pub open spec fn nat_xor(a: nat, b: nat) -> nat
    decreases a + b,
{
    if a == 0 {
        b
    } else if b == 0 {
        a
    } else {
        2 * nat_xor(a / 2, b / 2) + (if a % 2 != b % 2 { 1nat } else { 0nat })
    }
}

/// The decimal digit character for `d < 10`.
pub open spec fn digit_char(d: nat) -> char {
    (48 + d) as char
}

/// The decimal digits of a natural, most significant first, without leading zeros.
pub open spec fn nat_decimal(n: nat) -> Seq<char>
    decreases n,
{
    if n < 10 {
        seq![digit_char(n)]
    } else {
        nat_decimal(n / 10).push(digit_char(n % 10))
    }
}

/// The decimal rendering of an integer, with a leading `-` when negative.
pub open spec fn int_decimal(i: int) -> Seq<char> {
    if i < 0 {
        seq!['-'] + nat_decimal((-i) as nat)
    } else {
        nat_decimal(i as nat)
    }
}

/// The value of big-endian base-256 digits (most significant first).
pub open spec fn be_bytes_value(bytes: Seq<u8>) -> nat
    decreases bytes.len(),
{
    if bytes.len() == 0 {
        0
    } else {
        be_bytes_value(bytes.drop_last()) * 256 + bytes.last() as nat
    }
}

/// `num_bigint::BigInt::to_bytes_be`: the big-endian bytes of the magnitude (the sign dropped).
#[verifier::external_body]
fn num_to_bytes_be(a: &BigInt) -> (r: Vec<u8>)
    ensures
        be_bytes_value(r@) == abs(a@),
{
    NumBigInt::from_signed_bytes_le(&a.bytes).to_bytes_be().1
}

/// The number of bits needed to write `n`: zero for zero.
pub open spec fn bit_length(n: nat) -> nat
    decreases n,
{
    if n == 0 {
        0
    } else {
        1 + bit_length(n / 2)
    }
}

/// `num_bigint::BigInt::bits`: the fewest bits that express the magnitude.
#[verifier::external_body]
fn num_bits(a: &BigInt) -> (r: u64)
    ensures
        r == bit_length(abs(a@) as nat),
{
    NumBigInt::from_signed_bytes_le(&a.bytes).bits()
}

/// The base-`radix` digits of `n`, least significant first, without trailing zeros (none for
/// zero).
pub open spec fn radix_digits(n: nat, radix: nat) -> Seq<u8>
    decreases n,
{
    if n == 0 || radix < 2 {
        Seq::empty()
    } else {
        proof {
            lemma_div_decreases(n as int, radix as int);
        }
        seq![(n % radix) as u8] + radix_digits(n / radix, radix)
    }
}

/// `num_bigint::BigInt::to_radix_le`: the magnitude's digits in base `radix`, least significant
/// first, stated for a positive value.
#[verifier::external_body]
fn num_to_radix_le(a: &BigInt, radix: u32) -> (r: Vec<u8>)
    requires
        a@ > 0,
        2 <= radix <= 256,
    ensures
        r@ == radix_digits(a@ as nat, radix as nat),
{
    NumBigInt::from_signed_bytes_le(&a.bytes).to_radix_le(radix).1
}

/// `num_bigint::BigInt::from_bytes_be` with a plus sign: the integer the big-endian bytes write.
#[verifier::external_body]
fn num_from_bytes_be(bytes: &Vec<u8>) -> (r: BigInt)
    ensures
        r@ == be_bytes_value(bytes@),
{
    BigInt { bytes: NumBigInt::from_bytes_be(num_bigint::Sign::Plus, bytes).to_signed_bytes_le() }
}

/// `num_bigint::BigInt::from(i128)`: the integer `v`.
#[verifier::external_body]
fn num_from_i128(v: i128) -> (r: BigInt)
    ensures
        r@ == v as int,
{
    BigInt { bytes: NumBigInt::from(v).to_signed_bytes_le() }
}

/// `num_bigint::BigInt::from(u128)`: the integer `v`.
#[verifier::external_body]
fn num_from_u128(v: u128) -> (r: BigInt)
    ensures
        r@ == v as int,
{
    BigInt { bytes: NumBigInt::from(v).to_signed_bytes_le() }
}

/// `num_bigint::BigInt + BigInt`: the exact sum.
#[verifier::external_body]
fn num_add(a: &BigInt, b: &BigInt) -> (r: BigInt)
    ensures
        r@ == a@ + b@,
{
    let x = NumBigInt::from_signed_bytes_le(&a.bytes);
    let y = NumBigInt::from_signed_bytes_le(&b.bytes);
    BigInt { bytes: (x + y).to_signed_bytes_le() }
}

/// `num_bigint::BigInt - BigInt`: the exact difference.
#[verifier::external_body]
fn num_sub(a: &BigInt, b: &BigInt) -> (r: BigInt)
    ensures
        r@ == a@ - b@,
{
    let x = NumBigInt::from_signed_bytes_le(&a.bytes);
    let y = NumBigInt::from_signed_bytes_le(&b.bytes);
    BigInt { bytes: (x - y).to_signed_bytes_le() }
}

/// `num_bigint::BigInt * BigInt`: the exact product.
#[verifier::external_body]
fn num_mul(a: &BigInt, b: &BigInt) -> (r: BigInt)
    ensures
        r@ == a@ * b@,
{
    let x = NumBigInt::from_signed_bytes_le(&a.bytes);
    let y = NumBigInt::from_signed_bytes_le(&b.bytes);
    BigInt { bytes: (x * y).to_signed_bytes_le() }
}

/// `-num_bigint::BigInt`: the negation.
#[verifier::external_body]
fn num_neg(a: &BigInt) -> (r: BigInt)
    ensures
        r@ == -a@,
{
    let x = NumBigInt::from_signed_bytes_le(&a.bytes);
    BigInt { bytes: (-x).to_signed_bytes_le() }
}

/// `num_bigint::BigInt / BigInt`: the quotient rounded toward zero; it panics on a zero divisor.
#[verifier::external_body]
fn num_div(a: &BigInt, b: &BigInt) -> (r: BigInt)
    requires
        b@ != 0,
    ensures
        r@ == trunc_div(a@, b@),
{
    let x = NumBigInt::from_signed_bytes_le(&a.bytes);
    let y = NumBigInt::from_signed_bytes_le(&b.bytes);
    BigInt { bytes: (x / y).to_signed_bytes_le() }
}

/// `num_bigint::BigInt % BigInt`: the remainder with the dividend's sign; it panics on a zero
/// divisor.
#[verifier::external_body]
fn num_rem(a: &BigInt, b: &BigInt) -> (r: BigInt)
    requires
        b@ != 0,
    ensures
        r@ == trunc_rem(a@, b@),
{
    let x = NumBigInt::from_signed_bytes_le(&a.bytes);
    let y = NumBigInt::from_signed_bytes_le(&b.bytes);
    BigInt { bytes: (x % y).to_signed_bytes_le() }
}

/// `num_bigint::BigInt << usize`: multiplication by `2^n`.
#[verifier::external_body]
fn num_shl(a: &BigInt, n: usize) -> (r: BigInt)
    ensures
        r@ == a@ * pow2(n as nat),
{
    let x = NumBigInt::from_signed_bytes_le(&a.bytes);
    BigInt { bytes: (x << n).to_signed_bytes_le() }
}

/// `num_bigint::BigInt >> usize`: division by `2^n` rounded toward negative infinity.
#[verifier::external_body]
fn num_shr(a: &BigInt, n: usize) -> (r: BigInt)
    ensures
        r@ == floor_shr(a@, n as nat),
{
    let x = NumBigInt::from_signed_bytes_le(&a.bytes);
    BigInt { bytes: (x >> n).to_signed_bytes_le() }
}

/// `num_bigint::BigInt & BigInt`, stated for non-negative operands: their bitwise AND.
#[verifier::external_body]
fn num_bitand(a: &BigInt, b: &BigInt) -> (r: BigInt)
    requires
        a@ >= 0,
        b@ >= 0,
    ensures
        r@ == nat_and(a@ as nat, b@ as nat),
{
    let x = NumBigInt::from_signed_bytes_le(&a.bytes);
    let y = NumBigInt::from_signed_bytes_le(&b.bytes);
    BigInt { bytes: (x & y).to_signed_bytes_le() }
}

/// `num_bigint::BigInt | BigInt`, stated for non-negative operands: their bitwise OR.
#[verifier::external_body]
fn num_bitor(a: &BigInt, b: &BigInt) -> (r: BigInt)
    requires
        a@ >= 0,
        b@ >= 0,
    ensures
        r@ == nat_or(a@ as nat, b@ as nat),
{
    let x = NumBigInt::from_signed_bytes_le(&a.bytes);
    let y = NumBigInt::from_signed_bytes_le(&b.bytes);
    BigInt { bytes: (x | y).to_signed_bytes_le() }
}

/// `num_bigint::BigInt ^ BigInt`, stated for non-negative operands: their bitwise XOR.
#[verifier::external_body]
fn num_bitxor(a: &BigInt, b: &BigInt) -> (r: BigInt)
    requires
        a@ >= 0,
        b@ >= 0,
    ensures
        r@ == nat_xor(a@ as nat, b@ as nat),
{
    let x = NumBigInt::from_signed_bytes_le(&a.bytes);
    let y = NumBigInt::from_signed_bytes_le(&b.bytes);
    BigInt { bytes: (x ^ y).to_signed_bytes_le() }
}

/// `num_bigint::BigInt == BigInt`: whether the values are equal.
#[verifier::external_body]
fn num_eq(a: &BigInt, b: &BigInt) -> (r: bool)
    ensures
        r == (a@ == b@),
{
    NumBigInt::from_signed_bytes_le(&a.bytes) == NumBigInt::from_signed_bytes_le(&b.bytes)
}

/// `num_bigint::BigInt < BigInt`: whether `a` is below `b`.
#[verifier::external_body]
fn num_lt(a: &BigInt, b: &BigInt) -> (r: bool)
    ensures
        r == (a@ < b@),
{
    NumBigInt::from_signed_bytes_le(&a.bytes) < NumBigInt::from_signed_bytes_le(&b.bytes)
}

/// `num_traits::ToPrimitive::to_u64` on a `num_bigint::BigInt`: the value when it fits a `u64`.
#[verifier::external_body]
fn num_to_u64(a: &BigInt) -> (r: Option<u64>)
    ensures
        r == (if 0 <= a@ && a@ <= u64::MAX { Some(a@ as u64) } else { None::<u64> }),
{
    num_traits::ToPrimitive::to_u64(&NumBigInt::from_signed_bytes_le(&a.bytes))
}

/// `num_bigint::BigInt`'s `Display`: the decimal rendering, `-` first when negative.
#[verifier::external_body]
fn num_to_decimal(a: &BigInt) -> (r: String)
    ensures
        r@ == int_decimal(a@),
{
    NumBigInt::from_signed_bytes_le(&a.bytes).to_string()
}

/// `num_bigint::BigInt::modpow`, stated for a non-negative base and exponent and a positive
/// modulus: `base^exponent` reduced into `[0, modulus)`.
#[verifier::external_body]
fn num_modpow(base: &BigInt, exponent: &BigInt, modulus: &BigInt) -> (r: BigInt)
    requires
        base@ >= 0,
        exponent@ >= 0,
        modulus@ > 0,
    ensures
        r@ == pow(base@, exponent@ as nat) % modulus@,
{
    let x = NumBigInt::from_signed_bytes_le(&base.bytes);
    let e = NumBigInt::from_signed_bytes_le(&exponent.bytes);
    let m = NumBigInt::from_signed_bytes_le(&modulus.bytes);
    BigInt { bytes: x.modpow(&e, &m).to_signed_bytes_le() }
}

/// The decimal rendering of `n`.
pub fn u64_decimal(n: u64) -> (r: String)
    ensures
        r@ == nat_decimal(n as nat),
{
    BigInt::from_u128(n as u128).to_decimal()
}

impl BigInt {
    /// A copy of this integer.
    pub fn duplicate(&self) -> (r: BigInt)
        ensures
            r@ == self@,
    {
        BigInt { bytes: self.bytes.clone() }
    }

    /// The digits of this positive integer in base `radix`, least significant first.
    pub fn to_radix_le(&self, radix: u32) -> (r: Vec<u8>)
        requires
            self@ > 0,
            2 <= radix <= 256,
        ensures
            r@ == radix_digits(self@ as nat, radix as nat),
    {
        num_to_radix_le(self, radix)
    }

    /// The non-negative integer that big-endian bytes write.
    pub fn from_be_bytes(bytes: &Vec<u8>) -> (r: BigInt)
        ensures
            r@ == be_bytes_value(bytes@),
    {
        num_from_bytes_be(bytes)
    }

    /// The fewest bits that express this integer's magnitude.
    pub fn bits(&self) -> (r: u64)
        ensures
            r == bit_length(abs(self@) as nat),
    {
        num_bits(self)
    }

    /// The big-endian bytes of this integer's magnitude.
    pub fn magnitude_be_bytes(&self) -> (r: Vec<u8>)
        ensures
            be_bytes_value(r@) == abs(self@),
    {
        num_to_bytes_be(self)
    }

    /// The integer `v`.
    pub fn from_i128(v: i128) -> (r: BigInt)
        ensures
            r@ == v as int,
    {
        num_from_i128(v)
    }

    /// The integer `v`.
    pub fn from_u128(v: u128) -> (r: BigInt)
        ensures
            r@ == v as int,
    {
        num_from_u128(v)
    }

    /// Zero.
    pub fn zero() -> (r: BigInt)
        ensures
            r@ == 0,
    {
        num_from_i128(0)
    }

    /// One.
    pub fn one() -> (r: BigInt)
        ensures
            r@ == 1,
    {
        num_from_i128(1)
    }

    pub fn add(&self, other: &BigInt) -> (r: BigInt)
        ensures
            r@ == self@ + other@,
    {
        num_add(self, other)
    }

    pub fn sub(&self, other: &BigInt) -> (r: BigInt)
        ensures
            r@ == self@ - other@,
    {
        num_sub(self, other)
    }

    pub fn mul(&self, other: &BigInt) -> (r: BigInt)
        ensures
            r@ == self@ * other@,
    {
        num_mul(self, other)
    }

    pub fn neg(&self) -> (r: BigInt)
        ensures
            r@ == -self@,
    {
        num_neg(self)
    }

    /// Truncating division.
    pub fn div_trunc(&self, other: &BigInt) -> (r: BigInt)
        requires
            other@ != 0,
        ensures
            r@ == trunc_div(self@, other@),
    {
        num_div(self, other)
    }

    /// Remainder of truncating division.
    pub fn rem_trunc(&self, other: &BigInt) -> (r: BigInt)
        requires
            other@ != 0,
        ensures
            r@ == trunc_rem(self@, other@),
    {
        num_rem(self, other)
    }

    pub fn shl(&self, n: usize) -> (r: BigInt)
        ensures
            r@ == self@ * pow2(n as nat),
    {
        num_shl(self, n)
    }

    /// Arithmetic shift right (rounds toward negative infinity).
    pub fn shr(&self, n: usize) -> (r: BigInt)
        ensures
            r@ == floor_shr(self@, n as nat),
    {
        num_shr(self, n)
    }

    pub fn bitand(&self, other: &BigInt) -> (r: BigInt)
        requires
            self@ >= 0,
            other@ >= 0,
        ensures
            r@ == nat_and(self@ as nat, other@ as nat),
    {
        num_bitand(self, other)
    }

    pub fn bitor(&self, other: &BigInt) -> (r: BigInt)
        requires
            self@ >= 0,
            other@ >= 0,
        ensures
            r@ == nat_or(self@ as nat, other@ as nat),
    {
        num_bitor(self, other)
    }

    pub fn bitxor(&self, other: &BigInt) -> (r: BigInt)
        requires
            self@ >= 0,
            other@ >= 0,
        ensures
            r@ == nat_xor(self@ as nat, other@ as nat),
    {
        num_bitxor(self, other)
    }

    pub fn equals(&self, other: &BigInt) -> (r: bool)
        ensures
            r == (self@ == other@),
    {
        num_eq(self, other)
    }

    pub fn less_than(&self, other: &BigInt) -> (r: bool)
        ensures
            r == (self@ < other@),
    {
        num_lt(self, other)
    }

    pub fn is_zero(&self) -> (r: bool)
        ensures
            r == (self@ == 0),
    {
        let z = BigInt::zero();
        num_eq(self, &z)
    }

    pub fn is_negative(&self) -> (r: bool)
        ensures
            r == (self@ < 0),
    {
        let z = BigInt::zero();
        num_lt(self, &z)
    }

    /// The Euclidean remainder of `self` by a positive `m`, in `[0, m)`.
    pub fn modulo(&self, m: &BigInt) -> (r: BigInt)
        requires
            m@ > 0,
        ensures
            r@ == self@ % m@,
            0 <= r@ < m@,
    {
        proof {
            lemma_trunc_rem_to_mod(self@, m@);
            lemma_mod_bound(self@, m@);
        }
        let t = self.rem_trunc(m);
        if t.is_negative() {
            t.add(m)
        } else {
            t
        }
    }

    /// The value as a `u64`, when it fits.
    pub fn to_u64(&self) -> (r: Option<u64>)
        ensures
            r == (if 0 <= self@ && self@ <= u64::MAX { Some(self@ as u64) } else { None::<u64> }),
    {
        num_to_u64(self)
    }

    /// The decimal rendering.
    pub fn to_decimal(&self) -> (r: String)
        ensures
            r@ == int_decimal(self@),
    {
        num_to_decimal(self)
    }

    /// `self^exponent mod modulus`.
    pub fn modpow(&self, exponent: &BigInt, modulus: &BigInt) -> (r: BigInt)
        requires
            self@ >= 0,
            exponent@ >= 0,
            modulus@ > 0,
        ensures
            r@ == pow(self@, exponent@ as nat) % modulus@,
    {
        num_modpow(self, exponent, modulus)
    }
}

} // verus!
