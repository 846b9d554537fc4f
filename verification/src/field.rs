//! Prime fields and their elements.

use vstd::arithmetic::power::pow;
use vstd::prelude::*;

use acvm::AcirField;

use crate::bigint::{be_bytes_value, BigInt};
use crate::text::owned;

verus! {

/// A prime field a program can be compiled under.
#[derive(Clone, Copy, Debug, PartialEq, Eq, Structural)]
pub enum FieldId {
    Bn254,
    Goldilocks,
}

/// The prime modulus of a field.
pub open spec fn field_modulus(field: FieldId) -> int {
    match field {
        FieldId::Bn254 => 21888242871839275222246405745257275088548364400416034343698204186575808495617int,
        FieldId::Goldilocks => 18446744069414584321int,
    }
}

/// The name a field is written with.
pub open spec fn field_name(field: FieldId) -> Seq<char> {
    match field {
        FieldId::Bn254 => "bn254"@,
        FieldId::Goldilocks => "goldilocks"@,
    }
}

impl FieldId {
    /// The field's name.
    pub fn name(&self) -> (r: String)
        ensures
            r@ == field_name(*self),
    {
        match self {
            FieldId::Bn254 => owned("bn254"),
            FieldId::Goldilocks => owned("goldilocks"),
        }
    }

    /// The field's prime modulus.
    pub fn modulus(&self) -> (r: BigInt)
        ensures
            r@ == field_modulus(*self),
    {
        match self {
            FieldId::Bn254 => {
                let hi = BigInt::from_u128(0x30644e72e131a029b85045b68181585d);
                let lo = BigInt::from_u128(0x2833e84879b9709143e1f593f0000001);
                let half = BigInt::from_u128(0x1_0000_0000_0000_0000);
                let shift = half.mul(&half);
                let r = hi.mul(&shift).add(&lo);
                assert(r@ == field_modulus(FieldId::Bn254));
                r
            },
            FieldId::Goldilocks => BigInt::from_u128(18446744069414584321),
        }
    }
}

/// An element of a prime field, carrying the field it belongs to. Its value is the canonical
/// representative in `[0, p)`.
#[derive(Debug, PartialEq, Eq)]
pub struct FieldValue {
    field: FieldId,
    value: BigInt,
}

impl View for FieldValue {
    type V = (FieldId, int);

    closed spec fn view(&self) -> (FieldId, int) {
        (self.field, self.value@)
    }
}

impl Clone for FieldValue {
    fn clone(&self) -> (r: FieldValue)
        ensures
            r@ == self@,
    {
        self.duplicate()
    }
}

impl FieldValue {
    #[verifier::type_invariant]
    spec fn canonical(self) -> bool {
        0 <= self.value@ < field_modulus(self.field)
    }

    /// The field this element belongs to.
    pub fn field(&self) -> (r: FieldId)
        ensures
            r == self@.0,
    {
        self.field
    }

    /// The element's canonical value in `[0, p)`.
    pub fn value(&self) -> (r: BigInt)
        ensures
            r@ == self@.1,
            0 <= r@ < field_modulus(self@.0),
    {
        proof {
            use_type_invariant(self);
        }
        self.value.duplicate()
    }

    /// A copy of this element.
    pub fn duplicate(&self) -> (r: FieldValue)
        ensures
            r@ == self@,
    {
        proof {
            use_type_invariant(self);
        }
        FieldValue { field: self.field, value: self.value.duplicate() }
    }

    /// `v` reduced into `field`: a negative `v` maps to `p - (|v| mod p)`.
    pub fn reduce(field: FieldId, v: &BigInt) -> (r: FieldValue)
        ensures
            r@ == (field, v@ % field_modulus(field)),
    {
        let m = field.modulus();
        let value = v.modulo(&m);
        FieldValue { field, value }
    }

    /// The element with value `v`, when `v` is in `[0, p)`.
    pub fn try_from_bigint(field: FieldId, v: &BigInt) -> (r: Option<FieldValue>)
        ensures
            r matches Some(x) ==> x@ == (field, v@),
            r is Some <==> 0 <= v@ < field_modulus(field),
    {
        let m = field.modulus();
        if v.is_negative() || !v.less_than(&m) {
            None
        } else {
            Some(FieldValue { field, value: v.duplicate() })
        }
    }

    /// Zero of `field`.
    pub fn zero(field: FieldId) -> (r: FieldValue)
        ensures
            r@ == (field, 0int),
    {
        FieldValue { field, value: BigInt::zero() }
    }

    /// One of `field`.
    pub fn one(field: FieldId) -> (r: FieldValue)
        ensures
            r@ == (field, 1int),
    {
        FieldValue { field, value: BigInt::one() }
    }

    /// Whether two elements are equal.
    pub fn equals(&self, other: &FieldValue) -> (r: bool)
        ensures
            r == (self@ == other@),
    {
        self.field == other.field && self.value.equals(&other.value)
    }

    /// Whether `self` is below `other` as canonical integers.
    pub fn value_less_than(&self, other: &FieldValue) -> (r: bool)
        ensures
            r == (self@.1 < other@.1),
    {
        self.value.less_than(&other.value)
    }

    /// The sum in the field.
    pub fn add(&self, other: &FieldValue) -> (r: FieldValue)
        requires
            self@.0 == other@.0,
        ensures
            r@ == (self@.0, (self@.1 + other@.1) % field_modulus(self@.0)),
    {
        FieldValue::reduce(self.field, &self.value.add(&other.value))
    }

    /// The difference in the field.
    pub fn sub(&self, other: &FieldValue) -> (r: FieldValue)
        requires
            self@.0 == other@.0,
        ensures
            r@ == (self@.0, (self@.1 - other@.1) % field_modulus(self@.0)),
    {
        FieldValue::reduce(self.field, &self.value.sub(&other.value))
    }

    /// The product in the field.
    pub fn mul(&self, other: &FieldValue) -> (r: FieldValue)
        requires
            self@.0 == other@.0,
        ensures
            r@ == (self@.0, (self@.1 * other@.1) % field_modulus(self@.0)),
    {
        FieldValue::reduce(self.field, &self.value.mul(&other.value))
    }

    /// The additive inverse in the field.
    pub fn neg(&self) -> (r: FieldValue)
        ensures
            r@ == (self@.0, (-self@.1) % field_modulus(self@.0)),
    {
        FieldValue::reduce(self.field, &self.value.neg())
    }

    /// `self` times the multiplicative inverse of `other`, the inverse taken as
    /// `other^(p-2)` (Fermat); a zero divisor gives zero.
    pub fn div(&self, other: &FieldValue) -> (r: FieldValue)
        requires
            self@.0 == other@.0,
        ensures
            r@ == (self@.0, (self@.1 * (pow(other@.1, (field_modulus(self@.0) - 2) as nat)
                % field_modulus(self@.0))) % field_modulus(self@.0)),
    {
        proof {
            use_type_invariant(self);
            use_type_invariant(other);
        }
        let m = self.field.modulus();
        let two = BigInt::from_i128(2);
        let exponent = m.sub(&two);
        let inverse = other.value.modpow(&exponent, &m);
        FieldValue::reduce(self.field, &self.value.mul(&inverse))
    }
}


/// A hexadecimal digit, lowercase.
pub open spec fn hex_char(d: nat) -> char {
    if d < 10 {
        (48 + d) as char
    } else {
        (87 + d) as char
    }
}

/// The lowercase hexadecimal digits of `n` without leading zeros (none for zero).
pub open spec fn hex_digits(n: nat) -> Seq<char>
    decreases n,
{
    if n == 0 {
        Seq::empty()
    } else {
        hex_digits(n / 16) + seq![hex_char(n % 16)]
    }
}

/// The short hexadecimal form of a field element's value: `0x00` for zero, else `0x` and the
/// digits without leading zeros, with one `0` in front when their count is odd.
pub open spec fn short_hex(n: nat) -> Seq<char> {
    if n == 0 {
        "0x00"@
    } else {
        "0x"@ + (if hex_digits(n).len() % 2 == 1 { "0"@ } else { Seq::empty() }) + hex_digits(n)
    }
}

/// `acvm::FieldElement::to_short_hex` on the bn254 element whose big-endian bytes are `bytes`.
#[verifier::external_body]
fn acvm_short_hex(bytes: &Vec<u8>) -> (r: String)
    requires
        be_bytes_value(bytes@) < field_modulus(FieldId::Bn254),
    ensures
        r@ == short_hex(be_bytes_value(bytes@)),
{
    acvm::FieldElement::from_be_bytes_reduce(bytes).to_short_hex()
}

impl FieldValue {
    /// The element's value in short hexadecimal form, as Noir prints a field element.
    pub fn to_short_hex(&self) -> (r: String)
        ensures
            r@ == short_hex(self@.1 as nat),
    {
        let v = self.value();
        let bytes = v.magnitude_be_bytes();
        acvm_short_hex(&bytes)
    }
}

} // verus!
