//! Field properties a program can depend on, which explain expected cross-field coverage gaps.

use vstd::prelude::*;
use vstd::arithmetic::power2::pow2;

use crate::field::{field_modulus, FieldId};

verus! {

/// A field property a program depends on.
#[derive(Clone, Copy, Debug, PartialEq, Eq, Structural)]
pub enum Capability {
    /// Every value of the unsigned `bits`-bit type maps to a distinct field element.
    UnsignedFits(u32),
    /// The two's-complement encoding of the signed `bits`-bit type is injective.
    SignedFits(u32),
    /// The modulus has at least `bits` bits.
    FieldBitsAtLeast(u32),
}

/// The number of bits of a field's modulus.
pub open spec fn modulus_bits(field: FieldId) -> nat {
    match field {
        FieldId::Bn254 => 254,
        FieldId::Goldilocks => 64,
    }
}

/// The modulus has exactly `modulus_bits` bits.
pub proof fn lemma_modulus_bits(field: FieldId)
    ensures
        pow2((modulus_bits(field) - 1) as nat) <= field_modulus(field) < pow2(modulus_bits(field)),
{
    vstd::arithmetic::power2::lemma2_to64();
    vstd::arithmetic::power2::lemma2_to64_rest();
    match field {
        FieldId::Goldilocks => {},
        FieldId::Bn254 => {
            vstd::arithmetic::power2::lemma_pow2_adds(64, 64);
            vstd::arithmetic::power2::lemma_pow2_adds(128, 64);
            vstd::arithmetic::power2::lemma_pow2_adds(192, 61);
            vstd::arithmetic::power2::lemma_pow2_adds(192, 62);
        },
    }
}

/// Whether a field has a property: an integer type fits when its width is below the modulus's
/// bit count, so that no two of its values reduce to one field element.
pub open spec fn holds_in(c: Capability, field: FieldId) -> bool {
    match c {
        Capability::UnsignedFits(bits) => (bits as nat) < modulus_bits(field),
        Capability::SignedFits(bits) => (bits as nat) < modulus_bits(field),
        Capability::FieldBitsAtLeast(bits) => modulus_bits(field) >= bits,
    }
}

/// An integer type's values are below the modulus exactly when it fits.
pub proof fn law_fits_means_below_the_modulus(bits: u32, field: FieldId)
    ensures
        holds_in(Capability::UnsignedFits(bits), field) <==> pow2(bits as nat) <= field_modulus(field),
{
    lemma_modulus_bits(field);
    let m = modulus_bits(field);
    if (bits as nat) < m - 1 {
        vstd::arithmetic::power2::lemma_pow2_strictly_increases(bits as nat, (m - 1) as nat);
    } else if (bits as nat) < m {
    } else {
        if bits as nat > m {
            vstd::arithmetic::power2::lemma_pow2_strictly_increases(m, bits as nat);
        }
    }
}

impl Capability {
    /// Whether `field` has this property.
    pub fn holds(&self, field: FieldId) -> (r: bool)
        ensures
            r == holds_in(*self, field),
    {
        let bits: u32 = match field {
            FieldId::Bn254 => 254,
            FieldId::Goldilocks => 64,
        };
        match self {
            Capability::UnsignedFits(b) => *b < bits,
            Capability::SignedFits(b) => *b < bits,
            Capability::FieldBitsAtLeast(b) => bits >= *b,
        }
    }
}

} // verus!
