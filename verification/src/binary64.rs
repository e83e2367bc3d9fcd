//! Real numbers carried as IEEE 754 binary64 bit patterns.

use vstd::prelude::*;

verus! {

/// A real number held as the sixty-four bits of its IEEE 754 binary64
/// encoding: one sign bit, eleven exponent bits, fifty-two fraction bits.
///
/// The library stores, returns and orders such numbers. It never adds or
/// multiplies them.
#[derive(Clone, Copy, Debug, PartialEq, Eq, Structural, Hash)]
pub struct Binary64 {
    pub bits: u64,
}

/// The bit pattern of the smallest number whose sign bit is set.
pub const SIGN_BIT: u64 = 0x8000_0000_0000_0000;

impl Binary64 {
    /// A key whose unsigned order is the total order of the encoded numbers:
    /// numbers with the sign bit set come first, larger magnitudes earlier;
    /// then the others, larger magnitudes later.
    pub open spec fn spec_order_key(self) -> u64 {
        if self.bits >= SIGN_BIT {
            (u64::MAX - self.bits) as u64
        } else {
            (self.bits + SIGN_BIT) as u64
        }
    }

    /// The exponent field of the encoding: bits 52 to 62.
    pub open spec fn exponent_field(self) -> int {
        (self.bits as int / 0x10_0000_0000_0000) % 0x800
    }

    /// The fraction field of the encoding: bits 0 to 51.
    pub open spec fn fraction_field(self) -> int {
        self.bits as int % 0x10_0000_0000_0000
    }

    /// Wraps a bit pattern.
    pub fn from_bits(bits: u64) -> (r: Binary64)
        ensures
            r.bits == bits,
    {
        Binary64 { bits }
    }

    /// The bit pattern.
    pub fn to_bits(self) -> (bits: u64)
        ensures
            bits == self.bits,
    {
        self.bits
    }

    /// Computes [`Self::spec_order_key`].
    #[verifier::when_used_as_spec(spec_order_key)]
    pub fn order_key(self) -> (key: u64)
        ensures
            key == self.spec_order_key(),
    {
        if self.bits >= SIGN_BIT {
            u64::MAX - self.bits
        } else {
            self.bits + SIGN_BIT
        }
    }

    /// Distinct bit patterns have distinct keys, and among patterns of one
    /// sign the key grows with the magnitude when the sign bit is clear and
    /// shrinks with it when the sign bit is set.
    pub proof fn lemma_order_key(a: Binary64, b: Binary64)
        ensures
            a.spec_order_key() == b.spec_order_key() <==> a.bits == b.bits,
            a.bits < SIGN_BIT && b.bits < SIGN_BIT ==> (a.spec_order_key() < b.spec_order_key()
                <==> a.bits < b.bits),
            a.bits >= SIGN_BIT && b.bits >= SIGN_BIT ==> (a.spec_order_key() < b.spec_order_key()
                <==> a.bits > b.bits),
            a.bits >= SIGN_BIT && b.bits < SIGN_BIT ==> a.spec_order_key() < b.spec_order_key(),
    {
    }

    /// Among encodings of one sign the key goes by the exponent field and,
    /// where the exponent fields agree, by the fraction field: upwards where
    /// the sign bit is clear, downwards where it is set. That is the order
    /// of the magnitudes of the numbers encoded.
    pub proof fn lemma_order_key_fields(a: Binary64, b: Binary64)
        requires
            (a.bits >= SIGN_BIT) == (b.bits >= SIGN_BIT),
        ensures
            (a.exponent_field() < b.exponent_field() || (a.exponent_field() == b.exponent_field()
                && a.fraction_field() < b.fraction_field())) <==> (if a.bits >= SIGN_BIT {
                a.spec_order_key() > b.spec_order_key()
            } else {
                a.spec_order_key() < b.spec_order_key()
            }),
    {
    }
}

impl Default for Binary64 {
    /// Positive zero.
    fn default() -> (r: Binary64)
        ensures
            r.bits == 0,
    {
        Binary64 { bits: 0 }
    }
}

} // verus!
