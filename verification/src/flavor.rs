//! How Imperator lays out its two kinds of floating point data. Turning
//! the numbers into text is left to the caller.

use crate::binary::{le_value, lemma_le_value_4, lemma_le_value_8, signed, signed_64};
use vstd::prelude::*;

verus! {

/// The binary flavor of Imperator.
#[derive(Debug, Clone, Copy, Default)]
pub struct ImperatorFlavor;

/// The bit pattern of a 32-bit token: four bytes, the least significant
/// first. It is the pattern of an IEEE 754 single.
pub open spec fn f32_pattern(data: Seq<u8>) -> u32 {
    le_value(data) as u32
}

/// The number of hundred-thousandths that a 64-bit token holds: eight bytes,
/// the least significant first, in two's complement.
pub open spec fn f64_scaled(data: Seq<u8>) -> i64 {
    signed(le_value(data), 0x8000_0000_0000_0000) as i64
}

impl ImperatorFlavor {
    /// The flavor of Imperator.
    pub fn new() -> Self {
        ImperatorFlavor
    }

    /// The bit pattern of the single that four bytes of a save hold.
    pub fn visit_f32_bits(&self, data: [u8; 4]) -> (r: u32)
        ensures
            r == f32_pattern(data@),
    {
        proof {
            lemma_le_value_4(data@);
        }
        data[0] as u32 + (data[1] as u32) * 256 + (data[2] as u32) * 65536 + (data[3] as u32)
            * 16777216
    }

    /// The number that eight bytes of a save hold, times 100,000.
    pub fn visit_f64_scaled(&self, data: [u8; 8]) -> (r: i64)
        ensures
            r == f64_scaled(data@),
    {
        proof {
            lemma_le_value_8(data@);
            lemma_le_value_4(data@.take(4));
            lemma_le_value_4(data@.skip(4));
        }
        let low: u64 = data[0] as u64 + (data[1] as u64) * 256 + (data[2] as u64) * 65536 + (
        data[3] as u64) * 16777216;
        let high: u64 = data[4] as u64 + (data[5] as u64) * 256 + (data[6] as u64) * 65536 + (
        data[7] as u64) * 16777216;
        signed_64(low + high * 0x1_0000_0000)
    }
}

} // verus!
