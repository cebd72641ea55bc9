//! Sentinel values that describe a type's binary shape.

use vstd::prelude::*;
use crate::data::Revision;

verus! {

/// A type that names one fixed sentinel value of itself.
///
/// The sentinel is there to be written and read back: a round trip through
/// the record encoding that returns it unchanged shows that the encoding of
/// the type is intact. Producing the sentinel validates nothing by itself.
pub trait Magic: Sized {
    /// The sentinel of this type: the same value at every call.
    fn magic() -> Self;
}

impl Magic for Revision {
    fn magic() -> (m: Self)
        ensures
            m == Revision(1963750875627707164224818581967208448u128),
    {
        Revision(1963750875627707164224818581967208448u128)
    }
}

// The sentinel of an unsigned integer holds the bit width of its type in
// each of its bytes, so that no two widths share one.

impl Magic for u8 {
    fn magic() -> (m: Self)
        ensures
            m == 8u8,
    {
        8
    }
}

impl Magic for u16 {
    fn magic() -> (m: Self)
        ensures
            m == 0x1010u16,
    {
        let m: u16 = (16 << 8) | 16;
        assert(m == 0x1010) by (bit_vector)
            requires
                m == (16u16 << 8) | 16u16,
        ;
        m
    }
}

impl Magic for u32 {
    fn magic() -> (m: Self)
        ensures
            m == 0x2020_2020u32,
    {
        let m: u32 = (32 << 24) | (32 << 16) | (32 << 8) | 32;
        assert(m == 0x2020_2020) by (bit_vector)
            requires
                m == (32u32 << 24) | (32u32 << 16) | (32u32 << 8) | 32u32,
        ;
        m
    }
}

impl Magic for u64 {
    fn magic() -> (m: Self)
        ensures
            m == 0x4040_4040_4040_4040u64,
    {
        let m: u64 = (64 << 56) | (64 << 48) | (64 << 40) | (64 << 32) | (64 << 24) | (64 << 16)
            | (64 << 8) | 64;
        assert(m == 0x4040_4040_4040_4040) by (bit_vector)
            requires
                m == (64u64 << 56) | (64u64 << 48) | (64u64 << 40) | (64u64 << 32)
                    | (64u64 << 24) | (64u64 << 16) | (64u64 << 8) | 64u64,
        ;
        m
    }
}

impl Magic for u128 {
    fn magic() -> (m: Self)
        ensures
            m == 0x8080_8080_8080_8080_8080_8080_8080_8080u128,
    {
        let m: u128 = (128 << 120) | (128 << 112) | (128 << 104) | (128 << 96) | (128 << 88)
            | (128 << 80) | (128 << 72) | (128 << 64) | (128 << 56) | (128 << 48) | (128 << 40)
            | (128 << 32) | (128 << 24) | (128 << 16) | (128 << 8) | 128;
        assert(m == 0x8080_8080_8080_8080_8080_8080_8080_8080) by (bit_vector)
            requires
                m == (128u128 << 120) | (128u128 << 112) | (128u128 << 104) | (128u128 << 96)
                    | (128u128 << 88) | (128u128 << 80) | (128u128 << 72) | (128u128 << 64)
                    | (128u128 << 56) | (128u128 << 48) | (128u128 << 40) | (128u128 << 32)
                    | (128u128 << 24) | (128u128 << 16) | (128u128 << 8) | 128u128,
        ;
        m
    }
}

} // verus!
