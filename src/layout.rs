use vstd::prelude::*;
use vstd::arithmetic::power2::{pow2, lemma_pow2_pos, lemma_pow2_unfold, lemma_pow2_strictly_increases, lemma2_to64};

verus! {

/// How a codec lays out its samples: one case per integer width and
/// signedness, and per float width.
#[derive(Clone, Copy, Debug, PartialEq, Eq, Structural)]
pub enum SampleLayout {
    U8,
    U16,
    U24,
    U32,
    S8,
    S16,
    S24,
    S32,
    F32,
    F64,
}

/// The value of an unsigned layout that stands for silence; 0 for the others.
pub open spec fn midpoint_of(l: SampleLayout) -> int {
    match l {
        SampleLayout::U8 => 128,
        SampleLayout::U16 => 32768,
        SampleLayout::U24 => 8388608,
        SampleLayout::U32 => 2147483648,
        _ => 0,
    }
}

/// The distance from silence that stands for full scale; 1 for floats.
pub open spec fn full_scale_of(l: SampleLayout) -> int {
    match l {
        SampleLayout::U8 | SampleLayout::S8 => 127,
        SampleLayout::U16 | SampleLayout::S16 => 32767,
        SampleLayout::U24 | SampleLayout::S24 => 8388607,
        SampleLayout::U32 | SampleLayout::S32 => 2147483647,
        _ => 1,
    }
}

/// The values that a raw sample of an integer layout can take.
pub open spec fn raw_in_range(l: SampleLayout, raw: int) -> bool {
    match l {
        SampleLayout::U8 => 0 <= raw <= 255,
        SampleLayout::U16 => 0 <= raw <= 65535,
        SampleLayout::U24 => 0 <= raw <= 16777215,
        SampleLayout::U32 => 0 <= raw <= 4294967295,
        SampleLayout::S8 => -128 <= raw <= 127,
        SampleLayout::S16 => -32768 <= raw <= 32767,
        SampleLayout::S24 => -8388608 <= raw <= 8388607,
        SampleLayout::S32 => -2147483648 <= raw <= 2147483647,
        _ => false,
    }
}

impl SampleLayout {
    /// Whether samples of this layout are already floating point.
    pub fn is_float(self) -> (r: bool)
        ensures
            r == (self is F32 || self is F64),
    {
        match self {
            SampleLayout::F32 | SampleLayout::F64 => true,
            _ => false,
        }
    }

    pub fn midpoint(self) -> (r: i64)
        ensures
            r == midpoint_of(self),
    {
        match self {
            SampleLayout::U8 => 128,
            SampleLayout::U16 => 32768,
            SampleLayout::U24 => 8388608,
            SampleLayout::U32 => 2147483648,
            _ => 0,
        }
    }

    pub fn full_scale(self) -> (r: i64)
        ensures
            r == full_scale_of(self),
            r > 0,
    {
        match self {
            SampleLayout::U8 | SampleLayout::S8 => 127,
            SampleLayout::U16 | SampleLayout::S16 => 32767,
            SampleLayout::U24 | SampleLayout::S24 => 8388607,
            SampleLayout::U32 | SampleLayout::S32 => 2147483647,
            _ => 1,
        }
    }

    /// A raw integer sample moved so that silence is 0; dividing the result
    /// by `full_scale` gives the normalized amplitude.
    pub fn centered(self, raw: i64) -> (r: i64)
        requires
            raw_in_range(self, raw as int),
        ensures
            r == raw - midpoint_of(self),
            -full_scale_of(self) - 1 <= r <= full_scale_of(self) + 1,
    {
        raw - self.midpoint()
    }
}

/// `2^e` as a machine integer.
pub fn pow2_u64(e: u32) -> (r: u64)
    requires
        e <= 63,
    ensures
        r == pow2(e as nat),
{
    let mut r: u64 = 1;
    let mut i: u32 = 0;
    proof {
        lemma2_to64();
    }
    while i < e
        invariant
            i <= e,
            e <= 63,
            r == pow2(i as nat),
        decreases e - i,
    {
        proof {
            lemma_pow2_unfold((i + 1) as nat);
            lemma_pow2_strictly_increases((i + 1) as nat, 64);
            lemma2_to64();
        }
        r = r * 2;
        i = i + 1;
    }
    r
}

/// Divisor that maps integer samples of an uncompressed file with
/// `bits_per_sample` bits into amplitudes: `2^(bits_per_sample - 1)`.
pub fn wav_full_scale(bits_per_sample: u16) -> (r: u64)
    requires
        1 <= bits_per_sample <= 64,
    ensures
        r == pow2((bits_per_sample - 1) as nat),
{
    pow2_u64((bits_per_sample - 1) as u32)
}

/// The largest integer that a sample of `bit_depth` bits is scaled to when
/// it is written: `2^(bit_depth - 1) - 1`.
pub open spec fn quantize_scale_of(bit_depth: nat) -> int {
    pow2((bit_depth - 1) as nat) - 1
}

/// The factor by which a clamped amplitude is multiplied before it is
/// rounded and stored at `bit_depth` bits.
pub fn quantize_scale(bit_depth: u16) -> (r: u64)
    requires
        1 <= bit_depth <= 64,
    ensures
        r == quantize_scale_of(bit_depth as nat),
        bit_depth == 8 ==> r == 127,
        bit_depth == 16 ==> r == 32767,
        bit_depth == 24 ==> r == 8388607,
        bit_depth == 32 ==> r == 2147483647,
{
    proof {
        lemma2_to64();
    }
    match bit_depth {
        8 => 127,
        16 => 32767,
        24 => 8388607,
        32 => 2147483647,
        _ => {
            let p = pow2_u64((bit_depth - 1) as u32);
            proof {
                lemma_pow2_pos((bit_depth - 1) as nat);
            }
            p - 1
        },
    }
}

} // verus!
