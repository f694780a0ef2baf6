//! Sample conversion: little-endian signed 32-bit PCM bytes to fixed-point
//! amplitudes in `[-AMP_UNIT, AMP_UNIT]`, where `AMP_UNIT` stands for 1.0.

use vstd::prelude::*;

use crate::AMP_UNIT;

verus! {

/// The largest raw sample value; raw samples are normalized against it.
pub const PCM_MAX: i64 = 0x7fff_ffff;

/// The signed 32-bit value held by four little-endian bytes.
pub open spec fn i32_le_spec(b0: u8, b1: u8, b2: u8, b3: u8) -> int {
    let u = b0 + 256 * (b1 as int) + 65536 * (b2 as int) + 16777216 * (b3 as int);
    if u < 0x8000_0000 {
        u
    } else {
        u - 0x1_0000_0000
    }
}

/// A raw sample scaled to amplitude units: `raw * AMP_UNIT / PCM_MAX`,
/// with the division rounding toward zero.
pub open spec fn amp_spec(raw: int) -> int {
    if raw >= 0 {
        (raw * (AMP_UNIT as int)) / (PCM_MAX as int)
    } else {
        -((-raw * (AMP_UNIT as int)) / (PCM_MAX as int))
    }
}

/// The amplitude of any raw 32-bit sample stays within one unit of scale.
pub proof fn lemma_amp_spec_bounds(raw: int)
    requires
        -0x8000_0000 <= raw <= 0x7fff_ffff,
    ensures
        -AMP_UNIT <= amp_spec(raw) <= AMP_UNIT,
{
    let unit = AMP_UNIT as int;
    let den = PCM_MAX as int;
    let m = if raw >= 0 {
        raw
    } else {
        -raw
    };
    assert(0 <= m * unit <= 0x8000_0000 * unit) by (nonlinear_arith)
        requires
            0 <= m <= 0x8000_0000,
            unit > 0,
    ;
    vstd::arithmetic::div_mod::lemma_div_pos_is_pos(m * unit, den);
    vstd::arithmetic::div_mod::lemma_div_is_ordered(m * unit, 0x8000_0000 * unit, den);
    assert(0x8000_0000 * unit == den * unit + unit) by (nonlinear_arith)
        requires
            0x8000_0000 == den + 1,
    ;
    assert(den * unit == unit * den) by (nonlinear_arith);
    vstd::arithmetic::div_mod::lemma_fundamental_div_mod_converse(
        den * unit + unit,
        den,
        unit,
        unit,
    );
    assert((den * unit + unit) / den == unit);
}

/// Reads a signed 32-bit sample out of four little-endian bytes.
pub fn i32_from_le(b0: u8, b1: u8, b2: u8, b3: u8) -> (r: i32)
    ensures
        r == i32_le_spec(b0, b1, b2, b3),
{
    let u: u32 = (b0 as u32) + 256 * (b1 as u32) + 65536 * (b2 as u32) + 16777216 * (b3 as u32);
    if u < 0x8000_0000 {
        u as i32
    } else {
        let neg: u32 = 0xffff_ffff - u;
        -(neg as i32) - 1
    }
}

/// Scales one raw sample to amplitude units, rounding toward zero.
pub fn amp_of_raw(raw: i32) -> (a: i64)
    ensures
        a == amp_spec(raw as int),
        -AMP_UNIT <= a <= AMP_UNIT,
{
    proof {
        lemma_amp_spec_bounds(raw as int);
    }
    if raw >= 0 {
        (raw as i64) * AMP_UNIT / PCM_MAX
    } else {
        -((-(raw as i64)) * AMP_UNIT / PCM_MAX)
    }
}

/// Converts a whole buffer of little-endian 32-bit PCM bytes into
/// fixed-point amplitudes; the buffer length must be a multiple of four.
pub fn bytes_to_amps(bytes: &Vec<u8>) -> (amps: Vec<i64>)
    requires
        bytes@.len() % 4 == 0,
    ensures
        amps@.len() == bytes@.len() / 4,
        forall|i: int|
            0 <= i < amps@.len() ==> amps@[i] == amp_spec(
                i32_le_spec(bytes@[4 * i], bytes@[4 * i + 1], bytes@[4 * i + 2], bytes@[4 * i + 3]),
            ),
        forall|i: int| 0 <= i < amps@.len() ==> -AMP_UNIT <= #[trigger] amps@[i] && amps@[i] <= AMP_UNIT,
{
    let n = bytes.len() / 4;
    let mut amps: Vec<i64> = Vec::new();
    let mut i: usize = 0;
    while i < n
        invariant
            4 * n == bytes@.len(),
            bytes@.len() <= usize::MAX,
            i <= n,
            amps@.len() == i,
            forall|j: int|
                0 <= j < i ==> amps@[j] == amp_spec(
                    i32_le_spec(
                        bytes@[4 * j],
                        bytes@[4 * j + 1],
                        bytes@[4 * j + 2],
                        bytes@[4 * j + 3],
                    ),
                ),
            forall|j: int| 0 <= j < i ==> -AMP_UNIT <= #[trigger] amps@[j] && amps@[j] <= AMP_UNIT,
        decreases n - i,
    {
        proof {
            assert(4 * i + 3 < bytes@.len());
        }
        let raw = i32_from_le(bytes[4 * i], bytes[4 * i + 1], bytes[4 * i + 2], bytes[4 * i + 3]);
        amps.push(amp_of_raw(raw));
        i = i + 1;
    }
    amps
}

} // verus!
