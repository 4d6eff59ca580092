//! Bit packing of the instruction metadata bytes, big-endian byte views of
//! 32-bit payloads, and the wrapping 32-bit arithmetic the stack machine
//! performs.
use vstd::prelude::*;
use crate::data_struct::{spec_bits_i32, spec_i32_bits, bits_to_i32, i32_to_bits};

verus! {

/// Packs four two-bit fields into one byte, `type1` in the two high bits
/// down to `type4` in the two low bits.
pub fn create_kind_byte(type1: u8, type2: u8, type3: u8, type4: u8) -> (r: u8)
    requires
        type1 < 4,
        type2 < 4,
        type3 < 4,
        type4 < 4,
    ensures
        r == type1 * 64 + type2 * 16 + type3 * 4 + type4,
{
    let mut kind_byte: u8 = 0;
    kind_byte += type1 * 64;
    kind_byte += type2 * 16;
    kind_byte += type3 * 4;
    kind_byte += type4;
    kind_byte
}

/// The four two-bit fields of a byte, highest pair first.
pub open spec fn spec_two_bit_fields(a: u8) -> [u8; 4] {
    [(a / 64) as u8, ((a / 16) % 4) as u8, ((a / 4) % 4) as u8, (a % 4) as u8]
}

/// Unpacks the four two-bit fields of a byte, highest pair first.
pub fn convert_kind_byte(a: u8) -> (r: [usize; 4])
    ensures
        r[0] == spec_two_bit_fields(a)[0],
        r[1] == spec_two_bit_fields(a)[1],
        r[2] == spec_two_bit_fields(a)[2],
        r[3] == spec_two_bit_fields(a)[3],
        r[0] < 4 && r[1] < 4 && r[2] < 4 && r[3] < 4,
{
    [
        (a / 64) as usize,
        ((a / 16) % 4) as usize,
        ((a / 4) % 4) as usize,
        (a % 4) as usize,
    ]
}

/// Unpacking recovers the four fields that were packed.
pub proof fn lemma_kind_byte_roundtrip(type1: u8, type2: u8, type3: u8, type4: u8)
    requires
        type1 < 4,
        type2 < 4,
        type3 < 4,
        type4 < 4,
    ensures
        spec_two_bit_fields((type1 * 64 + type2 * 16 + type3 * 4 + type4) as u8) == [
            type1,
            type2,
            type3,
            type4,
        ],
{
    let a = (type1 * 64 + type2 * 16 + type3 * 4 + type4) as u8;
    assert(a / 64 == type1 && (a / 16) % 4 == type2 && (a / 4) % 4 == type3 && a % 4
        == type4) by (bit_vector)
        requires
            a == type1 * 64 + type2 * 16 + type3 * 4 + type4,
            type1 < 4,
            type2 < 4,
            type3 < 4,
            type4 < 4,
    ;
}

/// Packs two booleans into the two low bits of a byte, the first boolean
/// lowest.
pub fn create_two_bits(bits: [bool; 2]) -> (r: u8)
    ensures
        r == (if bits[0] {
            1u8
        } else {
            0u8
        }) + (if bits[1] {
            2u8
        } else {
            0u8
        }),
        r < 4,
{
    let mut byte: u8 = 0;
    if bits[0] {
        byte += 1;
    }
    if bits[1] {
        byte += 2;
    }
    byte
}

/// Reads the two packed booleans back out of a byte: the lowest bit, and
/// whether any higher bit is set.
pub fn convert_two_bits(byte: u8) -> (r: [bool; 2])
    ensures
        r[0] == (byte % 2 == 1),
        r[1] == (byte / 2 != 0),
{
    [byte % 2 == 1, byte / 2 != 0]
}

/// The most significant byte of `x` written big-endian.
pub open spec fn spec_be0(x: u32) -> u8 {
    (x / 0x100_0000) as u8
}

pub open spec fn spec_be1(x: u32) -> u8 {
    ((x / 0x1_0000) % 0x100) as u8
}

pub open spec fn spec_be2(x: u32) -> u8 {
    ((x / 0x100) % 0x100) as u8
}

pub open spec fn spec_be3(x: u32) -> u8 {
    (x % 0x100) as u8
}

/// The four big-endian bytes of `x`, most significant first.
pub open spec fn spec_be_bytes(x: u32) -> Seq<u8> {
    seq![spec_be0(x), spec_be1(x), spec_be2(x), spec_be3(x)]
}

/// The number spelled by four big-endian bytes.
pub open spec fn spec_u32_of_be(b0: u8, b1: u8, b2: u8, b3: u8) -> u32 {
    (b0 * 0x100_0000 + b1 * 0x1_0000 + b2 * 0x100 + b3) as u32
}

/// Splits `x` into its four big-endian bytes.
pub fn u32_to_be_bytes(x: u32) -> (r: [u8; 4])
    ensures
        r[0] == spec_be0(x),
        r[1] == spec_be1(x),
        r[2] == spec_be2(x),
        r[3] == spec_be3(x),
{
    [
        (x / 0x100_0000) as u8,
        ((x / 0x1_0000) % 0x100) as u8,
        ((x / 0x100) % 0x100) as u8,
        (x % 0x100) as u8,
    ]
}

/// Reads four big-endian bytes as one 32-bit number.
pub fn u32_from_be_bytes(b0: u8, b1: u8, b2: u8, b3: u8) -> (r: u32)
    ensures
        r == spec_u32_of_be(b0, b1, b2, b3),
{
    b0 as u32 * 0x100_0000 + b1 as u32 * 0x1_0000 + b2 as u32 * 0x100 + b3 as u32
}

/// Reading the four big-endian bytes of `x` back yields `x`.
pub proof fn lemma_be_bytes_roundtrip(x: u32)
    ensures
        spec_u32_of_be(spec_be0(x), spec_be1(x), spec_be2(x), spec_be3(x)) == x,
{
    assert(spec_u32_of_be(spec_be0(x), spec_be1(x), spec_be2(x), spec_be3(x)) == x) by (nonlinear_arith);
}

/// Wrapping unsigned 32-bit addition.
pub fn u32_add(a: u32, b: u32) -> (r: u32)
    ensures
        r == (a + b) % 0x1_0000_0000,
{
    a.wrapping_add(b)
}

/// Wrapping unsigned 32-bit subtraction.
pub fn u32_sub(a: u32, b: u32) -> (r: u32)
    ensures
        r == (a - b + 0x1_0000_0000) % 0x1_0000_0000,
{
    a.wrapping_sub(b)
}

/// Wrapping unsigned 32-bit multiplication.
pub fn u32_mul(a: u32, b: u32) -> (r: u32)
    ensures
        r == (a * b) % 0x1_0000_0000,
{
    a.wrapping_mul(b)
}

/// Unsigned 32-bit division; the divisor must not be zero.
pub fn u32_div(a: u32, b: u32) -> (r: u32)
    requires
        b != 0,
    ensures
        r == a / b,
{
    a / b
}

/// Unsigned 32-bit remainder; the divisor must not be zero.
pub fn u32_mod(a: u32, b: u32) -> (r: u32)
    requires
        b != 0,
    ensures
        r == a % b,
{
    a % b
}

/// The 32-bit two's-complement wrap of an unbounded value.
pub open spec fn spec_wrap_i32(v: int) -> int {
    ((v + 0x8000_0000) % 0x1_0000_0000) - 0x8000_0000
}

/// Wrapping signed 32-bit addition.
pub fn i32_add(a: i32, b: i32) -> (r: i32)
    ensures
        r == spec_wrap_i32(a + b),
{
    a.wrapping_add(b)
}

/// Wrapping signed 32-bit subtraction.
pub fn i32_sub(a: i32, b: i32) -> (r: i32)
    ensures
        r == spec_wrap_i32(a - b),
{
    a.wrapping_sub(b)
}

/// Wrapping signed 32-bit multiplication.
pub fn i32_mul(a: i32, b: i32) -> (r: i32)
    ensures
        r == spec_wrap_i32(a * b),
{
    a.wrapping_mul(b)
}

/// Signed division truncated toward zero, as the hardware divides.
pub open spec fn spec_trunc_div(a: int, b: int) -> int {
    let q = (if a < 0 {
        -a
    } else {
        a
    }) / (if b < 0 {
        -b
    } else {
        b
    });
    if (a < 0) != (b < 0) {
        -q
    } else {
        q
    }
}

/// The remainder matching truncated division: its sign follows the
/// dividend.
pub open spec fn spec_trunc_rem(a: int, b: int) -> int {
    a - spec_trunc_div(a, b) * b
}

/// The magnitude of a signed 32-bit value as an unsigned one.
fn i32_magnitude(a: i32) -> (r: u32)
    ensures
        r == (if a < 0 {
            -(a as int)
        } else {
            a as int
        }),
{
    if a >= 0 {
        a as u32
    } else {
        let wide: i64 = a as i64;
        (-wide) as u32
    }
}

/// Signed 32-bit division, truncated toward zero; the divisor must not be
/// zero. The one overflowing case, the smallest value divided by minus
/// one, wraps back to the smallest value.
pub fn i32_div(a: i32, b: i32) -> (r: i32)
    requires
        b != 0,
    ensures
        r == spec_wrap_i32(spec_trunc_div(a as int, b as int)),
{
    let ma = i32_magnitude(a);
    let mb = i32_magnitude(b);
    let q = ma / mb;
    if (a < 0) != (b < 0) {
        if q == 0x8000_0000u32 {
            i32::MIN
        } else {
            -(q as i32)
        }
    } else {
        if q >= 0x8000_0000u32 {
            i32::MIN
        } else {
            q as i32
        }
    }
}

proof fn lemma_trunc_rem_magnitude(a: int, b: int)
    requires
        b != 0,
    ensures
        spec_trunc_rem(a, b) == (if a < 0 {
            -((if a < 0 {
                -a
            } else {
                a
            }) % (if b < 0 {
                -b
            } else {
                b
            }))
        } else {
            (if a < 0 {
                -a
            } else {
                a
            }) % (if b < 0 {
                -b
            } else {
                b
            })
        }),
{
    let ma = if a < 0 {
        -a
    } else {
        a
    };
    let mb = if b < 0 {
        -b
    } else {
        b
    };
    let q = ma / mb;
    assert(ma == q * mb + ma % mb) by (nonlinear_arith)
        requires
            mb > 0,
            ma >= 0,
            q == ma / mb,
    ;
    assert(spec_trunc_div(a, b) * b == (if a < 0 {
        -(q * mb)
    } else {
        q * mb
    })) by (nonlinear_arith)
        requires
            b != 0,
            ma == (if a < 0 {
                -a
            } else {
                a
            }),
            mb == (if b < 0 {
                -b
            } else {
                b
            }),
            q == ma / mb,
            spec_trunc_div(a, b) == (if (a < 0) != (b < 0) {
                -q
            } else {
                q
            }),
    ;
}

/// Signed 32-bit remainder, truncated so that its sign follows the
/// dividend; the divisor must not be zero.
pub fn i32_mod(a: i32, b: i32) -> (r: i32)
    requires
        b != 0,
    ensures
        r == spec_wrap_i32(spec_trunc_rem(a as int, b as int)),
{
    let ma = i32_magnitude(a);
    let mb = i32_magnitude(b);
    let m = ma % mb;
    proof {
        lemma_trunc_rem_magnitude(a as int, b as int);
    }
    if a < 0 {
        -(m as i32)
    } else {
        m as i32
    }
}

} // verus!
