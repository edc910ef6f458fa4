//! Channel levels and the colour algebra.
//!
//! A level is a fixed-point fraction: `FULL` stands for a fully lit channel,
//! `0` for a dark one. `FULL` is a multiple of 255, so every DMX byte has an
//! exact level (`byte * BYTE_STEP`) and the way back to a byte is a division.
use vstd::arithmetic::div_mod::{lemma_basic_div, lemma_div_by_multiple, lemma_div_is_ordered};
use vstd::arithmetic::power2::{
    lemma2_to64, lemma2_to64_rest, lemma_pow2_pos, lemma_pow2_strictly_increases, pow2,
};
use vstd::bits::lemma_u64_shr_is_div;
use vstd::prelude::*;
use vstd::std_specs::convert::FromSpecImpl;
use vstd::std_specs::ops::AddSpecImpl;

verus! {

/// The level of a fully lit channel.
pub const FULL: u32 = 65535;

/// The distance between the levels of two neighbouring DMX bytes: `FULL / 255`.
pub const BYTE_STEP: u32 = 257;

/// A single channel. Mixing adds to it without clamping; it saturates at the
/// largest `u32`, and is cut to a byte only when a frame is written.
pub type Intensity = u32;

/// How strongly an effect contributes; `FULL` lets its values through unchanged.
pub type Strength = u32;

/// `x` cut to the range of a colour channel.
pub open spec fn clamped(x: int) -> int {
    if x < 0 {
        0
    } else if x > FULL {
        FULL as int
    } else {
        x
    }
}

/// The level of channel `level` after weighting by `strength`, rounded down.
pub open spec fn weighted(level: int, strength: int) -> int {
    level * strength / (FULL as int)
}

/// The exact level of a DMX byte.
pub open spec fn byte_level(byte: int) -> int {
    byte * BYTE_STEP
}

/// The DMX byte that a level is written as: the level in byte steps, rounded
/// down, and 255 for everything above `FULL`.
pub open spec fn level_byte(level: int) -> int {
    if level <= 0 {
        0
    } else if level >= FULL {
        255
    } else {
        level / (BYTE_STEP as int)
    }
}

/// Byte `index` (0 is the lowest) of the two's complement form of `x`. Only
/// the three bytes of a colour are told apart: every index above 1 gives
/// byte 2.
pub open spec fn packed_byte(x: int, index: int) -> int {
    if index == 0 {
        x % 256
    } else if index == 1 {
        (x / 256) % 256
    } else {
        (x / 65536) % 256
    }
}

/// An intensity after a contribution of byte `value % 256` at `strength`.
pub open spec fn mixed_intensity(intensity: int, value: int, strength: int) -> int {
    let sum = intensity + weighted(byte_level(packed_byte(value, 0)), strength);
    if sum > u32::MAX {
        u32::MAX as int
    } else {
        sum
    }
}

/// The three levels of a colour, as mathematical integers.
pub ghost struct Rgb {
    pub r: int,
    pub g: int,
    pub b: int,
}

impl Rgb {
    /// Every channel lies between dark and fully lit.
    pub open spec fn in_range(self) -> bool {
        0 <= self.r <= FULL && 0 <= self.g <= FULL && 0 <= self.b <= FULL
    }

    /// The colour with each channel cut to the valid range.
    pub open spec fn clamped(self) -> Rgb {
        Rgb { r: clamped(self.r), g: clamped(self.g), b: clamped(self.b) }
    }

    /// Channel-wise sum, each channel clamped.
    pub open spec fn plus(self, other: Rgb) -> Rgb {
        Rgb {
            r: clamped(self.r + other.r),
            g: clamped(self.g + other.g),
            b: clamped(self.b + other.b),
        }
    }

    /// Each channel weighted by `strength`, then clamped.
    pub open spec fn scaled(self, strength: int) -> Rgb {
        Rgb {
            r: clamped(weighted(self.r, strength)),
            g: clamped(weighted(self.g, strength)),
            b: clamped(weighted(self.b, strength)),
        }
    }

    /// The colour that the low 24 bits of `x` spell as `0xRRGGBB`.
    pub open spec fn unpacked(x: int) -> Rgb {
        Rgb {
            r: byte_level(packed_byte(x, 2)),
            g: byte_level(packed_byte(x, 1)),
            b: byte_level(packed_byte(x, 0)),
        }
    }

    /// The `0xRRGGBB` number of the bytes that the channels are written as.
    pub open spec fn packed(self) -> int {
        level_byte(self.r) * 65536 + level_byte(self.g) * 256 + level_byte(self.b)
    }

    pub open spec fn black() -> Rgb {
        Rgb { r: 0, g: 0, b: 0 }
    }
}

/// The bytes of a packed colour are the bit fields of `0xRRGGBB`.
pub proof fn lemma_packed_bytes_are_bit_fields(x: i32)
    ensures
        packed_byte(x as int, 2) == (x >> 16) & 0xff,
        packed_byte(x as int, 1) == (x >> 8) & 0xff,
        packed_byte(x as int, 0) == x & 0xff,
        0 <= packed_byte(x as int, 2) <= 255,
        0 <= packed_byte(x as int, 1) <= 255,
        0 <= packed_byte(x as int, 0) <= 255,
{
    assert(((x >> 16i32) & 0xff) == (x as int / 65536) % 256) by (bit_vector);
    assert(((x >> 8i32) & 0xff) == (x as int / 256) % 256) by (bit_vector);
    assert((x & 0xff) == (x as int) % 256) by (bit_vector);
}

/// A colour read from a number has each channel at the level of its byte:
/// the byte over 255, as a fraction of `FULL`.
pub proof fn lemma_unpacked_channels(x: i32)
    ensures
        Rgb::unpacked(x as int).r * 255 == ((x >> 16) & 0xff) * FULL,
        Rgb::unpacked(x as int).g * 255 == ((x >> 8) & 0xff) * FULL,
        Rgb::unpacked(x as int).b * 255 == (x & 0xff) * FULL,
        Rgb::unpacked(x as int).in_range(),
{
    lemma_packed_bytes_are_bit_fields(x);
}

/// Adding colours does not depend on their order, and the sum is in range.
pub proof fn lemma_plus_commutes(a: Rgb, b: Rgb)
    ensures
        a.plus(b) == b.plus(a),
        a.plus(b).in_range(),
{
}

/// Construction clamps: whatever the levels, the colour is in range, and
/// levels that are in range are kept.
pub proof fn lemma_clamped_in_range(c: Rgb)
    ensures
        c.clamped().in_range(),
        c.in_range() ==> c.clamped() == c,
{
}

/// Scaling keeps a colour in range, whatever the strength.
pub proof fn lemma_scaled_in_range(c: Rgb, strength: int)
    ensures
        c.scaled(strength).in_range(),
{
}

/// A colour in range that is written as bytes and read back comes out with
/// every channel at most one byte step below where it was, and never above.
pub proof fn lemma_pack_round_trip(c: Rgb)
    requires
        c.in_range(),
    ensures
        Rgb::unpacked(c.packed()).in_range(),
        Rgb::unpacked(c.packed()).r <= c.r < Rgb::unpacked(c.packed()).r + BYTE_STEP,
        Rgb::unpacked(c.packed()).g <= c.g < Rgb::unpacked(c.packed()).g + BYTE_STEP,
        Rgb::unpacked(c.packed()).b <= c.b < Rgb::unpacked(c.packed()).b + BYTE_STEP,
        Rgb::unpacked(c.packed()).packed() == c.packed(),
{
    let r = level_byte(c.r);
    let g = level_byte(c.g);
    let b = level_byte(c.b);
    assert(0 <= r <= 255 && 0 <= g <= 255 && 0 <= b <= 255);
    let x = c.packed();
    assert(x == r * 65536 + g * 256 + b);
    assert(x % 256 == b);
    assert((x / 256) % 256 == g);
    assert((x / 65536) % 256 == r);
}

/// Bytes that are read as a colour and written back are the same bytes.
pub proof fn lemma_unpack_round_trip(x: int)
    requires
        0 <= x <= 0xff_ffff,
    ensures
        Rgb::unpacked(x).packed() == x,
{
    let r = (x / 65536) % 256;
    let g = (x / 256) % 256;
    let b = x % 256;
    assert(level_byte(byte_level(r)) == r);
    assert(level_byte(byte_level(g)) == g);
    assert(level_byte(byte_level(b)) == b);
}

/// Cuts a level to the range of a colour channel.
pub fn clamp(x: i64) -> (level: u32)
    ensures
        level == clamped(x as int),
{
    if x < 0 {
        0
    } else if x > FULL as i64 {
        FULL
    } else {
        x as u32
    }
}

/// Weights `level` by `strength` and clamps the result.
pub fn scale_level(level: u32, strength: Strength) -> (scaled: u32)
    ensures
        scaled == clamped(weighted(level as int, strength as int)),
{
    assert((level as int) * (strength as int) <= 0xffff_ffff * 0xffff_ffff) by (nonlinear_arith)
        requires
            0 <= level <= 0xffff_ffff,
            0 <= strength <= 0xffff_ffff,
    ;
    let product: u64 = (level as u64) * (strength as u64);
    let quotient: u64 = product / (FULL as u64);
    if quotient > FULL as u64 {
        FULL
    } else {
        quotient as u32
    }
}

/// The exact level of a DMX byte.
pub fn level_of_byte(byte: u8) -> (level: u32)
    ensures
        level == byte_level(byte as int),
        level <= FULL,
{
    (byte as u32) * BYTE_STEP
}

/// The DMX byte that a level is written as.
pub fn byte_of_level(level: u32) -> (byte: u8)
    ensures
        byte == level_byte(level as int),
{
    if level >= FULL {
        255
    } else {
        (level / BYTE_STEP) as u8
    }
}

/// The level of the number that `bits` is in IEEE 754 single precision: the
/// number as a fraction of `FULL`, rounded down. What is not a number, and
/// every negative number, is 0; 1 and everything above is `FULL`.
pub open spec fn single_level(bits: u32) -> int {
    let exponent = (bits / 0x80_0000) % 256;
    let fraction = bits % 0x80_0000;
    if exponent == 255 && fraction != 0 {
        0
    } else if bits >= 0x8000_0000 {
        0
    } else if exponent >= 127 {
        FULL as int
    } else if exponent == 0 {
        fraction * FULL / (pow2(149) as int)
    } else {
        (0x80_0000 + fraction) * FULL / (pow2((150 - exponent) as nat) as int)
    }
}

/// Whether `bits` is a single-precision bit pattern that is not a number.
pub open spec fn is_not_a_number(bits: u32) -> bool {
    (bits / 0x80_0000) % 256 == 255 && bits % 0x80_0000 != 0
}

/// What is not a number is dark, and so is every bit pattern with the sign
/// set; 1, whose bit pattern is `0x3f80_0000`, is fully lit, and so is
/// everything above it up to infinity.
pub proof fn lemma_single_level_limits(bits: u32)
    ensures
        is_not_a_number(bits) ==> single_level(bits) == 0,
        bits >= 0x8000_0000 ==> single_level(bits) == 0,
        0x3f80_0000 <= bits <= 0x7f80_0000 ==> single_level(bits) == FULL,
        single_level(0) == 0,
{
    lemma2_to64();
    lemma_pow2_pos(149);
    lemma_basic_div(0, pow2(149) as int);
}

/// Every level of a single-precision number is in the range of a channel.
pub proof fn lemma_single_level_in_range(bits: u32)
    ensures
        0 <= single_level(bits) <= FULL,
{
    let exponent = (bits / 0x80_0000) % 256;
    let fraction = bits % 0x80_0000;
    if !(exponent == 255 && fraction != 0) && bits < 0x8000_0000 && exponent < 127 {
        let (numerator, shift) = if exponent == 0 {
            (fraction as int, 149nat)
        } else {
            (0x80_0000 + fraction, (150 - exponent) as nat)
        };
        lemma2_to64();
        lemma_pow2_pos(shift);
        if shift > 24 {
            lemma_pow2_strictly_increases(24, shift);
        }
        assert(numerator * FULL <= pow2(shift) * FULL) by (nonlinear_arith)
            requires
                0 <= numerator <= pow2(shift),
        ;
        lemma_div_is_ordered(0, numerator * FULL, pow2(shift) as int);
        lemma_div_is_ordered(numerator * FULL, pow2(shift) * FULL, pow2(shift) as int);
        lemma_div_by_multiple(FULL as int, pow2(shift) as int);
        assert(pow2(shift) * FULL == FULL * pow2(shift)) by (nonlinear_arith);
    }
}

/// The level of the number that `bits` is in IEEE 754 single precision.
pub fn level_of_single(bits: u32) -> (level: u32)
    ensures
        level == single_level(bits),
        level <= FULL,
{
    proof {
        lemma_single_level_in_range(bits);
    }
    let exponent: u32 = (bits / 0x80_0000) % 256;
    let fraction: u32 = bits % 0x80_0000;
    if exponent == 255 && fraction != 0 {
        0
    } else if bits >= 0x8000_0000 {
        0
    } else if exponent >= 127 {
        FULL
    } else {
        let numerator: u64 = if exponent == 0 {
            fraction as u64
        } else {
            0x80_0000 + fraction as u64
        };
        let shift: u64 = if exponent == 0 {
            149
        } else {
            150 - exponent as u64
        };
        let product: u64 = numerator * (FULL as u64);
        if shift >= 40 {
            proof {
                lemma2_to64();
                lemma2_to64_rest();
                if shift > 40 {
                    lemma_pow2_strictly_increases(40, shift as nat);
                }
                lemma_basic_div(product as int, pow2(shift as nat) as int);
            }
            0
        } else {
            proof {
                lemma_u64_shr_is_div(product, shift);
            }
            (product >> shift) as u32
        }
    }
}

/// Adds to `intensity` the low byte of `value`, weighted by `strength`.
pub fn mix_intensity(intensity: Intensity, value: i32, strength: Strength) -> (mixed: Intensity)
    ensures
        mixed == mixed_intensity(intensity as int, value as int, strength as int),
{
    let byte: u8 = low_byte(value, 0);
    let level: u32 = level_of_byte(byte);
    assert((level as int) * (strength as int) <= 0xffff * 0xffff_ffff) by (nonlinear_arith)
        requires
            0 <= level <= 0xffff,
            0 <= strength <= 0xffff_ffff,
    ;
    let product: u64 = (level as u64) * (strength as u64);
    let part: u64 = product / (FULL as u64);
    let sum: u64 = intensity as u64 + part;
    if sum > u32::MAX as u64 {
        u32::MAX
    } else {
        sum as u32
    }
}

/// Byte `index` (0 is the lowest) of `x`; every index above 1 gives byte 2.
pub fn low_byte(x: i32, index: u8) -> (byte: u8)
    ensures
        byte == packed_byte(x as int, index as int),
{
    if index == 0 {
        assert((x & 0xff) == (x as int) % 256 && 0 <= (x & 0xff) <= 255) by (bit_vector);
        (x & 0xff) as u8
    } else if index == 1 {
        assert(((x >> 8i32) & 0xff) == (x as int / 256) % 256 && 0 <= ((x >> 8i32) & 0xff) <= 255)
            by (bit_vector);
        ((x >> 8) & 0xff) as u8
    } else {
        assert(((x >> 16i32) & 0xff) == (x as int / 65536) % 256 && 0 <= ((x >> 16i32) & 0xff)
            <= 255) by (bit_vector);
        ((x >> 16) & 0xff) as u8
    }
}

/// A colour: three channel levels, each between 0 and `FULL`.
#[derive(Clone, Copy, Debug, PartialEq, Eq)]
pub struct Color {
    r: u32,
    g: u32,
    b: u32,
}

impl View for Color {
    type V = Rgb;

    closed spec fn view(&self) -> Rgb {
        Rgb { r: self.r as int, g: self.g as int, b: self.b as int }
    }
}

impl Color {
    #[verifier::type_invariant]
    spec fn channels_in_range(self) -> bool {
        self.r <= FULL && self.g <= FULL && self.b <= FULL
    }

    /// The colour with the given levels, which must be in range.
    pub closed spec fn of(rgb: Rgb) -> Color {
        Color { r: rgb.r as u32, g: rgb.g as u32, b: rgb.b as u32 }
    }

    /// A colour is its three levels and nothing else.
    pub proof fn lemma_of_view(rgb: Rgb)
        requires
            rgb.in_range(),
        ensures
            Color::of(rgb)@ == rgb,
    {
    }

    /// Two colours with the same levels are the same colour.
    pub proof fn lemma_view_injective(a: Color, b: Color)
        requires
            a@ == b@,
        ensures
            a == b,
    {
    }

    /// A colour from three levels, each cut to the valid range.
    pub fn new(r: i64, g: i64, b: i64) -> (color: Color)
        ensures
            color@ == (Rgb { r: r as int, g: g as int, b: b as int }).clamped(),
            color@.in_range(),
    {
        Color { r: clamp(r), g: clamp(g), b: clamp(b) }
    }

    /// A colour from three numbers in IEEE 754 single precision, given as
    /// their bit patterns: each is clamped to the range from 0 to 1, where
    /// what is not a number counts as 0, and taken as a fraction of `FULL`.
    pub fn from_singles(r: u32, g: u32, b: u32) -> (color: Color)
        ensures
            color@ == (Rgb { r: single_level(r), g: single_level(g), b: single_level(b) }),
            color@.in_range(),
    {
        Color { r: level_of_single(r), g: level_of_single(g), b: level_of_single(b) }
    }

    pub fn black() -> (color: Color)
        ensures
            color@ == Rgb::black(),
    {
        Color { r: 0, g: 0, b: 0 }
    }

    pub fn r(&self) -> (level: u32)
        ensures
            level == self@.r,
            level <= FULL,
    {
        proof {
            use_type_invariant(self);
        }
        self.r
    }

    pub fn g(&self) -> (level: u32)
        ensures
            level == self@.g,
            level <= FULL,
    {
        proof {
            use_type_invariant(self);
        }
        self.g
    }

    pub fn b(&self) -> (level: u32)
        ensures
            level == self@.b,
            level <= FULL,
    {
        proof {
            use_type_invariant(self);
        }
        self.b
    }

    /// Weights every channel by `strength`.
    pub fn scale(&mut self, strength: Strength)
        ensures
            final(self)@ == old(self)@.scaled(strength as int),
    {
        let r = scale_level(self.r, strength);
        let g = scale_level(self.g, strength);
        let b = scale_level(self.b, strength);
        *self = Color { r, g, b };
    }

    /// The `0xRRGGBB` number of the bytes that the channels are written as.
    pub fn to_rgb_hex(&self) -> (x: i32)
        ensures
            x == self@.packed(),
            0 <= x <= 0xff_ffff,
    {
        let r = byte_of_level(self.r);
        let g = byte_of_level(self.g);
        let b = byte_of_level(self.b);
        (r as i32) * 65536 + (g as i32) * 256 + (b as i32)
    }
}

impl core::ops::Add for Color {
    type Output = Color;

    /// Channel-wise sum, each channel clamped.
    fn add(self, other: Color) -> (sum: Color)
        ensures
            sum@ == self@.plus(other@),
    {
        proof {
            use_type_invariant(self);
            use_type_invariant(other);
        }
        Color::new(
            self.r as i64 + other.r as i64,
            self.g as i64 + other.g as i64,
            self.b as i64 + other.b as i64,
        )
    }
}

impl AddSpecImpl for Color {
    open spec fn obeys_add_spec() -> bool {
        true
    }

    open spec fn add_req(self, other: Color) -> bool {
        true
    }

    open spec fn add_spec(self, other: Color) -> Color {
        Color::of(self@.plus(other@))
    }
}

impl core::convert::From<i32> for Color {
    /// Reads the low 24 bits of `x` as `0xRRGGBB`.
    fn from(x: i32) -> (color: Color)
        ensures
            color@ == Rgb::unpacked(x as int),
    {
        let r = level_of_byte(low_byte(x, 2));
        let g = level_of_byte(low_byte(x, 1));
        let b = level_of_byte(low_byte(x, 0));
        Color { r, g, b }
    }
}

impl FromSpecImpl<i32> for Color {
    open spec fn obeys_from_spec() -> bool {
        true
    }

    open spec fn from_spec(x: i32) -> Color {
        Color::of(Rgb::unpacked(x as int))
    }
}

} // verus!
