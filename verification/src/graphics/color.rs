use vstd::prelude::*;

verus! {

/// Packs four channels into the `0xAARRGGBB` layout.
pub open spec fn pack(red: u8, green: u8, blue: u8, alpha: u8) -> u32 {
    (alpha as int * 0x100_0000 + red as int * 0x1_0000 + green as int * 0x100 + blue as int) as u32
}

pub open spec fn alpha_of(value: u32) -> u8 {
    (value as int / 0x100_0000) as u8
}

pub open spec fn red_of(value: u32) -> u8 {
    (value as int / 0x1_0000 % 0x100) as u8
}

pub open spec fn green_of(value: u32) -> u8 {
    (value as int / 0x100 % 0x100) as u8
}

pub open spec fn blue_of(value: u32) -> u8 {
    (value as int % 0x100) as u8
}

/// A straight (not premultiplied) RGBA color stored as `0xAARRGGBB`.
#[derive(Clone, Copy, Debug, PartialEq, Eq, Structural)]
pub struct Color(pub u32);

/// Weighted mean of two channel values, rounded to nearest.
pub open spec fn mix_channel(source: int, source_weight: int, target: int, target_weight: int) -> int {
    (source * source_weight + target * target_weight + (source_weight + target_weight) / 2)
        / (source_weight + target_weight)
}

/// Weight that the background keeps under a source of alpha `source_alpha`.
pub open spec fn background_weight(background_alpha: int, source_alpha: int) -> int {
    (background_alpha * (255 - source_alpha) + 127) / 255
}

impl Color {
    pub open spec fn red_s(self) -> u8 {
        red_of(self.0)
    }

    pub open spec fn green_s(self) -> u8 {
        green_of(self.0)
    }

    pub open spec fn blue_s(self) -> u8 {
        blue_of(self.0)
    }

    pub open spec fn alpha_s(self) -> u8 {
        alpha_of(self.0)
    }

    pub open spec fn from_channels(red: u8, green: u8, blue: u8, alpha: u8) -> Color {
        Color(pack(red, green, blue, alpha))
    }

    /// Porter-Duff "source over" on straight alpha, with integer rounding.
    /// A fully transparent source leaves the background untouched.
    pub open spec fn over(self, background: Color) -> Color {
        let source_alpha = self.alpha_s() as int;
        if source_alpha == 0 {
            background
        } else {
            let kept = background_weight(background.alpha_s() as int, source_alpha);
            Color::from_channels(
                mix_channel(self.red_s() as int, source_alpha, background.red_s() as int, kept) as u8,
                mix_channel(self.green_s() as int, source_alpha, background.green_s() as int, kept) as u8,
                mix_channel(self.blue_s() as int, source_alpha, background.blue_s() as int, kept) as u8,
                (source_alpha + kept) as u8,
            )
        }
    }

    pub fn rgba(red: u8, green: u8, blue: u8, alpha: u8) -> (color: Color)
        ensures
            color == Color::from_channels(red, green, blue, alpha),
    {
        let value = ((alpha as u32) << 24u32) | ((red as u32) << 16u32) | ((green as u32) << 8u32)
            | (blue as u32);
        proof {
            lemma_pack_bits(red, green, blue, alpha);
        }
        Color(value)
    }

    /// An opaque color.
    pub fn rgb(red: u8, green: u8, blue: u8) -> (color: Color)
        ensures
            color == Color::from_channels(red, green, blue, 255),
    {
        Color::rgba(red, green, blue, 255)
    }

    pub fn from_u32(value: u32) -> (color: Color)
        ensures
            color.0 == value,
    {
        Color(value)
    }

    pub fn as_u32(self) -> (value: u32)
        ensures
            value == self.0,
    {
        self.0
    }

    /// The framebuffer layout: blue in the low byte, then green and red; the
    /// top byte is ignored by the display.
    pub fn as_bgrx(self) -> (value: u32)
        ensures
            value == self.0,
    {
        self.0
    }

    pub fn red(self) -> (red: u8)
        ensures
            red == self.red_s(),
    {
        let v = self.0;
        proof {
            lemma_channel_bits(v);
        }
        ((v >> 16u32) & 0xff) as u8
    }

    pub fn green(self) -> (green: u8)
        ensures
            green == self.green_s(),
    {
        let v = self.0;
        proof {
            lemma_channel_bits(v);
        }
        ((v >> 8u32) & 0xff) as u8
    }

    pub fn blue(self) -> (blue: u8)
        ensures
            blue == self.blue_s(),
    {
        let v = self.0;
        proof {
            lemma_channel_bits(v);
        }
        (v & 0xff) as u8
    }

    pub fn alpha(self) -> (alpha: u8)
        ensures
            alpha == self.alpha_s(),
    {
        let v = self.0;
        proof {
            lemma_channel_bits(v);
        }
        (v >> 24u32) as u8
    }

    /// Composites `self` over `background`.
    pub fn blend_over(self, background: Color) -> (result: Color)
        ensures
            result == self.over(background),
    {
        let source_alpha = self.alpha() as u32;
        if source_alpha == 0 {
            return background;
        }
        let background_alpha = background.alpha() as u32;
        proof {
            lemma_background_weight_bound(background_alpha as int, source_alpha as int);
        }
        let kept = (background_alpha * (255 - source_alpha) + 127) / 255;
        let total = source_alpha + kept;
        let red = mix(self.red() as u32, source_alpha, background.red() as u32, kept);
        let green = mix(self.green() as u32, source_alpha, background.green() as u32, kept);
        let blue = mix(self.blue() as u32, source_alpha, background.blue() as u32, kept);
        Color::rgba(red, green, blue, total as u8)
    }
}

fn mix(source: u32, source_weight: u32, target: u32, target_weight: u32) -> (channel: u8)
    requires
        source <= 255,
        target <= 255,
        0 < source_weight,
        source_weight + target_weight <= 255,
    ensures
        channel as int == mix_channel(source as int, source_weight as int, target as int, target_weight as int),
{
    let total = source_weight + target_weight;
    proof {
        lemma_mix_bound(source as int, source_weight as int, target as int, target_weight as int);
    }
    ((source * source_weight + target * target_weight + total / 2) / total) as u8
}

proof fn lemma_mix_bound(source: int, source_weight: int, target: int, target_weight: int)
    requires
        0 <= source <= 255,
        0 <= target <= 255,
        0 < source_weight,
        0 <= target_weight,
        source_weight + target_weight <= 255,
    ensures
        source * source_weight + target * target_weight + (source_weight + target_weight) / 2 <= 255 * 255 + 255,
        0 <= mix_channel(source, source_weight, target, target_weight) <= 255,
{
    let total = source_weight + target_weight;
    assert(source * source_weight <= 255 * source_weight) by (nonlinear_arith)
        requires 0 <= source <= 255, 0 < source_weight;
    assert(target * target_weight <= 255 * target_weight) by (nonlinear_arith)
        requires 0 <= target <= 255, 0 <= target_weight;
    assert(source * source_weight >= 0) by (nonlinear_arith)
        requires 0 <= source, 0 < source_weight;
    assert(target * target_weight >= 0) by (nonlinear_arith)
        requires 0 <= target, 0 <= target_weight;
    let numerator = source * source_weight + target * target_weight + total / 2;
    assert(numerator < 256 * total);
    assert(numerator / total <= 255) by (nonlinear_arith)
        requires numerator < 256 * total, total > 0, numerator >= 0;
    assert(numerator / total >= 0) by (nonlinear_arith)
        requires total > 0, numerator >= 0;
}

proof fn lemma_background_weight_bound(background_alpha: int, source_alpha: int)
    requires
        0 <= background_alpha <= 255,
        0 < source_alpha <= 255,
    ensures
        0 <= background_weight(background_alpha, source_alpha) <= 255 - source_alpha,
{
    assert(background_alpha * (255 - source_alpha) <= 255 * (255 - source_alpha)) by (nonlinear_arith)
        requires 0 <= background_alpha <= 255, source_alpha <= 255;
    assert(background_alpha * (255 - source_alpha) >= 0) by (nonlinear_arith)
        requires 0 <= background_alpha, source_alpha <= 255;
}

proof fn lemma_pack_bits(red: u8, green: u8, blue: u8, alpha: u8)
    ensures
        ((alpha as u32) << 24u32) | ((red as u32) << 16u32) | ((green as u32) << 8u32) | (blue as u32)
            == pack(red, green, blue, alpha),
{
    assert(((alpha as u32) << 24u32) | ((red as u32) << 16u32) | ((green as u32) << 8u32) | (blue as u32)
        == (alpha as u32) * 0x100_0000u32 + (red as u32) * 0x1_0000u32 + (green as u32) * 0x100u32 + (blue as u32))
        by (bit_vector);
}

proof fn lemma_channel_bits(v: u32)
    ensures
        ((v >> 16u32) & 0xff) as u8 == red_of(v),
        ((v >> 8u32) & 0xff) as u8 == green_of(v),
        (v & 0xff) as u8 == blue_of(v),
        (v >> 24u32) as u8 == alpha_of(v),
{
    assert((v >> 16u32) & 0xff == (v / 0x1_0000u32) % 0x100u32) by (bit_vector);
    assert((v >> 8u32) & 0xff == (v / 0x100u32) % 0x100u32) by (bit_vector);
    assert(v & 0xff == v % 0x100u32) by (bit_vector);
    assert(v >> 24u32 == v / 0x100_0000u32) by (bit_vector);
}

/// Reading back the channels of a packed color gives the channels it was
/// packed from.
pub proof fn lemma_channels_round_trip(red: u8, green: u8, blue: u8, alpha: u8)
    ensures
        Color::from_channels(red, green, blue, alpha).red_s() == red,
        Color::from_channels(red, green, blue, alpha).green_s() == green,
        Color::from_channels(red, green, blue, alpha).blue_s() == blue,
        Color::from_channels(red, green, blue, alpha).alpha_s() == alpha,
{
    let (r, g, b, a) = (red as u32, green as u32, blue as u32, alpha as u32);
    assert(a * 0x100_0000u32 + r * 0x1_0000u32 + g * 0x100u32 + b < 0x1_0000_0000) by (bit_vector)
        requires r < 256, g < 256, b < 256, a < 256;
    let v: u32 = (a * 0x100_0000u32 + r * 0x1_0000u32 + g * 0x100u32 + b) as u32;
    assert(v / 0x100_0000u32 == a && (v / 0x1_0000u32) % 0x100u32 == r && (v / 0x100u32) % 0x100u32 == g
        && v % 0x100u32 == b) by (bit_vector)
        requires r < 256, g < 256, b < 256, a < 256, v == a * 0x100_0000u32 + r * 0x1_0000u32 + g * 0x100u32 + b;
}

/// Packing the channels of a color gives the color back.
pub proof fn lemma_color_from_own_channels(color: Color)
    ensures
        Color::from_channels(color.red_s(), color.green_s(), color.blue_s(), color.alpha_s()) == color,
{
    let v = color.0;
    assert((v / 0x100_0000u32) * 0x100_0000u32 + ((v / 0x1_0000u32) % 0x100u32) * 0x1_0000u32
        + ((v / 0x100u32) % 0x100u32) * 0x100u32 + v % 0x100u32 == v) by (bit_vector);
}

/// Compositing a fully transparent color leaves the background unchanged.
pub proof fn lemma_transparent_source_keeps_background(source: Color, background: Color)
    requires
        source.alpha_s() == 0,
    ensures
        source.over(background) == background,
{
}

/// An opaque color replaces whatever lies beneath it.
pub proof fn lemma_opaque_source_replaces(source: Color, background: Color)
    requires
        source.alpha_s() == 255,
    ensures
        source.over(background) == source,
{
    let kept = background_weight(background.alpha_s() as int, 255);
    assert(kept == 0);
    lemma_mix_identity(source.red_s() as int, 255);
    lemma_mix_identity(source.green_s() as int, 255);
    lemma_mix_identity(source.blue_s() as int, 255);
    lemma_color_from_own_channels(source);
}

/// Over a fully transparent background a visible color lands unchanged, so
/// painting on an empty layer keeps the exact ink.
pub proof fn lemma_over_clear_background(source: Color, background: Color)
    requires
        source.alpha_s() > 0,
        background.alpha_s() == 0,
    ensures
        source.over(background) == source,
{
    let alpha = source.alpha_s() as int;
    assert(background_weight(0, alpha) == 0);
    lemma_mix_identity(source.red_s() as int, alpha);
    lemma_mix_identity(source.green_s() as int, alpha);
    lemma_mix_identity(source.blue_s() as int, alpha);
    lemma_color_from_own_channels(source);
}

/// Compositing onto an opaque background gives an opaque result.
pub proof fn lemma_over_opaque_stays_opaque(source: Color, background: Color)
    requires
        background.alpha_s() == 255,
    ensures
        source.over(background).alpha_s() == 255,
{
    let alpha = source.alpha_s() as int;
    if alpha > 0 {
        let kept = background_weight(255, alpha);
        assert(255 * (255 - alpha) + 127 == 255 * (255 - alpha) + 127);
        assert(kept == 255 - alpha) by (nonlinear_arith)
            requires kept == (255 * (255 - alpha) + 127) / 255, 0 < alpha <= 255;
        let r = mix_channel(source.red_s() as int, alpha, background.red_s() as int, kept);
        let g = mix_channel(source.green_s() as int, alpha, background.green_s() as int, kept);
        let b = mix_channel(source.blue_s() as int, alpha, background.blue_s() as int, kept);
        lemma_mix_bound(source.red_s() as int, alpha, background.red_s() as int, kept);
        lemma_mix_bound(source.green_s() as int, alpha, background.green_s() as int, kept);
        lemma_mix_bound(source.blue_s() as int, alpha, background.blue_s() as int, kept);
        lemma_channels_round_trip(r as u8, g as u8, b as u8, 255);
    }
}

proof fn lemma_mix_identity(channel: int, weight: int)
    requires
        0 <= channel <= 255,
        0 < weight <= 255,
    ensures
        mix_channel(channel, weight, 0, 0) == channel,
        forall|other: int| #![auto] mix_channel(channel, weight, other, 0) == channel,
{
    assert((channel * weight + weight / 2) / weight == channel) by (nonlinear_arith)
        requires 0 < weight, 0 <= channel;
    assert forall|other: int| #![auto] mix_channel(channel, weight, other, 0) == channel by {
        assert(other * 0 == 0);
    }
}

} // verus!
