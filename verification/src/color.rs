use vstd::prelude::*;

verus! {

/// One LED's colour, eight bits per channel.
#[derive(Clone, Copy, Debug, PartialEq, Eq, Structural)]
pub struct RGB8 {
    pub r: u8,
    pub g: u8,
    pub b: u8,
}

impl RGB8 {
    pub fn new(r: u8, g: u8, b: u8) -> (c: RGB8)
        ensures
            c == (RGB8 { r, g, b }),
    {
        RGB8 { r, g, b }
    }
}

impl Default for RGB8 {
    fn default() -> (c: RGB8)
        ensures
            c == (RGB8 { r: 0, g: 0, b: 0 }),
    {
        RGB8 { r: 0, g: 0, b: 0 }
    }
}

/// All channels off.
pub fn black() -> (c: RGB8)
    ensures
        c == (RGB8 { r: 0, g: 0, b: 0 }),
{
    RGB8 { r: 0, g: 0, b: 0 }
}

/// Full red.
pub fn red() -> (c: RGB8)
    ensures
        c == (RGB8 { r: 255, g: 0, b: 0 }),
{
    RGB8 { r: 255, g: 0, b: 0 }
}

/// Full green.
pub fn green() -> (c: RGB8)
    ensures
        c == (RGB8 { r: 0, g: 255, b: 0 }),
{
    RGB8 { r: 0, g: 255, b: 0 }
}

/// Full blue.
pub fn blue() -> (c: RGB8)
    ensures
        c == (RGB8 { r: 0, g: 0, b: 255 }),
{
    RGB8 { r: 0, g: 0, b: 255 }
}

/// Full green and blue.
pub fn cyan() -> (c: RGB8)
    ensures
        c == (RGB8 { r: 0, g: 255, b: 255 }),
{
    RGB8 { r: 0, g: 255, b: 255 }
}

/// Full red and blue.
pub fn magenta() -> (c: RGB8)
    ensures
        c == (RGB8 { r: 255, g: 0, b: 255 }),
{
    RGB8 { r: 255, g: 0, b: 255 }
}

/// Full red and green.
pub fn yellow() -> (c: RGB8)
    ensures
        c == (RGB8 { r: 255, g: 255, b: 0 }),
{
    RGB8 { r: 255, g: 255, b: 0 }
}

/// All channels at full scale.
pub fn white() -> (c: RGB8)
    ensures
        c == (RGB8 { r: 255, g: 255, b: 255 }),
{
    RGB8 { r: 255, g: 255, b: 255 }
}

/// The colour at position `pos` of the wheel: red at 0, through green and
/// blue, back to red at 255. Each third of the wheel fades one channel out
/// and the next one in, three units per step.
pub open spec fn wheel_color(pos: u8) -> RGB8 {
    let p = 255 - pos;
    if p < 85 {
        RGB8 { r: (255 - 3 * p) as u8, g: 0, b: (3 * p) as u8 }
    } else if p < 170 {
        RGB8 { r: 0, g: (3 * (p - 85)) as u8, b: (255 - 3 * (p - 85)) as u8 }
    } else {
        RGB8 { r: (3 * (p - 170)) as u8, g: (255 - 3 * (p - 170)) as u8, b: 0 }
    }
}

/// The colour at position `wheel_pos` of the wheel.
pub fn wheel(wheel_pos: u8) -> (c: RGB8)
    ensures
        c == wheel_color(wheel_pos),
{
    let p: u8 = 255 - wheel_pos;
    if p < 85 {
        return RGB8 { r: 255 - p * 3, g: 0, b: p * 3 };
    }
    if p < 170 {
        let q: u8 = p - 85;
        return RGB8 { r: 0, g: q * 3, b: 255 - q * 3 };
    }
    let q: u8 = p - 170;
    RGB8 { r: q * 3, g: 255 - q * 3, b: 0 }
}

/// On every wheel position exactly one channel is dark and the other two
/// add up to full scale.
pub proof fn lemma_wheel_color_sum(pos: u8)
    ensures
        wheel_color(pos).r + wheel_color(pos).g + wheel_color(pos).b == 255,
        wheel_color(pos).r == 0 || wheel_color(pos).g == 0 || wheel_color(pos).b == 0,
{
}

/// An endless cycle through the colour wheel.
pub struct Rainbow {
    pos: u8,
    step: u8,
}

impl Default for Rainbow {
    /// A cycle from the start of the wheel, one position at a time.
    fn default() -> (r: Rainbow)
        ensures
            r.pos() == 0,
            r.stride() == 1,
    {
        Rainbow { pos: 0, step: 1 }
    }
}

impl Rainbow {
    /// The wheel position of the next colour.
    pub closed spec fn pos(&self) -> u8 {
        self.pos
    }

    /// The distance on the wheel between two successive colours.
    pub closed spec fn stride(&self) -> u8 {
        self.step
    }

    /// A cycle from the start of the wheel in strides of `step`.
    pub fn step(step: u8) -> (r: Rainbow)
        ensures
            r.pos() == 0,
            r.stride() == step,
    {
        Rainbow { pos: 0, step }
    }

    /// A cycle from position `pos` of the wheel in strides of `step`.
    pub fn step_phase(step: u8, pos: u8) -> (r: Rainbow)
        ensures
            r.pos() == pos,
            r.stride() == step,
    {
        Rainbow { pos, step }
    }

    /// Hands out the colour at the current position and moves on by the
    /// stride, wrapping round the wheel. Never returns `None`.
    pub fn next(&mut self) -> (c: Option<RGB8>)
        ensures
            c == Some(wheel_color(old(self).pos())),
            final(self).pos() as int == (old(self).pos() + old(self).stride()) % 256,
            final(self).stride() == old(self).stride(),
    {
        let c = wheel(self.pos);
        self.pos = self.pos.wrapping_add(self.step);
        Some(c)
    }
}

/// A colour as a position on the wheel (`h`) and a brightness (`v`).
#[derive(Clone, Copy, Debug, PartialEq, Eq, Structural)]
pub struct HV8 {
    pub h: u8,
    pub v: u8,
}

impl HV8 {
    /// Dark, at the start of the wheel.
    pub fn zero() -> (hv: HV8)
        ensures
            hv == (HV8 { h: 0, v: 0 }),
    {
        HV8 { h: 0, v: 0 }
    }
}

/// Perceived brightness to LED drive level.
pub const GAMMA8: [u16; 256] = [
    0, 0, 0, 0, 0, 0, 0, 0, 0, 0, 0, 0, 0, 0, 0, 0, 0, 0, 0, 0, 0, 0, 0, 0, 0, 0, 0, 0, 1, 1, 1, 1,
    1, 1, 1, 1, 1, 1, 1, 1, 1, 2, 2, 2, 2, 2, 2, 2, 2, 3, 3, 3, 3, 3, 3, 3, 4, 4, 4, 4, 4, 5, 5, 5,
    5, 6, 6, 6, 6, 7, 7, 7, 7, 8, 8, 8, 9, 9, 9, 10, 10, 10, 11, 11, 11, 12, 12, 13, 13, 13, 14,
    14, 15, 15, 16, 16, 17, 17, 18, 18, 19, 19, 20, 20, 21, 21, 22, 22, 23, 24, 24, 25, 25, 26, 27,
    27, 28, 29, 29, 30, 31, 32, 32, 33, 34, 35, 35, 36, 37, 38, 39, 39, 40, 41, 42, 43, 44, 45, 46,
    47, 48, 49, 50, 50, 51, 52, 54, 55, 56, 57, 58, 59, 60, 61, 62, 63, 64, 66, 67, 68, 69, 70, 72,
    73, 74, 75, 77, 78, 79, 81, 82, 83, 85, 86, 87, 89, 90, 92, 93, 95, 96, 98, 99, 101, 102, 104,
    105, 107, 109, 110, 112, 114, 115, 117, 119, 120, 122, 124, 126, 127, 129, 131, 133, 135, 137,
    138, 140, 142, 144, 146, 148, 150, 152, 154, 156, 158, 160, 162, 164, 167, 169, 171, 173, 175,
    177, 180, 182, 184, 186, 189, 191, 193, 196, 198, 200, 203, 205, 208, 210, 213, 215, 218, 220,
    223, 225, 228, 231, 233, 236, 239, 241, 244, 247, 249, 252, 255,
];

/// The colour that `hv` stands for: its wheel colour, each channel scaled by
/// the gamma-corrected brightness over 255.
pub open spec fn hv_color(hv: HV8) -> RGB8 {
    let w = wheel_color(hv.h);
    let level = GAMMA8@[hv.v as int];
    RGB8 {
        r: (w.r * level / 255) as u8,
        g: (w.g * level / 255) as u8,
        b: (w.b * level / 255) as u8,
    }
}

/// No gamma entry exceeds full scale, and the table rises monotonically
/// from dark to full.
pub proof fn lemma_gamma_bounds()
    ensures
        forall|i: int| 0 <= i < 256 ==> #[trigger] GAMMA8@[i] <= 255,
        forall|i: int| 0 <= i < 255 ==> #[trigger] GAMMA8@[i] <= GAMMA8@[i + 1],
        GAMMA8@[0] == 0,
        GAMMA8@[255] == 255,
{
}

proof fn lemma_channel_product(x: int, level: int)
    by (nonlinear_arith)
    requires
        0 <= x <= 255,
        0 <= level <= 255,
    ensures
        0 <= x * level <= 65025,
        0 <= x * level / 255 <= 255,
{
}

/// Turns hue and brightness into the colour to show.
pub fn hv_to_rgb(hv: HV8) -> (c: RGB8)
    ensures
        c == hv_color(hv),
{
    let w = wheel(hv.h);
    let v = hv.v as usize;
    let level: u16 = GAMMA8[v];
    proof {
        lemma_gamma_bounds();
        lemma_channel_product(w.r as int, level as int);
        lemma_channel_product(w.g as int, level as int);
        lemma_channel_product(w.b as int, level as int);
    }
    RGB8 {
        r: (w.r as u16 * level / 255u16) as u8,
        g: (w.g as u16 * level / 255u16) as u8,
        b: (w.b as u16 * level / 255u16) as u8,
    }
}

impl From<HV8> for RGB8 {
    fn from(hv: HV8) -> (c: RGB8) {
        hv_to_rgb(hv)
    }
}

impl vstd::std_specs::convert::FromSpecImpl<HV8> for RGB8 {
    open spec fn obeys_from_spec() -> bool {
        true
    }

    open spec fn from_spec(hv: HV8) -> RGB8 {
        hv_color(hv)
    }
}

/// `c` with every channel scaled by `(level + 1) / 256`, rounded down.
pub open spec fn dimmed(c: RGB8, level: u8) -> RGB8 {
    RGB8 {
        r: (c.r * (level + 1) / 256) as u8,
        g: (c.g * (level + 1) / 256) as u8,
        b: (c.b * (level + 1) / 256) as u8,
    }
}

/// Dimming never brightens a channel, and at full level changes nothing.
pub proof fn lemma_dimmed_bounds(c: RGB8, level: u8)
    ensures
        dimmed(c, level).r <= c.r,
        dimmed(c, level).g <= c.g,
        dimmed(c, level).b <= c.b,
        level == 255 ==> dimmed(c, level) == c,
{
    lemma_scale_le(c.r as int, level as int);
    lemma_scale_le(c.g as int, level as int);
    lemma_scale_le(c.b as int, level as int);
}

proof fn lemma_scale_le(x: int, level: int)
    by (nonlinear_arith)
    requires
        0 <= x <= 255,
        0 <= level <= 255,
    ensures
        0 <= x * (level + 1) / 256 <= x,
        level == 255 ==> x * (level + 1) / 256 == x,
{
}

/// Calls `smart_leds::brightness` on the single colour `c`. The contract
/// restates what that adapter computes for every item it passes on: each
/// channel times `level + 1`, divided by 256 in sixteen-bit arithmetic.
#[verifier::external_body]
pub(crate) fn brightness(c: RGB8, level: u8) -> (out: RGB8)
    ensures
        out == dimmed(c, level),
{
    let pixel = smart_leds::RGB8 { r: c.r, g: c.g, b: c.b };
    let scaled = smart_leds::brightness(core::iter::once(pixel), level).next().unwrap();
    RGB8 { r: scaled.r, g: scaled.g, b: scaled.b }
}

} // verus!
