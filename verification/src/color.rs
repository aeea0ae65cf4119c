//! Packed 24-bit colours and their approximate linear blend.

use vstd::prelude::*;

verus! {

/// The red, green and blue channels of a colour, as plain values.
pub type Rgb = (u8, u8, u8);

/// The colour with every channel at zero.
pub open spec fn black() -> Rgb {
    (0u8, 0u8, 0u8)
}

/// One channel of a blend: `a` weighted `255 - t`, `b` weighted `t`, and the
/// sum divided by 256. The divisor is 256 and not 255, so a blend of a value
/// with itself comes out one step darker.
pub open spec fn blend(a: u8, t: u8, b: u8) -> u8 {
    ((a * (255 - t) + b * t) / 256) as u8
}

/// The blend of two colours, channel by channel.
pub open spec fn mix_rgb(a: Rgb, t: u8, b: Rgb) -> Rgb {
    (blend(a.0, t, b.0), blend(a.1, t, b.1), blend(a.2, t, b.2))
}

/// A colour packed into the low 24 bits of a word: red in bits 16 to 23, green
/// in bits 8 to 15, blue in bits 0 to 7.
#[derive(PartialEq, Eq, Structural, Clone, Copy, Debug)]
pub struct Color {
    color: u32,
}

impl View for Color {
    type V = Rgb;

    closed spec fn view(&self) -> Rgb {
        rgb_of(self.color)
    }
}

impl Color {
    /// The bits above the three channels are clear.
    pub closed spec fn wf(&self) -> bool {
        self.color < 0x1000000
    }

    /// The packed word.
    pub closed spec fn word(&self) -> nat {
        self.color as nat
    }

    /// The colour with the given channels.
    pub fn new(r: u8, g: u8, b: u8) -> (c: Color)
        ensures
            c@ == (r, g, b),
            c.wf(),
            c.word() == r * 0x10000 + g * 0x100 + b,
    {
        let color = (r as u32) << 16 | (g as u32) << 8 | b as u32;
        assert(color == r * 0x10000 + g * 0x100 + b) by (bit_vector)
            requires
                color == (r as u32) << 16 | (g as u32) << 8 | b as u32,
        ;
        Color { color }
    }

    /// Blends `other` into `self`: in each channel `self` counts `255 - t` times,
    /// `other` counts `t` times, and the sum is divided by 256.
    pub fn mix(&self, t: u8, other: &Color) -> (c: Color)
        ensures
            c@ == mix_rgb(self@, t, other@),
            c.wf(),
    {
        let ghost weight: u8 = t;
        let ghost mixed = mix_rgb(self@, t, other@);
        let nt = (!t) as u32;
        let t = t as u32;
        assert(nt == 255 - t) by {
            assert(!weight == 255 - weight) by (bit_vector);
        }

        // mix R and B
        let rb = self.color & 0xff00ff;
        let rb2 = other.color & 0xff00ff;
        proof {
            lemma_mix_red_blue(self.color, other.color, weight);
        }
        let rb = (rb * nt + rb2 * t) >> 8 & 0xff00ff;

        // mix green
        let g = self.color & 0xff00;
        let g2 = other.color & 0xff00;
        proof {
            lemma_mix_green(self.color, other.color, weight);
        }
        let g = (g * nt + g2 * t) >> 8 & 0xff00;
        proof {
            lemma_join(rb, g, mixed.0, mixed.1, mixed.2);
        }
        Color { color: rb | g }
    }

    /// The red channel.
    pub fn r(&self) -> (res: u8)
        ensures
            res == self@.0,
    {
        let c = self.color;
        assert((c >> 16) as u8 == (c / 0x10000 % 0x100) as u8) by (bit_vector);
        (self.color >> 16) as u8
    }

    /// The green channel.
    pub fn g(&self) -> (res: u8)
        ensures
            res == self@.1,
    {
        let c = self.color;
        assert((c >> 8) as u8 == (c / 0x100 % 0x100) as u8) by (bit_vector);
        (self.color >> 8) as u8
    }

    /// The blue channel.
    pub fn b(&self) -> (res: u8)
        ensures
            res == self@.2,
    {
        let c = self.color;
        assert(c as u8 == (c % 0x100) as u8) by (bit_vector);
        self.color as u8
    }

    /// The packed word: red in bits 16 to 23, green in bits 8 to 15, blue in
    /// bits 0 to 7.
    pub fn packed(&self) -> (res: u32)
        ensures
            res == self.word(),
    {
        self.color
    }
}

/// A channel one step darker, and zero where it is zero already: what a
/// blend leaves of a channel that carries all the weight.
pub open spec fn dim(a: u8) -> u8 {
    if a == 0 {
        0u8
    } else {
        (a - 1) as u8
    }
}

/// Two packed colours are the same value exactly when their channels agree.
pub proof fn lemma_eq_by_channels(a: Color, b: Color)
    requires
        a.wf(),
        b.wf(),
    ensures
        a == b <==> a@ == b@,
{
}

/// The word of a packed colour holds its channels eight bits apart, red on
/// top.
pub proof fn lemma_word_by_channels(a: Color)
    requires
        a.wf(),
    ensures
        a.word() == a@.0 * 0x10000 + a@.1 * 0x100 + a@.2,
{
}

/// With weight 0 a blend keeps the first colour and forgets the second: each
/// channel comes out as the first colour's, one step darker where it is not
/// zero.
pub proof fn lemma_mix_weight_zero(a: Rgb, b: Rgb)
    ensures
        mix_rgb(a, 0, b) == (dim(a.0), dim(a.1), dim(a.2)),
{
}

/// With weight 255 a blend keeps the second colour and forgets the first:
/// each channel comes out as the second colour's, one step darker where it is
/// not zero.
pub proof fn lemma_mix_weight_full(a: Rgb, b: Rgb)
    ensures
        mix_rgb(a, 255, b) == (dim(b.0), dim(b.1), dim(b.2)),
{
}

/// Every channel of a blend lies between the two channels it is made of, less
/// one step for the division: a blend never leaves the range of its inputs
/// upwards, and falls below it by one at most.
pub proof fn lemma_blend_between(a: u8, t: u8, b: u8)
    ensures
        a <= b ==> dim(a) <= blend(a, t, b) <= b,
        b <= a ==> dim(b) <= blend(a, t, b) <= a,
{
    lemma_weighted(a, t, b);
    let nt = 255 - t;
    if a <= b {
        assert(a * nt + a * t <= a * nt + b * t <= b * nt + b * t) by (nonlinear_arith)
            requires
                a <= b,
                0 <= nt,
                0 <= t,
        ;
        assert(a * nt + a * t == a * 255) by (nonlinear_arith)
            requires
                nt + t == 255,
        ;
        assert(b * nt + b * t == b * 255) by (nonlinear_arith)
            requires
                nt + t == 255,
        ;
    } else {
        assert(b * nt + b * t <= a * nt + b * t <= a * nt + a * t) by (nonlinear_arith)
            requires
                b <= a,
                0 <= nt,
                0 <= t,
        ;
        assert(a * nt + a * t == a * 255) by (nonlinear_arith)
            requires
                nt + t == 255,
        ;
        assert(b * nt + b * t == b * 255) by (nonlinear_arith)
            requires
                nt + t == 255,
        ;
    }
}

/// The three channels of a packed word.
spec fn rgb_of(c: u32) -> Rgb {
    ((c / 0x10000 % 0x100) as u8, (c / 0x100 % 0x100) as u8, (c % 0x100) as u8)
}

/// What the two masks of `mix` leave of a word: red and blue 16 bits apart,
/// and green alone.
proof fn lemma_masks(c: u32)
    ensures
        c & 0xff00ff == rgb_of(c).0 * 0x10000 + rgb_of(c).2,
        c & 0xff00 == rgb_of(c).1 * 0x100,
{
    assert(c & 0xff00ff == (c / 0x10000 % 0x100) * 0x10000 + c % 0x100) by (bit_vector);
    assert(c & 0xff00 == (c / 0x100 % 0x100) * 0x100) by (bit_vector);
}

/// The sum that `blend` divides.
spec fn weighted(a: u8, t: u8, b: u8) -> int {
    a * (255 - t) + b * t
}

/// The weighted sum of two channels stays below 2^16, and its quotient by 256
/// is a channel.
proof fn lemma_weighted(a: u8, t: u8, b: u8)
    ensures
        0 <= weighted(a, t, b) <= 65025,
        0 <= a * (255 - t),
        0 <= b * t,
        blend(a, t, b) == weighted(a, t, b) / 0x100,
{
    assert(0 <= a * (255 - t) <= 255 * (255 - t)) by (nonlinear_arith);
    assert(0 <= b * t <= 255 * t) by (nonlinear_arith);
}

/// Red and blue are weighted in one multiplication: the blue sum stays below
/// 2^16, so nothing of it reaches the red sum, and the shift and the mask
/// leave the two quotients 16 bits apart.
proof fn lemma_mix_red_blue(c1: u32, c2: u32, t: u8)
    ensures
        (c1 & 0xff00ff) * (255 - t) + (c2 & 0xff00ff) * t <= u32::MAX,
        0 <= (c1 & 0xff00ff) * (255 - t) <= u32::MAX,
        0 <= (c2 & 0xff00ff) * t <= u32::MAX,
        (((c1 & 0xff00ff) * (255 - t) + (c2 & 0xff00ff) * t) as u32) >> 8 & 0xff00ff == blend(
            rgb_of(c1).0,
            t,
            rgb_of(c2).0,
        ) * 0x10000 + blend(rgb_of(c1).2, t, rgb_of(c2).2),
{
    let (r1, g1, b1) = rgb_of(c1);
    let (r2, g2, b2) = rgb_of(c2);
    let nt = 255 - t;
    lemma_masks(c1);
    lemma_masks(c2);
    lemma_weighted(r1, t, r2);
    lemma_weighted(b1, t, b2);
    let rs: u32 = weighted(r1, t, r2) as u32;
    let bs: u32 = weighted(b1, t, b2) as u32;
    assert((r1 * 0x10000 + b1) * nt + (r2 * 0x10000 + b2) * t == (r1 * nt + r2 * t) * 0x10000 + (b1
        * nt + b2 * t)) by (nonlinear_arith);
    assert(0 <= (r1 * 0x10000 + b1) * nt) by (nonlinear_arith)
        requires
            0 <= nt,
    ;
    assert(0 <= (r2 * 0x10000 + b2) * t) by (nonlinear_arith);
    let both: u32 = (rs * 0x10000 + bs) as u32;
    assert(both >> 8 & 0xff00ff == (rs / 0x100) * 0x10000 + bs / 0x100) by (bit_vector)
        requires
            both == rs * 0x10000 + bs,
            rs <= 65025,
            bs <= 65025,
    ;
}

/// Green is weighted alone, eight bits up, and comes back to its place.
proof fn lemma_mix_green(c1: u32, c2: u32, t: u8)
    ensures
        (c1 & 0xff00) * (255 - t) + (c2 & 0xff00) * t <= u32::MAX,
        0 <= (c1 & 0xff00) * (255 - t) <= u32::MAX,
        0 <= (c2 & 0xff00) * t <= u32::MAX,
        (((c1 & 0xff00) * (255 - t) + (c2 & 0xff00) * t) as u32) >> 8 & 0xff00 == blend(
            rgb_of(c1).1,
            t,
            rgb_of(c2).1,
        ) * 0x100,
{
    let g1 = rgb_of(c1).1;
    let g2 = rgb_of(c2).1;
    let nt = 255 - t;
    lemma_masks(c1);
    lemma_masks(c2);
    lemma_weighted(g1, t, g2);
    let gs: u32 = weighted(g1, t, g2) as u32;
    assert((g1 * 0x100) * nt + (g2 * 0x100) * t == (g1 * nt + g2 * t) * 0x100)
        by (nonlinear_arith);
    assert(0 <= (g1 * 0x100) * nt) by (nonlinear_arith)
        requires
            0 <= nt,
    ;
    assert(0 <= (g2 * 0x100) * t) by (nonlinear_arith);
    let green: u32 = (gs * 0x100) as u32;
    assert(green >> 8 & 0xff00 == (gs / 0x100) * 0x100) by (bit_vector)
        requires
            green == gs * 0x100,
            gs <= 65025,
    ;
}

/// A word with red and blue in place and a word with green in place join
/// into a packed colour.
proof fn lemma_join(rb: u32, g: u32, x: u8, y: u8, z: u8)
    requires
        rb == x * 0x10000 + z,
        g == y * 0x100,
    ensures
        rgb_of(rb | g) == (x, y, z),
        rb | g < 0x1000000,
{
    assert(rb | g == x * 0x10000 + y * 0x100 + z) by (bit_vector)
        requires
            rb == x * 0x10000 + z,
            g == y * 0x100,
    ;
}

} // verus!
