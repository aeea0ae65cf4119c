//! The plain-text dump of an image: a header of three lines, then one line
//! for each pixel, row by row from the top.

use crate::color::Rgb;
use crate::image::{Canvas, Image};
use crate::render::{lemma_row_of, sample};
use vstd::prelude::*;

verus! {

/// The digits of `n` in base ten, as ASCII, without leading zeros.
pub open spec fn decimal(n: nat) -> Seq<u8>
    decreases n,
{
    if n < 10 {
        seq![(48 + n) as u8]
    } else {
        decimal(n / 10).push((48 + n % 10) as u8)
    }
}

/// The number that a string of ASCII digits writes in base ten.
pub open spec fn value(digits: Seq<u8>) -> nat
    decreases digits.len(),
{
    if digits.len() == 0 {
        0
    } else {
        (10 * value(digits.drop_last()) + (digits.last() - 48)) as nat
    }
}

/// The digits of a number are digits, they start with a zero only for the
/// number zero, and they write that number.
pub proof fn lemma_decimal(n: nat)
    ensures
        decimal(n).len() >= 1,
        forall|i: int| 0 <= i < decimal(n).len() ==> 48 <= #[trigger] decimal(n)[i] <= 57,
        decimal(n)[0] == 48 <==> n == 0,
        value(decimal(n)) == n,
    decreases n,
{
    reveal_with_fuel(value, 2);
    if n < 10 {
        assert(decimal(n).drop_last() =~= Seq::<u8>::empty());
    } else {
        lemma_decimal(n / 10);
        assert(decimal(n).drop_last() =~= decimal(n / 10));
    }
}

/// The header: the magic word of the text format, the size, and the largest
/// value of a channel.
pub open spec fn ppm_header(width: nat, height: nat) -> Seq<u8> {
    seq![80u8, 51u8, 10u8] + decimal(width) + seq![32u8] + decimal(height) + seq![
        10u8,
        50u8,
        53u8,
        53u8,
        10u8,
    ]
}

/// The line of one pixel: red, green and blue, a blank between them.
pub open spec fn ppm_pixel(c: Rgb) -> Seq<u8> {
    decimal(c.0 as nat) + seq![32u8] + decimal(c.1 as nat) + seq![32u8] + decimal(c.2 as nat)
        + seq![10u8]
}

/// The lines of the first `n` pixels, counted row by row.
pub open spec fn ppm_body(canvas: Canvas, n: nat) -> Seq<u8>
    decreases n,
{
    if n == 0 {
        Seq::<u8>::empty()
    } else {
        ppm_body(canvas, (n - 1) as nat) + ppm_pixel(sample(canvas, canvas.width, n - 1))
    }
}

/// The whole dump of a canvas.
pub open spec fn ppm(canvas: Canvas) -> Seq<u8> {
    ppm_header(canvas.width, canvas.height) + ppm_body(canvas, canvas.width * canvas.height)
}

/// Appends the decimal digits of `n`.
fn push_decimal(out: &mut Vec<u8>, n: u32)
    ensures
        final(out)@ == old(out)@ + decimal(n as nat),
    decreases n,
{
    if n >= 10 {
        push_decimal(out, n / 10);
    }
    out.push(48 + (n % 10) as u8);
}

/// Appends the line of one pixel.
fn push_pixel(out: &mut Vec<u8>, r: u8, g: u8, b: u8)
    ensures
        final(out)@ == old(out)@ + ppm_pixel((r, g, b)),
{
    push_decimal(out, r as u32);
    out.push(32);
    push_decimal(out, g as u32);
    out.push(32);
    push_decimal(out, b as u32);
    out.push(10);
}

impl Image {
    /// The plain-text dump of the image.
    pub fn to_ppm(&self) -> (out: Vec<u8>)
        requires
            self.wf(),
        ensures
            out@ == ppm(self@),
    {
        let width = self.width();
        let height = self.height();
        proof {
            self.lemma_view_wf();
            assert(width * height <= width * height * 3) by (nonlinear_arith);
        }
        let mut out: Vec<u8> = Vec::new();
        out.push(80);
        out.push(51);
        out.push(10);
        push_decimal(&mut out, width);
        out.push(32);
        push_decimal(&mut out, height);
        out.push(10);
        out.push(50);
        out.push(53);
        out.push(53);
        out.push(10);
        assert(out@ =~= ppm_header(width as nat, height as nat));

        let n = width * height;
        for i in 0..n
            invariant
                self.wf(),
                width == self@.width,
                height == self@.height,
                0 < width,
                n == width * height,
                out@ == ppm_header(width as nat, height as nat) + ppm_body(self@, i as nat),
        {
            proof {
                lemma_row_of(width as int, height as int, i as int);
            }
            let color = self.at((i % width, i / width));
            push_pixel(&mut out, color.r(), color.g(), color.b());
            assert(out@ =~= ppm_header(width as nat, height as nat) + ppm_body(
                self@,
                (i + 1) as nat,
            ));
        }
        out
    }
}

} // verus!
