//! The canvas: a grid of colours behind bounds-checked reads and writes.

use crate::color::{black, Color, Rgb};
use vstd::prelude::*;

verus! {

/// The picture that an image holds: `height` rows of `width` colours each, the
/// top row first. Pixel `(x, y)` is column `x` of row `y`.
pub struct Canvas {
    pub width: nat,
    pub height: nat,
    pub rows: Seq<Seq<Rgb>>,
}

impl Canvas {
    /// There are `height` rows, and each has `width` pixels.
    pub open spec fn wf(self) -> bool {
        &&& self.rows.len() == self.height
        &&& forall|y: int| 0 <= y < self.height ==> (#[trigger] self.rows[y]).len() == self.width
    }

    /// Whether `(x, y)` is a pixel of this canvas.
    pub open spec fn contains(self, x: int, y: int) -> bool {
        0 <= x < self.width && 0 <= y < self.height
    }

    /// The colour of pixel `(x, y)`.
    pub open spec fn at(self, x: int, y: int) -> Rgb {
        self.rows[y][x]
    }

    /// This canvas with pixel `(x, y)` set to `c`.
    pub open spec fn put(self, x: int, y: int, c: Rgb) -> Canvas {
        Canvas {
            width: self.width,
            height: self.height,
            rows: self.rows.update(y, self.rows[y].update(x, c)),
        }
    }

    /// The canvas of the given size that is black all over.
    pub open spec fn blank(width: nat, height: nat) -> Canvas {
        Canvas {
            width,
            height,
            rows: Seq::new(height, |y: int| Seq::new(width, |x: int| black())),
        }
    }

    /// The canvas that a buffer of `width * height * 3` bytes holds: the pixels
    /// row by row, three bytes each, red first.
    pub open spec fn of_bytes(width: nat, height: nat, bytes: Seq<u8>) -> Canvas {
        Canvas {
            width,
            height,
            rows: Seq::new(
                height,
                |y: int|
                    Seq::new(
                        width,
                        |x: int|
                            (
                                bytes[(y * width + x) * 3],
                                bytes[(y * width + x) * 3 + 1],
                                bytes[(y * width + x) * 3 + 2],
                            ),
                    ),
            ),
        }
    }
}

/// Two canvases of one size that agree on every pixel are the same canvas.
pub proof fn lemma_canvas_equal(a: Canvas, b: Canvas)
    requires
        a.wf(),
        b.wf(),
        a.width == b.width,
        a.height == b.height,
        forall|x: int, y: int| a.contains(x, y) ==> a.at(x, y) == b.at(x, y),
    ensures
        a == b,
{
    assert forall|y: int| 0 <= y < a.height implies a.rows[y] =~= b.rows[y] by {
        assert forall|x: int| 0 <= x < a.width implies a.rows[y][x] == b.rows[y][x] by {
            assert(a.contains(x, y));
            assert(a.at(x, y) == b.at(x, y));
        }
    }
    assert(a.rows =~= b.rows);
}

/// The blank canvas is black at every pixel.
pub proof fn lemma_blank(width: nat, height: nat)
    ensures
        Canvas::blank(width, height).wf(),
        forall|i: int, j: int|
            0 <= i < width && 0 <= j < height ==> #[trigger] Canvas::blank(width, height).at(i, j)
                == black(),
{
}

/// Setting a pixel changes that pixel and no other, and keeps the size.
pub proof fn lemma_put(canvas: Canvas, x: int, y: int, c: Rgb)
    requires
        canvas.wf(),
        canvas.contains(x, y),
    ensures
        canvas.put(x, y, c).wf(),
        canvas.put(x, y, c).width == canvas.width,
        canvas.put(x, y, c).height == canvas.height,
        forall|i: int, j: int|
            canvas.contains(i, j) ==> #[trigger] canvas.put(x, y, c).at(i, j) == if i == x && j
                == y {
                c
            } else {
                canvas.at(i, j)
            },
{
    let after = canvas.put(x, y, c);
    assert forall|j: int| 0 <= j < after.height implies (#[trigger] after.rows[j]).len()
        == after.width by {
        assert(canvas.rows[j].len() == canvas.width);
    }
    assert forall|i: int, j: int| canvas.contains(i, j) implies #[trigger] after.at(i, j) == if i
        == x && j == y {
        c
    } else {
        canvas.at(i, j)
    } by {
        assert(canvas.rows[j].len() == canvas.width);
        assert(canvas.rows[y].len() == canvas.width);
    }
}

/// In a row-major buffer two pixels share a place only if they are the same
/// pixel.
pub proof fn lemma_row_major(width: int, x1: int, y1: int, x2: int, y2: int)
    requires
        0 <= x1 < width,
        0 <= x2 < width,
        0 <= y1,
        0 <= y2,
        y1 * width + x1 == y2 * width + x2,
    ensures
        x1 == x2,
        y1 == y2,
{
    if y1 < y2 {
        assert(y2 * width >= (y1 + 1) * width) by (nonlinear_arith)
            requires
                y1 + 1 <= y2,
                0 < width,
        ;
        assert((y1 + 1) * width == y1 * width + width) by (nonlinear_arith);
    } else if y2 < y1 {
        assert(y1 * width >= (y2 + 1) * width) by (nonlinear_arith)
            requires
                y2 + 1 <= y1,
                0 < width,
        ;
        assert((y2 + 1) * width == y2 * width + width) by (nonlinear_arith);
    }
}

/// The place of pixel `(x, y)` in a row-major buffer lies inside the buffer.
pub proof fn lemma_row_major_bound(width: int, height: int, x: int, y: int)
    requires
        0 <= x < width,
        0 <= y < height,
    ensures
        0 <= y * width + x < width * height,
        0 <= y * width <= y * width + x,
{
    assert(y * width + width <= height * width) by (nonlinear_arith)
        requires
            y + 1 <= height,
            0 < width,
    ;
    assert(0 <= y * width) by (nonlinear_arith)
        requires
            0 <= y,
            0 < width,
    ;
    assert(height * width == width * height) by (nonlinear_arith);
}

/// The place of a write that fell outside the image.
pub type OutOfBounds = (u32, u32);

/// A picture of fixed size, three bytes to the pixel.
pub struct Image {
    pixels: Vec<u8>,
    width: u32,
    height: u32,
    pixel_size: u32,
}

impl View for Image {
    type V = Canvas;

    closed spec fn view(&self) -> Canvas {
        Canvas::of_bytes(self.width as nat, self.height as nat, self.pixels@)
    }
}

impl Image {
    /// The buffer holds three bytes for each pixel, and its length fits the
    /// 32-bit arithmetic that finds a pixel in it.
    pub closed spec fn wf(&self) -> bool {
        &&& self.pixel_size == 3
        &&& 0 < self.width
        &&& 0 < self.height
        &&& self.pixels@.len() == self.width * self.height * 3
        &&& self.width * self.height * 3 <= u32::MAX
    }

    /// A well-formed image shows a well-formed canvas, small enough to index.
    pub proof fn lemma_view_wf(&self)
        requires
            self.wf(),
        ensures
            self@.wf(),
            0 < self@.width,
            0 < self@.height,
            self@.width * self@.height * 3 <= u32::MAX,
    {
    }

    /// Whether an image of the given size can be made: it has at least one
    /// pixel, and its buffer can be indexed in 32 bits.
    pub open spec fn fits(width: u32, height: u32) -> bool {
        0 < width && 0 < height && width * height * 3 <= u32::MAX
    }

    /// A black image of the given size.
    pub fn new(width: u32, height: u32) -> (img: Image)
        requires
            Self::fits(width, height),
        ensures
            img.wf(),
            img@ == Canvas::blank(width as nat, height as nat),
    {
        assert(width * height <= width * height * 3) by (nonlinear_arith);
        let pixels: Vec<u8> = vec![0; (width * height * 3) as usize];
        let img = Image { pixels, width, height, pixel_size: 3 };
        proof {
            assert forall|x: int, y: int| img@.contains(x, y) implies img@.at(x, y) == black() by {
                lemma_row_major_bound(width as int, height as int, x, y);
            }
            lemma_canvas_equal(img@, Canvas::blank(width as nat, height as nat));
        }
        img
    }

    /// The image that a buffer of decoded pixels holds, row by row from the
    /// top, three bytes to the pixel, red first. `None` unless the size is one
    /// that an image can have and the buffer has three bytes for each pixel, no
    /// more and no less.
    pub fn from_raw(width: u32, height: u32, pixels: Vec<u8>) -> (res: Option<Image>)
        ensures
            res is Some <==> Self::fits(width, height) && pixels@.len() == width * height * 3,
            res matches Some(img) ==> img.wf() && img@ == Canvas::of_bytes(
                width as nat,
                height as nat,
                pixels@,
            ),
    {
        if width == 0 || height == 0 {
            return None;
        }
        assert(0 <= width * height <= u32::MAX * u32::MAX) by (nonlinear_arith)
            requires
                width <= u32::MAX,
                height <= u32::MAX,
        ;
        if (width as u64) * (height as u64) > (u32::MAX / 3) as u64 {
            return None;
        }
        if pixels.len() != (width * height * 3) as usize {
            return None;
        }
        Some(Image { pixels, width, height, pixel_size: 3 })
    }

    /// The buffer of the image: its pixels row by row from the top, three
    /// bytes each, red first.
    pub fn pixels(&self) -> (bytes: &Vec<u8>)
        requires
            self.wf(),
        ensures
            bytes@.len() == self@.width * self@.height * 3,
            Canvas::of_bytes(self@.width, self@.height, bytes@) == self@,
    {
        &self.pixels
    }

    /// The width of the image in pixels.
    pub fn width(&self) -> (w: u32)
        ensures
            w == self@.width,
    {
        self.width
    }

    /// The height of the image in pixels.
    pub fn height(&self) -> (h: u32)
        ensures
            h == self@.height,
    {
        self.height
    }

    /// The colour of pixel `(x, y)`, which must be a pixel of the image.
    pub fn at(&self, p: (u32, u32)) -> (c: Color)
        requires
            self.wf(),
            self@.contains(p.0 as int, p.1 as int),
        ensures
            c@ == self@.at(p.0 as int, p.1 as int),
            c.wf(),
    {
        let (x, y) = p;
        proof {
            lemma_row_major_bound(self.width as int, self.height as int, x as int, y as int);
        }
        let start = ((y * self.width + x) * self.pixel_size) as usize;

        Color::new(self.pixels[start], self.pixels[start + 1], self.pixels[start + 2])
    }

    /// Sets pixel `(x, y)` to `color`. A place outside the image is handed back
    /// as the error, and the image stays as it was.
    pub fn set(&mut self, p: (u32, u32), color: &Color) -> (res: Result<(), OutOfBounds>)
        requires
            old(self).wf(),
        ensures
            final(self).wf(),
            res is Err <==> p.0 >= old(self)@.width || p.1 >= old(self)@.height,
            res is Ok ==> final(self)@ == old(self)@.put(p.0 as int, p.1 as int, color@),
            res is Err ==> res == Err::<(), OutOfBounds>(p) && *final(self) == *old(self),
    {
        let (x, y) = p;
        if x >= self.width || y >= self.height {
            Err((x, y))
        } else {
            proof {
                lemma_row_major_bound(self.width as int, self.height as int, x as int, y as int);
            }
            let start = ((y * self.width + x) * self.pixel_size) as usize;

            self.pixels[start] = color.r();
            self.pixels[start + 1] = color.g();
            self.pixels[start + 2] = color.b();

            proof {
                let w = self.width as int;
                let before = old(self)@;
                let after = self@;
                let target = before.put(x as int, y as int, color@);
                assert forall|i: int, j: int| after.contains(i, j) implies after.at(i, j)
                    == target.at(i, j) by {
                    lemma_row_major_bound(w, self.height as int, i, j);
                    if i != x || j != y {
                        if j * w + i == y * w + x {
                            lemma_row_major(w, i, j, x as int, y as int);
                        }
                    }
                }
                lemma_canvas_equal(after, target);
            }
            Ok(())
        }
    }
}

} // verus!
