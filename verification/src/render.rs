//! The renderer: every source pixel is thrown at its target and spread over
//! the pixels around it, so that a map that stretches the picture leaves no
//! pinholes.

use crate::camera::{land, Camera};
use crate::color::{black, lemma_eq_by_channels, mix_rgb, Color, Rgb};
use crate::image::{lemma_blank, lemma_canvas_equal, lemma_put, Canvas, Image, OutOfBounds};
use vstd::prelude::*;

verus! {

/// The weight of a new sample where it meets a pixel that is painted already:
/// 200 parts in 255 for the sample, 55 for what was there.
pub const SAMPLE_WEIGHT: u8 = 200;

/// What a pixel shows after a sample of colour `c` has reached it. A black
/// pixel counts as not yet painted and takes the sample as it is; any other is
/// blended with it.
pub open spec fn paint(previous: Rgb, c: Rgb) -> Rgb {
    if previous == black() {
        c
    } else {
        mix_rgb(previous, SAMPLE_WEIGHT, c)
    }
}

/// Whether `(x, y)` lies off the four edges of a `width` by `height` canvas,
/// so that all nine pixels around it are pixels of the canvas.
pub open spec fn interior(width: nat, height: nat, x: int, y: int) -> bool {
    0 < x < width - 1 && 0 < y < height - 1
}

/// Whether `(i, j)` is one of the nine pixels of the block around `(x, y)`,
/// `(x, y)` itself among them.
pub open spec fn near(x: int, y: int, i: int, j: int) -> bool {
    x - 1 <= i <= x + 1 && y - 1 <= j <= y + 1
}

/// Whether a sample thrown at `(x, y)` reaches pixel `(i, j)`: the target is
/// always reached, and the block around it when the target is interior.
pub open spec fn reaches(width: nat, height: nat, x: int, y: int, i: int, j: int) -> bool {
    (i == x && j == y) || (interior(width, height, x, y) && near(x, y, i, j))
}

/// Pixel `(i, j)` after a sample of colour `c` was thrown at `(x, y)`.
///
/// The target is overwritten with the sample. Then, if the target is interior,
/// each pixel of the block around it is painted with the sample, the target
/// too: it is blended with its own fresh colour. A target on an edge is not
/// spread at all.
pub open spec fn splat_at(canvas: Canvas, x: int, y: int, c: Rgb, i: int, j: int) -> Rgb {
    let marked = if i == x && j == y {
        c
    } else {
        canvas.at(i, j)
    };
    if interior(canvas.width, canvas.height, x, y) && near(x, y, i, j) {
        paint(marked, c)
    } else {
        marked
    }
}

/// The canvas after a sample of colour `c` was thrown at `(x, y)`.
pub open spec fn splat_canvas(canvas: Canvas, x: int, y: int, c: Rgb) -> Canvas {
    Canvas {
        width: canvas.width,
        height: canvas.height,
        rows: Seq::new(
            canvas.height,
            |j: int| Seq::new(canvas.width, |i: int| splat_at(canvas, x, y, c, i, j)),
        ),
    }
}

/// The colour of source pixel number `k`, counted row by row over a screen
/// `width` pixels wide.
pub open spec fn sample(source: Canvas, width: nat, k: int) -> Rgb {
    source.at(k % (width as int), k / (width as int))
}

/// The pixel at which source pixel number `k` is thrown, if it lands on the
/// screen.
pub open spec fn target(width: nat, height: nat, places: Seq<(i32, i32)>, k: int) -> Option<
    (u32, u32),
> {
    land(width, height, places[k].0 as int, places[k].1 as int)
}

/// The canvas after the first `n` source pixels have been thrown.
///
/// The source pixels are taken row by row, the top row first. Pixel number `k`
/// is `(k % width, k / width)`, and `places[k]` is the rounded place around the
/// centre of the screen at which the map put it. A pixel whose place lands off
/// the screen is dropped; any other is thrown at the pixel on which it lands.
/// The order counts: where samples meet, the later ones weigh more.
pub open spec fn render(source: Canvas, width: nat, height: nat, places: Seq<(i32, i32)>, n: nat)
    -> Canvas
    decreases n,
{
    if n == 0 {
        Canvas::blank(width, height)
    } else {
        let k = n - 1;
        let before = render(source, width, height, places, k as nat);
        match target(width, height, places, k) {
            None => before,
            Some(d) => splat_canvas(before, d.0 as int, d.1 as int, sample(source, width, k)),
        }
    }
}

/// Pixel `(i, j)` while the block around `(x, y)` is being painted on
/// `marked`, when the first `done` pixels of the block have had their turn.
/// The block is walked column by column, each column from the top.
spec fn dabbed_at(marked: Canvas, x: int, y: int, c: Rgb, done: int, i: int, j: int) -> Rgb {
    if near(x, y, i, j) && (i - x + 1) * 3 + (j - y + 1) < done {
        paint(marked.at(i, j), c)
    } else {
        marked.at(i, j)
    }
}

/// Throws a sample of colour `color` at pixel `d` of `image`: the pixel takes
/// the colour, and if it lies off the edges, the block around it is painted
/// with it. A target outside the image is handed back as the error, and the
/// image stays as it was.
pub fn splat(image: &mut Image, d: (u32, u32), color: &Color) -> (res: Result<(), OutOfBounds>)
    requires
        old(image).wf(),
    ensures
        final(image).wf(),
        res is Err <==> !old(image)@.contains(d.0 as int, d.1 as int),
        res is Ok ==> final(image)@ == splat_canvas(old(image)@, d.0 as int, d.1 as int, color@),
        res is Err ==> res == Err::<(), OutOfBounds>(d) && *final(image) == *old(image),
{
    let (x, y) = d;
    let unpainted = Color::new(0, 0, 0);
    let ghost before = image@;
    let ghost c = color@;
    proof {
        image.lemma_view_wf();
        if before.contains(x as int, y as int) {
            lemma_put(before, x as int, y as int, c);
        }
    }
    if let Err(outside) = image.set((x, y), color) {
        return Err(outside);
    }
    let ghost marked = image@;
    let width = image.width();
    let height = image.height();

    if !(x == 0 || x == width - 1 || y == 0 || y == height - 1) {
        for dx in 0..3u32
            invariant
                image.wf(),
                marked.wf(),
                image@.wf(),
                image@.width == marked.width == width,
                image@.height == marked.height == height,
                0 < x < width - 1,
                0 < y < height - 1,
                unpainted@ == black(),
                unpainted.wf(),
                c == color@,
                forall|i: int, j: int|
                    marked.contains(i, j) ==> image@.at(i, j) == dabbed_at(
                        marked,
                        x as int,
                        y as int,
                        c,
                        dx * 3,
                        i,
                        j,
                    ),
        {
            let px = x + dx - 1;
            for dy in 0..3u32
                invariant
                    image.wf(),
                    marked.wf(),
                    image@.wf(),
                    image@.width == marked.width == width,
                    image@.height == marked.height == height,
                    0 < x < width - 1,
                    0 < y < height - 1,
                    0 <= dx < 3,
                    px == x + dx - 1,
                    unpainted@ == black(),
                    unpainted.wf(),
                    c == color@,
                    forall|i: int, j: int|
                        marked.contains(i, j) ==> image@.at(i, j) == dabbed_at(
                            marked,
                            x as int,
                            y as int,
                            c,
                            dx * 3 + dy,
                            i,
                            j,
                        ),
            {
                let py = y + dy - 1;
                let ghost current = image@;

                let previous = image.at((px, py));
                proof {
                    lemma_eq_by_channels(previous, unpainted);
                    lemma_put(current, px as int, py as int, paint(previous@, c));
                }
                if previous == unpainted {
                    let _ = image.set((px, py), color);
                } else {
                    let _ = image.set((px, py), &previous.mix(SAMPLE_WEIGHT, color));
                }
            }
        }
    }
    proof {
        let target = splat_canvas(before, x as int, y as int, c);
        image.lemma_view_wf();
        assert forall|i: int, j: int| image@.contains(i, j) implies image@.at(i, j) == target.at(
            i,
            j,
        ) by {
            assert(marked.contains(i, j));
            assert(before.contains(i, j));
        }
        lemma_canvas_equal(image@, target);
    }
    Ok(())
}

/// Renders `base_image` through a map of the plane, given as the rounded place
/// of every source pixel around the centre of the screen, row by row.
///
/// The picture must cover the screen, and `places` must hold one place for
/// each pixel of the screen. The result is a fresh canvas of the size of the
/// screen; the picture is only read.
pub fn transform(places: &Vec<(i32, i32)>, camera: &Camera, base_image: &Image) -> (image: Image)
    requires
        camera.wf(),
        base_image.wf(),
        camera.screen_width() <= base_image@.width,
        camera.screen_height() <= base_image@.height,
        places@.len() == camera.screen_width() * camera.screen_height(),
    ensures
        image.wf(),
        image@ == render(
            base_image@,
            camera.screen_width(),
            camera.screen_height(),
            places@,
            places@.len(),
        ),
{
    let (width, height) = camera.screen_size();
    let mut image = Image::new(width, height);
    let n = camera.number_of_pixels();

    for i in 0..n
        invariant
            camera.wf(),
            base_image.wf(),
            width == camera.screen_width() <= base_image@.width,
            height == camera.screen_height() <= base_image@.height,
            n == width * height == places@.len(),
            image.wf(),
            image@ == render(base_image@, width as nat, height as nat, places@, i as nat),
    {
        let start = (i % width, i / width);
        proof {
            lemma_row_of(width as int, height as int, i as int);
            lemma_render_wf(base_image@, width as nat, height as nat, places@, i as nat);
        }

        if let Some((x, y)) = camera.to_screen(places[i as usize]) {
            let color = base_image.at(start);
            let _ = splat(&mut image, (x, y), &color);
        }
    }
    image
}

/// Source pixel number `k` of a `width` by `height` screen lies in row
/// `k / width`, which is a row of the screen.
pub proof fn lemma_row_of(width: int, height: int, k: int)
    requires
        0 < width,
        0 <= k < width * height,
    ensures
        0 <= k % width < width,
        0 <= k / width < height,
{
    vstd::arithmetic::div_mod::lemma_fundamental_div_mod(k, width);
    vstd::arithmetic::div_mod::lemma_mod_bound(k, width);
    let q = k / width;
    if q >= height {
        assert(width * q >= width * height) by (nonlinear_arith)
            requires
                q >= height,
                0 < width,
        ;
    }
    if q < 0 {
        assert(width * q <= -width) by (nonlinear_arith)
            requires
                q <= -1,
                0 < width,
        ;
    }
}

/// Throwing a sample keeps the size of the canvas.
pub proof fn lemma_splat_wf(canvas: Canvas, x: int, y: int, c: Rgb)
    requires
        canvas.wf(),
    ensures
        splat_canvas(canvas, x, y, c).wf(),
        splat_canvas(canvas, x, y, c).width == canvas.width,
        splat_canvas(canvas, x, y, c).height == canvas.height,
        forall|i: int, j: int|
            canvas.contains(i, j) ==> #[trigger] splat_canvas(canvas, x, y, c).at(i, j)
                == splat_at(canvas, x, y, c, i, j),
{
}

/// Every stage of a rendering is a canvas of the size of the screen.
pub proof fn lemma_render_wf(
    source: Canvas,
    width: nat,
    height: nat,
    places: Seq<(i32, i32)>,
    n: nat,
)
    ensures
        render(source, width, height, places, n).wf(),
        render(source, width, height, places, n).width == width,
        render(source, width, height, places, n).height == height,
    decreases n,
{
    if n > 0 {
        let k = n - 1;
        lemma_render_wf(source, width, height, places, k as nat);
        let before = render(source, width, height, places, k as nat);
        match target(width, height, places, k) {
            None => {},
            Some(d) => {
                lemma_splat_wf(before, d.0 as int, d.1 as int, sample(source, width, k));
            },
        }
    }
}

/// A pixel that no sample reaches stays black.
pub proof fn lemma_unreached_stays_black(
    source: Canvas,
    width: nat,
    height: nat,
    places: Seq<(i32, i32)>,
    n: nat,
    i: int,
    j: int,
)
    requires
        0 <= i < width,
        0 <= j < height,
        forall|k: int|
            0 <= k < n ==> (#[trigger] target(width, height, places, k) matches Some(d)
                ==> !reaches(width, height, d.0 as int, d.1 as int, i, j)),
    ensures
        render(source, width, height, places, n).at(i, j) == black(),
    decreases n,
{
    if n > 0 {
        let k = n - 1;
        lemma_unreached_stays_black(source, width, height, places, k as nat, i, j);
        lemma_render_wf(source, width, height, places, k as nat);
        let before = render(source, width, height, places, k as nat);
        match target(width, height, places, k) {
            None => {},
            Some(d) => {
                lemma_splat_wf(before, d.0 as int, d.1 as int, sample(source, width, k));
            },
        }
    }
}

/// What a pixel shows after the first `n` source pixels, one after the other,
/// have been painted on it.
pub open spec fn layers(source: Canvas, width: nat, n: nat) -> Rgb
    decreases n,
{
    if n == 0 {
        black()
    } else {
        paint(layers(source, width, (n - 1) as nat), sample(source, width, n - 1))
    }
}

/// Where every source pixel is thrown at the same pixel `d`, the picture is
/// one block and nothing else. Off the block the canvas stays black. On the
/// block around an interior `d`, each pixel but `d` shows all the samples
/// painted over each other in their order. `d` itself shows the last sample:
/// as it is when `d` lies on an edge, and painted once over itself when `d` is
/// interior.
pub proof fn lemma_single_target(
    source: Canvas,
    width: nat,
    height: nat,
    places: Seq<(i32, i32)>,
    n: nat,
    d: (u32, u32),
    i: int,
    j: int,
)
    requires
        0 < n,
        0 <= i < width,
        0 <= j < height,
        forall|k: int| 0 <= k < n ==> #[trigger] target(width, height, places, k) == Some(d),
    ensures
        render(source, width, height, places, n).at(i, j) == if !reaches(
            width,
            height,
            d.0 as int,
            d.1 as int,
            i,
            j,
        ) {
            black()
        } else if i != d.0 || j != d.1 {
            layers(source, width, n)
        } else if interior(width, height, d.0 as int, d.1 as int) {
            paint(sample(source, width, n - 1), sample(source, width, n - 1))
        } else {
            sample(source, width, n - 1)
        },
    decreases n,
{
    let k = n - 1;
    lemma_render_wf(source, width, height, places, k as nat);
    let before = render(source, width, height, places, k as nat);
    assert(target(width, height, places, k) == Some(d));
    lemma_splat_wf(before, d.0 as int, d.1 as int, sample(source, width, k));
    if k > 0 {
        lemma_single_target(source, width, height, places, k as nat, d, i, j);
    } else {
        lemma_blank(width, height);
        assert(layers(source, width, 0) == black());
    }
}

/// Whether every source pixel is thrown at itself, as the identity map does
/// on a screen of even width and height.
pub open spec fn each_at_itself(width: nat, height: nat, places: Seq<(i32, i32)>) -> bool {
    forall|k: int|
        0 <= k < width * height ==> #[trigger] target(width, height, places, k) == Some(
            ((k % (width as int)) as u32, (k / (width as int)) as u32),
        )
}

/// The place of source pixel number `k` under the identity map, on a screen
/// of even width and height: its offset from the centre of the screen, which
/// is whole there.
pub open spec fn own_place(width: nat, height: nat, k: int) -> (i32, i32) {
    (
        ((2 * (k % (width as int)) - width) / 2) as i32,
        ((height - 2 * (k / (width as int))) / 2) as i32,
    )
}

/// On a screen of even width and height the identity map throws every source
/// pixel at itself.
pub proof fn lemma_identity_each_at_itself(width: nat, height: nat, places: Seq<(i32, i32)>)
    requires
        0 < width <= u32::MAX,
        0 < height <= u32::MAX,
        width % 2 == 0,
        height % 2 == 0,
        forall|k: int|
            0 <= k < width * height ==> #[trigger] places[k] == own_place(width, height, k),
    ensures
        each_at_itself(width, height, places),
{
    assert forall|k: int| 0 <= k < width * height implies #[trigger] target(
        width,
        height,
        places,
        k,
    ) == Some(((k % (width as int)) as u32, (k / (width as int)) as u32)) by {
        lemma_row_of(width as int, height as int, k);
        assert(places[k] == own_place(width, height, k));
        crate::camera::lemma_round_trip(width, height, k % (width as int), k / (width as int));
    }
}

/// Whether colour `v` is colour `c` up to the darkening of the blend: no
/// channel above that of `c`, and none more than two steps below it.
pub open spec fn within_bias(v: Rgb, c: Rgb) -> bool {
    &&& v.0 <= c.0 <= v.0 + 2
    &&& v.1 <= c.1 <= v.1 + 2
    &&& v.2 <= c.2 <= v.2 + 2
}

/// Painting colour `c` on a pixel that is black, or is `c` up to the
/// darkening of the blend, leaves `c` up to that darkening.
pub proof fn lemma_paint_within_bias(previous: Rgb, c: Rgb)
    requires
        previous == black() || within_bias(previous, c),
    ensures
        within_bias(paint(previous, c), c),
{
}

/// The identity map, which throws every source pixel at itself, gives back a
/// picture of one colour up to the darkening of the blend: wherever samples
/// of colour `c` meet they are blended, and each blend may cost a channel a
/// step, but never more than two in all.
pub proof fn lemma_identity_keeps_colour(
    source: Canvas,
    width: nat,
    height: nat,
    places: Seq<(i32, i32)>,
    c: Rgb,
    i: int,
    j: int,
)
    requires
        width <= u32::MAX,
        height <= u32::MAX,
        0 <= i < width,
        0 <= j < height,
        each_at_itself(width, height, places),
        forall|k: int| 0 <= k < width * height ==> #[trigger] sample(source, width, k) == c,
    ensures
        within_bias(render(source, width, height, places, width * height).at(i, j), c),
{
    crate::image::lemma_row_major_bound(width as int, height as int, i, j);
    lemma_identity_stage(source, width, height, places, c, width * height, i, j);
}

/// The stage of `lemma_identity_keeps_colour` after `n` source pixels: a pixel
/// whose own turn has come shows `c` up to the darkening, any other may still
/// be black.
proof fn lemma_identity_stage(
    source: Canvas,
    width: nat,
    height: nat,
    places: Seq<(i32, i32)>,
    c: Rgb,
    n: nat,
    i: int,
    j: int,
)
    requires
        width <= u32::MAX,
        height <= u32::MAX,
        0 <= i < width,
        0 <= j < height,
        n <= width * height,
        each_at_itself(width, height, places),
        forall|k: int| 0 <= k < width * height ==> #[trigger] sample(source, width, k) == c,
    ensures
        ({
            let v = render(source, width, height, places, n).at(i, j);
            &&& v == black() || within_bias(v, c)
            &&& j * width + i < n ==> within_bias(v, c)
        }),
    decreases n,
{
    if n > 0 {
        let k = n - 1;
        lemma_identity_stage(source, width, height, places, c, k as nat, i, j);
        lemma_render_wf(source, width, height, places, k as nat);
        lemma_row_of(width as int, height as int, k);
        let before = render(source, width, height, places, k as nat);
        let d = ((k % (width as int)) as u32, (k / (width as int)) as u32);
        assert(target(width, height, places, k) == Some(d));
        assert(sample(source, width, k) == c);
        lemma_splat_wf(before, d.0 as int, d.1 as int, c);
        lemma_paint_within_bias(before.at(i, j), c);
        lemma_paint_within_bias(c, c);
        if j * width + i == k {
            vstd::arithmetic::div_mod::lemma_fundamental_div_mod_converse(k, width as int, j, i);
        }
    } else {
        lemma_blank(width, height);
    }
}

/// On a screen without an interior pixel, which is at most two pixels wide
/// or at most two pixels high, nothing is spread, and the identity map gives
/// the source back pixel by pixel.
pub proof fn lemma_identity_copies_thin_screen(
    source: Canvas,
    width: nat,
    height: nat,
    places: Seq<(i32, i32)>,
    i: int,
    j: int,
)
    requires
        width <= 2 || height <= 2,
        width <= u32::MAX,
        height <= u32::MAX,
        0 <= i < width,
        0 <= j < height,
        each_at_itself(width, height, places),
    ensures
        render(source, width, height, places, width * height).at(i, j) == source.at(i, j),
{
    crate::image::lemma_row_major_bound(width as int, height as int, i, j);
    lemma_thin_stage(source, width, height, places, width * height, i, j);
    vstd::arithmetic::div_mod::lemma_fundamental_div_mod_converse(
        j * width + i,
        width as int,
        j,
        i,
    );
}

/// The stage of `lemma_identity_copies_thin_screen` after `n` source pixels:
/// a pixel whose turn has come shows its source, any other is black.
proof fn lemma_thin_stage(
    source: Canvas,
    width: nat,
    height: nat,
    places: Seq<(i32, i32)>,
    n: nat,
    i: int,
    j: int,
)
    requires
        width <= 2 || height <= 2,
        width <= u32::MAX,
        height <= u32::MAX,
        0 <= i < width,
        0 <= j < height,
        n <= width * height,
        each_at_itself(width, height, places),
    ensures
        render(source, width, height, places, n).at(i, j) == if j * width + i < n {
            sample(source, width, j * width + i)
        } else {
            black()
        },
    decreases n,
{
    if n > 0 {
        let k = n - 1;
        lemma_thin_stage(source, width, height, places, k as nat, i, j);
        lemma_render_wf(source, width, height, places, k as nat);
        lemma_row_of(width as int, height as int, k);
        let before = render(source, width, height, places, k as nat);
        let d = ((k % (width as int)) as u32, (k / (width as int)) as u32);
        assert(target(width, height, places, k) == Some(d));
        lemma_splat_wf(before, d.0 as int, d.1 as int, sample(source, width, k));
        if j * width + i == k {
            vstd::arithmetic::div_mod::lemma_fundamental_div_mod_converse(k, width as int, j, i);
        } else if i == d.0 && j == d.1 {
            vstd::arithmetic::div_mod::lemma_fundamental_div_mod(k, width as int);
            assert(width * (k / (width as int)) == (k / (width as int)) * width)
                by (nonlinear_arith);
        }
    } else {
        lemma_blank(width, height);
    }
}

} // verus!
