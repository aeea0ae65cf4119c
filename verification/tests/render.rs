use paon::{splat, transform, Camera, Color, Image};

/// The rounded place of every pixel of the screen under a map of the plane,
/// found as the plane side of a camera with a viewport `view_height` high
/// finds it.
fn places(
    camera: &Camera,
    view_height: f64,
    f: impl Fn((f64, f64)) -> (f64, f64),
) -> Vec<(i32, i32)> {
    let (sw, sh) = camera.screen_size();
    let view_width = view_height * (sw as f64) / (sh as f64);
    let mut out = Vec::new();
    for i in 0..camera.number_of_pixels() {
        let (dx, dy) = camera.doubled_offset((i % sw, i / sw));
        let re = dx as f64 * 0.5 * (view_width / sw as f64);
        let im = dy as f64 * 0.5 * (view_height / sh as f64);
        let (re, im) = f((re, im));
        out.push((
            (re * (sw as f64) / view_width).round() as i32,
            (im * (sh as f64) / view_height).round() as i32,
        ));
    }
    out
}

fn filled(width: u32, height: u32, f: impl Fn(u32, u32) -> (u8, u8, u8)) -> Image {
    let mut img = Image::new(width, height);
    for y in 0..height {
        for x in 0..width {
            let (r, g, b) = f(x, y);
            img.set((x, y), &Color::new(r, g, b)).unwrap();
        }
    }
    img
}

fn rows(img: &Image) -> Vec<Vec<(u8, u8, u8)>> {
    (0..img.height())
        .map(|y| {
            (0..img.width())
                .map(|x| {
                    let c = img.at((x, y));
                    (c.r(), c.g(), c.b())
                })
                .collect()
        })
        .collect()
}

#[test]
fn splat_on_a_blank_canvas_paints_the_block() {
    let mut img = Image::new(5, 5);
    splat(&mut img, (2, 1), &Color::new(10, 20, 30)).unwrap();
    let c = (10, 20, 30);
    let o = (0, 0, 0);
    // the target is overwritten first and then painted over itself
    let t = (9, 19, 29);
    assert_eq!(
        rows(&img),
        vec![
            vec![o, c, c, c, o],
            vec![o, c, t, c, o],
            vec![o, c, c, c, o],
            vec![o, o, o, o, o],
            vec![o, o, o, o, o],
        ]
    );
}

#[test]
fn splat_on_an_edge_paints_the_target_alone() {
    let c = (10, 20, 30);
    let o = (0, 0, 0);
    for d in [(0u32, 1u32), (3, 1), (1, 0), (1, 2), (0, 0), (3, 2), (0, 2), (3, 0)] {
        let mut img = Image::new(4, 3);
        assert_eq!(splat(&mut img, d, &Color::new(10, 20, 30)), Ok(()));
        for y in 0..3 {
            for x in 0..4 {
                let expected = if (x, y) == d { c } else { o };
                let got = img.at((x, y));
                assert_eq!((got.r(), got.g(), got.b()), expected);
            }
        }
    }
}

#[test]
fn splat_blends_the_sample_into_what_is_there() {
    let mut img = filled(3, 3, |_, _| (100, 0, 255));
    splat(&mut img, (1, 1), &Color::new(200, 100, 0)).unwrap();
    // red: (100 * 55 + 200 * 200) / 256, green: (100 * 200) / 256,
    // blue: (255 * 55) / 256
    let n = (177, 78, 54);
    // the target: the sample painted over itself
    let t = (199, 99, 0);
    assert_eq!(rows(&img), vec![vec![n, n, n], vec![n, t, n], vec![n, n, n]]);
}

#[test]
fn splat_takes_black_for_unpainted() {
    let mut img = filled(3, 3, |x, _| if x == 0 { (0, 0, 0) } else { (0, 0, 1) });
    splat(&mut img, (1, 1), &Color::new(80, 80, 80)).unwrap();
    let fresh = (80, 80, 80);
    // blue: (1 * 55 + 80 * 200) / 256
    let mixed = (62, 62, 62);
    let t = (79, 79, 79);
    assert_eq!(
        rows(&img),
        vec![vec![fresh, mixed, mixed], vec![fresh, t, mixed], vec![fresh, mixed, mixed]]
    );
}

#[test]
fn splat_outside_the_image_fails_and_paints_nothing() {
    let c = Color::new(10, 20, 30);
    for d in [(4u32, 1u32), (1, 3), (4, 3), (u32::MAX, 0), (0, u32::MAX)] {
        let mut img = Image::new(4, 3);
        assert_eq!(splat(&mut img, d, &c), Err(d));
        assert!(img.pixels().iter().all(|b| *b == 0));
    }
}

#[test]
fn splat_of_black_leaves_black_where_nothing_was() {
    let mut img = Image::new(3, 3);
    splat(&mut img, (1, 1), &Color::new(0, 0, 0)).unwrap();
    assert!(img.pixels().iter().all(|b| *b == 0));
}

#[test]
fn later_samples_weigh_more() {
    let mut img = Image::new(3, 3);
    splat(&mut img, (1, 1), &Color::new(255, 0, 0)).unwrap();
    splat(&mut img, (1, 1), &Color::new(0, 0, 255)).unwrap();
    let corner = img.at((0, 0));
    // red: (255 * 55) / 256, blue: (255 * 200) / 256
    assert_eq!((corner.r(), corner.g(), corner.b()), (54, 0, 199));
    let target = img.at((1, 1));
    assert_eq!((target.r(), target.g(), target.b()), (0, 0, 254));
}

#[test]
fn identity_on_a_black_four_by_four_canvas_gives_it_back() {
    let camera = Camera::new((4, 4)).unwrap();
    let source = Image::new(4, 4);
    let out = transform(&places(&camera, 4.0, |z| z), &camera, &source);
    assert_eq!(out.width(), 4);
    assert_eq!(out.height(), 4);
    for y in 0..4 {
        for x in 0..4 {
            assert_eq!(out.at((x, y)), source.at((x, y)));
        }
    }
}

#[test]
fn identity_places_are_the_centred_pixels() {
    let camera = Camera::new((4, 4)).unwrap();
    assert_eq!(
        places(&camera, 4.0, |z| z),
        vec![
            (-2, 2), (-1, 2), (0, 2), (1, 2),
            (-2, 1), (-1, 1), (0, 1), (1, 1),
            (-2, 0), (-1, 0), (0, 0), (1, 0),
            (-2, -1), (-1, -1), (0, -1), (1, -1),
        ]
    );
    // the size of the viewport does not show on the screen
    assert_eq!(places(&camera, 16.2832, |z| z), places(&camera, 4.0, |z| z));
}

#[test]
fn identity_on_a_white_canvas_darkens_where_samples_meet() {
    let camera = Camera::new((4, 4)).unwrap();
    let source = filled(4, 4, |_, _| (255, 255, 255));
    let out = transform(&places(&camera, 4.0, |z| z), &camera, &source);
    let a = (255, 255, 255);
    let b = (254, 254, 254);
    let c = (253, 253, 253);
    assert_eq!(
        rows(&out),
        vec![vec![b, c, c, b], vec![c, c, c, b], vec![b, c, b, a], vec![a, a, a, a]]
    );
}

#[test]
fn identity_on_a_gradient() {
    let camera = Camera::new((4, 4)).unwrap();
    let source = filled(4, 4, |x, y| {
        ((x * 60 + 10) as u8, (y * 60 + 20) as u8, ((x + y) * 30 + 5) as u8)
    });
    let out = transform(&places(&camera, 4.0, |z| z), &camera, &source);
    assert_eq!(
        rows(&out),
        vec![
            vec![(56, 66, 51), (116, 76, 86), (119, 76, 87), (142, 66, 94)],
            vec![(66, 126, 86), (118, 136, 117), (119, 136, 117), (142, 126, 124)],
            vec![(56, 139, 88), (116, 139, 117), (129, 139, 124), (190, 140, 155)],
            vec![(10, 200, 95), (70, 200, 125), (130, 200, 155), (190, 200, 185)],
        ]
    );
}

#[test]
fn identity_keeps_one_colour_within_two_steps() {
    let camera = Camera::new((8, 6)).unwrap();
    for colour in [(200u8, 100u8, 50u8), (255, 255, 255), (1, 0, 0), (2, 1, 3), (201, 202, 146)] {
        let source = filled(8, 6, |_, _| colour);
        let out = transform(&places(&camera, 3.0, |z| z), &camera, &source);
        for y in 0..6 {
            for x in 0..8 {
                let got = out.at((x, y));
                for (v, c) in [(got.r(), colour.0), (got.g(), colour.1), (got.b(), colour.2)] {
                    assert!(v <= c && c as u32 <= v as u32 + 2);
                }
            }
        }
    }
}

#[test]
fn identity_copies_a_screen_without_interior() {
    for (w, h) in [(2u32, 6u32), (6, 2), (2, 2), (4, 2)] {
        let camera = Camera::new((w, h)).unwrap();
        let source = filled(w, h, |x, y| ((x * 40 + 1) as u8, (y * 40 + 2) as u8, 7));
        let out = transform(&places(&camera, 2.0, |z| z), &camera, &source);
        assert_eq!(rows(&out), rows(&source));
    }
}

#[test]
fn one_target_paints_one_block() {
    let camera = Camera::new((4, 4)).unwrap();
    let source = filled(4, 4, |x, y| {
        ((x * 60 + 10) as u8, (y * 60 + 20) as u8, ((x + y) * 30 + 5) as u8)
    });
    // every point of the plane goes to the origin, which lands on (2, 2)
    let out = transform(&places(&camera, 4.0, |_| (0.0, 0.0)), &camera, &source);
    let o = (0, 0, 0);
    let n = (173, 198, 175);
    let t = (189, 199, 184);
    assert_eq!(
        rows(&out),
        vec![vec![o, o, o, o], vec![o, n, n, n], vec![o, n, t, n], vec![o, n, n, n]]
    );
}

#[test]
fn one_target_on_an_edge_paints_one_pixel() {
    let camera = Camera::new((4, 4)).unwrap();
    let source = filled(4, 4, |x, y| {
        ((x * 60 + 10) as u8, (y * 60 + 20) as u8, ((x + y) * 30 + 5) as u8)
    });
    let out = transform(&vec![(-2, 2); 16], &camera, &source);
    for y in 0..4 {
        for x in 0..4 {
            let got = out.at((x, y));
            let expected = if (x, y) == (0, 0) { (190, 200, 185) } else { (0, 0, 0) };
            assert_eq!((got.r(), got.g(), got.b()), expected);
        }
    }
}

#[test]
fn samples_that_land_off_the_screen_are_dropped() {
    let camera = Camera::new((4, 4)).unwrap();
    let source = filled(4, 4, |_, _| (255, 255, 255));
    let out = transform(&places(&camera, 4.0, |(re, im)| (re + 100.0, im)), &camera, &source);
    assert!(out.pixels().iter().all(|b| *b == 0));
    let far = transform(&vec![(i32::MAX, i32::MIN); 16], &camera, &source);
    assert!(far.pixels().iter().all(|b| *b == 0));
    let wild = transform(&places(&camera, 4.0, |_| (f64::NAN, f64::INFINITY)), &camera, &source);
    assert!(wild.pixels().iter().all(|b| *b == 0));
}

#[test]
fn a_shift_moves_the_picture_and_black_samples_wear_it_down() {
    let camera = Camera::new((6, 6)).unwrap();
    let source = filled(6, 6, |x, y| if (x, y) == (1, 1) { (255, 255, 255) } else { (0, 0, 0) });
    // one pixel is one unit: move two to the right and one down
    let out = transform(&places(&camera, 6.0, |(re, im)| (re + 2.0, im - 1.0)), &camera, &source);
    let o = (0, 0, 0);
    // the white sample lands on (3, 2) and fills the block around it; the
    // black samples that follow are blended over it, or overwrite it
    let w = (255, 255, 255);
    let once = (54, 54, 54);
    let twice = (11, 11, 11);
    assert_eq!(
        rows(&out),
        vec![
            vec![o, o, o, o, o, o],
            vec![o, o, w, once, once, o],
            vec![o, o, twice, o, o, o],
            vec![o, o, o, o, o, o],
            vec![o, o, o, o, o, o],
            vec![o, o, o, o, o, o],
        ]
    );
}

#[test]
fn the_source_may_be_larger_than_the_screen() {
    let camera = Camera::new((2, 2)).unwrap();
    let source = filled(3, 4, |x, y| ((10 * x + y) as u8, 1, 1));
    let out = transform(&places(&camera, 2.0, |z| z), &camera, &source);
    assert_eq!(
        rows(&out),
        vec![vec![(0, 1, 1), (10, 1, 1)], vec![(1, 1, 1), (11, 1, 1)]]
    );
}

#[test]
fn the_source_is_left_as_it_was() {
    let camera = Camera::new((4, 4)).unwrap();
    let source = filled(4, 4, |x, y| ((x + 1) as u8, (y + 1) as u8, 9));
    let before = source.pixels().clone();
    let _ = transform(&places(&camera, 4.0, |z| z), &camera, &source);
    assert_eq!(source.pixels(), &before);
}
