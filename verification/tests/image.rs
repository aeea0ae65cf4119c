use paon::{Color, Image};

#[test]
fn new_image_is_black_all_over() {
    let img = Image::new(5, 3);
    assert_eq!(img.width(), 5);
    assert_eq!(img.height(), 3);
    for y in 0..3 {
        for x in 0..5 {
            assert_eq!(img.at((x, y)), Color::new(0, 0, 0));
        }
    }
    assert_eq!(img.pixels().len(), 45);
    assert!(img.pixels().iter().all(|b| *b == 0));
}

#[test]
fn set_then_at_gives_the_colour_back() {
    let mut img = Image::new(4, 4);
    let c = Color::new(10, 20, 30);
    assert_eq!(img.set((1, 2), &c), Ok(()));
    assert_eq!(img.at((1, 2)), c);
}

#[test]
fn set_touches_no_other_pixel() {
    let mut img = Image::new(3, 3);
    let c = Color::new(9, 8, 7);
    img.set((2, 1), &c).unwrap();
    for y in 0..3 {
        for x in 0..3 {
            let expected = if (x, y) == (2, 1) { Color::new(9, 8, 7) } else { Color::new(0, 0, 0) };
            assert_eq!(img.at((x, y)), expected);
        }
    }
}

#[test]
fn set_fails_exactly_off_the_image() {
    let c = Color::new(1, 2, 3);
    for y in 0..6u32 {
        for x in 0..7u32 {
            let mut img = Image::new(5, 4);
            let res = img.set((x, y), &c);
            if x >= 5 || y >= 4 {
                assert_eq!(res, Err((x, y)));
                assert!(img.pixels().iter().all(|b| *b == 0));
            } else {
                assert_eq!(res, Ok(()));
                assert_eq!(img.at((x, y)), c);
            }
        }
    }
}

#[test]
fn set_fails_far_off_the_image() {
    let mut img = Image::new(2, 2);
    let c = Color::new(1, 2, 3);
    assert_eq!(img.set((u32::MAX, 0), &c), Err((u32::MAX, 0)));
    assert_eq!(img.set((0, u32::MAX), &c), Err((0, u32::MAX)));
    assert_eq!(img.set((u32::MAX, u32::MAX), &c), Err((u32::MAX, u32::MAX)));
    assert_eq!(img.set((2, 1), &c), Err((2, 1)));
    assert_eq!(img.set((1, 2), &c), Err((1, 2)));
}

#[test]
fn pixels_lie_row_by_row_red_first() {
    let mut img = Image::new(2, 2);
    img.set((1, 0), &Color::new(1, 2, 3)).unwrap();
    img.set((0, 1), &Color::new(4, 5, 6)).unwrap();
    assert_eq!(img.pixels(), &vec![0, 0, 0, 1, 2, 3, 4, 5, 6, 0, 0, 0]);
}

#[test]
fn from_raw_reads_the_buffer_row_by_row() {
    let bytes: Vec<u8> = (0..18).collect();
    let img = Image::from_raw(3, 2, bytes.clone()).unwrap();
    assert_eq!(img.width(), 3);
    assert_eq!(img.height(), 2);
    assert_eq!(img.at((0, 0)), Color::new(0, 1, 2));
    assert_eq!(img.at((2, 0)), Color::new(6, 7, 8));
    assert_eq!(img.at((0, 1)), Color::new(9, 10, 11));
    assert_eq!(img.at((2, 1)), Color::new(15, 16, 17));
    assert_eq!(img.pixels(), &bytes);
}

#[test]
fn from_raw_wants_three_bytes_for_each_pixel() {
    assert!(Image::from_raw(3, 2, vec![0; 17]).is_none());
    assert!(Image::from_raw(3, 2, vec![0; 19]).is_none());
    assert!(Image::from_raw(3, 2, vec![0; 24]).is_none());
    assert!(Image::from_raw(3, 2, vec![0; 18]).is_some());
    assert!(Image::from_raw(1, 1, vec![0; 3]).is_some());
}

#[test]
fn from_raw_refuses_an_empty_or_oversized_picture() {
    assert!(Image::from_raw(0, 2, vec![]).is_none());
    assert!(Image::from_raw(2, 0, vec![]).is_none());
    assert!(Image::from_raw(0, 0, vec![]).is_none());
    assert!(Image::from_raw(65536, 65536, vec![]).is_none());
    assert!(Image::from_raw(u32::MAX, u32::MAX, vec![0; 3]).is_none());
    assert!(Image::from_raw(1431655766, 1, vec![0; 2]).is_none());
}
