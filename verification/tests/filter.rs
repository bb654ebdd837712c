use kuwahara::filter::build_table;
use kuwahara::stats::window_stats;
use kuwahara::{kuwahara, Error, Image};

/// Builds an image from one (r, g, b, a) tuple per pixel, row-major.
fn img_from(width: u32, height: u32, pixels: &[(u8, u8, u8, u8)]) -> Image {
    assert_eq!(pixels.len(), (width * height) as usize);
    let mut data: Vec<u8> = Vec::new();
    for p in pixels {
        data.push(p.0);
        data.push(p.1);
        data.push(p.2);
        data.push(p.3);
    }
    Image::new(width, height, data).unwrap()
}

/// The 3x3 image whose red channel is 10 + 10 * column on every row, with
/// constant green, blue and alpha: every 2x2 window has total squared
/// deviation 100, so every selection is decided by the tie-break.
fn columns_3x3() -> Image {
    let mut pixels: Vec<(u8, u8, u8, u8)> = Vec::new();
    for _row in 0..3 {
        for col in 0..3u8 {
            pixels.push((10 + 10 * col, 7, 9, 255));
        }
    }
    img_from(3, 3, &pixels)
}

#[test]
fn uniform_image_is_unchanged() {
    for num in 1..=2u32 {
        let mut im = img_from(5, 5, &[(100, 150, 200, 255); 25]);
        let before = im.data.clone();
        kuwahara(&mut im, num).unwrap();
        assert_eq!(im.data, before);
    }
}

#[test]
fn uniform_image_is_unchanged_radius_zero() {
    let mut im = img_from(2, 2, &[(3, 1, 4, 1); 4]);
    let before = im.data.clone();
    kuwahara(&mut im, 0).unwrap();
    assert_eq!(im.data, before);
}

#[test]
fn radius_zero_keeps_any_image() {
    // with radius 0 every window is a single pixel with zero variance, so
    // each pixel keeps its own color even on a non-uniform image
    let mut im = columns_3x3();
    let before = im.data.clone();
    kuwahara(&mut im, 0).unwrap();
    assert_eq!(im.data, before);
}

#[test]
fn too_small_image_is_refused_untouched() {
    let mut im = columns_3x3();
    let before = im.data.clone();
    let r = kuwahara(&mut im, 2);
    match r {
        Err(Error::FilterError(msg)) => assert!(!msg.is_empty()),
        Ok(()) => panic!("a 3x3 image must be refused for radius 2"),
    }
    assert_eq!(im.data, before);

    let mut narrow = img_from(4, 5, &[(0, 0, 0, 0); 20]);
    assert!(matches!(
        kuwahara(&mut narrow, 2),
        Err(Error::FilterError(_))
    ));
}

#[test]
fn tie_break_prefers_top_left_priority() {
    let mut im = columns_3x3();
    kuwahara(&mut im, 1).unwrap();
    // at (1, 2) the top-left and top-right quadrants tie with total
    // squared deviation 100; the top-left one (mean red 15) must win over
    // the top-right one (mean red 25)
    assert_eq!(im.get_pixel(1, 2), (15, 7, 9, 255));
}

#[test]
fn full_output_of_column_gradient() {
    let mut im = columns_3x3();
    kuwahara(&mut im, 1).unwrap();
    // every window means: red 15 for anchors in column 0, red 25 for
    // anchors in column 1; all ties fall to the earliest quadrant
    let expected_red = [[15, 15, 25], [15, 15, 25], [15, 15, 25]];
    for y in 0..3 {
        for x in 0..3 {
            assert_eq!(im.get_pixel(x, y), (expected_red[y as usize][x as usize], 7, 9, 255));
        }
    }
}

#[test]
fn corner_pixel_takes_single_valid_quadrant() {
    let mut im = columns_3x3();
    kuwahara(&mut im, 1).unwrap();
    // (0, 0) has exactly one valid quadrant, anchored at (0, 0), whose
    // mean is (15, 7, 9, 255)
    assert_eq!(im.get_pixel(0, 0), (15, 7, 9, 255));
}

#[test]
fn window_entry_matches_hand_computed_stats() {
    // a 4x4 image whose top-left 2x2 window holds the hand-computed pixels
    let mut pixels = vec![(0u8, 0u8, 0u8, 0u8); 16];
    pixels[0] = (10, 20, 30, 40);
    pixels[1] = (20, 30, 40, 50);
    pixels[4] = (30, 40, 50, 60);
    pixels[5] = (40, 50, 60, 70);
    let im = img_from(4, 4, &pixels);
    let e = window_stats(&im, 0, 0, 2);
    // integer-truncated means
    assert_eq!((e.r, e.g, e.b, e.a), (25, 35, 45, 55));
    // each channel's squared deviations sum to 225 + 25 + 25 + 225 = 500;
    // the four channels together give 2000, and dividing by the window
    // area 4 yields the variance 500 = 125 * 4, the sum of the four
    // channels' population variances
    assert_eq!(e.ssd, 2000);
}

#[test]
fn window_reused_across_quadrants_is_identical() {
    let mut pixels: Vec<(u8, u8, u8, u8)> = Vec::new();
    for i in 0..16u8 {
        pixels.push((i * 3, 100 - i, i * i, 255 - i));
    }
    let im = img_from(4, 4, &pixels);
    // the anchor (1, 0) serves as the top-right quadrant of pixel (1, 1)
    // and as the top-left quadrant of pixel (2, 1); both lookups must see
    // the same statistics, byte for byte
    let table = build_table(&im, 1);
    let tw: usize = 3;
    let shared = table[0 * tw + 1];
    // recomputing the window from the pixels gives the same entry that
    // both quadrant lookups consult
    let recomputed = window_stats(&im, 1, 0, 2);
    assert_eq!(recomputed, shared);
}

#[test]
fn table_holds_one_entry_per_anchor() {
    let im = columns_3x3();
    let table = build_table(&im, 1);
    assert_eq!(table.len(), 4);
    // anchors in column 0 have red mean 15, in column 1 red mean 25, and
    // all share total squared deviation 100
    for (k, e) in table.iter().enumerate() {
        let expected_red = if k % 2 == 0 { 15 } else { 25 };
        assert_eq!((e.r, e.g, e.b, e.a), (expected_red, 7, 9, 255));
        assert_eq!(e.ssd, 100);
    }
}

#[test]
fn rejects_buffer_of_wrong_length() {
    assert!(Image::new(2, 2, vec![0u8; 15]).is_none());
    assert!(Image::new(2, 2, vec![0u8; 16]).is_some());
    assert!(Image::new(0, 3, vec![]).is_some());
}
