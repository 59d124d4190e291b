use rustvox::kimg::ImageBuffer;

#[test]
fn new_image_is_black() {
    let img = ImageBuffer::new(3, 2);
    assert_eq!(img.w, 3);
    assert_eq!(img.h, 2);
    assert_eq!(img.pixels, vec![(0, 0, 0); 6]);
}

#[test]
fn new_image_without_pixels() {
    let img = ImageBuffer::new(0, 5);
    assert!(img.pixels.is_empty());
    let img = ImageBuffer::new(5, 0);
    assert!(img.pixels.is_empty());
}

#[test]
fn set_px_writes_row_by_row() {
    let mut img = ImageBuffer::new(3, 2);
    img.set_px(1, 0, (1, 2, 3));
    img.set_px(2, 1, (4, 5, 6));
    assert_eq!(img.pixels[1], (1, 2, 3));
    assert_eq!(img.pixels[5], (4, 5, 6));
    assert_eq!(img.get_px(1, 0), (1, 2, 3));
    assert_eq!(img.get_px(2, 1), (4, 5, 6));
    assert_eq!(img.get_px(0, 0), (0, 0, 0));
}

#[test]
fn from_rgb_bytes_reads_three_bytes_a_pixel() {
    let bytes: Vec<u8> = (0..18).collect();
    let img = ImageBuffer::from_rgb_bytes(3, 2, &bytes).unwrap();
    assert_eq!(img.w, 3);
    assert_eq!(img.h, 2);
    assert_eq!(img.get_px(0, 0), (0, 1, 2));
    assert_eq!(img.get_px(2, 0), (6, 7, 8));
    assert_eq!(img.get_px(0, 1), (9, 10, 11));
    assert_eq!(img.get_px(2, 1), (15, 16, 17));
}

#[test]
fn from_rgb_bytes_wants_enough_bytes() {
    let bytes: Vec<u8> = (0..17).collect();
    assert!(ImageBuffer::from_rgb_bytes(3, 2, &bytes).is_none());
    assert!(ImageBuffer::from_rgb_bytes(usize::MAX, 2, &bytes).is_none());
    assert!(ImageBuffer::from_rgb_bytes(usize::MAX, usize::MAX, &bytes).is_none());
    let more: Vec<u8> = (0..30).collect();
    let img = ImageBuffer::from_rgb_bytes(3, 2, &more).unwrap();
    assert_eq!(img.pixels.len(), 6);
    let none = ImageBuffer::from_rgb_bytes(0, 7, &Vec::new()).unwrap();
    assert_eq!((none.w, none.h, none.pixels.len()), (0, 7, 0));
}

#[test]
fn from_rgba_flipped_turns_the_rows_over_and_drops_alpha() {
    // Two columns, three rows, four bytes a pixel.
    let bytes: Vec<u8> = (0..24).collect();
    let img = ImageBuffer::from_rgba_flipped(2, 3, &bytes).unwrap();
    // The first row of the picture is the last row of the stream.
    assert_eq!(img.get_px(0, 0), (16, 17, 18));
    assert_eq!(img.get_px(1, 0), (20, 21, 22));
    assert_eq!(img.get_px(0, 1), (8, 9, 10));
    assert_eq!(img.get_px(0, 2), (0, 1, 2));
    assert_eq!(img.get_px(1, 2), (4, 5, 6));
    assert!(ImageBuffer::from_rgba_flipped(2, 3, &bytes[..23].to_vec()).is_none());
}

#[test]
fn to_rgb_bytes_lays_the_channels_out_in_order() {
    let mut img = ImageBuffer::new(2, 2);
    img.set_px(0, 0, (1, 2, 3));
    img.set_px(1, 0, (4, 5, 6));
    img.set_px(0, 1, (7, 8, 9));
    img.set_px(1, 1, (10, 11, 12));
    assert_eq!(img.to_rgb_bytes(), (1..=12).collect::<Vec<u8>>());
}

#[test]
fn rgb_bytes_go_there_and_back() {
    let bytes: Vec<u8> = (0..60).map(|n| (n * 7 % 256) as u8).collect();
    let img = ImageBuffer::from_rgb_bytes(5, 4, &bytes).unwrap();
    assert_eq!(img.to_rgb_bytes(), bytes);
}
