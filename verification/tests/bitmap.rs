use streamline::bitmap::Bitmap;
use streamline::bitmap::Rgba;

fn shade(v: u8) -> Rgba {
    Rgba { r: v, g: v, b: v, a: v }
}

#[test]
fn a_new_bitmap_is_blank() {
    let b = Bitmap::new(3, 2);
    assert_eq!((b.width(), b.height()), (3, 2));
    assert_eq!(b.as_raw(), &vec![shade(0); 6]);
    assert_eq!(Bitmap::new(0, 7).as_raw().len(), 0);
}

#[test]
fn raw_pixels_must_match_the_size() {
    assert!(Bitmap::from_raw(2, 2, vec![shade(1); 4]).is_some());
    assert!(Bitmap::from_raw(2, 2, vec![shade(1); 3]).is_none());
    assert!(Bitmap::from_raw(2, 2, vec![shade(1); 5]).is_none());
    assert!(Bitmap::from_raw(0, 9, Vec::new()).is_some());
    assert!(Bitmap::from_raw(4_000_000_000, 4_000_000_000, Vec::new()).is_none());
}

#[test]
fn pixels_are_read_row_by_row() {
    let b = Bitmap::from_raw(3, 2, (0..6).map(shade).collect()).unwrap();
    assert_eq!(b.get_pixel(0, 0), Some(shade(0)));
    assert_eq!(b.get_pixel(2, 0), Some(shade(2)));
    assert_eq!(b.get_pixel(0, 1), Some(shade(3)));
    assert_eq!(b.get_pixel(2, 1), Some(shade(5)));
    assert_eq!(b.get_pixel(3, 0), None);
    assert_eq!(b.get_pixel(0, 2), None);
}

#[test]
fn copies_go_where_they_are_put() {
    let mut canvas = Bitmap::from_raw(4, 3, vec![shade(9); 12]).unwrap();
    let stamp = Bitmap::from_raw(2, 2, vec![shade(1), shade(2), shade(3), shade(4)]).unwrap();
    assert!(canvas.copy_from(&stamp, 1, 1));
    let n = shade(9);
    assert_eq!(
        canvas.as_raw(),
        &vec![n, n, n, n, n, shade(1), shade(2), n, n, shade(3), shade(4), n]
    );
    // one column too far to the right: nothing is copied
    let before = canvas.as_raw().clone();
    assert!(!canvas.copy_from(&stamp, 3, 0));
    assert!(!canvas.copy_from(&stamp, 0, 2));
    assert!(!canvas.copy_from(&stamp, 4_294_967_295, 0));
    assert_eq!(canvas.as_raw(), &before);
    // into the last corner
    assert!(canvas.copy_from(&stamp, 2, 1));
    assert_eq!(canvas.get_pixel(3, 2), Some(shade(4)));
}
