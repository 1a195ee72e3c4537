use tangerine::bitmap::{unpremultiply_channel, Bitmap};

#[test]
fn unpremultiply_channel_values() {
    assert_eq!(unpremultiply_channel(128, 128), 255);
    assert_eq!(unpremultiply_channel(128, 255), 128);
    assert_eq!(unpremultiply_channel(100, 200), 127);
    assert_eq!(unpremultiply_channel(0, 200), 0);
    // A fully transparent pixel's channels collapse to zero.
    assert_eq!(unpremultiply_channel(77, 0), 0);
    // The division saturates instead of wrapping.
    assert_eq!(unpremultiply_channel(200, 10), 255);
}

#[test]
fn from_raw_checks_the_byte_count() {
    assert!(Bitmap::from_raw(2, 2, vec![0; 16]).is_ok());
    assert!(Bitmap::from_raw(2, 2, vec![0; 15]).is_err());
    assert!(Bitmap::from_raw(0, 0, vec![]).is_ok());
}

#[test]
fn blit_copies_and_leaves_the_rest() {
    let mut dst = Bitmap::new_zeroed(4, 4).unwrap();
    let src = Bitmap::from_raw(2, 1, vec![9, 8, 7, 6, 5, 4, 3, 2]).unwrap();
    dst.blit(&src, 1, 2);
    assert_eq!(
        [dst.byte(1, 2, 0), dst.byte(1, 2, 1), dst.byte(1, 2, 2), dst.byte(1, 2, 3)],
        [9, 8, 7, 6]
    );
    assert_eq!(
        [dst.byte(2, 2, 0), dst.byte(2, 2, 1), dst.byte(2, 2, 2), dst.byte(2, 2, 3)],
        [5, 4, 3, 2]
    );
    for y in 0..4 {
        for x in 0..4 {
            if !(y == 2 && (x == 1 || x == 2)) {
                for c in 0..4 {
                    assert_eq!(dst.byte(x, y, c), 0, "({}, {}) channel {}", x, y, c);
                }
            }
        }
    }
}

#[test]
fn unpremultiply_touches_color_channels_only() {
    let mut b = Bitmap::from_raw(1, 2, vec![128, 0, 0, 128, 60, 30, 90, 255]).unwrap();
    b.unpremultiply();
    assert_eq!([b.byte(0, 0, 0), b.byte(0, 0, 1), b.byte(0, 0, 2), b.byte(0, 0, 3)], [
        255, 0, 0, 128
    ]);
    assert_eq!([b.byte(0, 1, 0), b.byte(0, 1, 1), b.byte(0, 1, 2), b.byte(0, 1, 3)], [
        60, 30, 90, 255
    ]);
}
