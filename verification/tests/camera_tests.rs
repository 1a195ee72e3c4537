use tangerine::camera::{window_to_world, Camera, Frac};

fn test_camera() -> Camera {
    // Position (2, -1), size 4, aspect ratio 1.5.
    Camera {
        pos_x: Frac::whole(2),
        pos_y: Frac::whole(-1),
        size: Frac::whole(4),
        aspect_ratio: Frac::new(3, 2),
    }
}

fn frac_is(f: Frac, value: i64) -> bool {
    f.den > 0 && f.num == value * f.den
}

#[test]
fn window_center_maps_to_camera_position() {
    let cam = test_camera();
    let (wx, wy) = window_to_world(&cam, 400, 300, 800, 600);
    assert!(frac_is(wx, 2), "{}/{}", wx.num, wx.den);
    assert!(frac_is(wy, -1), "{}/{}", wy.num, wy.den);
}

#[test]
fn window_corners_are_symmetric_about_the_camera() {
    // Half extents: size * aspect = 6 horizontally, size = 4 vertically.
    let cam = test_camera();
    let (x0, y0) = window_to_world(&cam, 0, 0, 800, 600);
    let (x1, y1) = window_to_world(&cam, 800, 600, 800, 600);
    assert!(frac_is(x0, 2 - 6));
    assert!(frac_is(y0, -1 + 4));
    assert!(frac_is(x1, 2 + 6));
    assert!(frac_is(y1, -1 - 4));
}

#[test]
fn default_camera_centers_on_the_origin() {
    let cam = Camera::start();
    let (wx, wy) = window_to_world(&cam, 320, 240, 640, 480);
    assert!(frac_is(wx, 0));
    assert!(frac_is(wy, 0));
    let (left, _) = window_to_world(&cam, 0, 240, 640, 480);
    assert!(frac_is(left, -3));
}
