use vstd::prelude::*;

verus! {

/// An exact rational number: `num / den` with a positive denominator.
///
/// The camera works in rationals so that cursor mapping and its inverse are
/// exact: the presentation layer converts to floating point only when it
/// uploads the view matrix, as its last step.
#[derive(Debug, Clone, Copy, PartialEq, Eq, Structural)]
pub struct Frac {
    /// Numerator.
    pub num: i64,
    /// Denominator; always positive.
    pub den: i64,
}

impl Frac {
    /// A valid fraction has a positive denominator.
    pub open spec fn wf(self) -> bool {
        self.den > 0
    }

    /// Two fractions denote the same number.
    pub open spec fn same_value(self, other: Frac) -> bool {
        self.num * other.den == other.num * self.den
    }

    /// The fraction `num / den`.
    pub fn new(num: i64, den: i64) -> (r: Frac)
        requires
            den > 0,
        ensures
            r.num == num,
            r.den == den,
            r.wf(),
    {
        Frac { num, den }
    }

    /// The whole number `v`.
    pub fn whole(v: i64) -> (r: Frac)
        ensures
            r.num == v,
            r.den == 1,
            r.wf(),
    {
        Frac { num: v, den: 1 }
    }
}

/// The bound on camera fields and window sizes within which the mapping's
/// exact 64-bit arithmetic cannot wrap: products of four such factors stay
/// far below the integer limit.
pub open spec fn cam_small(v: int) -> bool {
    -0x4000 <= v <= 0x4000
}

/// An orthographic camera: the world position at the window's center, the
/// world half-height of the view (`size`), and the width-over-height aspect
/// ratio that scales the horizontal axis.
#[derive(Debug, Clone, Copy, PartialEq, Eq, Structural)]
pub struct Camera {
    /// World x of the view's center.
    pub pos_x: Frac,
    /// World y of the view's center.
    pub pos_y: Frac,
    /// Scale of the camera's viewport.
    pub size: Frac,
    /// Aspect ratio of the viewport everything is rendered onto.
    pub aspect_ratio: Frac,
}

impl Camera {
    /// A camera is well-formed when its fractions are valid, its scale and
    /// aspect are positive, and everything is small enough for the exact
    /// mapping arithmetic.
    pub open spec fn wf(self) -> bool {
        &&& self.pos_x.wf() && self.pos_y.wf() && self.size.wf() && self.aspect_ratio.wf()
        &&& self.size.num > 0
        &&& self.aspect_ratio.num > 0
        &&& cam_small(self.pos_x.num as int) && cam_small(self.pos_x.den as int)
        &&& cam_small(self.pos_y.num as int) && cam_small(self.pos_y.den as int)
        &&& cam_small(self.size.num as int) && cam_small(self.size.den as int)
        &&& cam_small(self.aspect_ratio.num as int) && cam_small(self.aspect_ratio.den as int)
    }

    /// The default camera: origin, scale 3, square aspect.
    pub fn start() -> (r: Camera)
        ensures
            r.wf(),
            r.pos_x.num == 0 && r.pos_y.num == 0,
            r.size.num == 3 && r.size.den == 1,
            r.aspect_ratio.num == 1 && r.aspect_ratio.den == 1,
    {
        Camera {
            pos_x: Frac { num: 0, den: 1 },
            pos_y: Frac { num: 0, den: 1 },
            size: Frac { num: 3, den: 1 },
            aspect_ratio: Frac { num: 1, den: 1 },
        }
    }
}

/// The numerator of the world x a cursor at window x `px` maps to, over the
/// denominator below: `pos_x + (2 px - w) / w * size * aspect`.
pub open spec fn world_x_num(cam: Camera, px: int, w: int) -> int {
    cam.pos_x.num * (w * (cam.size.den * cam.aspect_ratio.den)) + (2 * px - w)
        * (cam.size.num * cam.aspect_ratio.num) * cam.pos_x.den
}

/// The denominator of the world x mapping.
pub open spec fn world_x_den(cam: Camera, w: int) -> int {
    cam.pos_x.den * (w * (cam.size.den * cam.aspect_ratio.den))
}

/// The numerator of the world y a cursor at window y `py` maps to, over the
/// denominator below: `pos_y - (2 py - h) / h * size` (window y grows
/// downwards, world y upwards).
pub open spec fn world_y_num(cam: Camera, py: int, h: int) -> int {
    cam.pos_y.num * (h * cam.size.den) - (2 * py - h) * cam.size.num * cam.pos_y.den
}

/// The denominator of the world y mapping.
pub open spec fn world_y_den(cam: Camera, h: int) -> int {
    cam.pos_y.den * (h * cam.size.den)
}

/// Map a cursor position in window pixels to world coordinates, exactly:
/// the inverse of the camera's view transform. The window's center lands on
/// the camera's position; the window's edges land `size * aspect_ratio`
/// away horizontally and `size` away vertically.
pub fn window_to_world(cam: &Camera, px: u32, py: u32, win_w: u32, win_h: u32) -> (r: (Frac, Frac))
    requires
        cam.wf(),
        0 < win_w <= 0x4000,
        0 < win_h <= 0x4000,
        px <= win_w,
        py <= win_h,
    ensures
        r.0.wf() && r.1.wf(),
        r.0.num == world_x_num(*cam, px as int, win_w as int),
        r.0.den == world_x_den(*cam, win_w as int),
        r.1.num == world_y_num(*cam, py as int, win_h as int),
        r.1.den == world_y_den(*cam, win_h as int),
{
    let w = win_w as i64;
    let h = win_h as i64;
    proof {
        lemma_small_products(
            cam.pos_x.num as int,
            cam.pos_x.den as int,
            cam.size.num as int,
            cam.size.den as int,
            cam.aspect_ratio.num as int,
            cam.aspect_ratio.den as int,
            px as int,
            w as int,
        );
        lemma_small_products_y(
            cam.pos_y.num as int,
            cam.pos_y.den as int,
            cam.size.num as int,
            cam.size.den as int,
            py as int,
            h as int,
        );
    }
    let x_num = cam.pos_x.num * (w * (cam.size.den * cam.aspect_ratio.den)) + (2 * (px as i64) - w)
        * (cam.size.num * cam.aspect_ratio.num) * cam.pos_x.den;
    let x_den = cam.pos_x.den * (w * (cam.size.den * cam.aspect_ratio.den));
    let y_num = cam.pos_y.num * (h * cam.size.den) - (2 * (py as i64) - h) * cam.size.num
        * cam.pos_y.den;
    let y_den = cam.pos_y.den * (h * cam.size.den);
    (Frac { num: x_num, den: x_den }, Frac { num: y_num, den: y_den })
}

/// All the products the mapping forms from bounded factors stay far inside
/// the 64-bit range.
proof fn lemma_small_products(
    pn: int,
    pd: int,
    sn: int,
    sd: int,
    an: int,
    ad: int,
    px: int,
    w: int,
)
    requires
        cam_small(pn),
        cam_small(pd),
        cam_small(sn),
        cam_small(sd),
        cam_small(an),
        cam_small(ad),
        0 < pd,
        0 < sd,
        0 < ad,
        0 < w <= 0x4000,
        0 <= px <= w,
    ensures
        -0x1000_0000 <= sd * ad <= 0x1000_0000,
        -0x4000_0000_0000 <= w * (sd * ad) <= 0x4000_0000_0000,
        -0x1000_0000_0000_0000 <= pn * (w * (sd * ad)) <= 0x1000_0000_0000_0000,
        -0x1000_0000 <= sn * an <= 0x1000_0000,
        -0x8000_0000_0000 <= (2 * px - w) * (sn * an) <= 0x8000_0000_0000,
        -0x2000_0000_0000_0000 <= (2 * px - w) * (sn * an) * pd <= 0x2000_0000_0000_0000,
        -0x1000_0000_0000_0000 <= pd * (w * (sd * ad)) <= 0x1000_0000_0000_0000,
        pd * (w * (sd * ad)) > 0,
        -0x4000_0000_0000_0000 <= pn * (w * (sd * ad)) + (2 * px - w) * (sn * an) * pd
            <= 0x4000_0000_0000_0000,
        -0x4000_0000_0000_0000 <= pn * (w * (sd * ad)) - (2 * px - w) * (sn * an) * pd
            <= 0x4000_0000_0000_0000,
{
    assert(-0x1000_0000 <= sd * ad <= 0x1000_0000) by (nonlinear_arith)
        requires
            cam_small(sd),
            cam_small(ad),
    ;
    assert(-0x4000_0000_0000 <= w * (sd * ad) <= 0x4000_0000_0000) by (nonlinear_arith)
        requires
            0 < w <= 0x4000,
            -0x1000_0000 <= sd * ad <= 0x1000_0000,
    ;
    assert(-0x1000_0000_0000_0000 <= pn * (w * (sd * ad))
        <= 0x1000_0000_0000_0000) by (nonlinear_arith)
        requires
            cam_small(pn),
            -0x4000_0000_0000 <= w * (sd * ad) <= 0x4000_0000_0000,
    ;
    assert(-0x1000_0000 <= sn * an <= 0x1000_0000) by (nonlinear_arith)
        requires
            cam_small(sn),
            cam_small(an),
    ;
    assert(-0x8000_0000_0000 <= (2 * px - w) * (sn * an) <= 0x8000_0000_0000) by (nonlinear_arith)
        requires
            0 < w <= 0x4000,
            0 <= px <= w,
            -0x1000_0000 <= sn * an <= 0x1000_0000,
    ;
    assert(-0x2000_0000_0000_0000 <= (2 * px - w) * (sn * an) * pd
        <= 0x2000_0000_0000_0000) by (nonlinear_arith)
        requires
            cam_small(pd),
            -0x8000_0000_0000 <= (2 * px - w) * (sn * an) <= 0x8000_0000_0000,
    ;
    assert(-0x1000_0000_0000_0000 <= pd * (w * (sd * ad)) <= 0x1000_0000_0000_0000
        && pd * (w * (sd * ad)) > 0) by (nonlinear_arith)
        requires
            cam_small(pd),
            0 < pd,
            0 < sd,
            0 < ad,
            0 < w,
            -0x4000_0000_0000 <= w * (sd * ad) <= 0x4000_0000_0000,
    ;
}

/// The products of the vertical mapping stay inside the 64-bit range.
proof fn lemma_small_products_y(pn: int, pd: int, sn: int, sd: int, py: int, h: int)
    requires
        cam_small(pn),
        cam_small(pd),
        cam_small(sn),
        cam_small(sd),
        0 < pd,
        0 < sd,
        0 < h <= 0x4000,
        0 <= py <= h,
    ensures
        -0x1000_0000 <= h * sd <= 0x1000_0000,
        -0x1000_0000_0000 <= pn * (h * sd) <= 0x1000_0000_0000,
        -0x8000_0000 <= (2 * py - h) * sn <= 0x8000_0000,
        -0x2_0000_0000_0000 <= (2 * py - h) * sn * pd <= 0x2_0000_0000_0000,
        -0x1000_0000_0000 <= pd * (h * sd) <= 0x1000_0000_0000,
        pd * (h * sd) > 0,
        -0x4_0000_0000_0000 <= pn * (h * sd) - (2 * py - h) * sn * pd <= 0x4_0000_0000_0000,
{
    assert(-0x1000_0000 <= h * sd <= 0x1000_0000) by (nonlinear_arith)
        requires
            0 < h <= 0x4000,
            cam_small(sd),
    ;
    assert(-0x1000_0000_0000 <= pn * (h * sd) <= 0x1000_0000_0000) by (nonlinear_arith)
        requires
            cam_small(pn),
            -0x1000_0000 <= h * sd <= 0x1000_0000,
    ;
    assert(-0x8000_0000 <= (2 * py - h) * sn <= 0x8000_0000) by (nonlinear_arith)
        requires
            0 < h <= 0x4000,
            0 <= py <= h,
            cam_small(sn),
    ;
    assert(-0x2_0000_0000_0000 <= (2 * py - h) * sn * pd <= 0x2_0000_0000_0000) by (nonlinear_arith)
        requires
            cam_small(pd),
            -0x8000_0000 <= (2 * py - h) * sn <= 0x8000_0000,
    ;
    assert(-0x1000_0000_0000 <= pd * (h * sd) <= 0x1000_0000_0000 && pd * (h * sd)
        > 0) by (nonlinear_arith)
        requires
            cam_small(pd),
            0 < pd,
            0 < sd,
            0 < h,
            -0x1000_0000 <= h * sd <= 0x1000_0000,
    ;
}

/// The numerator of the window x that the camera's forward (view) transform
/// sends world x `wxn / wxd` to, over the denominator below:
/// `((wx - pos_x) / (size * aspect) + 1) * w / 2`.
pub open spec fn win_x_num(cam: Camera, wxn: int, wxd: int, w: int) -> int {
    ((wxn * cam.pos_x.den - cam.pos_x.num * wxd) * (cam.size.den * cam.aspect_ratio.den) + wxd
        * cam.pos_x.den * (cam.size.num * cam.aspect_ratio.num)) * w
}

/// The denominator of the forward window x mapping.
pub open spec fn win_x_den(cam: Camera, wxd: int) -> int {
    2 * wxd * cam.pos_x.den * (cam.size.num * cam.aspect_ratio.num)
}

/// The numerator of the window y the forward transform sends world y
/// `wyn / wyd` to, over the denominator below:
/// `((pos_y - wy) / size + 1) * h / 2`.
pub open spec fn win_y_num(cam: Camera, wyn: int, wyd: int, h: int) -> int {
    ((cam.pos_y.num * wyd - wyn * cam.pos_y.den) * cam.size.den + wyd * cam.pos_y.den
        * cam.size.num) * h
}

/// The denominator of the forward window y mapping.
pub open spec fn win_y_den(cam: Camera, wyd: int) -> int {
    2 * wyd * cam.pos_y.den * cam.size.num
}

/// Mapping a cursor into the world and back through the camera's forward
/// transform returns exactly the cursor it started from: the two mappings
/// use the same position, scale and aspect terms and cancel without any
/// rounding.
#[verifier::rlimit(100)]
pub proof fn lemma_window_world_round_trip(cam: Camera, px: int, py: int, w: int, h: int)
    requires
        cam.wf(),
        0 < w,
        0 < h,
    ensures
        win_x_den(cam, world_x_den(cam, w)) > 0,
        win_x_num(cam, world_x_num(cam, px, w), world_x_den(cam, w), w) == px * win_x_den(
            cam,
            world_x_den(cam, w),
        ),
        win_y_den(cam, world_y_den(cam, h)) > 0,
        win_y_num(cam, world_y_num(cam, py, h), world_y_den(cam, h), h) == py * win_y_den(
            cam,
            world_y_den(cam, h),
        ),
{
    let pn = cam.pos_x.num as int;
    let pd = cam.pos_x.den as int;
    let sn = cam.size.num as int;
    let sd = cam.size.den as int;
    let an = cam.aspect_ratio.num as int;
    let ad = cam.aspect_ratio.den as int;
    let qn = cam.pos_y.num as int;
    let qd = cam.pos_y.den as int;
    let wxn = world_x_num(cam, px, w);
    let wxd = world_x_den(cam, w);
    assert(wxn * pd - pn * wxd == pd * pd * ((2 * px - w) * (sn * an))) by (nonlinear_arith)
        requires
            wxn == pn * (w * (sd * ad)) + (2 * px - w) * (sn * an) * pd,
            wxd == pd * (w * (sd * ad)),
    ;
    let kx = 2 * px - w;
    let mx = sn * an;
    let dx = sd * ad;
    assert(pd * pd * (kx * mx) * dx + (pd * (w * dx)) * pd * mx == (kx + w) * (pd * pd * dx
        * mx)) by (nonlinear_arith);
    assert(kx + w == 2 * px);
    assert((pd * pd * ((2 * px - w) * (sn * an))) * (sd * ad) + wxd * pd * (sn * an) == (2 * px) * (
    pd * pd * (sd * ad) * (sn * an)));
    assert(((2 * px) * (pd * pd * (sd * ad) * (sn * an))) * w == px * (2 * wxd * pd * (sn
        * an))) by (nonlinear_arith)
        requires
            wxd == pd * (w * (sd * ad)),
    ;
    assert(2 * wxd * pd * (sn * an) > 0) by (nonlinear_arith)
        requires
            wxd == pd * (w * (sd * ad)),
            pd > 0,
            sd > 0,
            ad > 0,
            sn > 0,
            an > 0,
            w > 0,
    ;
    let wyn = world_y_num(cam, py, h);
    let wyd = world_y_den(cam, h);
    assert(qn * wyd - wyn * qd == qd * qd * ((2 * py - h) * sn)) by (nonlinear_arith)
        requires
            wyn == qn * (h * sd) - (2 * py - h) * sn * qd,
            wyd == qd * (h * sd),
    ;
    let ky = 2 * py - h;
    assert(qd * qd * (ky * sn) * sd + (qd * (h * sd)) * qd * sn == (ky + h) * (qd * qd * sd
        * sn)) by (nonlinear_arith);
    assert(ky + h == 2 * py);
    assert((qd * qd * ((2 * py - h) * sn)) * sd + wyd * qd * sn == (2 * py) * (qd * qd * sd * sn));
    assert(((2 * py) * (qd * qd * sd * sn)) * h == py * (2 * wyd * qd * sn)) by (nonlinear_arith)
        requires
            wyd == qd * (h * sd),
    ;
    assert(2 * wyd * qd * sn > 0) by (nonlinear_arith)
        requires
            wyd == qd * (h * sd),
            qd > 0,
            sd > 0,
            sn > 0,
            h > 0,
    ;
}

/// The window's exact center maps to the camera's own position (for an
/// even-sized window, whose center is a whole pixel).
pub proof fn lemma_center_maps_to_camera(cam: Camera, win_w: u32, win_h: u32)
    requires
        cam.wf(),
        0 < win_w <= 0x4000,
        0 < win_h <= 0x4000,
        win_w % 2 == 0,
        win_h % 2 == 0,
    ensures
        world_x_num(cam, win_w as int / 2, win_w as int) * cam.pos_x.den == cam.pos_x.num
            * world_x_den(cam, win_w as int),
        world_y_num(cam, win_h as int / 2, win_h as int) * cam.pos_y.den == cam.pos_y.num
            * world_y_den(cam, win_h as int),
{
    let w = win_w as int;
    let h = win_h as int;
    assert(2 * (w / 2) - w == 0);
    assert(2 * (h / 2) - h == 0);
    assert(world_x_num(cam, w / 2, w) * cam.pos_x.den == cam.pos_x.num * world_x_den(
        cam,
        w,
    )) by (nonlinear_arith)
        requires
            2 * (w / 2) - w == 0,
            world_x_num(cam, w / 2, w) == cam.pos_x.num * (w * (cam.size.den
                * cam.aspect_ratio.den)) + (2 * (w / 2) - w) * (cam.size.num
                * cam.aspect_ratio.num) * cam.pos_x.den,
            world_x_den(cam, w) == cam.pos_x.den * (w * (cam.size.den * cam.aspect_ratio.den)),
    ;
    assert(world_y_num(cam, h / 2, h) * cam.pos_y.den == cam.pos_y.num * world_y_den(
        cam,
        h,
    )) by (nonlinear_arith)
        requires
            2 * (h / 2) - h == 0,
            world_y_num(cam, h / 2, h) == cam.pos_y.num * (h * cam.size.den) - (2 * (h / 2) - h)
                * cam.size.num * cam.pos_y.den,
            world_y_den(cam, h) == cam.pos_y.den * (h * cam.size.den),
    ;
}

} // verus!
