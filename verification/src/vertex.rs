use vstd::prelude::*;

use crate::packing::PlacedRect;

verus! {

/// One corner of a sprite's quad.
///
/// Every sprite is drawn as the same unit square centered on the origin; a
/// corner flag picks the `-0.5` or `+0.5` half of each axis, so positions
/// need no numeric field here. Texture coordinates are kept in texels into
/// the atlas; dividing them by the atlas dimensions yields the usual
/// normalized coordinates, which is the presentation layer's last step.
#[derive(Debug, Clone, Copy, PartialEq, Eq, Structural)]
pub struct Vertex {
    /// `false`: the `x = -0.5` side; `true`: the `x = +0.5` side.
    pub corner_right: bool,
    /// `false`: the `y = -0.5` side; `true`: the `y = +0.5` side.
    pub corner_top: bool,
    /// Texture x in texels: the left or right edge of the sprite's placement.
    pub tex_x: u32,
    /// Texture y in texels: the top or bottom edge of the sprite's placement.
    pub tex_y: u32,
}

/// Corner `k` (0: bottom left, 1: bottom right, 2: top left, 3: top right)
/// of the quad for a sprite placed at `p`: the texture coordinates trace the
/// placement rectangle exactly, with texture y growing downwards.
pub open spec fn quad_vertex(p: PlacedRect, k: int) -> Vertex {
    Vertex {
        corner_right: k == 1 || k == 3,
        corner_top: k == 2 || k == 3,
        tex_x: if k == 1 || k == 3 {
            (p.x + p.w) as u32
        } else {
            p.x
        },
        tex_y: if k == 2 || k == 3 {
            p.y
        } else {
            (p.y + p.h) as u32
        },
    }
}

/// Position `k` of the index pattern `[0, 1, 2, 1, 3, 2]` that splits a quad
/// into its two counter-clockwise triangles.
pub open spec fn quad_index(k: int) -> int {
    if k == 0 {
        0
    } else if k == 1 {
        1
    } else if k == 2 {
        2
    } else if k == 3 {
        1
    } else if k == 4 {
        3
    } else {
        2
    }
}

/// The four vertices of the quad for one placement.
pub fn emit_quad(p: PlacedRect) -> (r: [Vertex; 4])
    requires
        p.x + p.w <= u32::MAX,
        p.y + p.h <= u32::MAX,
    ensures
        forall|k: int| 0 <= k < 4 ==> r@[k] == quad_vertex(p, k),
{
    let r = [
        Vertex { corner_right: false, corner_top: false, tex_x: p.x, tex_y: p.y + p.h },
        Vertex { corner_right: true, corner_top: false, tex_x: p.x + p.w, tex_y: p.y + p.h },
        Vertex { corner_right: false, corner_top: true, tex_x: p.x, tex_y: p.y },
        Vertex { corner_right: true, corner_top: true, tex_x: p.x + p.w, tex_y: p.y },
    ];
    proof {
        assert(r@[0] == quad_vertex(p, 0));
        assert(r@[1] == quad_vertex(p, 1));
        assert(r@[2] == quad_vertex(p, 2));
        assert(r@[3] == quad_vertex(p, 3));
    }
    r
}

/// The texture coordinates emitted for a placement trace that placement's
/// rectangle exactly: the four corners in texels are the corners of the
/// placed box, so scaling them by the atlas dimensions reproduces the
/// placement with no rounding at all.
pub proof fn lemma_uv_round_trip(p: PlacedRect)
    requires
        p.x + p.w <= u32::MAX,
        p.y + p.h <= u32::MAX,
    ensures
        quad_vertex(p, 0).tex_x == p.x && quad_vertex(p, 0).tex_y == p.y + p.h,
        quad_vertex(p, 1).tex_x == p.x + p.w && quad_vertex(p, 1).tex_y == p.y + p.h,
        quad_vertex(p, 2).tex_x == p.x && quad_vertex(p, 2).tex_y == p.y,
        quad_vertex(p, 3).tex_x == p.x + p.w && quad_vertex(p, 3).tex_y == p.y,
{
}

} // verus!
