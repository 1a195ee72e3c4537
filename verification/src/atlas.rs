use vstd::pervasive::VecAdditionalExecFns;
use vstd::prelude::*;

use crate::bitmap::Bitmap;
use crate::bitmap::byte_at;
use crate::bitmap::unpremul_channel;
use crate::packing::PlacedRect;
use crate::packing::all_disjoint;
use crate::packing::initial_free;
use crate::packing::lemma_disjoint_no_common_pixel;
use crate::packing::pack_all;
use crate::packing::pack_run;
use crate::packing::placed_contains;
use crate::packing::placed_disjoint;
use crate::sprite::SpriteDrawData;
use crate::sprite::SpriteLoadOptions;
use crate::vertex::Vertex;
use crate::vertex::emit_quad;
use crate::vertex::quad_index;
use crate::vertex::quad_vertex;

verus! {

/// One image's size together with its submission position, the unit the
/// atlas builder sorts before packing.
#[derive(Debug, Clone, Copy, PartialEq, Eq, Structural)]
pub struct ImageMeta {
    /// Width in pixels.
    pub w: u32,
    /// Height in pixels.
    pub h: u32,
    /// The image's position in submission order.
    pub orig: usize,
}

/// The packing order: wider images first, height breaking width ties, and
/// submission order breaking exact size ties, so the sort is stable and the
/// whole pipeline deterministic. Larger images must be placed before the
/// packing area fragments into leftovers that cannot hold them.
pub open spec fn meta_leq(a: ImageMeta, b: ImageMeta) -> bool {
    ||| a.w > b.w
    ||| (a.w == b.w && a.h > b.h)
    ||| (a.w == b.w && a.h == b.h && a.orig <= b.orig)
}

/// Whether `a` comes no later than `b` in packing order.
fn meta_le(a: &ImageMeta, b: &ImageMeta) -> (r: bool)
    ensures
        r == meta_leq(*a, *b),
{
    a.w > b.w || (a.w == b.w && a.h > b.h) || (a.w == b.w && a.h == b.h && a.orig <= b.orig)
}

/// Sort the metas into packing order, returning the inverse permutation:
/// `inverse[i]` is the sorted position of the image submitted `i`-th. The
/// builder uses it to hand results back in submission order, undoing the
/// internal sort.
fn sort_metas(metas: &mut Vec<ImageMeta>) -> (inverse: Vec<usize>)
    requires
        forall|k: int| 0 <= k < old(metas)@.len() ==> (#[trigger] old(metas)@[k]).orig == k,
    ensures
        final(metas)@.len() == old(metas)@.len(),
        forall|k1: int, k2: int|
            0 <= k1 < k2 < final(metas)@.len() ==> meta_leq(final(metas)@[k1], final(metas)@[k2]),
        forall|k: int|
            0 <= k < final(metas)@.len() ==> (#[trigger] final(metas)@[k]).orig < old(metas)@.len()
                && final(metas)@[k] == old(metas)@[final(metas)@[k].orig as int],
        inverse@.len() == final(metas)@.len(),
        forall|i: int|
            0 <= i < final(metas)@.len() ==> (#[trigger] inverse@[i]) < final(metas)@.len()
                && final(metas)@[inverse@[i] as int].orig == i,
        forall|k: int|
            0 <= k < final(metas)@.len() ==> inverse@[(#[trigger] final(metas)@[k]).orig as int]
                == k,
{
    let ghost source = metas@;
    let n = metas.len();
    let mut inverse: Vec<usize> = Vec::new();
    let mut t: usize = 0;
    while t < n
        invariant
            t <= n,
            inverse@.len() == t,
            forall|i: int| 0 <= i < t ==> (#[trigger] inverse@[i]) == i,
        decreases n - t,
    {
        inverse.push(t);
        t += 1;
    }
    let mut i: usize = 1;
    while i < n
        invariant
            metas@.len() == n,
            inverse@.len() == n,
            1 <= i <= n || (n == 0 && i == 1),
            forall|a: int, b: int| 0 <= a < b < i ==> meta_leq(metas@[a], metas@[b]),
            forall|k: int|
                0 <= k < n ==> (#[trigger] metas@[k]).orig < n && metas@[k]
                    == source[metas@[k].orig as int],
            forall|k: int|
                0 <= k < n ==> inverse@[(#[trigger] metas@[k]).orig as int] == k,
            forall|i2: int|
                0 <= i2 < n ==> (#[trigger] inverse@[i2]) < n && metas@[inverse@[i2] as int].orig
                    == i2,
        decreases n - i,
    {
        let mut j: usize = i;
        while j > 0 && !meta_le(&metas[j - 1], &metas[j])
            invariant
                metas@.len() == n,
                inverse@.len() == n,
                i < n,
                j <= i,
                forall|a: int, b: int|
                    0 <= a < b <= i && b != j ==> meta_leq(metas@[a], metas@[b]),
                forall|k: int|
                    0 <= k < n ==> (#[trigger] metas@[k]).orig < n && metas@[k]
                        == source[metas@[k].orig as int],
                forall|k: int|
                    0 <= k < n ==> inverse@[(#[trigger] metas@[k]).orig as int] == k,
                forall|i2: int|
                    0 <= i2 < n ==> (#[trigger] inverse@[i2]) < n
                        && metas@[inverse@[i2] as int].orig == i2,
            decreases j,
        {
            let a = metas[j - 1];
            let b = metas[j];
            proof {
                assert(inverse@[a.orig as int] == j - 1);
                assert(inverse@[b.orig as int] == j);
            }
            metas.set(j - 1, b);
            metas.set(j, a);
            inverse.set(b.orig, j - 1);
            inverse.set(a.orig, j);
            proof {
                assert forall|k: int|
                    0 <= k < n implies inverse@[(#[trigger] metas@[k]).orig as int] == k by {
                    if k == j - 1 {
                    } else if k == j {
                    } else {
                        assert(metas@[k].orig != a.orig && metas@[k].orig != b.orig);
                    }
                }
                assert forall|i2: int|
                    0 <= i2 < n implies (#[trigger] inverse@[i2]) < n
                        && metas@[inverse@[i2] as int].orig == i2 by {
                    if i2 == a.orig {
                    } else if i2 == b.orig {
                    }
                }
            }
            j -= 1;
        }
        proof {
            assert forall|a2: int, b2: int|
                0 <= a2 < b2 <= i implies meta_leq(metas@[a2], metas@[b2]) by {
                if b2 == j {
                    if j > 0 {
                        assert(meta_leq(metas@[j - 1 as int], metas@[j as int]));
                        if a2 < j - 1 {
                            assert(meta_leq(metas@[a2], metas@[j - 1 as int]));
                        }
                    }
                }
            }
        }
        i += 1;
    }
    inverse
}

/// How far right the placements reach: the least width that covers them.
pub open spec fn width_needed(pl: Seq<PlacedRect>) -> int
    decreases pl.len(),
{
    if pl.len() == 0 {
        0
    } else {
        let rest = width_needed(pl.drop_last());
        let reach = pl.last().x + pl.last().w;
        if reach > rest {
            reach
        } else {
            rest
        }
    }
}

/// How far down the placements reach: the least height that covers them.
pub open spec fn height_needed(pl: Seq<PlacedRect>) -> int
    decreases pl.len(),
{
    if pl.len() == 0 {
        0
    } else {
        let rest = height_needed(pl.drop_last());
        let reach = pl.last().y + pl.last().h;
        if reach > rest {
            reach
        } else {
            rest
        }
    }
}

/// An extent clamped away from zero: a degenerate atlas still uploads as a
/// one-texel placeholder texture.
pub open spec fn clamp_extent(v: int) -> int {
    if v == 0 {
        1
    } else {
        v
    }
}

/// The exact dimensions of the atlas buffer for these placements: the
/// bounding box of all of them, never degenerate.
fn atlas_extent(pl: &Vec<PlacedRect>) -> (r: (u32, u32))
    requires
        forall|k: int|
            0 <= k < pl@.len() ==> (#[trigger] pl@[k]).x + pl@[k].w <= 0xffff_ffff && pl@[k].y
                + pl@[k].h <= 0xffff_ffff,
    ensures
        r.0 == clamp_extent(width_needed(pl@)),
        r.1 == clamp_extent(height_needed(pl@)),
{
    let n = pl.len();
    let mut w: u32 = 0;
    let mut h: u32 = 0;
    let mut k: usize = 0;
    while k < n
        invariant
            k <= n,
            n == pl@.len(),
            forall|k2: int|
                0 <= k2 < pl@.len() ==> (#[trigger] pl@[k2]).x + pl@[k2].w <= 0xffff_ffff
                    && pl@[k2].y + pl@[k2].h <= 0xffff_ffff,
            w == width_needed(pl@.take(k as int)),
            h == height_needed(pl@.take(k as int)),
        decreases n - k,
    {
        let p = pl[k];
        proof {
            assert(pl@.take(k as int + 1).drop_last() =~= pl@.take(k as int));
            assert(pl@.take(k as int + 1).last() == pl@[k as int]);
        }
        let reach_x = p.x + p.w;
        let reach_y = p.y + p.h;
        if reach_x > w {
            w = reach_x;
        }
        if reach_y > h {
            h = reach_y;
        }
        k += 1;
    }
    proof {
        assert(pl@.take(n as int) =~= pl@);
    }
    let w1 = if w == 0 {
        1
    } else {
        w
    };
    let h1 = if h == 0 {
        1
    } else {
        h
    };
    (w1, h1)
}

/// Each placement reaches no further than the placements' common extent.
pub proof fn lemma_extent_covers(pl: Seq<PlacedRect>, k: int)
    requires
        0 <= k < pl.len(),
    ensures
        pl[k].x + pl[k].w <= width_needed(pl),
        pl[k].y + pl[k].h <= height_needed(pl),
    decreases pl.len(),
{
    if k + 1 < pl.len() {
        assert(pl.drop_last()[k] == pl[k]);
        lemma_extent_covers(pl.drop_last(), k);
    }
}

/// The vertex, index and sprite tables for the placements, one quad each:
/// sprite `i` owns indices `[6 i, 6 i + 6)`, which point at its four
/// vertices `[4 i, 4 i + 4)`; no two sprites share an index range.
fn build_geometry(pl: &Vec<PlacedRect>) -> (r: (Vec<Vertex>, Vec<u32>, Vec<SpriteDrawData>))
    requires
        pl@.len() <= 0x0800_0000,
        forall|k: int|
            0 <= k < pl@.len() ==> (#[trigger] pl@[k]).x + pl@[k].w <= 0xffff_ffff && pl@[k].y
                + pl@[k].h <= 0xffff_ffff,
    ensures
        r.0@.len() == 4 * pl@.len(),
        forall|j: int| 0 <= j < r.0@.len() ==> (#[trigger] r.0@[j]) == quad_vertex(pl@[j / 4], j % 4),
        r.1@.len() == 6 * pl@.len(),
        forall|j: int|
            0 <= j < r.1@.len() ==> (#[trigger] r.1@[j]) == 4 * (j / 6) + quad_index(j % 6),
        r.2@.len() == pl@.len(),
        forall|i: int|
            0 <= i < r.2@.len() ==> (#[trigger] r.2@[i]).index_start == 6 * i && r.2@[i].index_end
                == 6 * i + 6,
{
    let n = pl.len();
    let mut vertices: Vec<Vertex> = Vec::new();
    let mut indices: Vec<u32> = Vec::new();
    let mut sprites: Vec<SpriteDrawData> = Vec::new();
    let mut i: usize = 0;
    while i < n
        invariant
            i <= n,
            n == pl@.len(),
            n <= 0x0800_0000,
            forall|k: int|
                0 <= k < pl@.len() ==> (#[trigger] pl@[k]).x + pl@[k].w <= 0xffff_ffff && pl@[k].y
                    + pl@[k].h <= 0xffff_ffff,
            vertices@.len() == 4 * i,
            forall|j: int|
                0 <= j < vertices@.len() ==> (#[trigger] vertices@[j]) == quad_vertex(
                    pl@[j / 4],
                    j % 4,
                ),
            indices@.len() == 6 * i,
            forall|j: int|
                0 <= j < indices@.len() ==> (#[trigger] indices@[j]) == 4 * (j / 6) + quad_index(
                    j % 6,
                ),
            sprites@.len() == i,
            forall|k: int|
                0 <= k < sprites@.len() ==> (#[trigger] sprites@[k]).index_start == 6 * k
                    && sprites@[k].index_end == 6 * k + 6,
        decreases n - i,
    {
        let quad = emit_quad(pl[i]);
        let base: u32 = 4 * (i as u32);
        vertices.push(quad[0]);
        vertices.push(quad[1]);
        vertices.push(quad[2]);
        vertices.push(quad[3]);
        indices.push(base);
        indices.push(base + 1);
        indices.push(base + 2);
        indices.push(base + 1);
        indices.push(base + 3);
        indices.push(base + 2);
        let start: u32 = 6 * (i as u32);
        sprites.push(SpriteDrawData { index_start: start, index_end: start + 6 });
        proof {
            assert forall|j: int|
                0 <= j < vertices@.len() implies (#[trigger] vertices@[j]) == quad_vertex(
                pl@[j / 4],
                j % 4,
            ) by {
                if j >= 4 * i {
                    assert(j / 4 == i as int && j % 4 == j - 4 * i);
                }
            }
            assert forall|j: int|
                0 <= j < indices@.len() implies (#[trigger] indices@[j]) == 4 * (j / 6)
                + quad_index(j % 6) by {
                if j >= 6 * i {
                    assert(j / 6 == i as int && j % 6 == j - 6 * i);
                }
            }
        }
        i += 1;
    }
    (vertices, indices, sprites)
}

/// Blit every image into the atlas buffer at its placement, in packing
/// order: `order[k]` names the image placed at `spl[k]`. Because the
/// placements are pairwise disjoint, every image's pixels survive all later
/// blits unmodified.
fn compose_atlas(buffer: &mut Bitmap, images: &Vec<Bitmap>, order: &Vec<usize>, spl: &Vec<
    PlacedRect,
>)
    requires
        old(buffer).wf(),
        order@.len() == spl@.len(),
        forall|i: int| 0 <= i < images@.len() ==> (#[trigger] images@[i]).wf(),
        forall|k: int| 0 <= k < order@.len() ==> (#[trigger] order@[k]) < images@.len(),
        forall|k: int|
            0 <= k < spl@.len() ==> (#[trigger] spl@[k]).w == images@[order@[k] as int].width
                && spl@[k].h == images@[order@[k] as int].height,
        forall|k: int|
            0 <= k < spl@.len() ==> (#[trigger] spl@[k]).x + spl@[k].w <= old(buffer).width
                && spl@[k].y + spl@[k].h <= old(buffer).height,
        all_disjoint(spl@),
    ensures
        final(buffer).wf(),
        final(buffer).width == old(buffer).width,
        final(buffer).height == old(buffer).height,
        forall|k: int, x: int, y: int, c: int|
            0 <= k < order@.len() && 0 <= x < images@[order@[k] as int].width && 0 <= y
                < images@[order@[k] as int].height && 0 <= c < 4 ==> byte_at(
                *final(buffer),
                spl@[k].x + x,
                spl@[k].y + y,
                c,
            ) == #[trigger] byte_at(images@[order@[k] as int], x, y, c),
{
    let ghost orig = *old(buffer);
    let n = order.len();
    let mut k: usize = 0;
    while k < n
        invariant
            buffer.wf(),
            buffer.width == orig.width,
            buffer.height == orig.height,
            k <= n,
            n == order@.len(),
            n == spl@.len(),
            forall|i: int| 0 <= i < images@.len() ==> (#[trigger] images@[i]).wf(),
            forall|k2: int| 0 <= k2 < order@.len() ==> (#[trigger] order@[k2]) < images@.len(),
            forall|k2: int|
                0 <= k2 < spl@.len() ==> (#[trigger] spl@[k2]).w == images@[order@[k2] as int].width
                    && spl@[k2].h == images@[order@[k2] as int].height,
            forall|k2: int|
                0 <= k2 < spl@.len() ==> (#[trigger] spl@[k2]).x + spl@[k2].w <= orig.width
                    && spl@[k2].y + spl@[k2].h <= orig.height,
            all_disjoint(spl@),
            forall|k2: int, x: int, y: int, c: int|
                0 <= k2 < k && 0 <= x < images@[order@[k2] as int].width && 0 <= y
                    < images@[order@[k2] as int].height && 0 <= c < 4 ==> byte_at(
                    *buffer,
                    spl@[k2].x + x,
                    spl@[k2].y + y,
                    c,
                ) == #[trigger] byte_at(images@[order@[k2] as int], x, y, c),
        decreases n - k,
    {
        let idx = order[k];
        let p = spl[k];
        let ghost pre = *buffer;
        buffer.blit(&images[idx], p.x, p.y);
        proof {
            assert forall|k2: int, x: int, y: int, c: int|
                0 <= k2 < k + 1 && 0 <= x < images@[order@[k2] as int].width && 0 <= y
                    < images@[order@[k2] as int].height && 0 <= c < 4 implies byte_at(
                *buffer,
                spl@[k2].x + x,
                spl@[k2].y + y,
                c,
            ) == #[trigger] byte_at(images@[order@[k2] as int], x, y, c) by {
                let px = spl@[k2].x + x;
                let py = spl@[k2].y + y;
                if k2 < k {
                    assert(placed_disjoint(spl@[k2], spl@[k as int]));
                    assert(placed_contains(spl@[k2], px, py));
                    lemma_disjoint_no_common_pixel(spl@[k2], spl@[k as int], px, py);
                    assert(byte_at(*buffer, px, py, c) == byte_at(pre, px, py, c));
                } else {
                    assert(byte_at(*buffer, px, py, c) == byte_at(
                        images@[order@[k as int] as int],
                        px - p.x,
                        py - p.y,
                        c,
                    ));
                }
            }
        }
        k += 1;
    }
}

/// The meta the builder derives for the image submitted `i`-th.
pub open spec fn meta_of(images: Seq<Bitmap>, i: int) -> ImageMeta {
    ImageMeta { w: images[i].width, h: images[i].height, orig: i as usize }
}

/// `order` lists every submission position exactly once, arranged into the
/// builder's deterministic packing order.
pub open spec fn packing_order(order: Seq<usize>, images: Seq<Bitmap>) -> bool {
    &&& order.len() == images.len()
    &&& (forall|k: int| 0 <= k < order.len() ==> (#[trigger] order[k]) < images.len())
    &&& (forall|k1: int, k2: int| 0 <= k1 < k2 < order.len() ==> order[k1] != order[k2])
    &&& (forall|k1: int, k2: int|
        0 <= k1 < k2 < order.len() ==> meta_leq(
            meta_of(images, order[k1] as int),
            meta_of(images, order[k2] as int),
        ))
}

/// The image sizes arranged into packing order: what the packer consumes.
pub open spec fn ordered_sizes(order: Seq<usize>, images: Seq<Bitmap>) -> Seq<(u32, u32)> {
    Seq::new(
        order.len(),
        |k: int| (images[order[k] as int].width, images[order[k] as int].height),
    )
}

/// Some valid packing order fails at its `k`-th image, the one submitted
/// `i`-th. The packing order is unique, so this names the build's failing
/// image exactly.
pub open spec fn failed_packing_at(images: Seq<Bitmap>, i: usize) -> bool {
    exists|order: Seq<usize>, k: int|
        {
            &&& packing_order(order, images)
            &&& 0 <= k < order.len()
            &&& (#[trigger] pack_run(
                initial_free(),
                ordered_sizes(order, images).take(k),
            )) is Some
            &&& crate::packing::pack_transition(
                pack_run(initial_free(), ordered_sizes(order, images).take(k)).unwrap().1,
                images[order[k] as int].width,
                images[order[k] as int].height,
            ) is None
            &&& i == order[k]
        }
}

/// The packing of some valid packing order succeeds but its bounding box
/// does not fit in the address space.
pub open spec fn oversized_atlas(images: Seq<Bitmap>) -> bool {
    exists|order: Seq<usize>|
        {
            &&& #[trigger] packing_order(order, images)
            &&& pack_run(initial_free(), ordered_sizes(order, images)) is Some
            &&& 4 * clamp_extent(
                width_needed(pack_run(initial_free(), ordered_sizes(order, images)).unwrap().0),
            ) * clamp_extent(
                height_needed(pack_run(initial_free(), ordered_sizes(order, images)).unwrap().0),
            ) > usize::MAX
        }
}

/// Why an atlas could not be built.
#[derive(Debug, Clone, Copy, PartialEq, Eq, Structural)]
pub enum AtlasError {
    /// No images were submitted; an empty atlas is a caller error.
    NoSprites,
    /// The image submitted at this position found no room in the packing
    /// area.
    ImageTooLarge(usize),
    /// The composited buffer would not fit in the address space.
    AtlasTooLarge,
}

/// Everything one atlas build produces: the composited pixel buffer and the
/// geometry tables the renderer uploads, all indexed by submission order.
#[derive(Debug)]
pub struct AtlasData {
    /// The composited RGBA buffer holding every image at its placement.
    pub buffer: Bitmap,
    /// Four vertices per sprite.
    pub vertices: Vec<Vertex>,
    /// Six indices per sprite: two triangles into `vertices`.
    pub indices: Vec<u32>,
    /// Where sprite `i`'s indices live; handed out by submission order.
    pub sprites: Vec<SpriteDrawData>,
    /// Placement of image `i` (submission order) in the buffer.
    pub placements: Vec<PlacedRect>,
    /// The packing order: `order[k]` is the submission position of the
    /// image packed `k`-th.
    pub order: Vec<usize>,
}

/// Collects images and stitches them into one atlas.
///
/// Images go in one at a time, each answered with its handle: its position
/// in submission order, which is also its sprite index in the finished
/// atlas whatever order the packer placed it in.
#[derive(Debug)]
pub struct AtlasBuilder {
    images: Vec<Bitmap>,
}

impl AtlasBuilder {
    /// The images submitted so far, in submission order, already
    /// unpremultiplied where their options asked for it.
    pub closed spec fn images_view(self) -> Seq<Bitmap> {
        self.images@
    }

    /// Every stored image is a well-formed bitmap.
    pub closed spec fn wf(self) -> bool {
        forall|i: int| 0 <= i < self.images@.len() ==> (#[trigger] self.images@[i]).wf()
    }

    /// A builder with no images yet.
    pub fn new() -> (r: AtlasBuilder)
        ensures
            r.wf(),
            r.images_view().len() == 0,
    {
        AtlasBuilder { images: Vec::new() }
    }

    /// How many images have been submitted.
    pub fn sprite_count(&self) -> (r: usize)
        ensures
            r == self.images_view().len(),
    {
        self.images.len()
    }

    /// Submit one image with default options.
    pub fn add_sprite(&mut self, image: Bitmap) -> (handle: usize)
        requires
            old(self).wf(),
            image.wf(),
        ensures
            final(self).wf(),
            handle == old(self).images_view().len(),
            final(self).images_view() == old(self).images_view().push(image),
    {
        let handle = self.add_sprite_advanced(image, SpriteLoadOptions { premultiplied: false });
        handle
    }

    /// Submit one image. A premultiplied image is unpremultiplied on the
    /// spot, channel by channel, before it is stored: the renderer
    /// composites everything as straight alpha.
    pub fn add_sprite_advanced(&mut self, image: Bitmap, options: SpriteLoadOptions) -> (handle:
        usize)
        requires
            old(self).wf(),
            image.wf(),
        ensures
            final(self).wf(),
            handle == old(self).images_view().len(),
            final(self).images_view().len() == old(self).images_view().len() + 1,
            forall|i: int|
                0 <= i < old(self).images_view().len() ==> final(self).images_view()[i] == old(
                    self,
                ).images_view()[i],
            !options.premultiplied ==> final(self).images_view() == old(
                self,
            ).images_view().push(image),
            options.premultiplied ==> {
                let stored = final(self).images_view()[handle as int];
                &&& stored.width == image.width
                &&& stored.height == image.height
                &&& stored.wf()
                &&& (forall|x: int, y: int, c: int|
                    0 <= x < image.width && 0 <= y < image.height && 0 <= c < 3
                        ==> #[trigger] byte_at(stored, x, y, c) == unpremul_channel(
                        byte_at(image, x, y, c),
                        byte_at(image, x, y, 3),
                    ))
                &&& (forall|x: int, y: int|
                    0 <= x < image.width && 0 <= y < image.height ==> #[trigger] byte_at(
                        stored,
                        x,
                        y,
                        3,
                    ) == byte_at(image, x, y, 3))
            },
    {
        let handle = self.images.len();
        if options.premultiplied {
            let mut fixed = image;
            fixed.unpremultiply();
            self.images.push(fixed);
        } else {
            self.images.push(image);
        }
        handle
    }
}

/// The placements rearranged from packing order back into submission order.
fn reorder_placements(spl: &Vec<PlacedRect>, inverse: &Vec<usize>) -> (pl: Vec<PlacedRect>)
    requires
        forall|i: int| 0 <= i < inverse@.len() ==> (#[trigger] inverse@[i]) < spl@.len(),
    ensures
        pl@.len() == inverse@.len(),
        forall|i: int| 0 <= i < pl@.len() ==> (#[trigger] pl@[i]) == spl@[inverse@[i] as int],
{
    let n = inverse.len();
    let mut pl: Vec<PlacedRect> = Vec::new();
    let mut i: usize = 0;
    while i < n
        invariant
            i <= n,
            n == inverse@.len(),
            forall|i2: int| 0 <= i2 < n ==> (#[trigger] inverse@[i2]) < spl@.len(),
            pl@.len() == i,
            forall|i2: int| 0 <= i2 < i ==> (#[trigger] pl@[i2]) == spl@[inverse@[i2] as int],
        decreases n - i,
    {
        pl.push(spl[inverse[i]]);
        i += 1;
    }
    pl
}

impl AtlasBuilder {
    /// Build the atlas: sort the images into packing order, pack them,
    /// composite the pixel buffer, and emit one quad per image.
    ///
    /// Everything in the result is indexed by submission order, so the
    /// handles [`AtlasBuilder::add_sprite`] returned stay valid: sprite `i`
    /// is the image submitted `i`-th, wherever the sort placed it. The
    /// build is refused when no images were submitted, when an image finds
    /// no room in the packing area (the error names its submission
    /// position), and when the composited buffer would not fit in memory.
    pub fn finalize_and_repack(self) -> (r: Result<AtlasData, AtlasError>)
        requires
            self.wf(),
            self.images_view().len() <= 0x0800_0000,
        ensures
            (r matches Err(e) && e == AtlasError::NoSprites) <==> self.images_view().len() == 0,
            r matches Err(e) ==> (e matches AtlasError::ImageTooLarge(i) ==> failed_packing_at(
                self.images_view(),
                i,
            )),
            r matches Err(e) && e == AtlasError::AtlasTooLarge ==> oversized_atlas(
                self.images_view(),
            ),
            r matches Ok(a) ==> {
                let images = self.images_view();
                let spl = pack_run(initial_free(), ordered_sizes(a.order@, images)).unwrap().0;
                &&& images.len() > 0
                &&& packing_order(a.order@, images)
                &&& pack_run(initial_free(), ordered_sizes(a.order@, images)) is Some
                &&& a.placements@.len() == images.len()
                &&& (forall|k: int|
                    0 <= k < a.order@.len() ==> a.placements@[(#[trigger] a.order@[k]) as int]
                        == spl[k])
                &&& all_disjoint(a.placements@)
                &&& (forall|i: int|
                    0 <= i < images.len() ==> (#[trigger] a.placements@[i]).w == images[i].width
                        && a.placements@[i].h == images[i].height && a.placements@[i].x
                        + a.placements@[i].w <= a.buffer.width && a.placements@[i].y
                        + a.placements@[i].h <= a.buffer.height)
                &&& a.buffer.wf()
                &&& a.buffer.width == clamp_extent(width_needed(spl))
                &&& a.buffer.height == clamp_extent(height_needed(spl))
                &&& (forall|i: int, x: int, y: int, c: int|
                    0 <= i < images.len() && 0 <= x < images[i].width && 0 <= y < images[i].height
                        && 0 <= c < 4 ==> byte_at(
                        a.buffer,
                        a.placements@[i].x + x,
                        a.placements@[i].y + y,
                        c,
                    ) == #[trigger] byte_at(images[i], x, y, c))
                &&& a.vertices@.len() == 4 * images.len()
                &&& (forall|j: int|
                    0 <= j < a.vertices@.len() ==> (#[trigger] a.vertices@[j]) == quad_vertex(
                        a.placements@[j / 4],
                        j % 4,
                    ))
                &&& a.indices@.len() == 6 * images.len()
                &&& (forall|j: int|
                    0 <= j < a.indices@.len() ==> (#[trigger] a.indices@[j]) == 4 * (j / 6)
                        + quad_index(j % 6))
                &&& a.sprites@.len() == images.len()
                &&& (forall|i: int|
                    0 <= i < a.sprites@.len() ==> (#[trigger] a.sprites@[i]).index_start == 6 * i
                        && a.sprites@[i].index_end == 6 * i + 6)
            },
    {
        let ghost gimages = self.images_view();
        let images = self.images;
        let n = images.len();
        if n == 0 {
            return Err(AtlasError::NoSprites);
        }
        // The sizes in submission order, tagged with their positions.
        let mut metas: Vec<ImageMeta> = Vec::new();
        let mut t: usize = 0;
        while t < n
            invariant
                t <= n,
                n == images@.len(),
                metas@.len() == t,
                forall|k: int|
                    0 <= k < t ==> (#[trigger] metas@[k]) == meta_of(images@, k),
        decreases n - t,
        {
            metas.push(ImageMeta { w: images[t].width, h: images[t].height, orig: t });
            proof {
                assert(metas@[t as int] == meta_of(images@, t as int));
            }
            t += 1;
        }
        let inverse = sort_metas(&mut metas);
        // The packing order and the sizes the packer consumes.
        let mut order: Vec<usize> = Vec::new();
        let mut sizes: Vec<(u32, u32)> = Vec::new();
        let mut t2: usize = 0;
        while t2 < n
            invariant
                t2 <= n,
                n == images@.len(),
                metas@.len() == n,
                forall|k: int|
                    0 <= k < n ==> (#[trigger] metas@[k]).orig < n && metas@[k] == meta_of(
                        images@,
                        metas@[k].orig as int,
                    ),
                order@.len() == t2,
                sizes@.len() == t2,
                forall|k: int| 0 <= k < t2 ==> (#[trigger] order@[k]) == metas@[k].orig,
                forall|k: int|
                    0 <= k < t2 ==> (#[trigger] sizes@[k]) == (metas@[k].w, metas@[k].h),
            decreases n - t2,
        {
            order.push(metas[t2].orig);
            sizes.push((metas[t2].w, metas[t2].h));
            t2 += 1;
        }
        proof {
            assert forall|k1: int, k2: int|
                0 <= k1 < k2 < order@.len() implies order@[k1] != order@[k2] by {
                assert(inverse@[metas@[k1].orig as int] == k1);
                assert(inverse@[metas@[k2].orig as int] == k2);
            }
            assert forall|k1: int, k2: int|
                0 <= k1 < k2 < order@.len() implies meta_leq(
                meta_of(gimages, order@[k1] as int),
                meta_of(gimages, order@[k2] as int),
            ) by {
                assert(meta_of(gimages, order@[k1] as int) == metas@[k1]);
                assert(meta_of(gimages, order@[k2] as int) == metas@[k2]);
                assert(meta_leq(metas@[k1], metas@[k2]));
            }
            assert(packing_order(order@, gimages));
            assert(sizes@ =~= ordered_sizes(order@, gimages));
        }
        let spl = match pack_all(&sizes) {
            Err(k) => {
                proof {
                    assert(ordered_sizes(order@, gimages).take(k as int) == sizes@.take(k as int));
                    assert(gimages[order@[k as int] as int].width == sizes@[k as int].0);
                    assert(gimages[order@[k as int] as int].height == sizes@[k as int].1);
                    assert(pack_run(
                        initial_free(),
                        ordered_sizes(order@, gimages).take(k as int),
                    ) is Some);
                    assert(crate::packing::pack_transition(
                        pack_run(
                            initial_free(),
                            ordered_sizes(order@, gimages).take(k as int),
                        ).unwrap().1,
                        gimages[order@[k as int] as int].width,
                        gimages[order@[k as int] as int].height,
                    ) is None);
                    assert(failed_packing_at(gimages, order@[k as int]));
                }
                return Err(AtlasError::ImageTooLarge(order[k]));
            },
            Ok(spl) => spl,
        };
        let (bw, bh) = atlas_extent(&spl);
        let mut buffer = match Bitmap::new_zeroed(bw, bh) {
            None => {
                return Err(AtlasError::AtlasTooLarge);
            },
            Some(b) => b,
        };
        proof {
            assert forall|k: int| 0 <= k < spl@.len() implies (#[trigger] spl@[k]).x + spl@[k].w
                <= buffer.width && spl@[k].y + spl@[k].h <= buffer.height by {
                lemma_extent_covers(spl@, k);
            }
        }
        compose_atlas(&mut buffer, &images, &order, &spl);
        let placements = reorder_placements(&spl, &inverse);
        proof {
            assert forall|k: int|
                0 <= k < order@.len() implies placements@[(#[trigger] order@[k]) as int]
                == spl@[k] by {
                assert(inverse@[metas@[k].orig as int] == k);
            }
            assert forall|i: int, j: int|
                0 <= i < j < placements@.len() implies placed_disjoint(
                placements@[i],
                placements@[j],
            ) by {
                let k1 = inverse@[i] as int;
                let k2 = inverse@[j] as int;
                assert(metas@[k1].orig == i);
                assert(metas@[k2].orig == j);
                if k1 < k2 {
                    assert(placed_disjoint(spl@[k1], spl@[k2]));
                } else {
                    assert(placed_disjoint(spl@[k2], spl@[k1]));
                }
            }
            assert forall|i: int|
                0 <= i < gimages.len() implies (#[trigger] placements@[i]).w == gimages[i].width
                && placements@[i].h == gimages[i].height && placements@[i].x + placements@[i].w
                <= buffer.width && placements@[i].y + placements@[i].h <= buffer.height by {
                let k = inverse@[i] as int;
                assert(metas@[k].orig == i);
                assert(spl@[k].w == sizes@[k].0);
                assert(spl@[k].h == sizes@[k].1);
                lemma_extent_covers(spl@, k);
            }
            assert forall|i: int, x: int, y: int, c: int|
                0 <= i < gimages.len() && 0 <= x < gimages[i].width && 0 <= y < gimages[i].height
                    && 0 <= c < 4 implies byte_at(
                buffer,
                placements@[i].x + x,
                placements@[i].y + y,
                c,
            ) == #[trigger] byte_at(gimages[i], x, y, c) by {
                let k = inverse@[i] as int;
                assert(metas@[k].orig == i);
                assert(order@[k] == i);
                assert(byte_at(buffer, spl@[k].x + x, spl@[k].y + y, c) == byte_at(
                    images@[order@[k] as int],
                    x,
                    y,
                    c,
                ));
            }
        }
        let (vertices, indices, sprites) = build_geometry(&placements);
        Ok(AtlasData { buffer, vertices, indices, sprites, placements, order })
    }
}

} // verus!
