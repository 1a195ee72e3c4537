use vstd::pervasive::VecAdditionalExecFns;
use vstd::prelude::*;

verus! {

/// A free region of the packing area: the half-open box
/// `[x0, x1) x [y0, y1)` still available for placements.
///
/// The packer keeps its free regions in the order a depth-first walk of the
/// classic partition tree would visit its unassigned leaves: splitting a
/// region replaces it in place by the remainder, so the list order is the
/// tree's leaf order and insertion is the tree's first-child-first descent.
#[derive(Debug, Clone, Copy, PartialEq, Eq, Structural)]
pub struct FreeRect {
    pub x0: u32,
    pub y0: u32,
    pub x1: u32,
    pub y1: u32,
}

/// A committed placement: an image of size `w x h` with its top-left corner
/// at `(x, y)` in the packing area.
#[derive(Debug, Clone, Copy, PartialEq, Eq, Structural)]
pub struct PlacedRect {
    pub x: u32,
    pub y: u32,
    pub w: u32,
    pub h: u32,
}

/// A free region is a box: its corners are ordered.
pub open spec fn free_rect_wf(r: FreeRect) -> bool {
    r.x0 <= r.x1 && r.y0 <= r.y1
}

/// An image of size `w x h` fits into the free region.
pub open spec fn fits(r: FreeRect, w: u32, h: u32) -> bool {
    r.x1 - r.x0 >= w && r.y1 - r.y0 >= h
}

/// The free region is exactly the image's size.
pub open spec fn exact_fit(r: FreeRect, w: u32, h: u32) -> bool {
    r.x1 - r.x0 == w && r.y1 - r.y0 == h
}

/// Two placements share no pixel.
pub open spec fn placed_disjoint(a: PlacedRect, b: PlacedRect) -> bool {
    ||| a.w == 0
    ||| a.h == 0
    ||| b.w == 0
    ||| b.h == 0
    ||| a.x + a.w <= b.x
    ||| b.x + b.w <= a.x
    ||| a.y + a.h <= b.y
    ||| b.y + b.h <= a.y
}

/// A free region and a placement share no pixel.
pub open spec fn free_placed_disjoint(f: FreeRect, p: PlacedRect) -> bool {
    ||| p.w == 0
    ||| p.h == 0
    ||| f.x1 <= p.x
    ||| p.x + p.w <= f.x0
    ||| f.y1 <= p.y
    ||| p.y + p.h <= f.y0
}

/// Two free regions share no pixel.
pub open spec fn free_free_disjoint(a: FreeRect, b: FreeRect) -> bool {
    ||| a.x1 <= b.x0
    ||| b.x1 <= a.x0
    ||| a.y1 <= b.y0
    ||| b.y1 <= a.y0
}

/// All placements of a packing are pairwise non-overlapping.
pub open spec fn all_disjoint(ps: Seq<PlacedRect>) -> bool {
    forall|i: int, j: int|
        0 <= i < j < ps.len() ==> placed_disjoint(ps[i], ps[j])
}

/// The placement `(px, py)` covers the pixel at `(x, y)`.
pub open spec fn placed_contains(p: PlacedRect, x: int, y: int) -> bool {
    p.x <= x < p.x + p.w && p.y <= y < p.y + p.h
}

/// Disjoint placements cover no common pixel.
pub proof fn lemma_disjoint_no_common_pixel(a: PlacedRect, b: PlacedRect, x: int, y: int)
    requires
        placed_disjoint(a, b),
        placed_contains(a, x, y),
    ensures
        !placed_contains(b, x, y),
{
}

/// The index of the first free region the image fits into, scanning from
/// position `i`: the leaf the partition tree's first-success descent finds.
pub open spec fn first_fit_from(free: Seq<FreeRect>, w: u32, h: u32, i: int) -> Option<int>
    decreases free.len() - i,
{
    if i < 0 || i >= free.len() {
        None
    } else if fits(free[i], w, h) {
        Some(i)
    } else {
        first_fit_from(free, w, h, i + 1)
    }
}

/// The first free region the image fits into, if any.
pub open spec fn first_fit(free: Seq<FreeRect>, w: u32, h: u32) -> Option<int> {
    first_fit_from(free, w, h, 0)
}

/// What is left of a free region after an image is placed at its top-left
/// corner: the node splits along the axis with more leftover slack, the
/// remainder covers the far side of that axis, and the near-side slack is
/// given up (it belonged to neither child of the split).
pub open spec fn remainder_of(r: FreeRect, w: u32, h: u32) -> FreeRect {
    if r.x1 - r.x0 - w > r.y1 - r.y0 - h {
        FreeRect { x0: (r.x0 + w) as u32, y0: r.y0, x1: r.x1, y1: r.y1 }
    } else {
        FreeRect { x0: r.x0, y0: (r.y0 + h) as u32, x1: r.x1, y1: r.y1 }
    }
}

/// One insertion step of the packer: place the image at the top-left corner
/// of the first free region it fits into, and shrink or retire that region.
pub open spec fn pack_transition(free: Seq<FreeRect>, w: u32, h: u32) -> Option<
    (PlacedRect, Seq<FreeRect>),
> {
    match first_fit(free, w, h) {
        None => None,
        Some(i) => {
            let r = free[i];
            let p = PlacedRect { x: r.x0, y: r.y0, w, h };
            if exact_fit(r, w, h) {
                Some((p, free.remove(i)))
            } else {
                Some((p, free.update(i, remainder_of(r, w, h))))
            }
        },
    }
}

/// The whole deterministic packing run: images inserted in the given order,
/// each by one [`pack_transition`]; the run fails on the first image that no
/// free region can hold.
pub open spec fn pack_run(free: Seq<FreeRect>, sizes: Seq<(u32, u32)>) -> Option<
    (Seq<PlacedRect>, Seq<FreeRect>),
>
    decreases sizes.len(),
{
    if sizes.len() == 0 {
        Some((Seq::empty(), free))
    } else {
        match pack_transition(free, sizes[0].0, sizes[0].1) {
            None => None,
            Some((p, f2)) => match pack_run(f2, sizes.drop_first()) {
                None => None,
                Some((ps, ff)) => Some((seq![p] + ps, ff)),
            },
        }
    }
}

/// The root of a fresh packing area: one effectively unbounded free region.
pub open spec fn initial_free() -> Seq<FreeRect> {
    seq![FreeRect { x0: 0u32, y0: 0u32, x1: 0xffff_ffffu32, y1: 0xffff_ffffu32 }]
}

/// The greedy first-fit packer of the atlas builder.
///
/// It owns the free regions of the packing area and the placements committed
/// so far; its contracts pin every step to the spec-level model above, and
/// its invariant keeps all placements pairwise non-overlapping.
#[derive(Debug)]
pub struct Packer {
    free: Vec<FreeRect>,
    placed: Vec<PlacedRect>,
}

impl Packer {
    /// The free regions, in tree-leaf order.
    pub closed spec fn free_view(self) -> Seq<FreeRect> {
        self.free@
    }

    /// The placements committed so far, in insertion order.
    pub closed spec fn placements(self) -> Seq<PlacedRect> {
        self.placed@
    }

    /// The packer's invariant: boxes are well-formed and everything the
    /// packer tracks is pairwise non-overlapping.
    pub closed spec fn wf(self) -> bool {
        &&& (forall|i: int|
            0 <= i < self.free@.len() ==> free_rect_wf(#[trigger] self.free@[i]))
        &&& (forall|i: int, j: int|
            0 <= i < j < self.free@.len() ==> free_free_disjoint(
                self.free@[i],
                self.free@[j],
            ))
        &&& (forall|i: int, j: int|
            0 <= i < self.free@.len() && 0 <= j < self.placed@.len() ==> free_placed_disjoint(
                self.free@[i],
                self.placed@[j],
            ))
        &&& all_disjoint(self.placed@)
        &&& (forall|j: int|
            0 <= j < self.placed@.len() ==> (#[trigger] self.placed@[j]).x + self.placed@[j].w
                <= 0xffff_ffff && self.placed@[j].y + self.placed@[j].h <= 0xffff_ffff)
    }

    /// A fresh packer over the unbounded root region and no placements.
    pub fn new() -> (r: Packer)
        ensures
            r.wf(),
            r.free_view() == initial_free(),
            r.placements().len() == 0,
    {
        let mut free: Vec<FreeRect> = Vec::new();
        free.push(FreeRect { x0: 0, y0: 0, x1: 0xffff_ffff, y1: 0xffff_ffff });
        let r = Packer { free, placed: Vec::new() };
        proof {
            assert(r.free@ =~= initial_free());
        }
        r
    }

    /// The index of the first free region the image fits into, or `None`
    /// when no region can hold it.
    fn find_first_fit(&self, w: u32, h: u32) -> (r: Option<usize>)
        requires
            self.wf(),
        ensures
            match r {
                Some(i) => first_fit(self.free_view(), w, h) == Some(i as int) && i
                    < self.free_view().len() && fits(self.free_view()[i as int], w, h),
                None => first_fit(self.free_view(), w, h) is None,
            },
    {
        let n = self.free.len();
        let mut i: usize = 0;
        while i < n
            invariant
                self.wf(),
                n == self.free@.len(),
                i <= n,
                first_fit_from(self.free@, w, h, 0) == first_fit_from(self.free@, w, h, i as int),
            decreases n - i,
        {
            let r = self.free[i];
            if r.x1 - r.x0 >= w && r.y1 - r.y0 >= h {
                return Some(i);
            }
            i += 1;
        }
        None
    }

    /// Insert one image of size `w x h`.
    ///
    /// On success the image is placed at the top-left corner of the first
    /// free region that holds it, exactly as [`pack_transition`] says; on
    /// failure (no region fits) the packer is unchanged. Placements stay
    /// pairwise non-overlapping and inside the packing area's bounds.
    pub fn insert(&mut self, w: u32, h: u32) -> (ok: bool)
        requires
            old(self).wf(),
        ensures
            final(self).wf(),
            match pack_transition(old(self).free_view(), w, h) {
                None => !ok && *final(self) == *old(self),
                Some(step) => ok && final(self).free_view() == step.1
                    && final(self).placements() == old(self).placements().push(step.0),
            },
            all_disjoint(final(self).placements()),
    {
        match self.find_first_fit(w, h) {
            None => false,
            Some(i) => {
                let r = self.free[i];
                let p = PlacedRect { x: r.x0, y: r.y0, w, h };
                proof {
                    assert(free_rect_wf(self.free@[i as int]));
                    self.lemma_placement_ok(i as int, p);
                }
                if r.x1 - r.x0 == w && r.y1 - r.y0 == h {
                    let removed = self.free.remove(i);
                    proof {
                        assert(removed == r);
                    }
                } else {
                    let rem = if r.x1 - r.x0 - w > r.y1 - r.y0 - h {
                        FreeRect { x0: r.x0 + w, y0: r.y0, x1: r.x1, y1: r.y1 }
                    } else {
                        FreeRect { x0: r.x0, y0: r.y0 + h, x1: r.x1, y1: r.y1 }
                    };
                    proof {
                        assert(rem == remainder_of(r, w, h));
                    }
                    self.free.set(i, rem);
                }
                self.placed.push(p);
                true
            },
        }
    }

    /// The placement cut from free region `i` is disjoint from everything
    /// else the packer tracks, and so is the region's remainder.
    proof fn lemma_placement_ok(self, i: int, p: PlacedRect)
        requires
            self.wf(),
            0 <= i < self.free@.len(),
            fits(self.free@[i], p.w, p.h),
            p.x == self.free@[i].x0,
            p.y == self.free@[i].y0,
        ensures
            forall|j: int|
                0 <= j < self.placed@.len() ==> placed_disjoint(p, #[trigger] self.placed@[j]),
            forall|j: int|
                0 <= j < self.free@.len() && j != i ==> free_placed_disjoint(
                    #[trigger] self.free@[j],
                    p,
                ),
            free_placed_disjoint(remainder_of(self.free@[i], p.w, p.h), p),
            free_rect_wf(remainder_of(self.free@[i], p.w, p.h)),
            forall|j: int|
                0 <= j < self.free@.len() && j != i ==> free_free_disjoint(
                    #[trigger] self.free@[j],
                    remainder_of(self.free@[i], p.w, p.h),
                ),
            forall|j: int|
                0 <= j < self.placed@.len() ==> free_placed_disjoint(
                    remainder_of(self.free@[i], p.w, p.h),
                    #[trigger] self.placed@[j],
                ),
            p.x + p.w <= 0xffff_ffff,
            p.y + p.h <= 0xffff_ffff,
    {
        let r = self.free@[i];
        let rem = remainder_of(r, p.w, p.h);
        assert(free_rect_wf(r));
        assert forall|j: int|
            0 <= j < self.placed@.len() implies placed_disjoint(p, #[trigger] self.placed@[j]) by {
            assert(free_placed_disjoint(r, self.placed@[j]));
        }
        assert forall|j: int|
            0 <= j < self.free@.len() && j != i implies free_placed_disjoint(
            #[trigger] self.free@[j],
            p,
        ) by {
            if j < i {
                assert(free_free_disjoint(self.free@[j], r));
            } else {
                assert(free_free_disjoint(r, self.free@[j]));
            }
        }
        assert forall|j: int|
            0 <= j < self.free@.len() && j != i implies free_free_disjoint(
            #[trigger] self.free@[j],
            rem,
        ) by {
            if j < i {
                assert(free_free_disjoint(self.free@[j], r));
            } else {
                assert(free_free_disjoint(r, self.free@[j]));
            }
        }
        assert forall|j: int|
            0 <= j < self.placed@.len() implies free_placed_disjoint(
            rem,
            #[trigger] self.placed@[j],
        ) by {
            assert(free_placed_disjoint(r, self.placed@[j]));
        }
    }

    /// The number of placements committed so far.
    pub fn placement_count(&self) -> (r: usize)
        ensures
            r == self.placements().len(),
    {
        self.placed.len()
    }

    /// Hand the committed placements over, in insertion order.
    pub fn into_placements(self) -> (r: Vec<PlacedRect>)
        ensures
            r@ == self.placements(),
    {
        self.placed
    }
}

/// Appending one more image to a packing run performs exactly one more
/// transition on the run's final free regions.
pub proof fn lemma_pack_run_snoc(free: Seq<FreeRect>, sizes: Seq<(u32, u32)>, s: (u32, u32))
    ensures
        pack_run(free, sizes.push(s)) == (match pack_run(free, sizes) {
            None => None,
            Some(acc) => match pack_transition(acc.1, s.0, s.1) {
                None => None,
                Some(step) => Some((acc.0.push(step.0), step.1)),
            },
        }),
    decreases sizes.len(),
{
    let whole = sizes.push(s);
    assert(whole[0] == if sizes.len() == 0 {
        s
    } else {
        sizes[0]
    });
    if sizes.len() == 0 {
        assert(pack_run(free, sizes) == Some((Seq::<PlacedRect>::empty(), free)));
        match pack_transition(free, s.0, s.1) {
            None => {
                assert(pack_run(free, whole) is None);
            },
            Some(step) => {
                assert(whole.drop_first() =~= Seq::<(u32, u32)>::empty());
                assert(pack_run(step.1, whole.drop_first()) == Some(
                    (Seq::<PlacedRect>::empty(), step.1),
                ));
                assert(pack_run(free, whole) == Some(
                    (seq![step.0] + Seq::<PlacedRect>::empty(), step.1),
                ));
                assert(seq![step.0] + Seq::<PlacedRect>::empty() =~= Seq::<
                    PlacedRect,
                >::empty().push(step.0));
            },
        }
    } else {
        match pack_transition(free, sizes[0].0, sizes[0].1) {
            None => {
                assert(pack_run(free, whole) is None);
                assert(pack_run(free, sizes) is None);
            },
            Some(step) => {
                assert(whole.drop_first() =~= sizes.drop_first().push(s));
                lemma_pack_run_snoc(step.1, sizes.drop_first(), s);
                assert(pack_run(free, whole) == (match pack_run(step.1, whole.drop_first()) {
                    None => None,
                    Some(acc) => Some((seq![step.0] + acc.0, acc.1)),
                }));
                assert(pack_run(free, sizes) == (match pack_run(step.1, sizes.drop_first()) {
                    None => None,
                    Some(acc) => Some((seq![step.0] + acc.0, acc.1)),
                }));
                match pack_run(step.1, sizes.drop_first()) {
                    None => {},
                    Some(acc) => {
                        match pack_transition(acc.1, s.0, s.1) {
                            None => {},
                            Some(step2) => {
                                assert(seq![step.0] + acc.0.push(step2.0) =~= (seq![step.0]
                                    + acc.0).push(step2.0));
                            },
                        }
                    },
                }
            },
        }
    }
}

/// A run fails outright when its first `k` images pack but image `k` finds
/// no room.
pub proof fn lemma_pack_run_fails_at(free: Seq<FreeRect>, sizes: Seq<(u32, u32)>, k: int)
    requires
        0 <= k < sizes.len(),
        pack_run(free, sizes.take(k)) is Some,
        pack_transition(pack_run(free, sizes.take(k)).unwrap().1, sizes[k].0, sizes[k].1) is None,
    ensures
        pack_run(free, sizes) is None,
    decreases k,
{
    if k == 0 {
        assert(sizes.take(0) =~= Seq::<(u32, u32)>::empty());
    } else {
        let pre = sizes.take(k);
        assert(pre[0] == sizes[0]);
        match pack_transition(free, sizes[0].0, sizes[0].1) {
            None => {},
            Some(step) => {
                assert(pre.drop_first() =~= sizes.drop_first().take(k - 1));
                assert(sizes.drop_first()[k - 1] == sizes[k]);
                lemma_pack_run_fails_at(step.1, sizes.drop_first(), k - 1);
            },
        }
    }
}

/// Pack a whole list of image sizes into a fresh packing area, in order.
///
/// On success the placements follow [`pack_run`] exactly: one placement per
/// image, of that image's size, pairwise non-overlapping and inside the
/// packing area. On failure the result names the first position in `sizes`
/// whose image found no room, and the whole run is refused.
pub fn pack_all(sizes: &Vec<(u32, u32)>) -> (r: Result<Vec<PlacedRect>, usize>)
    ensures
        match r {
            Ok(ps) => {
                &&& pack_run(initial_free(), sizes@) is Some
                &&& ps@ == pack_run(initial_free(), sizes@).unwrap().0
                &&& ps@.len() == sizes@.len()
                &&& all_disjoint(ps@)
                &&& forall|k: int|
                    0 <= k < ps@.len() ==> (#[trigger] ps@[k]).w == sizes@[k].0 && ps@[k].h
                        == sizes@[k].1 && ps@[k].x + ps@[k].w <= 0xffff_ffff && ps@[k].y + ps@[k].h
                        <= 0xffff_ffff
            },
            Err(k) => {
                &&& pack_run(initial_free(), sizes@) is None
                &&& 0 <= k < sizes@.len()
                &&& pack_run(initial_free(), sizes@.take(k as int)) is Some
                &&& pack_transition(
                    pack_run(initial_free(), sizes@.take(k as int)).unwrap().1,
                    sizes@[k as int].0,
                    sizes@[k as int].1,
                ) is None
            },
        },
{
    let mut packer = Packer::new();
    let n = sizes.len();
    let mut i: usize = 0;
    proof {
        assert(sizes@.take(0) =~= Seq::<(u32, u32)>::empty());
        assert(packer.placements() =~= Seq::<PlacedRect>::empty());
    }
    while i < n
        invariant
            packer.wf(),
            i <= n,
            n == sizes@.len(),
            pack_run(initial_free(), sizes@.take(i as int)) == Some(
                (packer.placements(), packer.free_view()),
            ),
            packer.placements().len() == i,
            forall|k: int|
                0 <= k < i ==> (#[trigger] packer.placements()[k]).w == sizes@[k].0
                    && packer.placements()[k].h == sizes@[k].1,
        decreases n - i,
    {
        let (w, h) = sizes[i];
        let ghost pre_placements = packer.placements();
        let ghost pre_free = packer.free_view();
        let ok = packer.insert(w, h);
        proof {
            lemma_pack_run_snoc(initial_free(), sizes@.take(i as int), sizes@[i as int]);
            assert(sizes@.take(i as int).push(sizes@[i as int]) =~= sizes@.take(i as int + 1));
        }
        if !ok {
            proof {
                lemma_pack_run_fails_at(initial_free(), sizes@, i as int);
            }
            return Err(i);
        }
        i += 1;
    }
    proof {
        assert(sizes@.take(n as int) =~= sizes@);
        assert forall|k: int|
            0 <= k < packer.placements().len() implies (#[trigger] packer.placements()[k]).x
            + packer.placements()[k].w <= 0xffff_ffff && packer.placements()[k].y
            + packer.placements()[k].h <= 0xffff_ffff by {
            assert(packer.wf());
        }
    }
    Ok(packer.into_placements())
}

} // verus!
