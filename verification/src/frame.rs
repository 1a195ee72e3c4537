use vstd::prelude::*;

use crate::layer::LayerIdentifier;
use crate::layer::LayerTable;
use crate::layer::layer_entries;
use crate::layer::spec_resolved_ordinal;

verus! {

/// One draw request: draw sprite `sprite` with per-instance parameters
/// `instance`, ordered by `layer`. The instance payload is opaque to the
/// batcher: it is carried to the instance buffer untouched, so it can be
/// whatever encoding the presentation layer uploads.
#[derive(Debug)]
pub struct FrameEntry<I> {
    /// The sprite to draw: a handle the atlas builder returned.
    pub sprite: usize,
    /// Where in the paint order this lands; `None` is the default layer 0.
    pub layer: Option<LayerIdentifier>,
    /// The per-instance parameters, carried through unchanged.
    pub instance: I,
}

/// A maximal group of adjacent draw requests (after ordering) that share a
/// sprite: one indexed, instanced draw call.
#[derive(Debug, Clone, Copy, PartialEq, Eq, Structural)]
pub struct DrawRun {
    /// The sprite every instance of this run draws.
    pub sprite: usize,
    /// Where the run's instances start in the frame's instance buffer.
    pub first: usize,
    /// How many instances the run draws; never zero.
    pub count: usize,
}

/// A frame's draw requests arranged for drawing: the requests in paint
/// order, where each came from, and the instanced draw calls to record.
#[derive(Debug)]
pub struct FramePlan<I> {
    /// The requests in paint order; position `t` is instance `t` of the
    /// frame's instance buffer.
    pub ordered: Vec<FrameEntry<I>>,
    /// `sources[t]` is the submission position of `ordered[t]`.
    pub sources: Vec<usize>,
    /// The instanced draw calls, in the order they are recorded.
    pub runs: Vec<DrawRun>,
}

/// Why a frame could not be finalized.
#[derive(Debug, Clone, Copy, PartialEq, Eq, Structural)]
pub enum FrameError {
    /// A draw request named a sprite index outside the current atlas; the
    /// payload is the offending index.
    InvalidSpriteIndex(usize),
}

/// The paint order on requests: by resolved layer ordinal, ties broken by
/// sprite index so equal layers batch together, and remaining ties by
/// submission order, which makes the sort stable and the plan fully
/// deterministic. `sa` and `sb` are the requests' submission positions.
pub open spec fn draw_order_le<I>(
    m: Map<Seq<char>, i32>,
    a: FrameEntry<I>,
    sa: int,
    b: FrameEntry<I>,
    sb: int,
) -> bool {
    let oa = spec_resolved_ordinal(m, a.layer);
    let ob = spec_resolved_ordinal(m, b.layer);
    ||| oa < ob
    ||| (oa == ob && a.sprite < b.sprite)
    ||| (oa == ob && a.sprite == b.sprite && sa <= sb)
}

/// `runs` is exactly the partition of `ordered` into maximal groups of
/// adjacent requests sharing a sprite: contiguous, complete, non-empty, and
/// with no two adjacent runs alike.
pub open spec fn runs_cover<I>(ordered: Seq<FrameEntry<I>>, runs: Seq<DrawRun>) -> bool {
    &&& (runs.len() == 0 <==> ordered.len() == 0)
    &&& (runs.len() > 0 ==> runs[0].first == 0 && runs.last().first + runs.last().count
        == ordered.len())
    &&& (forall|j: int|
        1 <= j < runs.len() ==> (#[trigger] runs[j]).first == runs[j - 1].first + runs[j
            - 1].count)
    &&& (forall|j: int| 0 <= j < runs.len() ==> (#[trigger] runs[j]).count > 0)
    &&& (forall|j: int, t: int|
        #![trigger runs[j], ordered[t]]
        0 <= j < runs.len() && runs[j].first <= t < runs[j].first + runs[j].count
            ==> ordered[t].sprite == runs[j].sprite)
    &&& (forall|j: int| 1 <= j < runs.len() ==> (#[trigger] runs[j]).sprite != runs[j - 1].sprite)
}

/// A sortable request: its resolved ordinal, its submission position, and
/// the request itself.
struct SortEntry<I> {
    ord: i32,
    seq: usize,
    entry: FrameEntry<I>,
}

/// The paint order over sort entries.
spec fn sort_le<I>(a: SortEntry<I>, b: SortEntry<I>) -> bool {
    ||| a.ord < b.ord
    ||| (a.ord == b.ord && a.entry.sprite < b.entry.sprite)
    ||| (a.ord == b.ord && a.entry.sprite == b.entry.sprite && a.seq <= b.seq)
}

/// Whether `a` paints no later than `b`.
fn sort_le_exec<I>(a: &SortEntry<I>, b: &SortEntry<I>) -> (r: bool)
    ensures
        r == sort_le(*a, *b),
{
    a.ord < b.ord || (a.ord == b.ord && a.entry.sprite < b.entry.sprite) || (a.ord == b.ord
        && a.entry.sprite == b.entry.sprite && a.seq <= b.seq)
}

/// Accumulates one frame's draw requests and turns them into an ordered,
/// batched draw plan. The builder does no GPU work itself: the plan tells
/// the presentation layer what to upload and which draws to record.
#[derive(Debug)]
pub struct FrameBuilder<I> {
    entries: Vec<FrameEntry<I>>,
}

impl<I> FrameBuilder<I> {
    /// The draw requests submitted so far, in submission order.
    pub closed spec fn requests(self) -> Seq<FrameEntry<I>> {
        self.entries@
    }

    /// An empty frame.
    pub fn new() -> (r: FrameBuilder<I>)
        ensures
            r.requests().len() == 0,
    {
        FrameBuilder { entries: Vec::new() }
    }

    /// How many draw requests this frame holds so far: what the frame will
    /// ask of the instance buffer.
    pub fn request_count(&self) -> (r: usize)
        ensures
            r == self.requests().len(),
    {
        self.entries.len()
    }

    /// Append one draw request. Nothing is validated here; a bad sprite
    /// index surfaces at [`FrameBuilder::finalize`].
    pub fn submit_sprite(&mut self, sprite: usize, layer: Option<LayerIdentifier>, instance: I)
        ensures
            final(self).requests() == old(self).requests().push(
                (FrameEntry { sprite, layer, instance }),
            ),
    {
        self.entries.push(FrameEntry { sprite, layer, instance });
    }
}

/// Insertion sort in paint order. Submission positions are distinct, so the
/// order is strict and the result is the one and only sorted arrangement.
fn sort_entries<I>(v: &mut Vec<SortEntry<I>>)
    requires
        forall|k: int| 0 <= k < old(v)@.len() ==> (#[trigger] old(v)@[k]).seq == k,
    ensures
        final(v)@.len() == old(v)@.len(),
        forall|k1: int, k2: int|
            0 <= k1 < k2 < final(v)@.len() ==> sort_le(final(v)@[k1], final(v)@[k2]),
        forall|k: int|
            0 <= k < final(v)@.len() ==> (#[trigger] final(v)@[k]).seq < old(v)@.len()
                && final(v)@[k] == old(v)@[final(v)@[k].seq as int],
        forall|k1: int, k2: int|
            0 <= k1 < k2 < final(v)@.len() ==> final(v)@[k1].seq != final(v)@[k2].seq,
{
    let ghost source = v@;
    let n = v.len();
    let mut i: usize = 1;
    while i < n
        invariant
            v@.len() == n,
            1 <= i <= n || (n == 0 && i == 1),
            forall|a: int, b: int| 0 <= a < b < i ==> sort_le(v@[a], v@[b]),
            forall|k: int|
                0 <= k < n ==> (#[trigger] v@[k]).seq < n && v@[k] == source[v@[k].seq as int],
            forall|k1: int, k2: int| 0 <= k1 < k2 < n ==> v@[k1].seq != v@[k2].seq,
        decreases n - i,
    {
        let mut pos: usize = 0;
        while pos < i && sort_le_exec(&v[pos], &v[i])
            invariant
                v@.len() == n,
                i < n,
                pos <= i,
                forall|t: int| 0 <= t < pos ==> sort_le(v@[t], v@[i as int]),
            decreases i - pos,
        {
            pos += 1;
        }
        if pos < i {
            let ghost before = v@;
            let e = v.remove(i);
            v.insert(pos, e);
            proof {
                let after = v@;
                assert(after =~= before.remove(i as int).insert(pos as int, e));
                // Where each element of the new arrangement came from.
                assert forall|t: int| 0 <= t < n implies #[trigger] after[t] == (if t < pos {
                    before[t]
                } else if t == pos {
                    e
                } else if t <= i {
                    before[t - 1]
                } else {
                    before[t]
                }) by {
                    assert(after[t] == before.remove(i as int).insert(pos as int, e)[t]);
                }
                assert(sort_le(e, before[pos as int])) by {
                    assert(!sort_le(before[pos as int], e));
                }
                assert forall|a: int, b: int| 0 <= a < b < i + 1 implies sort_le(
                    after[a],
                    after[b],
                ) by {
                    if a < pos && b < pos {
                    } else if b == pos {
                        assert(sort_le(before[a], e));
                    } else if a == pos {
                        if b <= i {
                            assert(sort_le(before[pos as int], before[b - 1]));
                            assert(sort_le(e, before[pos as int]));
                        }
                    } else if a > pos && b <= i {
                        assert(sort_le(before[a - 1], before[b - 1]));
                    } else if a < pos && b > pos {
                        assert(sort_le(before[a], before[b - 1]));
                    }
                }
                assert forall|k1: int, k2: int| 0 <= k1 < k2 < n implies after[k1].seq
                    != after[k2].seq by {
                }
            }
        }
        i += 1;
    }
}

/// The submission position of the first request naming a sprite outside
/// `0 .. sprite_count`, scanning from `t`.
pub open spec fn first_invalid_from<I>(
    reqs: Seq<FrameEntry<I>>,
    sprite_count: int,
    t: int,
) -> Option<int>
    decreases reqs.len() - t,
{
    if t < 0 || t >= reqs.len() {
        None
    } else if reqs[t].sprite >= sprite_count {
        Some(t)
    } else {
        first_invalid_from(reqs, sprite_count, t + 1)
    }
}

/// The submission position of the first out-of-range draw request, if any.
pub open spec fn first_invalid<I>(reqs: Seq<FrameEntry<I>>, sprite_count: int) -> Option<int> {
    first_invalid_from(reqs, sprite_count, 0)
}

/// When the scan found nothing, every request from `t` on is in range.
proof fn lemma_no_invalid<I>(reqs: Seq<FrameEntry<I>>, sprite_count: int, t: int)
    requires
        0 <= t,
        first_invalid_from(reqs, sprite_count, t) is None,
    ensures
        forall|u: int| t <= u < reqs.len() ==> (#[trigger] reqs[u]).sprite < sprite_count,
    decreases reqs.len() - t,
{
    if t < reqs.len() {
        lemma_no_invalid(reqs, sprite_count, t + 1);
    }
}

/// The maximal runs of adjacent requests sharing a sprite, in order.
fn build_runs<I>(ordered: &Vec<FrameEntry<I>>) -> (runs: Vec<DrawRun>)
    ensures
        runs_cover(ordered@, runs@),
{
    let n = ordered.len();
    let mut runs: Vec<DrawRun> = Vec::new();
    let mut t: usize = 0;
    while t < n
        invariant
            t <= n,
            n == ordered@.len(),
            (runs@.len() == 0 <==> t == 0),
            runs@.len() > 0 ==> runs@[0].first == 0 && runs@.last().first + runs@.last().count
                == t,
            forall|j: int|
                1 <= j < runs@.len() ==> (#[trigger] runs@[j]).first == runs@[j - 1].first
                    + runs@[j - 1].count,
            forall|j: int|
                0 <= j < runs@.len() ==> (#[trigger] runs@[j]).count > 0 && runs@[j].first
                    + runs@[j].count <= t,
            forall|j: int, u: int|
                #![trigger runs@[j], ordered@[u]]
                0 <= j < runs@.len() && runs@[j].first <= u < runs@[j].first + runs@[j].count
                    ==> ordered@[u].sprite == runs@[j].sprite,
            forall|j: int|
                1 <= j < runs@.len() ==> (#[trigger] runs@[j]).sprite != runs@[j - 1].sprite,
        decreases n - t,
    {
        let sprite = ordered[t].sprite;
        let m = runs.len();
        if m == 0 {
            runs.push(DrawRun { sprite, first: 0, count: 1 });
        } else {
            let last = runs[m - 1];
            if last.sprite == sprite {
                runs.set(m - 1, DrawRun { sprite, first: last.first, count: last.count + 1 });
            } else {
                runs.push(DrawRun { sprite, first: t, count: 1 });
            }
        }
        t += 1;
    }
    runs
}

impl<I> FrameBuilder<I> {
    /// Turn the frame's requests into a draw plan against the layer table
    /// and the current atlas's sprite count.
    ///
    /// The plan holds the requests arranged into paint order - by resolved
    /// layer, then by sprite so equal layers batch into as few draws as
    /// possible, then by submission order - together with the maximal
    /// same-sprite runs, one instanced draw call each. A request naming a
    /// sprite the atlas does not have fails the frame instead of reading
    /// out of bounds; the error carries the first such index submitted.
    pub fn finalize(&mut self, layers: &LayerTable, sprite_count: usize) -> (r: Result<
        FramePlan<I>,
        FrameError,
    >)
        ensures
            first_invalid(old(self).requests(), sprite_count as int) is Some ==> r is Err && r->Err_0
                == (FrameError::InvalidSpriteIndex(
                old(self).requests()[first_invalid(old(self).requests(), sprite_count as int)->Some_0].sprite,
            )),
            first_invalid(old(self).requests(), sprite_count as int) is None ==> r is Ok && ({
                    let p = r->Ok_0;
                    let m = layer_entries(*layers);
                    let reqs = old(self).requests();
                    &&& p.ordered@.len() == reqs.len()
                    &&& p.sources@.len() == reqs.len()
                    &&& (forall|t: int|
                        0 <= t < reqs.len() ==> (#[trigger] p.sources@[t]) < reqs.len()
                            && p.ordered@[t] == reqs[p.sources@[t] as int])
                    &&& (forall|t1: int, t2: int|
                        0 <= t1 < t2 < reqs.len() ==> p.sources@[t1] != p.sources@[t2])
                    &&& (forall|t1: int, t2: int|
                        0 <= t1 < t2 < reqs.len() ==> draw_order_le(
                            m,
                            p.ordered@[t1],
                            p.sources@[t1] as int,
                            p.ordered@[t2],
                            p.sources@[t2] as int,
                        ))
                    &&& runs_cover(p.ordered@, p.runs@)
                    &&& (forall|t: int|
                        0 <= t < reqs.len() ==> (#[trigger] p.ordered@[t]).sprite < sprite_count)
                }),
    {
        let ghost reqs = old(self).requests();
        let n = self.entries.len();
        // Refuse the frame on the first stale or out-of-range sprite index.
        let mut t: usize = 0;
        while t < n
            invariant
                t <= n,
                n == self.entries@.len(),
                self.entries@ == reqs,
                first_invalid(reqs, sprite_count as int) == first_invalid_from(
                    reqs,
                    sprite_count as int,
                    t as int,
                ),
            decreases n - t,
        {
            if self.entries[t].sprite >= sprite_count {
                proof {
                    assert(first_invalid_from(reqs, sprite_count as int, t as int) == Some(
                        t as int,
                    ));
                    assert(first_invalid(reqs, sprite_count as int) == Some(t as int));
                    assert(reqs[t as int].sprite == self.entries@[t as int].sprite);
                }
                return Err(FrameError::InvalidSpriteIndex(self.entries[t].sprite));
            }
            t += 1;
        }
        proof {
            assert(first_invalid_from(reqs, sprite_count as int, n as int) is None);
            lemma_no_invalid(reqs, sprite_count as int, 0);
        }
        // Tag each request with its resolved ordinal and submission position.
        let mut work: Vec<SortEntry<I>> = Vec::new();
        let mut k: usize = 0;
        while k < n
            invariant
                k <= n,
                n == reqs.len(),
                self.entries@ == reqs.subrange(k as int, n as int),
                work@.len() == k,
                forall|u: int|
                    0 <= u < k ==> (#[trigger] work@[u]).seq == u && work@[u].entry == reqs[u]
                        && work@[u].ord as int == spec_resolved_ordinal(
                        layer_entries(*layers),
                        reqs[u].layer,
                    ),
            decreases n - k,
        {
            let e = self.entries.remove(0);
            proof {
                assert(reqs.subrange(k as int, n as int).remove(0) =~= reqs.subrange(
                    k as int + 1,
                    n as int,
                ));
                assert(reqs.subrange(k as int, n as int)[0] == reqs[k as int]);
            }
            let ord = layers.resolve_ordinal(&e.layer);
            work.push(SortEntry { ord, seq: k, entry: e });
            k += 1;
        }
        let ghost work0 = work@;
        sort_entries(&mut work);
        // Unzip the sorted arrangement into the plan's tables.
        let mut ordered: Vec<FrameEntry<I>> = Vec::new();
        let mut sources: Vec<usize> = Vec::new();
        let ghost sorted = work@;
        let mut u: usize = 0;
        while u < n
            invariant
                u <= n,
                n == sorted.len(),
                work@ == sorted.subrange(u as int, n as int),
                ordered@.len() == u,
                sources@.len() == u,
                forall|t2: int|
                    0 <= t2 < u ==> (#[trigger] ordered@[t2]) == sorted[t2].entry
                        && sources@[t2] == sorted[t2].seq,
            decreases n - u,
        {
            let e = work.remove(0);
            proof {
                assert(sorted.subrange(u as int, n as int).remove(0) =~= sorted.subrange(
                    u as int + 1,
                    n as int,
                ));
                assert(sorted.subrange(u as int, n as int)[0] == sorted[u as int]);
            }
            ordered.push(e.entry);
            sources.push(e.seq);
            u += 1;
        }
        let runs = build_runs(&ordered);
        proof {
            assert forall|t2: int|
                0 <= t2 < reqs.len() implies (#[trigger] sources@[t2]) < reqs.len()
                && ordered@[t2] == reqs[sources@[t2] as int] by {
                assert(ordered@[t2] == sorted[t2].entry);
                assert(sources@[t2] == sorted[t2].seq);
                assert(sorted[t2].seq < n);
                assert(sorted[t2] == work0[sorted[t2].seq as int]);
                assert(work0[sorted[t2].seq as int].entry == reqs[sorted[t2].seq as int]);
            }
            assert forall|t1: int, t2: int|
                0 <= t1 < t2 < reqs.len() implies sources@[t1] != sources@[t2] by {
                assert(sorted[t1].seq != sorted[t2].seq);
            }
            assert forall|t1: int, t2: int|
                0 <= t1 < t2 < reqs.len() implies draw_order_le(
                layer_entries(*layers),
                ordered@[t1],
                sources@[t1] as int,
                ordered@[t2],
                sources@[t2] as int,
            ) by {
                assert(sort_le(sorted[t1], sorted[t2]));
                assert(sorted[t1] == work0[sorted[t1].seq as int]);
                assert(sorted[t2] == work0[sorted[t2].seq as int]);
            }
            assert forall|t2: int|
                0 <= t2 < reqs.len() implies (#[trigger] ordered@[t2]).sprite < sprite_count by {
                assert(ordered@[t2] == reqs[sources@[t2] as int]);
            }
        }
        Ok(FramePlan { ordered, sources, runs })
    }
}

} // verus!
