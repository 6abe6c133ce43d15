//! `TextureAtlas`: sub-allocation of sprites inside one GPU texture.
//!
//! The rectangle packing itself is `guillotiere`'s `AtlasAllocator`; the
//! atlas hands out [`TextureId`]s (never reused), remembers each live
//! allocation's pixel rectangle and frees it again on request.

use vstd::prelude::*;
use crate::render2d::{AtlasError, TextureId};

verus! {

#[verifier::external_type_specification]
#[verifier::external_body]
pub struct ExAtlasAllocator(guillotiere::AtlasAllocator);

/// The live allocations of a `guillotiere` allocator: each serialized
/// `AllocId` with its rectangle as `(min_x, min_y, max_x, max_y)`.
pub uninterp spec fn atlas_live(a: guillotiere::AtlasAllocator) -> Map<u32, (i32, i32, i32, i32)>;

/// The width and height the allocator was made with.
pub uninterp spec fn atlas_extent(a: guillotiere::AtlasAllocator) -> (i32, i32);

/// Two rectangles, each as `(min_x, min_y, max_x, max_y)` with exclusive
/// maxima, share no pixel.
pub open spec fn boxes_disjoint(a: (i32, i32, i32, i32), b: (i32, i32, i32, i32)) -> bool {
    a.2 <= b.0 || b.2 <= a.0 || a.3 <= b.1 || b.3 <= a.1
}

/// A pixel rectangle, `min` inclusive, `max` exclusive.
#[derive(Debug, Clone, Copy, PartialEq, Eq, Structural)]
pub struct PixelRect {
    /// Left edge.
    pub min_x: i32,
    /// Top edge.
    pub min_y: i32,
    /// Right edge.
    pub max_x: i32,
    /// Bottom edge.
    pub max_y: i32,
}

/// `r` is a non-empty rectangle inside a `w` by `h` texture.
pub open spec fn rect_inside(r: PixelRect, w: int, h: int) -> bool {
    0 <= r.min_x < r.max_x <= w && 0 <= r.min_y < r.max_y <= h
}

/// The corners of `r` as `(min_x, min_y, max_x, max_y)`.
pub open spec fn rect_box(r: PixelRect) -> (i32, i32, i32, i32) {
    (r.min_x, r.min_y, r.max_x, r.max_y)
}

/// `a` and `b` share no pixel.
pub open spec fn rects_disjoint(a: PixelRect, b: PixelRect) -> bool {
    boxes_disjoint(rect_box(a), rect_box(b))
}

/// No two rectangles of `m` share a pixel.
pub open spec fn pairwise_disjoint(m: Map<u32, PixelRect>) -> bool {
    forall|i: u32, j: u32|
        i != j && #[trigger] m.contains_key(i) && #[trigger] m.contains_key(j) ==> rects_disjoint(m[i], m[j])
}

/// `AtlasAllocator::new` with a `w` by `h` size: an allocator with no live
/// allocation (the crate asserts both sides positive).
#[verifier::external_body]
fn allocator_new(w: i32, h: i32) -> (r: guillotiere::AtlasAllocator)
    requires
        w > 0,
        h > 0,
    ensures
        atlas_live(r).dom() == Set::<u32>::empty(),
        atlas_extent(r) == (w, h),
{
    guillotiere::AtlasAllocator::new(guillotiere::size2(w, h))
}

/// `AtlasAllocator::allocate` of a `w` by `h` rectangle. The crate returns
/// `None` for an empty size and when no free rectangle is large enough;
/// otherwise a rectangle of exactly the requested size (alignment 1) cut
/// from a free rectangle of the atlas, so that it overlaps no live
/// allocation, under a fresh id. With no live allocation the free space is
/// merged back into the whole atlas, and the search goes through every
/// free-list bucket from the requested size's upward, so a request that
/// fits the atlas then succeeds. Which free rectangle is chosen, and so the
/// position, depends on the allocator's history and is not stated.
#[verifier::external_body]
fn allocator_allocate(a: &mut guillotiere::AtlasAllocator, w: i32, h: i32) -> (r: Option<(u32, PixelRect)>)
    ensures
        atlas_extent(*final(a)) == atlas_extent(*old(a)),
        atlas_live(*old(a)).dom().is_empty() && 0 < w <= atlas_extent(*old(a)).0 && 0 < h
            <= atlas_extent(*old(a)).1 ==> r is Some,
        match r {
            Some((id, rc)) => {
                &&& w > 0 && h > 0
                &&& rc.max_x - rc.min_x == w && rc.max_y - rc.min_y == h
                &&& 0 <= rc.min_x && 0 <= rc.min_y
                &&& rc.max_x <= atlas_extent(*old(a)).0 && rc.max_y <= atlas_extent(*old(a)).1
                &&& !atlas_live(*old(a)).contains_key(id)
                &&& forall|k: u32| #[trigger] atlas_live(*old(a)).contains_key(k) ==> boxes_disjoint(
                    rect_box(rc),
                    atlas_live(*old(a))[k],
                )
                &&& atlas_live(*final(a)) == atlas_live(*old(a)).insert(id, rect_box(rc))
            },
            None => atlas_live(*final(a)) == atlas_live(*old(a)),
        },
{
    match a.allocate(guillotiere::size2(w, h)) {
        Some(al) => Some(
            (
                al.id.serialize(),
                PixelRect {
                    min_x: al.rectangle.min.x,
                    min_y: al.rectangle.min.y,
                    max_x: al.rectangle.max.x,
                    max_y: al.rectangle.max.y,
                },
            ),
        ),
        None => None,
    }
}

/// `AtlasAllocator::deallocate` of a live allocation (the crate asserts
/// that the id is live): only that allocation is released.
#[verifier::external_body]
fn allocator_deallocate(a: &mut guillotiere::AtlasAllocator, id: u32)
    requires
        atlas_live(*old(a)).contains_key(id),
    ensures
        atlas_extent(*final(a)) == atlas_extent(*old(a)),
        atlas_live(*final(a)) == atlas_live(*old(a)).remove(id),
{
    a.deallocate(guillotiere::AllocId::deserialize(id))
}

/// A growing 2D texture atlas.
pub struct TextureAtlas {
    allocator: guillotiere::AtlasAllocator,
    size: [u32; 2],
    next_id: u32,
    slots: Vec<Option<PixelRect>>,
    alloc_ids: Vec<Option<u32>>,
}

impl TextureAtlas {
    /// The atlas's bookkeeping agrees with its allocator: every slot with
    /// a rectangle holds a distinct live allocation inside the texture.
    pub closed spec fn wf(self) -> bool {
        &&& 0 < self.size[0] <= i32::MAX
        &&& 0 < self.size[1] <= i32::MAX
        &&& atlas_extent(self.allocator) == (self.size[0] as i32, self.size[1] as i32)
        &&& 1 <= self.next_id
        &&& self.slots.len() == self.alloc_ids.len()
        &&& self.slots.len() <= self.next_id
        &&& forall|i: int| 0 <= i < self.slots.len() ==> (#[trigger] self.slots@[i] is Some) == (self.alloc_ids@[i] is Some)
        &&& forall|i: int|
            0 <= i < self.slots.len() && #[trigger] self.alloc_ids@[i] is Some ==> {
                &&& atlas_live(self.allocator).contains_key(self.alloc_ids@[i]->0)
                &&& atlas_live(self.allocator)[self.alloc_ids@[i]->0] == rect_box(self.slots@[i]->0)
            }
        &&& forall|x: u32|
            #[trigger] atlas_live(self.allocator).contains_key(x) ==> exists|i: int|
                0 <= i < self.slots.len() && self.alloc_ids@[i] == Some(x)
        &&& forall|i: int, j: int|
            0 <= i < self.slots.len() && 0 <= j < self.slots.len() && i != j && #[trigger] self.slots@[i] is Some
                && #[trigger] self.slots@[j] is Some ==> rects_disjoint(self.slots@[i]->0, self.slots@[j]->0)
        &&& forall|i: int, j: int|
            0 <= i < self.slots.len() && 0 <= j < self.slots.len() && i != j && #[trigger] self.alloc_ids@[i] is Some
                && #[trigger] self.alloc_ids@[j] is Some ==> self.alloc_ids@[i]->0 != self.alloc_ids@[j]->0
        &&& forall|i: int|
            0 <= i < self.slots.len() && #[trigger] self.slots@[i] is Some ==> rect_inside(
                self.slots@[i]->0,
                self.size[0] as int,
                self.size[1] as int,
            )
    }

    /// Live allocations: texture id → pixel rectangle.
    pub closed spec fn rects(&self) -> Map<u32, PixelRect> {
        Map::new(
            |id: u32| (id as int) < self.slots.len() && self.slots@[id as int] is Some,
            |id: u32| self.slots@[id as int]->0,
        )
    }

    /// The id the next allocation gets.
    pub closed spec fn next_view(&self) -> u32 {
        self.next_id
    }

    /// Atlas width in pixels.
    pub closed spec fn width_view(&self) -> u32 {
        self.size[0]
    }

    /// Atlas height in pixels.
    pub closed spec fn height_view(&self) -> u32 {
        self.size[1]
    }

    /// The live rectangles never overlap.
    proof fn lemma_wf_disjoint(self)
        requires
            self.wf(),
        ensures
            pairwise_disjoint(self.rects()),
    {
        assert forall|i: u32, j: u32|
            i != j && #[trigger] self.rects().contains_key(i) && #[trigger] self.rects().contains_key(
                j,
            ) implies rects_disjoint(self.rects()[i], self.rects()[j]) by {
            assert(self.slots@[i as int] is Some && self.slots@[j as int] is Some);
        }
    }

    /// With no live rectangle the allocator holds no live allocation.
    proof fn lemma_wf_empty(self)
        requires
            self.wf(),
            self.rects().dom().is_empty(),
        ensures
            atlas_live(self.allocator).dom().is_empty(),
    {
        assert forall|x: u32| !#[trigger] atlas_live(self.allocator).dom().contains(x) by {
            if atlas_live(self.allocator).contains_key(x) {
                let i = choose|i: int| 0 <= i < self.slots.len() && self.alloc_ids@[i] == Some(x);
                assert(self.slots@[i] is Some);
                assert(self.rects().contains_key(i as u32));
            }
        }
        assert(atlas_live(self.allocator).dom() =~= Set::<u32>::empty());
    }

    /// An empty `width` x `height` atlas; the first id handed out is
    /// [`TextureId::first`].
    pub fn new(width: u32, height: u32) -> (r: TextureAtlas)
        requires
            0 < width <= i32::MAX,
            0 < height <= i32::MAX,
        ensures
            r.wf(),
            r.rects() == Map::<u32, PixelRect>::empty(),
            pairwise_disjoint(r.rects()),
            r.next_view() == 1,
            r.width_view() == width,
            r.height_view() == height,
    {
        let allocator = allocator_new(width as i32, height as i32);
        let r = TextureAtlas { allocator, size: [width, height], next_id: 1, slots: Vec::new(), alloc_ids: Vec::new() };
        assert(r.rects() =~= Map::<u32, PixelRect>::empty());
        r
    }

    /// Pixel size of the atlas texture.
    pub fn size(&self) -> (r: [u32; 2])
        ensures
            r[0] == self.width_view(),
            r[1] == self.height_view(),
    {
        self.size
    }

    /// The pixel rectangle of a live allocation.
    pub fn pixel_rect(&self, id: TextureId) -> (r: Option<PixelRect>)
        requires
            self.wf(),
        ensures
            r is Some == self.rects().contains_key(id.0),
            r matches Some(rc) ==> rc == self.rects()[id.0] && rect_inside(
                rc,
                self.width_view() as int,
                self.height_view() as int,
            ),
    {
        let idx = id.0 as usize;
        if idx < self.slots.len() {
            self.slots[idx]
        } else {
            None
        }
    }

    /// Allocate a slot for a `w` x `h` sprite under the next id. Fails with
    /// `Full` (and changes nothing) when the allocator finds no room; never
    /// succeeds for an empty size or one larger than the atlas.
    pub fn allocate(&mut self, w: u32, h: u32) -> (r: Result<TextureId, AtlasError>)
        requires
            old(self).wf(),
            old(self).next_view() < u32::MAX,
        ensures
            final(self).wf(),
            final(self).width_view() == old(self).width_view(),
            final(self).height_view() == old(self).height_view(),
            pairwise_disjoint(final(self).rects()),
            old(self).rects().dom().is_empty() && 0 < w <= old(self).width_view() && 0 < h
                <= old(self).height_view() ==> r is Ok,
            match r {
                Ok(id) => {
                    &&& id.0 == old(self).next_view()
                    &&& final(self).next_view() == old(self).next_view() + 1
                    &&& 0 < w <= old(self).width_view() && 0 < h <= old(self).height_view()
                    &&& !old(self).rects().contains_key(id.0)
                    &&& final(self).rects().dom() == old(self).rects().dom().insert(id.0)
                    &&& forall|k: u32| k != id.0 && #[trigger] old(self).rects().contains_key(k)
                        ==> final(self).rects()[k] == old(self).rects()[k]
                    &&& final(self).rects()[id.0].max_x - final(self).rects()[id.0].min_x == w
                    &&& final(self).rects()[id.0].max_y - final(self).rects()[id.0].min_y == h
                    &&& rect_inside(
                        final(self).rects()[id.0],
                        old(self).width_view() as int,
                        old(self).height_view() as int,
                    )
                    &&& forall|k: u32| #[trigger] old(self).rects().contains_key(k) ==> rects_disjoint(
                        final(self).rects()[id.0],
                        old(self).rects()[k],
                    )
                },
                Err(AtlasError::Full { w: ew, h: eh }) => {
                    &&& ew == w as i32 && eh == h as i32
                    &&& final(self).rects() == old(self).rects()
                    &&& final(self).next_view() == old(self).next_view()
                },
            },
    {
        let ghost old_rects = self.rects();
        let ghost live0 = atlas_live(self.allocator);
        proof {
            self.lemma_wf_disjoint();
            if old_rects.dom().is_empty() {
                self.lemma_wf_empty();
            }
        }
        let wi = w as i32;
        let hi = h as i32;
        let (aid, rect) = match allocator_allocate(&mut self.allocator, wi, hi) {
            Some(p) => p,
            None => {
                assert(self.rects() =~= old_rects);
                return Err(AtlasError::Full { w: wi, h: hi });
            },
        };
        proof {
            if w > i32::MAX {
                assert(w as i32 <= 0) by (bit_vector)
                    requires
                        w > 0x7fff_ffffu32,
                ;
            }
            if h > i32::MAX {
                assert(h as i32 <= 0) by (bit_vector)
                    requires
                        h > 0x7fff_ffffu32,
                ;
            }
        }
        let id = self.next_id;
        self.next_id = id + 1;
        let idx = id as usize;
        let ghost s0 = self.slots@;
        let ghost a0 = self.alloc_ids@;
        let ghost alloc0 = self.allocator;
        let ghost size0 = self.size;
        while self.slots.len() <= idx
            invariant
                self.allocator == alloc0,
                self.size == size0,
                self.next_id == id + 1,
                self.slots.len() == self.alloc_ids.len(),
                s0.len() <= self.slots.len() <= idx + 1,
                forall|i: int| 0 <= i < s0.len() ==> self.slots@[i] == s0[i] && self.alloc_ids@[i] == a0[i],
                forall|i: int| s0.len() <= i < self.slots.len() ==> self.slots@[i] is None && self.alloc_ids@[i] is None,
            decreases idx + 1 - self.slots.len(),
        {
            self.slots.push(None);
            self.alloc_ids.push(None);
        }
        self.slots.set(idx, Some(rect));
        self.alloc_ids.set(idx, Some(aid));
        proof {
            assert(!old_rects.contains_key(id));
            assert(self.rects().dom() =~= old_rects.dom().insert(id));
            assert(self.size[0] as i32 == self.size[0] as int);
            assert(self.size[1] as i32 == self.size[1] as int);
            assert(rect_inside(rect, self.size[0] as int, self.size[1] as int));
            assert forall|i: int| 0 <= i < self.slots.len() implies (#[trigger] self.slots@[i] is Some) == (
            self.alloc_ids@[i] is Some) by {
                if i < s0.len() && i != idx {
                    assert(old(self).slots@[i] is Some == old(self).alloc_ids@[i] is Some);
                }
            }
            assert forall|i: int|
                0 <= i < self.slots.len() && #[trigger] self.slots@[i] is Some implies rect_inside(
                    self.slots@[i]->0,
                    self.size[0] as int,
                    self.size[1] as int,
                ) by {
                if i != idx {
                    assert(old(self).slots@[i] is Some);
                }
            }
            assert forall|i: int|
                0 <= i < self.slots.len() && #[trigger] self.alloc_ids@[i] is Some implies {
                    &&& atlas_live(self.allocator).contains_key(self.alloc_ids@[i]->0)
                    &&& atlas_live(self.allocator)[self.alloc_ids@[i]->0] == rect_box(self.slots@[i]->0)
                } by {
                if i != idx {
                    assert(i < s0.len());
                    assert(old(self).alloc_ids@[i] is Some);
                    assert(live0.contains_key(self.alloc_ids@[i]->0));
                }
            }
            assert forall|x: u32| #[trigger] atlas_live(self.allocator).contains_key(x) implies exists|i: int|
                0 <= i < self.slots.len() && self.alloc_ids@[i] == Some(x) by {
                if x == aid {
                    assert(self.alloc_ids@[idx as int] == Some(x));
                } else {
                    assert(live0.contains_key(x));
                    let i = choose|i: int| 0 <= i < s0.len() && a0[i] == Some(x);
                    assert(self.alloc_ids@[i] == Some(x));
                }
            }
            assert forall|i: int, j: int|
                0 <= i < self.slots.len() && 0 <= j < self.slots.len() && i != j && #[trigger] self.slots@[i] is Some
                    && #[trigger] self.slots@[j] is Some implies rects_disjoint(self.slots@[i]->0, self.slots@[j]->0) by {
                if i == idx {
                    assert(j < s0.len());
                    assert(old(self).alloc_ids@[j] is Some);
                    assert(live0.contains_key(a0[j]->0));
                } else if j == idx {
                    assert(i < s0.len());
                    assert(old(self).alloc_ids@[i] is Some);
                    assert(live0.contains_key(a0[i]->0));
                } else {
                    assert(old(self).slots@[i] is Some);
                    assert(old(self).slots@[j] is Some);
                }
            }
            assert forall|k: u32| #[trigger] old_rects.contains_key(k) implies rects_disjoint(
                self.rects()[id],
                old_rects[k],
            ) by {
                assert(old(self).alloc_ids@[k as int] is Some);
                assert(live0.contains_key(a0[k as int]->0));
            }
            assert forall|i: int, j: int|
                0 <= i < self.slots.len() && 0 <= j < self.slots.len() && i != j && #[trigger] self.alloc_ids@[i] is Some
                    && #[trigger] self.alloc_ids@[j] is Some implies self.alloc_ids@[i]->0 != self.alloc_ids@[j]->0 by {
                if i == idx {
                    assert(j < s0.len());
                    assert(old(self).alloc_ids@[j] is Some);
                    assert(live0.contains_key(self.alloc_ids@[j]->0));
                } else if j == idx {
                    assert(i < s0.len());
                    assert(old(self).alloc_ids@[i] is Some);
                    assert(live0.contains_key(self.alloc_ids@[i]->0));
                } else {
                    assert(old(self).alloc_ids@[i] is Some);
                    assert(old(self).alloc_ids@[j] is Some);
                }
            }
            assert(self.wf());
            self.lemma_wf_disjoint();
        }
        Ok(TextureId(id))
    }

    /// Release an allocation; its id is not handed out again. Does nothing
    /// for an id that is not live.
    pub fn deallocate(&mut self, id: TextureId)
        requires
            old(self).wf(),
        ensures
            final(self).wf(),
            final(self).rects() == old(self).rects().remove(id.0),
            pairwise_disjoint(final(self).rects()),
            final(self).next_view() == old(self).next_view(),
            final(self).width_view() == old(self).width_view(),
            final(self).height_view() == old(self).height_view(),
    {
        let ghost old_rects = self.rects();
        let ghost live0 = atlas_live(self.allocator);
        let ghost a0 = self.alloc_ids@;
        let idx = id.0 as usize;
        if idx < self.alloc_ids.len() {
            match self.alloc_ids[idx] {
                Some(aid) => {
                    allocator_deallocate(&mut self.allocator, aid);
                    self.alloc_ids.set(idx, None);
                    self.slots.set(idx, None);
                    proof {
                        assert forall|i: int|
                            0 <= i < self.slots.len() && #[trigger] self.alloc_ids@[i] is Some implies {
                                &&& atlas_live(self.allocator).contains_key(self.alloc_ids@[i]->0)
                                &&& atlas_live(self.allocator)[self.alloc_ids@[i]->0] == rect_box(
                                    self.slots@[i]->0,
                                )
                            } by {
                            assert(old(self).alloc_ids@[i] is Some);
                            assert(old(self).alloc_ids@[idx as int] is Some);
                        }
                        assert forall|x: u32| #[trigger] atlas_live(self.allocator).contains_key(x) implies exists|
                            i: int,
                        | 0 <= i < self.slots.len() && self.alloc_ids@[i] == Some(x) by {
                            assert(live0.contains_key(x));
                            let i = choose|i: int| 0 <= i < a0.len() && a0[i] == Some(x);
                            assert(i != idx);
                            assert(self.alloc_ids@[i] == Some(x));
                        }
                        assert forall|i: int, j: int|
                            0 <= i < self.slots.len() && 0 <= j < self.slots.len() && i != j
                                && #[trigger] self.alloc_ids@[i] is Some && #[trigger] self.alloc_ids@[j] is Some
                                implies self.alloc_ids@[i]->0 != self.alloc_ids@[j]->0 by {
                            assert(old(self).alloc_ids@[i] is Some);
                            assert(old(self).alloc_ids@[j] is Some);
                        }
                        assert forall|i: int, j: int|
                            0 <= i < self.slots.len() && 0 <= j < self.slots.len() && i != j
                                && #[trigger] self.slots@[i] is Some && #[trigger] self.slots@[j] is Some
                                implies rects_disjoint(self.slots@[i]->0, self.slots@[j]->0) by {
                            assert(old(self).slots@[i] is Some);
                            assert(old(self).slots@[j] is Some);
                        }
                    }
                },
                None => {},
            }
        }
        assert(self.rects() =~= old_rects.remove(id.0));
        proof {
            self.lemma_wf_disjoint();
        }
    }
}

} // verus!
