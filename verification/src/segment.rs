//! Viewport segments: the horizontal tiles of the viewport, each with a
//! dirty flag (re-render this frame or reuse the cached tile) and a
//! generation that GPU texture caches compare to spot stale tiles. The
//! tiles' screen rectangles are kept beside them by the renderer.

use vstd::prelude::*;

use crate::text::owned;

verus! {

/// One tile: its id (its position, top to bottom), whether it must be
/// re-rendered, and how many times it has been rebuilt or re-rendered.
#[derive(Debug, Clone, Copy, PartialEq, Eq, Structural)]
pub struct ViewportSegment {
    pub id: u16,
    pub dirty: bool,
    pub generation: u64,
}

/// The tiles of the viewport, top to bottom.
#[derive(Debug, Clone)]
pub struct SegmentBuilder {
    pub segments: Vec<ViewportSegment>,
}

/// The most tiles a viewport can have: ids are `u16`.
pub const MAX_SEGMENTS: usize = 65536;

/// The tiles after a rebuild into `count` tiles, given the tiles `before`:
/// tile `i` is dirty and its generation is one more (saturating) than the
/// old tile `i`'s, or 1 for a new position. Past `MAX_SEGMENTS` tiles
/// the rebuild stops after the first 65535.
pub open spec fn rebuilt(before: Seq<ViewportSegment>, count: nat) -> Seq<ViewportSegment> {
    let n = if count > MAX_SEGMENTS { (MAX_SEGMENTS - 1) as nat } else { count };
    Seq::new(
        n,
        |i: int|
            ViewportSegment {
                id: i as u16,
                dirty: true,
                generation: if i < before.len() {
                    if before[i].generation == u64::MAX {
                        u64::MAX
                    } else {
                        (before[i].generation + 1) as u64
                    }
                } else {
                    1
                },
            },
    )
}

/// The position of the first tile with id `id`.
pub open spec fn first_with_id(s: Seq<ViewportSegment>, id: u16) -> Option<int> {
    if exists|i: int| 0 <= i < s.len() && s[i].id == id {
        Some(choose|i: int| 0 <= i < s.len() && s[i].id == id && forall|j: int| 0 <= j < i ==> s[j].id != id)
    } else {
        None
    }
}

/// The ids of the tiles whose dirty flag is `dirty`, in order.
pub open spec fn ids_with(s: Seq<ViewportSegment>, dirty: bool) -> Seq<u16>
    decreases s.len(),
{
    if s.len() == 0 {
        Seq::empty()
    } else {
        ids_with(s.drop_last(), dirty) + if s.last().dirty == dirty {
            seq![s.last().id]
        } else {
            Seq::empty()
        }
    }
}

impl SegmentBuilder {
    /// No tiles.
    pub fn new() -> (res: Self)
        ensures
            res.segments@ == Seq::<ViewportSegment>::empty(),
    {
        SegmentBuilder { segments: Vec::new() }
    }

    /// Rebuild the tiles for a viewport divided into `count` tiles (see
    /// `rebuilt`). More than `MAX_SEGMENTS` tiles is an error.
    pub fn build_segments(&mut self, count: usize) -> (res: Result<(), String>)
        ensures
            final(self).segments@ == rebuilt(old(self).segments@, count as nat),
            res is Ok <==> count <= MAX_SEGMENTS,
            res matches Err(m) ==> m@ == "Viewport height exceeds maximum segment count"@,
    {
        let mut previous: Vec<u64> = Vec::new();
        let mut k: usize = 0;
        while k < self.segments.len()
            invariant
                k <= self.segments@.len(),
                self.segments@ == old(self).segments@,
                previous@.len() == k,
                forall|j: int| 0 <= j < k ==> previous@[j] == self.segments@[j].generation,
            decreases self.segments@.len() - k,
        {
            previous.push(self.segments[k].generation);
            k += 1;
        }
        self.segments.clear();
        let ghost old_segs = old(self).segments@;
        let limit: usize = if count > MAX_SEGMENTS { MAX_SEGMENTS - 1 } else { count };
        let mut id: usize = 0;
        while id < limit
            invariant
                limit <= MAX_SEGMENTS,
                limit == if count > MAX_SEGMENTS { (MAX_SEGMENTS - 1) as nat } else { count as nat },
                id <= limit,
                previous@.len() == old_segs.len(),
                forall|j: int| 0 <= j < old_segs.len() ==> previous@[j] == old_segs[j].generation,
                self.segments@ == rebuilt(old_segs, count as nat).take(id as int),
            decreases limit - id,
        {
            let before: u64 = if id < previous.len() { previous[id] } else { 0 };
            let generation = before.saturating_add(1);
            self.segments.push(ViewportSegment { id: id as u16, dirty: true, generation });
            id += 1;
            assert(self.segments@ =~= rebuilt(old_segs, count as nat).take(id as int));
        }
        assert(rebuilt(old_segs, count as nat).take(id as int) =~= rebuilt(old_segs, count as nat));
        if count > MAX_SEGMENTS {
            Err(owned("Viewport height exceeds maximum segment count"))
        } else {
            Ok(())
        }
    }

    /// Mark every tile dirty.
    pub fn invalidate_all(&mut self)
        ensures
            final(self).segments@.len() == old(self).segments@.len(),
            forall|i: int|
                0 <= i < old(self).segments@.len() ==> #[trigger] final(self).segments@[i]
                    == (ViewportSegment { dirty: true, ..old(self).segments@[i] }),
    {
        self.mark_where_all(true);
    }

    /// Set every tile's dirty flag for which `hits` holds (the tiles a
    /// changed rectangle overlaps).
    pub fn invalidate_where(&mut self, hits: &[bool])
        requires
            hits@.len() == old(self).segments@.len(),
        ensures
            final(self).segments@.len() == old(self).segments@.len(),
            forall|i: int|
                0 <= i < old(self).segments@.len() ==> #[trigger] final(self).segments@[i] == if hits@[i] {
                    ViewportSegment { dirty: true, ..old(self).segments@[i] }
                } else {
                    old(self).segments@[i]
                },
    {
        let mut i: usize = 0;
        while i < self.segments.len()
            invariant
                i <= self.segments@.len(),
                hits@.len() == old(self).segments@.len(),
                self.segments@.len() == old(self).segments@.len(),
                forall|k: int|
                    0 <= k < i ==> #[trigger] self.segments@[k] == if hits@[k] {
                        ViewportSegment { dirty: true, ..old(self).segments@[k] }
                    } else {
                        old(self).segments@[k]
                    },
                forall|k: int| i <= k < self.segments@.len() ==> #[trigger] self.segments@[k] == old(self).segments@[k],
            decreases self.segments@.len() - i,
        {
            if hits[i] {
                let mut s = self.segments[i];
                s.dirty = true;
                self.segments.set(i, s);
            }
            i += 1;
        }
    }

    fn mark_where_all(&mut self, dirty: bool)
        ensures
            final(self).segments@.len() == old(self).segments@.len(),
            forall|i: int|
                0 <= i < old(self).segments@.len() ==> #[trigger] final(self).segments@[i]
                    == (ViewportSegment { dirty, ..old(self).segments@[i] }),
    {
        let mut i: usize = 0;
        while i < self.segments.len()
            invariant
                i <= self.segments@.len(),
                self.segments@.len() == old(self).segments@.len(),
                forall|k: int|
                    0 <= k < i ==> #[trigger] self.segments@[k] == (ViewportSegment {
                        dirty,
                        ..old(self).segments@[k]
                    }),
                forall|k: int| i <= k < self.segments@.len() ==> #[trigger] self.segments@[k] == old(self).segments@[k],
            decreases self.segments@.len() - i,
        {
            let mut s = self.segments[i];
            s.dirty = dirty;
            self.segments.set(i, s);
            i += 1;
        }
    }

    /// The position of the first tile with id `segment_id`.
    fn find(&self, segment_id: u16) -> (res: Option<usize>)
        ensures
            match res {
                Some(i) => first_with_id(self.segments@, segment_id) == Some(i as int) && i
                    < self.segments@.len(),
                None => first_with_id(self.segments@, segment_id) is None,
            },
    {
        let mut i: usize = 0;
        while i < self.segments.len()
            invariant
                i <= self.segments@.len(),
                forall|j: int| 0 <= j < i ==> self.segments@[j].id != segment_id,
            decreases self.segments@.len() - i,
        {
            if self.segments[i].id == segment_id {
                proof {
                    let s = self.segments@;
                    let k = choose|k: int|
                        0 <= k < s.len() && s[k].id == segment_id && forall|j: int|
                            0 <= j < k ==> s[j].id != segment_id;
                    if k < i {
                        assert(s[k].id != segment_id);
                    }
                    if i < k {
                        assert(s[i as int].id != segment_id);
                    }
                }
                return Some(i);
            }
            i += 1;
        }
        None
    }

    /// Mark the first tile with id `segment_id` dirty, if there is one.
    pub fn invalidate_segment(&mut self, segment_id: u16)
        ensures
            final(self).segments@ == match first_with_id(old(self).segments@, segment_id) {
                Some(i) => old(self).segments@.update(
                    i,
                    ViewportSegment { dirty: true, ..old(self).segments@[i] },
                ),
                None => old(self).segments@,
            },
    {
        if let Some(i) = self.find(segment_id) {
            let mut s = self.segments[i];
            s.dirty = true;
            self.segments.set(i, s);
        }
    }

    /// After re-rendering the first tile with id `segment_id`: mark it
    /// clean and count one more generation.
    pub fn mark_clean(&mut self, segment_id: u16)
        requires
            first_with_id(old(self).segments@, segment_id) matches Some(i) ==> old(self).segments@[i].generation < u64::MAX,
        ensures
            final(self).segments@ == match first_with_id(old(self).segments@, segment_id) {
                Some(i) => old(self).segments@.update(
                    i,
                    ViewportSegment {
                        dirty: false,
                        generation: (old(self).segments@[i].generation + 1) as u64,
                        ..old(self).segments@[i]
                    },
                ),
                None => old(self).segments@,
            },
    {
        if let Some(i) = self.find(segment_id) {
            let mut s = self.segments[i];
            s.dirty = false;
            s.generation = s.generation + 1;
            self.segments.set(i, s);
        }
    }

    fn ids(&self, dirty: bool) -> (res: Vec<u16>)
        ensures
            res@ == ids_with(self.segments@, dirty),
    {
        let mut out: Vec<u16> = Vec::new();
        let mut i: usize = 0;
        while i < self.segments.len()
            invariant
                i <= self.segments@.len(),
                out@ == ids_with(self.segments@.take(i as int), dirty),
            decreases self.segments@.len() - i,
        {
            assert(self.segments@.take(i as int + 1).drop_last() =~= self.segments@.take(i as int));
            if self.segments[i].dirty == dirty {
                out.push(self.segments[i].id);
            }
            i += 1;
            assert(out@ =~= ids_with(self.segments@.take(i as int), dirty));
        }
        assert(self.segments@.take(i as int) =~= self.segments@);
        out
    }

    /// The ids of the dirty tiles, top to bottom: these are re-rendered.
    pub fn dirty_segments(&self) -> (res: Vec<u16>)
        ensures
            res@ == ids_with(self.segments@, true),
    {
        self.ids(true)
    }

    /// The ids of the clean tiles, top to bottom: their cached output is
    /// reused.
    pub fn clean_segments(&self) -> (res: Vec<u16>)
        ensures
            res@ == ids_with(self.segments@, false),
    {
        self.ids(false)
    }

    /// The number of tiles.
    pub fn len(&self) -> (res: usize)
        ensures
            res == self.segments@.len(),
    {
        self.segments.len()
    }

    /// Whether there are no tiles.
    pub fn is_empty(&self) -> (res: bool)
        ensures
            res == (self.segments@.len() == 0),
    {
        self.segments.len() == 0
    }
}

/// Law: after a rebuild every tile is dirty, the ids count up from 0, and
/// a tile that existed before has a newer generation (unless it had
/// reached the maximum).
pub proof fn lemma_rebuild_fresh(before: Seq<ViewportSegment>, count: nat, i: int)
    requires
        0 <= i < rebuilt(before, count).len(),
    ensures
        rebuilt(before, count)[i].dirty,
        rebuilt(before, count)[i].id == i,
        i < before.len() ==> rebuilt(before, count)[i].generation > before[i].generation
            || before[i].generation == u64::MAX,
{
}

/// Law: every tile is listed once, as dirty or as clean.
pub proof fn lemma_dirty_clean_split(s: Seq<ViewportSegment>)
    ensures
        ids_with(s, true).len() + ids_with(s, false).len() == s.len(),
    decreases s.len(),
{
    if s.len() > 0 {
        lemma_dirty_clean_split(s.drop_last());
    }
}

} // verus!
