//! The scene graph's bookkeeping: a flat vector of nodes with parent links,
//! paint order, viewport segments, dirty flags for incremental re-rendering
//! and interaction state. The geometry, colours and text that the renderer
//! keeps beside each node are not read here.

use vstd::prelude::*;

verus! {

// ─── Identifiers and states ──────────────────────────────────────

/// Index into the scene graph's node vector.
#[derive(Debug, Clone, Copy, PartialEq, Eq, Hash, Structural)]
pub struct SceneNodeId(pub u32);

impl SceneNodeId {
    /// The index into the node vector.
    pub fn index(self) -> (res: usize)
        ensures
            res == self.0,
    {
        self.0 as usize
    }
}

/// The interactive state of a node.
#[derive(Debug, Clone, Copy, PartialEq, Eq, Structural)]
pub enum NodeState {
    Normal,
    Hovered,
    Active,
}

/// What the bookkeeping reads of a scene node: its parent, paint order,
/// viewport segment, dirty flag, interaction state and link target.
#[derive(Debug, Clone)]
pub struct SceneNode {
    pub parent: Option<SceneNodeId>,
    pub z_order: u32,
    pub segment_id: u16,
    pub dirty: bool,
    pub state: NodeState,
    pub link_url: Option<String>,
}

/// The flat scene graph. `nodes[i]` is the node with `SceneNodeId(i)`.
#[derive(Debug, Clone)]
pub struct SceneGraph {
    pub nodes: Vec<SceneNode>,
}

// ─── The model ───────────────────────────────────────────────────

/// The node with its dirty flag set.
pub open spec fn marked(n: SceneNode) -> SceneNode {
    SceneNode { dirty: true, ..n }
}

/// The number of nodes that are not dirty.
pub open spec fn clean_count(s: Seq<SceneNode>) -> nat
    decreases s.len(),
{
    if s.len() == 0 {
        0
    } else {
        clean_count(s.drop_last()) + if s.last().dirty {
            0nat
        } else {
            1nat
        }
    }
}

/// Marking a clean node dirty leaves one clean node fewer.
pub proof fn lemma_mark_decreases(s: Seq<SceneNode>, i: int)
    requires
        0 <= i < s.len(),
        !s[i].dirty,
    ensures
        clean_count(s.update(i, marked(s[i]))) + 1 == clean_count(s),
    decreases s.len(),
{
    let u = s.update(i, marked(s[i]));
    if i < s.len() - 1 {
        assert(u.drop_last() =~= s.drop_last().update(i, marked(s[i])));
        lemma_mark_decreases(s.drop_last(), i);
    } else {
        assert(u.drop_last() =~= s.drop_last());
    }
}

/// Marking dirty along the parent links from `cur`, stopping at a missing,
/// out-of-range or already dirty node.
pub open spec fn mark_ancestors(s: Seq<SceneNode>, cur: Option<SceneNodeId>) -> Seq<SceneNode>
    decreases clean_count(s),
{
    match cur {
        None => s,
        Some(p) => if p.0 >= s.len() || s[p.0 as int].dirty {
            s
        } else {
            proof {
                lemma_mark_decreases(s, p.0 as int);
            }
            mark_ancestors(s.update(p.0 as int, marked(s[p.0 as int])), s[p.0 as int].parent)
        },
    }
}

/// The nodes after `invalidate(id)`: the node is marked dirty, then its
/// ancestors up to the first one already dirty. An id out of range
/// changes nothing.
pub open spec fn spec_invalidate(s: Seq<SceneNode>, id: SceneNodeId) -> Seq<SceneNode> {
    if id.0 >= s.len() {
        s
    } else {
        mark_ancestors(s.update(id.0 as int, marked(s[id.0 as int])), s[id.0 as int].parent)
    }
}

/// The node with another interaction state.
pub open spec fn with_state(n: SceneNode, state: NodeState) -> SceneNode {
    SceneNode { state, ..n }
}

/// The ids, in order, of the nodes for which `keep` holds.
pub open spec fn ids_where(s: Seq<SceneNode>, keep: spec_fn(SceneNode) -> bool) -> Seq<SceneNodeId>
    decreases s.len(),
{
    if s.len() == 0 {
        Seq::empty()
    } else {
        ids_where(s.drop_last(), keep) + if keep(s.last()) {
            seq![SceneNodeId((s.len() - 1) as u32)]
        } else {
            Seq::empty()
        }
    }
}

/// Whether a node is dirty.
pub open spec fn is_dirty(n: SceneNode) -> bool {
    n.dirty
}

/// Whether a node lies in segment `seg`.
pub open spec fn in_segment(seg: u16) -> spec_fn(SceneNode) -> bool {
    |n: SceneNode| n.segment_id == seg
}

/// When node `i` is dirty, so is its parent, if it has one in range.
pub open spec fn parent_dirty(s: Seq<SceneNode>, i: int) -> bool {
    s[i].dirty ==> match s[i].parent {
        Some(p) => p.0 < s.len() ==> s[p.0 as int].dirty,
        None => true,
    }
}

/// Every dirty node's parent, when it exists, is dirty too.
pub open spec fn dirty_closed(s: Seq<SceneNode>) -> bool {
    forall|i: int| 0 <= i < s.len() ==> #[trigger] parent_dirty(s, i)
}

/// `b` differs from `a` only in dirty flags, and only by setting them.
pub open spec fn only_marks(a: Seq<SceneNode>, b: Seq<SceneNode>) -> bool {
    &&& b.len() == a.len()
    &&& forall|i: int| 0 <= i < a.len() ==> (#[trigger] b[i]) == marked(a[i]) || b[i] == a[i]
}

/// The node `hit_test` picks among those hit: the last one with the
/// highest paint order.
pub open spec fn is_topmost(s: Seq<SceneNode>, hits: Seq<bool>, i: int) -> bool {
    &&& 0 <= i < s.len()
    &&& hits[i]
    &&& forall|j: int| 0 <= j < s.len() && hits[j] ==> s[j].z_order <= s[i].z_order
    &&& forall|j: int| i < j < s.len() && hits[j] ==> s[j].z_order < s[i].z_order
}

// ─── Laws ────────────────────────────────────────────────────────

proof fn lemma_mark_ancestors_only_marks(s: Seq<SceneNode>, cur: Option<SceneNodeId>)
    ensures
        only_marks(s, mark_ancestors(s, cur)),
    decreases clean_count(s),
{
    if let Some(p) = cur {
        if p.0 < s.len() && !s[p.0 as int].dirty {
            let s2 = s.update(p.0 as int, marked(s[p.0 as int]));
            lemma_mark_decreases(s, p.0 as int);
            lemma_mark_ancestors_only_marks(s2, s[p.0 as int].parent);
            let r = mark_ancestors(s2, s[p.0 as int].parent);
            assert forall|i: int| 0 <= i < s.len() implies (#[trigger] r[i]) == marked(s[i]) || r[i]
                == s[i] by {
                assert(r[i] == marked(s2[i]) || r[i] == s2[i]);
                assert(marked(marked(s[i])) == marked(s[i]));
            }
        }
    }
}

proof fn lemma_mark_ancestors_closed(s: Seq<SceneNode>, j: int, cur: Option<SceneNodeId>)
    requires
        0 <= j < s.len(),
        s[j].dirty,
        s[j].parent == cur,
        forall|i: int| 0 <= i < s.len() && i != j ==> #[trigger] parent_dirty(s, i),
    ensures
        dirty_closed(mark_ancestors(s, cur)),
    decreases clean_count(s),
{
    match cur {
        None => {
            assert forall|i: int| 0 <= i < s.len() implies #[trigger] parent_dirty(s, i) by {
                if i != j {
                    assert(parent_dirty(s, i));
                }
            }
        },
        Some(p) => {
            if p.0 < s.len() && !s[p.0 as int].dirty {
                let q = p.0 as int;
                let s2 = s.update(q, marked(s[q]));
                lemma_mark_decreases(s, q);
                assert forall|i: int| 0 <= i < s2.len() && i != q implies #[trigger] parent_dirty(
                    s2,
                    i,
                ) by {
                    assert(s2[i] == s[i]);
                    if i != j {
                        assert(parent_dirty(s, i));
                    }
                }
                lemma_mark_ancestors_closed(s2, q, s[q].parent);
            } else {
                assert forall|i: int| 0 <= i < s.len() implies #[trigger] parent_dirty(s, i) by {
                    if i != j {
                        assert(parent_dirty(s, i));
                    }
                }
            }
        },
    }
}

/// Law: `invalidate` marks the node dirty when it exists, and otherwise
/// only sets dirty flags: nothing else about any node changes and no flag
/// is cleared.
pub proof fn lemma_invalidate_marks(s: Seq<SceneNode>, id: SceneNodeId)
    ensures
        only_marks(s, spec_invalidate(s, id)),
        id.0 < s.len() ==> spec_invalidate(s, id)[id.0 as int].dirty,
{
    if id.0 < s.len() {
        let i = id.0 as int;
        let s1 = s.update(i, marked(s[i]));
        lemma_mark_ancestors_only_marks(s1, s[i].parent);
        let r = spec_invalidate(s, id);
        assert forall|k: int| 0 <= k < s.len() implies (#[trigger] r[k]) == marked(s[k]) || r[k]
            == s[k] by {
            assert(marked(marked(s[k])) == marked(s[k]));
        }
    }
}

/// Law: when every dirty node's parent is dirty, `invalidate` keeps it so;
/// with the node itself now dirty, all its ancestors are dirty too.
pub proof fn lemma_invalidate_keeps_closed(s: Seq<SceneNode>, id: SceneNodeId)
    requires
        dirty_closed(s),
    ensures
        dirty_closed(spec_invalidate(s, id)),
{
    if id.0 < s.len() {
        let i = id.0 as int;
        let s1 = s.update(i, marked(s[i]));
        assert forall|k: int| 0 <= k < s1.len() && k != i implies #[trigger] parent_dirty(s1, k) by {
            assert(s1[k] == s[k]);
            assert(parent_dirty(s, k));
        }
        lemma_mark_ancestors_closed(s1, i, s[i].parent);
    }
}

// ─── Operations ──────────────────────────────────────────────────

impl SceneGraph {
    /// An empty scene.
    pub fn new() -> (res: Self)
        ensures
            res.nodes@ == Seq::<SceneNode>::empty(),
    {
        SceneGraph { nodes: Vec::new() }
    }

    /// An empty scene with room for `capacity` nodes.
    pub fn with_capacity(capacity: usize) -> (res: Self)
        ensures
            res.nodes@ == Seq::<SceneNode>::empty(),
    {
        SceneGraph { nodes: Vec::with_capacity(capacity) }
    }

    /// Add a node; its id is the number of nodes before it.
    pub fn push(&mut self, node: SceneNode) -> (res: SceneNodeId)
        requires
            old(self).nodes@.len() < u32::MAX,
        ensures
            res == SceneNodeId(old(self).nodes@.len() as u32),
            final(self).nodes@ == old(self).nodes@.push(node),
    {
        let id = SceneNodeId(self.nodes.len() as u32);
        self.nodes.push(node);
        id
    }

    /// The number of nodes.
    pub fn len(&self) -> (res: usize)
        ensures
            res == self.nodes@.len(),
    {
        self.nodes.len()
    }

    /// Whether there are no nodes.
    pub fn is_empty(&self) -> (res: bool)
        ensures
            res == (self.nodes@.len() == 0),
    {
        self.nodes.len() == 0
    }

    /// Remove every node.
    pub fn clear(&mut self)
        ensures
            final(self).nodes@ == Seq::<SceneNode>::empty(),
    {
        self.nodes.clear();
    }

    /// Mark a node dirty, then its ancestors up to the first one that is
    /// already dirty. An unknown id is ignored.
    pub fn invalidate(&mut self, node_id: SceneNodeId)
        ensures
            final(self).nodes@ == spec_invalidate(old(self).nodes@, node_id),
    {
        let idx = node_id.index();
        if idx >= self.nodes.len() {
            return;
        }
        let ghost target = spec_invalidate(self.nodes@, node_id);
        self.nodes[idx].dirty = true;
        let mut current = self.nodes[idx].parent;
        assert(self.nodes@ =~= old(self).nodes@.update(idx as int, marked(old(self).nodes@[idx as int])));
        while current.is_some()
            invariant
                mark_ancestors(self.nodes@, current) == target,
            decreases clean_count(self.nodes@) + if current is Some {
                1nat
            } else {
                0nat
            },
        {
            let parent_id = current.unwrap();
            let pidx = parent_id.index();
            if pidx >= self.nodes.len() || self.nodes[pidx].dirty {
                current = None;
            } else {
                let ghost before = self.nodes@;
                proof {
                    lemma_mark_decreases(before, pidx as int);
                }
                self.nodes[pidx].dirty = true;
                current = self.nodes[pidx].parent;
                assert(self.nodes@ =~= before.update(pidx as int, marked(before[pidx as int])));
            }
        }
    }

    /// The number of dirty nodes.
    pub fn dirty_count(&self) -> (res: usize)
        ensures
            res == ids_where(self.nodes@, |n: SceneNode| is_dirty(n)).len(),
    {
        let ghost keep = |n: SceneNode| is_dirty(n);
        let mut count: usize = 0;
        let mut i: usize = 0;
        while i < self.nodes.len()
            invariant
                i <= self.nodes@.len(),
                count == ids_where(self.nodes@.take(i as int), keep).len(),
                keep == (|n: SceneNode| is_dirty(n)),
            decreases self.nodes@.len() - i,
        {
            assert(self.nodes@.take(i as int + 1).drop_last() =~= self.nodes@.take(i as int));
            proof {
                lemma_ids_where_len(self.nodes@.take(i as int), keep);
            }
            if self.nodes[i].dirty {
                count += 1;
            }
            i += 1;
        }
        assert(self.nodes@.take(i as int) =~= self.nodes@);
        count
    }

    /// Clear every dirty flag.
    pub fn clear_dirty(&mut self)
        ensures
            final(self).nodes@.len() == old(self).nodes@.len(),
            forall|i: int|
                0 <= i < old(self).nodes@.len() ==> #[trigger] final(self).nodes@[i] == (SceneNode {
                    dirty: false,
                    ..old(self).nodes@[i]
                }),
    {
        let mut i: usize = 0;
        while i < self.nodes.len()
            invariant
                i <= self.nodes@.len(),
                self.nodes@.len() == old(self).nodes@.len(),
                forall|k: int|
                    0 <= k < i ==> #[trigger] self.nodes@[k] == (SceneNode {
                        dirty: false,
                        ..old(self).nodes@[k]
                    }),
                forall|k: int| i <= k < self.nodes@.len() ==> #[trigger] self.nodes@[k] == old(
                    self,
                ).nodes@[k],
            decreases self.nodes@.len() - i,
        {
            self.nodes[i].dirty = false;
            i += 1;
        }
    }

    /// The ids of the dirty nodes, in order.
    pub fn dirty_nodes(&self) -> (res: Vec<SceneNodeId>)
        requires
            self.nodes@.len() <= u32::MAX,
        ensures
            res@ == ids_where(self.nodes@, |n: SceneNode| is_dirty(n)),
    {
        let ghost keep = |n: SceneNode| is_dirty(n);
        let mut out: Vec<SceneNodeId> = Vec::new();
        let mut i: usize = 0;
        while i < self.nodes.len()
            invariant
                i <= self.nodes@.len() <= u32::MAX,
                out@ == ids_where(self.nodes@.take(i as int), keep),
                keep == (|n: SceneNode| is_dirty(n)),
            decreases self.nodes@.len() - i,
        {
            assert(self.nodes@.take(i as int + 1).drop_last() =~= self.nodes@.take(i as int));
            if self.nodes[i].dirty {
                out.push(SceneNodeId(i as u32));
            }
            i += 1;
            assert(out@ =~= ids_where(self.nodes@.take(i as int), keep));
        }
        assert(self.nodes@.take(i as int) =~= self.nodes@);
        out
    }

    /// The ids of the nodes in viewport segment `segment_id`, in order.
    pub fn nodes_in_segment(&self, segment_id: u16) -> (res: Vec<SceneNodeId>)
        requires
            self.nodes@.len() <= u32::MAX,
        ensures
            res@ == ids_where(self.nodes@, in_segment(segment_id)),
    {
        let ghost keep = in_segment(segment_id);
        let mut out: Vec<SceneNodeId> = Vec::new();
        let mut i: usize = 0;
        while i < self.nodes.len()
            invariant
                i <= self.nodes@.len() <= u32::MAX,
                out@ == ids_where(self.nodes@.take(i as int), keep),
                keep == in_segment(segment_id),
            decreases self.nodes@.len() - i,
        {
            assert(self.nodes@.take(i as int + 1).drop_last() =~= self.nodes@.take(i as int));
            if self.nodes[i].segment_id == segment_id {
                out.push(SceneNodeId(i as u32));
            }
            i += 1;
            assert(out@ =~= ids_where(self.nodes@.take(i as int), keep));
        }
        assert(self.nodes@.take(i as int) =~= self.nodes@);
        out
    }

    /// Whether some node in segment `segment_id` is dirty.
    pub fn is_segment_dirty(&self, segment_id: u16) -> (res: bool)
        ensures
            res == exists|i: int|
                0 <= i < self.nodes@.len() && (#[trigger] self.nodes@[i]).segment_id == segment_id
                    && self.nodes@[i].dirty,
    {
        let mut i: usize = 0;
        while i < self.nodes.len()
            invariant
                i <= self.nodes@.len(),
                forall|k: int|
                    0 <= k < i ==> !((#[trigger] self.nodes@[k]).segment_id == segment_id
                        && self.nodes@[k].dirty),
            decreases self.nodes@.len() - i,
        {
            if self.nodes[i].segment_id == segment_id && self.nodes[i].dirty {
                assert(self.nodes@[i as int].segment_id == segment_id);
                return true;
            }
            i += 1;
        }
        false
    }

    /// Among the nodes that `hits` marks, the last one with the highest
    /// paint order; none when no node is hit.
    pub fn topmost(&self, hits: &[bool]) -> (res: Option<SceneNodeId>)
        requires
            hits@.len() == self.nodes@.len(),
            self.nodes@.len() <= u32::MAX,
        ensures
            match res {
                Some(id) => is_topmost(self.nodes@, hits@, id.0 as int),
                None => forall|j: int| 0 <= j < hits@.len() ==> !hits@[j],
            },
    {
        let mut best: Option<usize> = None;
        let mut i: usize = 0;
        while i < self.nodes.len()
            invariant
                i <= self.nodes@.len() <= u32::MAX,
                hits@.len() == self.nodes@.len(),
                match best {
                    Some(b) => b < i && hits@[b as int] && (forall|j: int|
                        0 <= j < i && hits@[j] ==> self.nodes@[j].z_order <= self.nodes@[
                            b as int
                        ].z_order) && (forall|j: int|
                        b < j < i && hits@[j] ==> self.nodes@[j].z_order < self.nodes@[
                            b as int
                        ].z_order),
                    None => forall|j: int| 0 <= j < i ==> !hits@[j],
                },
            decreases self.nodes@.len() - i,
        {
            if hits[i] {
                match best {
                    Some(b) => {
                        if self.nodes[i].z_order >= self.nodes[b].z_order {
                            best = Some(i);
                        }
                    },
                    None => {
                        best = Some(i);
                    },
                }
            }
            i += 1;
        }
        match best {
            Some(b) => Some(SceneNodeId(b as u32)),
            None => None,
        }
    }

    /// Set a node's interaction state. When the node exists and its state
    /// changes, the node is invalidated and the result is `true`; otherwise
    /// nothing changes and the result is `false`.
    pub fn set_node_state(&mut self, id: SceneNodeId, state: NodeState) -> (res: bool)
        ensures
            res == (id.0 < old(self).nodes@.len() && old(self).nodes@[id.0 as int].state != state),
            res ==> final(self).nodes@ == spec_invalidate(
                old(self).nodes@.update(id.0 as int, with_state(old(self).nodes@[id.0 as int], state)),
                id,
            ),
            !res ==> final(self).nodes@ == old(self).nodes@,
    {
        let idx = id.index();
        if idx < self.nodes.len() && self.nodes[idx].state != state {
            self.nodes[idx].state = state;
            assert(self.nodes@ =~= old(self).nodes@.update(
                idx as int,
                with_state(old(self).nodes@[idx as int], state),
            ));
            self.invalidate(id);
            true
        } else {
            false
        }
    }

    /// The link target of a node, when it exists and has one.
    pub fn node_url(&self, id: SceneNodeId) -> (res: Option<&str>)
        ensures
            match res {
                Some(u) => id.0 < self.nodes@.len() && (self.nodes@[id.0 as int].link_url matches Some(
                    l,
                ) && u@ == l@),
                None => id.0 >= self.nodes@.len() || self.nodes@[id.0 as int].link_url is None,
            },
    {
        let idx = id.index();
        if idx < self.nodes.len() {
            match &self.nodes[idx].link_url {
                Some(u) => Some(u.as_str()),
                None => None,
            }
        } else {
            None
        }
    }
}

impl SceneGraph {
    /// The viewport segments that hold a dirty node, in increasing order,
    /// each once.
    pub fn dirty_segments(&self) -> (res: Vec<u16>)
        ensures
            strictly_increasing(res@),
            forall|x: u16|
                res@.contains(x) <==> exists|i: int|
                    0 <= i < self.nodes@.len() && (#[trigger] self.nodes@[i]).dirty
                        && self.nodes@[i].segment_id == x,
    {
        let mut segs: Vec<u16> = Vec::new();
        let mut i: usize = 0;
        while i < self.nodes.len()
            invariant
                i <= self.nodes@.len(),
                strictly_increasing(segs@),
                forall|x: u16|
                    segs@.contains(x) <==> exists|k: int|
                        0 <= k < i && (#[trigger] self.nodes@[k]).dirty
                            && self.nodes@[k].segment_id == x,
            decreases self.nodes@.len() - i,
        {
            if self.nodes[i].dirty {
                insert_sorted(&mut segs, self.nodes[i].segment_id);
            }
            proof {
                assert forall|x: u16|
                    segs@.contains(x) implies exists|k: int|
                        0 <= k < i + 1 && (#[trigger] self.nodes@[k]).dirty
                            && self.nodes@[k].segment_id == x by {
                    if !(self.nodes@[i as int].dirty && self.nodes@[i as int].segment_id == x) {
                        let k = choose|k: int|
                            0 <= k < i && (#[trigger] self.nodes@[k]).dirty
                                && self.nodes@[k].segment_id == x;
                        assert(self.nodes@[k].dirty);
                    }
                }
                assert forall|x: u16|
                    (exists|k: int|
                        0 <= k < i + 1 && (#[trigger] self.nodes@[k]).dirty
                            && self.nodes@[k].segment_id == x) implies segs@.contains(x) by {
                    let k = choose|k: int|
                        0 <= k < i + 1 && (#[trigger] self.nodes@[k]).dirty
                            && self.nodes@[k].segment_id == x;
                    if k < i {
                        assert(self.nodes@[k].dirty);
                    }
                }
            }
            i += 1;
        }
        segs
    }
}

/// Each element is smaller than the next.
pub open spec fn strictly_increasing(s: Seq<u16>) -> bool {
    forall|a: int, b: int| 0 <= a < b < s.len() ==> s[a] < s[b]
}

/// Insert `x` into a strictly increasing vector unless it is there already.
fn insert_sorted(segs: &mut Vec<u16>, x: u16)
    requires
        strictly_increasing(old(segs)@),
    ensures
        strictly_increasing(final(segs)@),
        final(segs)@.contains(x),
        forall|y: u16| old(segs)@.contains(y) ==> #[trigger] final(segs)@.contains(y),
        forall|y: u16| #[trigger] final(segs)@.contains(y) ==> old(segs)@.contains(y) || y == x,
{
    let mut j: usize = 0;
    while j < segs.len() && segs[j] < x
        invariant
            j <= segs@.len(),
            segs@ == old(segs)@,
            forall|k: int| 0 <= k < j ==> segs@[k] < x,
        decreases segs@.len() - j,
    {
        j += 1;
    }
    if j < segs.len() && segs[j] == x {
        assert(segs@.contains(x));
        return;
    }
    let ghost before = segs@;
    segs.insert(j, x);
    proof {
        assert(segs@ =~= before.take(j as int).push(x) + before.skip(j as int));
        assert forall|a: int, b: int| 0 <= a < b < segs@.len() implies segs@[a] < segs@[b] by {
            if b < j {
            } else if b == j {
            } else if a < j {
                assert(before[a] < x);
                assert(segs@[b] == before[b - 1]);
                assert(before[j as int] >= x);
                if b - 1 > j {
                    assert(before[j as int] < before[b - 1]);
                }
            } else if a == j {
                assert(segs@[b] == before[b - 1]);
                assert(before[j as int] > x);
                if b - 1 > j {
                    assert(before[j as int] < before[b - 1]);
                }
            } else {
                assert(segs@[a] == before[a - 1]);
                assert(segs@[b] == before[b - 1]);
            }
        }
        assert forall|y: u16| segs@.contains(y) implies (before.contains(y) || y == x) by {
            let k = choose|k: int| 0 <= k < segs@.len() && segs@[k] == y;
            if k < j {
                assert(before[k] == y);
            } else if k > j {
                assert(before[k - 1] == y);
            }
        }
        assert(segs@[j as int] == x);
        assert(segs@.contains(x));
        assert forall|y: u16| before.contains(y) || y == x implies segs@.contains(y) by {
            if y == x {
                assert(segs@[j as int] == y);
            } else {
                let k = choose|k: int| 0 <= k < before.len() && before[k] == y;
                if k < j {
                    assert(segs@[k] == y);
                } else {
                    assert(segs@[k + 1] == y);
                }
            }
        }
    }
}

impl Default for SceneGraph {
    fn default() -> (res: Self)
        ensures
            res.nodes@ == Seq::<SceneNode>::empty(),
    {
        Self::new()
    }
}

proof fn lemma_ids_where_len(s: Seq<SceneNode>, keep: spec_fn(SceneNode) -> bool)
    ensures
        ids_where(s, keep).len() <= s.len(),
    decreases s.len(),
{
    if s.len() > 0 {
        lemma_ids_where_len(s.drop_last(), keep);
    }
}

} // verus!
