//! A per-frame bump allocator over a fixed byte buffer: allocations take
//! consecutive ranges and a reset frees them all at once.

use vstd::prelude::*;

verus! {

/// `&mut v[a..b]`: the bytes of the range, borrowed mutably; writes through
/// the slice land in that range of the vector and nowhere else.
#[verifier::external_body]
fn range_mut(v: &mut Vec<u8>, a: usize, b: usize) -> (res: &mut [u8])
    requires
        a <= b <= old(v)@.len(),
    ensures
        res@ == old(v)@.subrange(a as int, b as int),
        final(v)@ == old(v)@.take(a as int) + final(res)@ + old(v)@.skip(b as int),
        final(res)@.len() == b - a,
{
    &mut v[a..b]
}

/// Putting any `m` of length `b - a` in place of `v[a..b]` keeps the bytes
/// before `a` and from `b` on.
proof fn lemma_splice_keeps_outside(v: Seq<u8>, a: int, b: int)
    requires
        0 <= a <= b <= v.len(),
    ensures
        forall|m: Seq<u8>|
            m.len() == b - a ==> (#[trigger] (v.take(a) + m + v.skip(b))).take(a) == v.take(a) && (v.take(a) + m
                + v.skip(b)).skip(b) == v.skip(b),
{
    assert forall|m: Seq<u8>| m.len() == b - a implies (#[trigger] (v.take(a) + m + v.skip(b))).take(a) == v.take(a)
        && (v.take(a) + m + v.skip(b)).skip(b) == v.skip(b) by {
        assert((v.take(a) + m + v.skip(b)).take(a) =~= v.take(a));
        assert((v.take(a) + m + v.skip(b)).skip(b) =~= v.skip(b));
    }
}

/// A bump allocator over `capacity` bytes.
#[derive(Debug, Clone)]
pub struct FrameArena {
    buffer: Vec<u8>,
    offset: usize,
    capacity: usize,
}

impl FrameArena {
    /// The buffer holds `capacity` bytes and the offset lies within it.
    pub closed spec fn wf(&self) -> bool {
        &&& self.buffer@.len() == self.capacity
        &&& self.offset <= self.capacity
    }

    /// Bytes allocated so far.
    pub closed spec fn spec_used(&self) -> nat {
        self.offset as nat
    }

    /// The arena's bytes.
    pub closed spec fn bytes(&self) -> Seq<u8> {
        self.buffer@
    }

    /// Total bytes the arena can hand out.
    pub closed spec fn spec_capacity(&self) -> nat {
        self.capacity as nat
    }

    /// An empty arena of `capacity` zeroed bytes.
    pub fn new(capacity: usize) -> (res: Self)
        ensures
            res.wf(),
            res.spec_used() == 0,
            res.spec_capacity() == capacity,
    {
        FrameArena { buffer: vec![0u8; capacity], offset: 0, capacity }
    }

    /// Allocate `size` bytes after the previous allocation: the arena's
    /// bytes from the old offset on, so the slices handed out since the last
    /// reset never overlap; `None` when they do not fit in the remaining
    /// capacity.
    pub fn allocate(&mut self, size: usize) -> (res: Option<&mut [u8]>)
        requires
            old(self).wf(),
        ensures
            final(self).wf(),
            final(self).spec_capacity() == old(self).spec_capacity(),
            old(self).spec_used() + size > old(self).spec_capacity() ==> res is None && final(self).spec_used() == old(self).spec_used(),
            old(self).spec_used() + size <= old(self).spec_capacity() ==> res is Some
                && final(self).spec_used() == old(self).spec_used() + size,
            res matches Some(r) ==> r@.len() == size,
            res matches Some(r) ==> r@ == old(self).bytes().subrange(
                old(self).spec_used() as int,
                old(self).spec_used() + size,
            ),
            res is Some ==> final(self).bytes().take(old(self).spec_used() as int) == old(self).bytes().take(
                old(self).spec_used() as int,
            ) && final(self).bytes().skip(old(self).spec_used() + size) == old(self).bytes().skip(
                old(self).spec_used() + size,
            ),
            res is None ==> final(self).bytes() == old(self).bytes(),
    {
        if size > self.capacity - self.offset {
            return None;
        }
        let start = self.offset;
        self.offset += size;
        let end = self.offset;
        let ghost before = self.buffer@;
        proof {
            lemma_splice_keeps_outside(before, start as int, end as int);
        }
        Some(range_mut(&mut self.buffer, start, end))
    }

    /// Free every allocation at once.
    pub fn reset(&mut self)
        requires
            old(self).wf(),
        ensures
            final(self).wf(),
            final(self).spec_used() == 0,
            final(self).spec_capacity() == old(self).spec_capacity(),
    {
        self.offset = 0;
    }

    /// Bytes allocated so far.
    pub fn used(&self) -> (res: usize)
        ensures
            res == self.spec_used(),
    {
        self.offset
    }

    /// Bytes still available.
    pub fn remaining(&self) -> (res: usize)
        requires
            self.wf(),
        ensures
            res == self.spec_capacity() - self.spec_used(),
    {
        self.capacity - self.offset
    }
}

} // verus!
