//! The GPU buffer pool's bookkeeping: released vertex and index buffers are
//! kept (at most eight of each) and reused for data that fits. Buffers
//! are the renderer's handles; the renderer creates them and writes the
//! padded data into them.

use vstd::prelude::*;

verus! {

/// The alignment that GPU buffer copies need, in bytes.
pub const COPY_BUFFER_ALIGNMENT: usize = 4;

/// The most free buffers kept of each kind.
pub const MAX_FREE_BUFFERS: usize = 8;

/// The buffer size data of `len` bytes needs: at least one alignment
/// unit, rounded up to a whole number of units.
pub open spec fn spec_aligned_capacity(len: nat) -> nat {
    let n = if len < COPY_BUFFER_ALIGNMENT { COPY_BUFFER_ALIGNMENT as nat } else { len };
    (((n + COPY_BUFFER_ALIGNMENT - 1) / (COPY_BUFFER_ALIGNMENT as int)) * (
    COPY_BUFFER_ALIGNMENT as int)) as nat
}

/// The buffer size `len` bytes of data need (see `spec_aligned_capacity`).
pub fn aligned_capacity(len: usize) -> (res: usize)
    requires
        len <= usize::MAX - COPY_BUFFER_ALIGNMENT,
    ensures
        res == spec_aligned_capacity(len as nat),
        res >= len,
        res % COPY_BUFFER_ALIGNMENT == 0,
{
    let n = if len < COPY_BUFFER_ALIGNMENT { COPY_BUFFER_ALIGNMENT } else { len };
    let res = ((n + COPY_BUFFER_ALIGNMENT - 1) / COPY_BUFFER_ALIGNMENT) * COPY_BUFFER_ALIGNMENT;
    assert(res >= n && res % 4 == 0) by (nonlinear_arith)
        requires
            res == ((n + 3) / 4) * 4,
            n >= 4,
    ;
    res
}

/// The data zero-padded to `required_capacity` bytes.
pub fn build_aligned_payload(data: &[u8], required_capacity: usize) -> (res: Vec<u8>)
    ensures
        res@ == if data@.len() < required_capacity {
            data@ + Seq::new((required_capacity - data@.len()) as nat, |i: int| 0u8)
        } else {
            data@
        },
{
    let mut payload: Vec<u8> = Vec::new();
    let mut i: usize = 0;
    while i < data.len()
        invariant
            i <= data@.len(),
            payload@ == data@.take(i as int),
        decreases data@.len() - i,
    {
        payload.push(data[i]);
        i += 1;
        assert(payload@ =~= data@.take(i as int));
    }
    assert(data@.take(i as int) =~= data@);
    let ghost copied = payload@;
    while payload.len() < required_capacity
        invariant
            data@.len() <= payload@.len() <= if data@.len() < required_capacity {
                required_capacity as int
            } else {
                data@.len() as int
            },
            payload@ == data@ + Seq::new((payload@.len() - data@.len()) as nat, |i: int| 0u8),
        decreases required_capacity - payload@.len(),
    {
        payload.push(0);
        assert(payload@ =~= data@ + Seq::new((payload@.len() - data@.len()) as nat, |i: int| 0u8));
    }
    assert(data@ + Seq::new(0, |i: int| 0u8) =~= data@);
    payload
}

/// A free buffer and its size in bytes.
#[derive(Debug)]
pub struct PooledBuffer<B> {
    pub buffer: B,
    pub capacity: usize,
}

/// What acquiring a buffer comes to: a free buffer to reuse, or a new
/// buffer of the given size to create.
#[derive(Debug)]
pub enum Acquired<B> {
    Reused(B),
    Create(usize),
}

/// The position of the first free buffer of at least `need` bytes.
pub open spec fn first_fit<B>(free: Seq<PooledBuffer<B>>, need: nat) -> Option<int> {
    if exists|k: int| 0 <= k < free.len() && free[k].capacity >= need {
        Some(choose|k: int| 0 <= k < free.len() && free[k].capacity >= need && forall|j: int| 0 <= j < k ==> free[j].capacity < need)
    } else {
        None
    }
}

/// Free vertex and index buffers, oldest first.
pub struct BufferPool<B> {
    pub free_vertex_buffers: Vec<PooledBuffer<B>>,
    pub free_index_buffers: Vec<PooledBuffer<B>>,
}

/// Take the first free buffer of at least `need` bytes, or say that one
/// of `need` bytes must be created.
fn take_first_fit<B>(free: &mut Vec<PooledBuffer<B>>, need: usize) -> (res: Acquired<B>)
    ensures
        match first_fit(old(free)@, need as nat) {
            Some(k) => res == Acquired::Reused(old(free)@[k].buffer) && final(free)@ == old(free)@.remove(k),
            None => res == Acquired::<B>::Create(need) && final(free)@ == old(free)@,
        },
{
    let mut k: usize = 0;
    while k < free.len()
        invariant
            k <= free@.len(),
            free@ == old(free)@,
            forall|j: int| 0 <= j < k ==> free@[j].capacity < need,
        decreases free@.len() - k,
    {
        if free[k].capacity >= need {
            proof {
                let s = free@;
                let w = choose|w: int|
                    0 <= w < s.len() && s[w].capacity >= need && forall|j: int|
                        0 <= j < w ==> s[j].capacity < need;
                if w < k {
                    assert(s[w].capacity < need);
                }
                if k < w {
                    assert(s[k as int].capacity < need);
                }
            }
            let pooled = free.remove(k);
            return Acquired::Reused(pooled.buffer);
        }
        k += 1;
    }
    Acquired::Create(need)
}

impl<B> BufferPool<B> {
    /// No free buffers.
    pub fn new() -> (res: Self)
        ensures
            res.free_vertex_buffers@.len() == 0,
            res.free_index_buffers@.len() == 0,
    {
        BufferPool { free_vertex_buffers: Vec::new(), free_index_buffers: Vec::new() }
    }

    /// A vertex buffer for `data`: the first free one large enough, or a
    /// new one of the aligned size; and the data padded to that size,
    /// to write into it.
    pub fn acquire_vertex_buffer(&mut self, data: &[u8]) -> (res: (Acquired<B>, Vec<u8>))
        requires
            data@.len() <= usize::MAX - COPY_BUFFER_ALIGNMENT,
        ensures
            final(self).free_index_buffers@ == old(self).free_index_buffers@,
            ({
                let need = spec_aligned_capacity(data@.len());
                &&& res.1@ == data@ + Seq::new((need - data@.len()) as nat, |i: int| 0u8)
                &&& match first_fit(old(self).free_vertex_buffers@, need) {
                    Some(k) => res.0 == Acquired::Reused(old(self).free_vertex_buffers@[k].buffer)
                        && final(self).free_vertex_buffers@ == old(self).free_vertex_buffers@.remove(k),
                    None => res.0 == Acquired::<B>::Create(need as usize)
                        && final(self).free_vertex_buffers@ == old(self).free_vertex_buffers@,
                }
            }),
    {
        let need = aligned_capacity(data.len());
        let payload = build_aligned_payload(data, need);
        (take_first_fit(&mut self.free_vertex_buffers, need), payload)
    }

    /// An index buffer for `data` (as for vertex buffers).
    pub fn acquire_index_buffer(&mut self, data: &[u8]) -> (res: (Acquired<B>, Vec<u8>))
        requires
            data@.len() <= usize::MAX - COPY_BUFFER_ALIGNMENT,
        ensures
            final(self).free_vertex_buffers@ == old(self).free_vertex_buffers@,
            ({
                let need = spec_aligned_capacity(data@.len());
                &&& res.1@ == data@ + Seq::new((need - data@.len()) as nat, |i: int| 0u8)
                &&& match first_fit(old(self).free_index_buffers@, need) {
                    Some(k) => res.0 == Acquired::Reused(old(self).free_index_buffers@[k].buffer)
                        && final(self).free_index_buffers@ == old(self).free_index_buffers@.remove(k),
                    None => res.0 == Acquired::<B>::Create(need as usize)
                        && final(self).free_index_buffers@ == old(self).free_index_buffers@,
                }
            }),
    {
        let need = aligned_capacity(data.len());
        let payload = build_aligned_payload(data, need);
        (take_first_fit(&mut self.free_index_buffers, need), payload)
    }

    /// Keep a released vertex buffer of `capacity` bytes, unless eight are
    /// kept already.
    pub fn release_vertex_buffer(&mut self, buffer: B, capacity: usize)
        ensures
            final(self).free_index_buffers@ == old(self).free_index_buffers@,
            final(self).free_vertex_buffers@ == if old(self).free_vertex_buffers@.len()
                >= MAX_FREE_BUFFERS {
                old(self).free_vertex_buffers@
            } else {
                old(self).free_vertex_buffers@.push(PooledBuffer { buffer, capacity })
            },
    {
        if self.free_vertex_buffers.len() >= MAX_FREE_BUFFERS {
            return;
        }
        self.free_vertex_buffers.push(PooledBuffer { buffer, capacity });
    }

    /// Keep a released index buffer of `capacity` bytes, unless eight are
    /// kept already.
    pub fn release_index_buffer(&mut self, buffer: B, capacity: usize)
        ensures
            final(self).free_vertex_buffers@ == old(self).free_vertex_buffers@,
            final(self).free_index_buffers@ == if old(self).free_index_buffers@.len()
                >= MAX_FREE_BUFFERS {
                old(self).free_index_buffers@
            } else {
                old(self).free_index_buffers@.push(PooledBuffer { buffer, capacity })
            },
    {
        if self.free_index_buffers.len() >= MAX_FREE_BUFFERS {
            return;
        }
        self.free_index_buffers.push(PooledBuffer { buffer, capacity });
    }
}

} // verus!
