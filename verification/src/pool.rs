//! An object pool: released items are kept on a free list and handed out
//! again before new ones are created.

use vstd::prelude::*;

verus! {

/// A pool of reusable items.
#[derive(Debug, Clone)]
pub struct Pool<T> {
    free_list: Vec<T>,
}

impl<T> View for Pool<T> {
    type V = Seq<T>;

    /// The free list, the last item being the next handed out.
    closed spec fn view(&self) -> Seq<T> {
        self.free_list@
    }
}

impl<T: Default> Pool<T> {
    /// A pool pre-filled with `pre_allocate` default items.
    pub fn new(pre_allocate: usize) -> (res: Self)
        ensures
            res@.len() == pre_allocate,
            forall|i: int| 0 <= i < res@.len() ==> call_ensures(T::default, (), #[trigger] res@[i]),
    {
        let mut pool = Pool { free_list: Vec::with_capacity(pre_allocate) };
        let mut i: usize = 0;
        while i < pre_allocate
            invariant
                i <= pre_allocate,
                pool@.len() == i,
                forall|j: int| 0 <= j < pool@.len() ==> call_ensures(T::default, (), #[trigger] pool@[j]),
            decreases pre_allocate - i,
        {
            pool.free_list.push(T::default());
            i += 1;
        }
        pool
    }

    /// Take an item: the most recently released one, or a new default item
    /// when the pool is empty.
    pub fn acquire(&mut self) -> (res: T)
        ensures
            old(self)@.len() > 0 ==> res == old(self)@.last() && final(self)@
                == old(self)@.drop_last(),
            old(self)@.len() == 0 ==> final(self)@ == old(self)@ && call_ensures(T::default, (), res),
    {
        match self.free_list.pop() {
            Some(item) => item,
            None => T::default(),
        }
    }

    /// Return an item to the pool.
    pub fn release(&mut self, item: T)
        ensures
            final(self)@ == old(self)@.push(item),
    {
        self.free_list.push(item);
    }

    /// The number of items available.
    pub fn len(&self) -> (res: usize)
        ensures
            res == self@.len(),
    {
        self.free_list.len()
    }

    /// Whether no item is available.
    pub fn is_empty(&self) -> (res: bool)
        ensures
            res == (self@.len() == 0),
    {
        self.free_list.len() == 0
    }

    /// The number of items available.
    pub fn available(&self) -> (res: usize)
        ensures
            res == self@.len(),
    {
        self.free_list.len()
    }
}

/// Releasing an item and acquiring one gives the same item back.
pub proof fn lemma_release_then_acquire<T>(free: Seq<T>, item: T)
    ensures
        free.push(item).len() > 0,
        free.push(item).last() == item,
        free.push(item).drop_last() == free,
{
    assert(free.push(item).drop_last() =~= free);
}

} // verus!
