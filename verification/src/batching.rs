//! Batch planning: consecutive render commands of the same kind (text, or
//! anything else) go into one batch, so the renderer switches pipelines
//! only where the kind changes.

use vstd::prelude::*;

verus! {

/// The batches laid end to end.
pub open spec fn joined(batches: Seq<Seq<usize>>) -> Seq<usize>
    decreases batches.len(),
{
    if batches.len() == 0 {
        Seq::empty()
    } else {
        joined(batches.drop_last()) + batches.last()
    }
}

/// The positions `0..n` in order.
pub open spec fn positions(n: nat) -> Seq<usize> {
    Seq::new(n, |i: int| i as usize)
}

/// `batches` splits the commands, whose kinds `is_text` gives, into runs:
/// together they list every command once, in order; no batch is empty;
/// the commands of a batch are of one kind; and neighbouring batches are
/// of different kinds.
pub open spec fn splits_into_runs(batches: Seq<Seq<usize>>, is_text: Seq<bool>) -> bool {
    &&& joined(batches) == positions(is_text.len())
    &&& forall|k: int| 0 <= k < batches.len() ==> (#[trigger] batches[k]).len() > 0
    &&& forall|k: int, j: int|
        0 <= k < batches.len() && 0 <= j < batches[k].len() ==> is_text[(
        #[trigger] batches[k][j]) as int] == is_text[batches[k][0] as int]
    &&& forall|k: int|
        0 < k < batches.len() ==> is_text[(#[trigger] batches[k])[0] as int] != is_text[batches[k
            - 1][0] as int]
}

/// The contents of each batch.
pub open spec fn batch_views(batches: Seq<Vec<usize>>) -> Seq<Seq<usize>> {
    batches.map_values(|b: Vec<usize>| b@)
}

/// Plans render batches.
pub struct BatchPlanner;

impl BatchPlanner {
    /// Group the commands, given by whether each is a text command, into
    /// batches of consecutive commands of the same kind. A batch lists the
    /// positions of its commands.
    pub fn plan(is_text: &[bool]) -> (batches: Vec<Vec<usize>>)
        ensures
            splits_into_runs(batch_views(batches@), is_text@),
    {
        let ghost flags = is_text@;
        let mut batches: Vec<Vec<usize>> = Vec::new();
        let mut current: Vec<usize> = Vec::new();
        let mut last_is_text = false;
        let mut i: usize = 0;
        while i < is_text.len()
            invariant
                i <= flags.len(),
                flags == is_text@,
                i == 0 ==> batches@.len() == 0 && current@.len() == 0,
                i > 0 ==> current@.len() > 0 && last_is_text == flags[i - 1] && splits_into_runs(
                    batch_views(batches@).push(current@),
                    flags.take(i as int),
                ),
            decreases flags.len() - i,
        {
            let ghost before = batch_views(batches@).push(current@);
            let is_t = is_text[i];
            if i == 0 || is_t != last_is_text {
                if i > 0 {
                    batches.push(current);
                }
                current = Vec::new();
                current.push(i);
                last_is_text = is_t;
                proof {
                    let now = batch_views(batches@).push(current@);
                    let small = flags.take(i as int);
                    let big = flags.take(i as int + 1);
                    if i > 0 {
                        assert(batch_views(batches@) =~= before);
                        lemma_entries_below(before, i as nat);
                        assert(joined(before) == positions(i as nat));
                    } else {
                        assert(batch_views(batches@) =~= Seq::<Seq<usize>>::empty());
                    }
                    assert(now.drop_last() =~= batch_views(batches@));
                    assert(joined(now) == joined(batch_views(batches@)) + seq![i]);
                    assert(joined(now) =~= positions(big.len()));
                    assert forall|k: int, j: int|
                        0 <= k < now.len() && 0 <= j < now[k].len() implies big[(
                        #[trigger] now[k][j]) as int] == big[now[k][0] as int] by {
                        if k < now.len() - 1 {
                            assert(now[k] == before[k]);
                            assert(small[before[k][j] as int] == small[before[k][0] as int]);
                        }
                    }
                    assert forall|k: int| 0 < k < now.len() implies big[(
                    #[trigger] now[k])[0] as int] != big[now[k - 1][0] as int] by {
                        if k < now.len() - 1 {
                            assert(now[k] == before[k]);
                            assert(now[k - 1] == before[k - 1]);
                        } else {
                            assert(now[k - 1] == before[k - 1]);
                            assert(before[k - 1].len() > 0);
                            let m = before[k - 1].len() - 1;
                            assert(small[before[k - 1][m] as int] == small[before[k - 1][0] as int]);
                            lemma_last_of_joined(before);
                        }
                    }
                    assert forall|k: int| 0 <= k < now.len() implies (#[trigger] now[k]).len() > 0 by {
                        if k < now.len() - 1 {
                            assert(now[k] == before[k]);
                        }
                    }
                }
            } else {
                current.push(i);
                proof {
                    let now = batch_views(batches@).push(current@);
                    assert(now.drop_last() =~= before.drop_last());
                    let small = flags.take(i as int);
                    let big = flags.take(i as int + 1);
                    lemma_entries_below(before, i as nat);
                    assert(joined(before) == joined(before.drop_last()) + before.last());
                    assert(joined(now) == joined(before.drop_last()) + current@);
                    assert(current@ == before.last().push(i));
                    assert(joined(now) =~= joined(before).push(i));
                    assert(joined(now) =~= positions(big.len()));
                    assert forall|k: int, j: int|
                        0 <= k < now.len() && 0 <= j < now[k].len() implies big[(
                        #[trigger] now[k][j]) as int] == big[now[k][0] as int] by {
                        if k < now.len() - 1 {
                            assert(now[k] == before[k]);
                            assert(small[before[k][j] as int] == small[before[k][0] as int]);
                        } else if j < now[k].len() - 1 {
                            assert(now[k][j] == before[k][j]);
                            assert(now[k][0] == before[k][0]);
                            assert(small[before[k][j] as int] == small[before[k][0] as int]);
                        } else {
                            assert(now[k][0] == before[k][0]);
                            let m = before[k].len() - 1;
                            assert(small[before[k][m] as int] == small[before[k][0] as int]);
                            lemma_last_of_joined(before);
                        }
                    }
                    assert forall|k: int| 0 < k < now.len() implies big[(
                    #[trigger] now[k])[0] as int] != big[now[k - 1][0] as int] by {
                        assert(now[k - 1] == before[k - 1]);
                        assert(now[k][0] == before[k][0]);
                    }
                    assert forall|k: int| 0 <= k < now.len() implies (#[trigger] now[k]).len() > 0 by {
                        if k < now.len() - 1 {
                            assert(now[k] == before[k]);
                        }
                    }
                }
            }
            i += 1;
        }
        assert(flags.take(flags.len() as int) =~= flags);
        if i > 0 {
            let ghost before = batch_views(batches@).push(current@);
            batches.push(current);
            assert(batch_views(batches@) =~= before);
        } else {
            assert(joined(batch_views(batches@)) =~= positions(0));
        }
        batches
    }
}

/// Every entry of a batch is listed in the batches laid end to end.
proof fn lemma_in_joined(batches: Seq<Seq<usize>>, k: int, j: int)
    requires
        0 <= k < batches.len(),
        0 <= j < batches[k].len(),
    ensures
        joined(batches).contains(batches[k][j]),
    decreases batches.len(),
{
    let rest = batches.drop_last();
    if k == batches.len() - 1 {
        assert(joined(batches)[joined(rest).len() + j] == batches[k][j]);
    } else {
        lemma_in_joined(rest, k, j);
        let m = choose|m: int| 0 <= m < joined(rest).len() && joined(rest)[m] == batches[k][j];
        assert(joined(batches)[m] == batches[k][j]);
    }
}

/// When the batches list the positions below `n`, every entry is below `n`.
proof fn lemma_entries_below(batches: Seq<Seq<usize>>, n: nat)
    requires
        joined(batches) == positions(n),
    ensures
        forall|k: int, j: int|
            0 <= k < batches.len() && 0 <= j < batches[k].len() ==> (#[trigger] batches[k][j]) < n,
{
    assert forall|k: int, j: int|
        0 <= k < batches.len() && 0 <= j < batches[k].len() implies (#[trigger] batches[k][j]) < n by {
        lemma_in_joined(batches, k, j);
    }
}

/// The last position listed is the last one of the last batch.
proof fn lemma_last_of_joined(batches: Seq<Seq<usize>>)
    requires
        batches.len() > 0,
        batches.last().len() > 0,
    ensures
        joined(batches).len() >= batches.last().len(),
        joined(batches)[joined(batches).len() - 1] == batches.last()[batches.last().len() - 1],
{
}

} // verus!
