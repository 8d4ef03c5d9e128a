//! Activity ranking: at each tick, the cells are ordered by projected
//! activity (descending) with exact ties broken toward the smaller cell
//! index, and the best `MOST_ACTIVE_TIMELINES_COUNT` are selected.
//!
//! The projected activities are non-negative IEEE double values computed by
//! the driver; their bit patterns, compared as unsigned integers, order
//! exactly as the values do, so the selection works on plain `u64` keys.

use vstd::prelude::*;

use crate::MOST_ACTIVE_TIMELINES_COUNT;

verus! {

/// The strict ranking order: cell `i` ranks above cell `j` when its key is
/// larger, or when the keys are exactly equal and `i` is the smaller index.
pub open spec fn spec_better(keys: Seq<u64>, i: int, j: int) -> bool {
    ||| keys[i] > keys[j]
    ||| (keys[i] == keys[j] && i < j)
}

/// Every selected cell ranks above cell `i`.
pub open spec fn spec_dominates(keys: Seq<u64>, r: Seq<usize>, i: int) -> bool {
    forall|a: int| 0 <= a < r.len() ==> spec_better(keys, #[trigger] r[a] as int, i)
}

/// What it means for `r` to be a correct ranking result: all entries are
/// cell indices, they are strictly ordered by rank, and every cell left out
/// ranks below every cell selected.  Together these determine `r` uniquely.
pub open spec fn spec_top_selection(keys: Seq<u64>, r: Seq<usize>) -> bool {
    &&& forall|a: int| 0 <= a < r.len() ==> (#[trigger] r[a]) < keys.len()
    &&& forall|a: int, b: int|
        0 <= a < b < r.len() ==> spec_better(keys, #[trigger] r[a] as int, #[trigger] r[b] as int)
    &&& forall|i: int|
        0 <= i < keys.len() && !(#[trigger] r.contains(i as usize)) ==> spec_dominates(keys, r, i)
}

/// Select the `MOST_ACTIVE_TIMELINES_COUNT` best-ranked cells, best first.
pub fn select_most_active(keys: &Vec<u64>) -> (r: Vec<usize>)
    requires
        keys@.len() >= MOST_ACTIVE_TIMELINES_COUNT,
    ensures
        r@.len() == MOST_ACTIVE_TIMELINES_COUNT,
        spec_top_selection(keys@, r@),
{
    let k_count = MOST_ACTIVE_TIMELINES_COUNT;
    let mut top: Vec<usize> = Vec::new();
    let mut j: usize = 0;
    while j < keys.len()
        invariant
            keys@.len() >= k_count,
            k_count == MOST_ACTIVE_TIMELINES_COUNT,
            j <= keys@.len(),
            top@.len() == if j < k_count { j as int } else { k_count as int },
            forall|a: int| 0 <= a < top@.len() ==> (#[trigger] top@[a]) < j,
            forall|a: int, b: int|
                0 <= a < b < top@.len() ==> spec_better(
                    keys@,
                    #[trigger] top@[a] as int,
                    #[trigger] top@[b] as int,
                ),
            forall|i: int|
                0 <= i < j && top@.len() < k_count ==> #[trigger] top@.contains(i as usize),
            forall|i: int|
                0 <= i < j && !(#[trigger] top@.contains(i as usize)) ==> spec_dominates(
                    keys@,
                    top@,
                    i,
                ),
        decreases keys@.len() - j,
    {
        let ghost old_top = top@;
        let mut pos: usize = 0;
        while pos < top.len() && keys[top[pos]] >= keys[j]
            invariant
                top@ == old_top,
                j < keys@.len(),
                forall|a: int| 0 <= a < top@.len() ==> (#[trigger] top@[a]) < j,
                pos <= top@.len(),
                forall|a: int| 0 <= a < pos ==> spec_better(keys@, #[trigger] top@[a] as int, j as int),
            decreases top@.len() - pos,
        {
            assert(spec_better(keys@, top@[pos as int] as int, j as int));
            pos += 1;
        }
        proof {
            // Past the insertion point, `j` outranks everything: its key is
            // strictly larger than the key at `pos`, which outranks the rest.
            if pos < top@.len() {
                assert(keys@[top@[pos as int] as int] < keys@[j as int]);
                assert forall|b: int| pos <= b < top@.len() implies spec_better(
                    keys@,
                    j as int,
                    top@[b] as int,
                ) by {
                    if pos < b {
                        assert(spec_better(keys@, top@[pos as int] as int, top@[b] as int));
                    }
                }
            }
        }
        if top.len() < k_count {
            top.insert(pos, j);
            proof {
                old_top.insert_ensures(pos as int, j);
                assert forall|i: int|
                    0 <= i < j + 1 && top@.len() < k_count implies #[trigger] top@.contains(
                    i as usize,
                ) by {
                    if i == j {
                        assert(top@[pos as int] == j as usize);
                    } else {
                        assert(old_top.contains(i as usize));
                        let a = choose|a: int| 0 <= a < old_top.len() && old_top[a] == i as usize;
                        if a < pos {
                            assert(top@[a] == i as usize);
                        } else {
                            assert(top@[a + 1] == i as usize);
                        }
                    }
                }
                assert forall|i: int|
                    0 <= i < j + 1 && !(#[trigger] top@.contains(i as usize))
                    implies spec_dominates(keys@, top@, i) by {
                    // The selection is not yet full, so every index seen so
                    // far is in it; nothing is left out.
                    if i == j {
                        assert(top@[pos as int] == j as usize);
                        assert(top@.contains(j as usize));
                    } else {
                        assert(old_top.len() < k_count);
                        assert(old_top.contains(i as usize));
                        let a = choose|a: int| 0 <= a < old_top.len() && old_top[a] == i as usize;
                        if a < pos {
                            assert(top@[a] == i as usize);
                        } else {
                            assert(top@[a + 1] == i as usize);
                        }
                        assert(top@.contains(i as usize));
                    }
                }
            }
        } else if pos < k_count {
            let ghost dropped = old_top[k_count - 1] as int;
            top.insert(pos, j);
            proof {
                old_top.insert_ensures(pos as int, j);
            }
            let _ = top.pop();
            proof {
                let new_top = top@;
                assert(new_top =~= old_top.insert(pos as int, j).drop_last());
                // Index map: new_top[a] == old_top[a] for a < pos, new_top[pos] == j,
                // new_top[a] == old_top[a - 1] for pos < a < k_count.
                assert forall|a: int| 0 <= a < new_top.len() implies (#[trigger] new_top[a]) < j + 1 by {
                    if a < pos {
                        assert(new_top[a] == old_top[a]);
                    } else if a > pos {
                        assert(new_top[a] == old_top[a - 1]);
                    }
                }
                assert(spec_better(keys@, j as int, dropped));
                assert forall|a: int, b: int|
                    0 <= a < b < new_top.len() implies spec_better(
                    keys@,
                    #[trigger] new_top[a] as int,
                    #[trigger] new_top[b] as int,
                ) by {
                    if a < pos && b > pos {
                        assert(new_top[a] == old_top[a] && new_top[b] == old_top[b - 1]);
                    } else if a == pos {
                        assert(new_top[b] == old_top[b - 1]);
                        assert(spec_better(keys@, j as int, old_top[b - 1] as int));
                    } else if b == pos {
                        assert(new_top[a] == old_top[a]);
                    }
                }
                assert forall|i: int|
                    0 <= i < j + 1 && !(#[trigger] new_top.contains(i as usize))
                    implies spec_dominates(keys@, new_top, i) by {
                    // Whoever is now left out was either just evicted, is the
                    // new index and was never inserted, or was already left
                    // out before; in each case everything kept outranks it.
                    let evicted = !new_top.contains(old_top[k_count - 1]);
                    if i == j {
                        assert(new_top[pos as int] == j as usize);
                        assert(new_top.contains(j as usize));
                    } else {
                        let in_old = old_top.contains(i as usize);
                        if in_old {
                            let a = choose|a: int|
                                0 <= a < old_top.len() && old_top[a] == i as usize;
                            if a < pos {
                                assert(new_top[a] == i as usize);
                                assert(new_top.contains(i as usize));
                            } else if a < k_count - 1 {
                                assert(new_top[a + 1] == i as usize);
                                assert(new_top.contains(i as usize));
                            } else {
                                // `i` is the evicted worst entry.
                                assert(i == dropped);
                            }
                        }
                        assert(i == dropped || spec_dominates(keys@, old_top, i));
                        if i != dropped {
                            assert(spec_better(keys@, dropped, i));
                        }
                        assert forall|a: int| 0 <= a < new_top.len() implies spec_better(
                            keys@,
                            #[trigger] new_top[a] as int,
                            i,
                        ) by {
                            if a < pos {
                                assert(new_top[a] == old_top[a]);
                                assert(spec_better(keys@, old_top[a] as int, i));
                            } else if a > pos {
                                assert(new_top[a] == old_top[a - 1]);
                                assert(spec_better(keys@, old_top[a - 1] as int, i));
                            } else {
                                // `j` outranks the dropped entry, which in
                                // turn outranks `i`.
                                assert(spec_better(keys@, j as int, dropped));
                                if i != dropped {
                                    assert(spec_better(keys@, dropped, i));
                                }
                            }
                        }
                    }
                }
            }
        } else {
            proof {
                assert(pos == top@.len());
                assert forall|i: int|
                    0 <= i < j + 1 && !(#[trigger] top@.contains(i as usize))
                    implies spec_dominates(keys@, top@, i) by {
                    if i == j {
                        assert forall|a: int| 0 <= a < top@.len() implies spec_better(
                            keys@,
                            #[trigger] top@[a] as int,
                            i,
                        ) by {}
                    }
                }
            }
        }
        j += 1;
    }
    top
}

/// Law: when two cells carry exactly equal keys and the one with the larger
/// index was selected, the one with the smaller index was selected too.
pub proof fn lemma_tie_break(keys: Seq<u64>, r: Seq<usize>, i: usize, j: usize)
    requires
        spec_top_selection(keys, r),
        i < j < keys.len(),
        keys[i as int] == keys[j as int],
        r.contains(j),
    ensures
        r.contains(i),
{
    if !r.contains(i) {
        let ghost ii = i as int;
        assert(!r.contains(ii as usize));
        assert(spec_dominates(keys, r, i as int));
        let a = choose|a: int| 0 <= a < r.len() && r[a] == j;
        assert(spec_better(keys, r[a] as int, i as int));
        assert(false);
    }
}

} // verus!
