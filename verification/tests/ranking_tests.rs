use figet_spinner::ranking::select_most_active;
use figet_spinner::MOST_ACTIVE_TIMELINES_COUNT;

#[test]
fn selects_the_largest_keys_in_order() {
    // Strictly decreasing keys: the selection is the first K indices.
    let keys: Vec<u64> = (0..50).map(|i| 1000 - i as u64).collect();
    let top = select_most_active(&keys);
    assert_eq!(top.len(), MOST_ACTIVE_TIMELINES_COUNT);
    for (rank, cell) in top.iter().enumerate() {
        assert_eq!(*cell, rank);
    }
}

#[test]
fn selects_the_largest_keys_whatever_their_order() {
    // Strictly increasing keys: the selection is the last K indices, largest
    // key first.
    let keys: Vec<u64> = (0..50).map(|i| i as u64).collect();
    let top = select_most_active(&keys);
    assert_eq!(top.len(), MOST_ACTIVE_TIMELINES_COUNT);
    for (rank, cell) in top.iter().enumerate() {
        assert_eq!(*cell, 49 - rank);
    }
}

#[test]
fn equal_keys_rank_by_ascending_index() {
    // All keys exactly equal: ties break toward the smaller cell index.
    let keys: Vec<u64> = vec![7; 50];
    let top = select_most_active(&keys);
    assert_eq!(top.len(), MOST_ACTIVE_TIMELINES_COUNT);
    for (rank, cell) in top.iter().enumerate() {
        assert_eq!(*cell, rank);
    }
}

#[test]
fn tie_break_prefers_smaller_index_among_mixed_keys() {
    // Indices 45..50 carry the top keys; indices 2 and 30 tie exactly and
    // both beat the rest, with 2 ranked before 30.
    let mut keys: Vec<u64> = vec![1; 50];
    for i in 45..50 {
        keys[i] = 1000 + i as u64;
    }
    keys[2] = 500;
    keys[30] = 500;
    let top = select_most_active(&keys);
    assert_eq!(top[0], 49);
    assert_eq!(top[1], 48);
    assert_eq!(top[2], 47);
    assert_eq!(top[3], 46);
    assert_eq!(top[4], 45);
    assert_eq!(top[5], 2);
    assert_eq!(top[6], 30);
    // The remaining selected cells are the all-equal tail in index order,
    // skipping the two indices already selected through their tie.
    let rest: Vec<usize> = (0..45).filter(|i| *i != 2 && *i != 30).collect();
    for (rank, cell) in top.iter().enumerate().skip(7) {
        assert_eq!(*cell, rest[rank - 7]);
    }
}
