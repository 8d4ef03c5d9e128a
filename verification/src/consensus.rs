//! Sign-consensus detector: decides whether the 3x3 neighborhood of an
//! interior cell currently shows one locally consistent polarity.  A single
//! untouched neighbor, or any pair of neighbors with opposite polarities,
//! invalidates the consensus.

use vstd::prelude::*;

use crate::{
    Sign, SignedTimestamp, spec_stamp_sign, stamp_sign, DOWNSAMPLED_HEIGHT, DOWNSAMPLED_WIDTH,
    SIGN_CHECK_RADIUS,
};

verus! {

/// Number of cells of the downsampled grid
/// (`DOWNSAMPLED_WIDTH * DOWNSAMPLED_HEIGHT`).
pub const GRID_CELLS: usize = 57600;

/// Row-major index of the cell at downsampled coordinates `(x, y)`.
pub open spec fn spec_cell_index(x: int, y: int) -> int {
    x + y * (DOWNSAMPLED_WIDTH as int)
}

/// Whether a downsampled coordinate lies strictly inside the grid, outside
/// the one-cell border left for the consensus window.
pub open spec fn spec_interior(x: int, y: int) -> bool {
    &&& SIGN_CHECK_RADIUS as int <= x < DOWNSAMPLED_WIDTH as int - SIGN_CHECK_RADIUS as int
    &&& SIGN_CHECK_RADIUS as int <= y < DOWNSAMPLED_HEIGHT as int - SIGN_CHECK_RADIUS as int
}

/// Whether every cell of the 3x3 window centered on `(x, y)` contributes the
/// polarity class `s`.
pub open spec fn spec_window_all(signed: Seq<SignedTimestamp>, x: int, y: int, s: Sign) -> bool {
    forall|wx: int, wy: int|
        x - 1 <= wx <= x + 1 && y - 1 <= wy <= y + 1 ==> spec_stamp_sign(
            #[trigger] signed[spec_cell_index(wx, wy)],
        ) == s
}

/// The consensus of the 3x3 window centered on interior cell `(x, y)`: the
/// single polarity shared by all nine neighbors, or `Unknown` when any
/// neighbor is untouched or the polarities disagree.
pub open spec fn spec_consensus(signed: Seq<SignedTimestamp>, x: int, y: int) -> Sign {
    if spec_window_all(signed, x, y, Sign::Positive) {
        Sign::Positive
    } else if spec_window_all(signed, x, y, Sign::Negative) {
        Sign::Negative
    } else {
        Sign::Unknown
    }
}

/// Scan the 3x3 window of interior cell `(x, y)` in row-major order and
/// return its consensus sign, aborting on the first untouched neighbor or
/// the first polarity contradiction.
pub fn consensus(signed: &Vec<SignedTimestamp>, x: u16, y: u16) -> (r: Sign)
    requires
        signed@.len() == GRID_CELLS,
        spec_interior(x as int, y as int),
    ensures
        r == spec_consensus(signed@, x as int, y as int),
{
    let mut sign = Sign::Unknown;
    let mut idx: usize = 0;
    while idx < 9
        invariant
            signed@.len() == GRID_CELLS,
            spec_interior(x as int, y as int),
            idx <= 9,
            sign == Sign::Unknown ==> idx == 0,
            sign != Sign::Unknown ==> idx >= 1,
            sign != Sign::Unknown ==> forall|j: int|
                0 <= j < idx ==> spec_stamp_sign(
                    #[trigger] signed@[spec_cell_index(x - 1 + (j % 3), y - 1 + (j / 3))],
                ) == sign,
        decreases 9 - idx,
    {
        let dx = (idx % 3) as u16;
        let dy = (idx / 3) as u16;
        let wx = (x - 1) + dx;
        let wy = (y - 1) + dy;
        assert(wx < 320 && wy < 180);
        let wt = signed[wx as usize + wy as usize * 320];
        assert(wt == signed@[spec_cell_index(wx as int, wy as int)]);
        match stamp_sign(wt) {
            Sign::Unknown => {
                // An untouched neighbor invalidates the consensus outright.
                assert(!spec_window_all(signed@, x as int, y as int, Sign::Positive));
                assert(!spec_window_all(signed@, x as int, y as int, Sign::Negative));
                return Sign::Unknown;
            },
            Sign::Negative => {
                match sign {
                    Sign::Unknown => {
                        sign = Sign::Negative;
                    },
                    Sign::Negative => {},
                    Sign::Positive => {
                        // Contradiction: an earlier neighbor was positive.
                        assert(spec_stamp_sign(
                            signed@[spec_cell_index(x - 1 + (0int % 3), y - 1 + (0int / 3))],
                        ) == Sign::Positive);
                        assert(!spec_window_all(signed@, x as int, y as int, Sign::Positive));
                        assert(!spec_window_all(signed@, x as int, y as int, Sign::Negative));
                        return Sign::Unknown;
                    },
                }
            },
            Sign::Positive => {
                match sign {
                    Sign::Unknown => {
                        sign = Sign::Positive;
                    },
                    Sign::Negative => {
                        // Contradiction: an earlier neighbor was negative.
                        assert(spec_stamp_sign(
                            signed@[spec_cell_index(x - 1 + (0int % 3), y - 1 + (0int / 3))],
                        ) == Sign::Negative);
                        assert(!spec_window_all(signed@, x as int, y as int, Sign::Positive));
                        assert(!spec_window_all(signed@, x as int, y as int, Sign::Negative));
                        return Sign::Unknown;
                    },
                    Sign::Positive => {},
                }
            },
        }
        idx += 1;
    }
    proof {
        assert forall|wx: int, wy: int|
            x - 1 <= wx <= x + 1 && y - 1 <= wy <= y + 1 implies spec_stamp_sign(
            #[trigger] signed@[spec_cell_index(wx, wy)],
        ) == sign by {
            let j = (wy - (y - 1)) * 3 + (wx - (x - 1));
            assert(0 <= j < 9);
            assert(j % 3 == wx - (x - 1) && j / 3 == wy - (y - 1)) by (nonlinear_arith)
                requires
                    j == (wy - (y - 1)) * 3 + (wx - (x - 1)),
                    0 <= wx - (x - 1) < 3,
                    0 <= wy - (y - 1) < 3,
            ;
            assert(spec_stamp_sign(
                signed@[spec_cell_index(x - 1 + (j % 3), y - 1 + (j / 3))],
            ) == sign);
        }
        if sign == Sign::Negative {
            assert(spec_stamp_sign(
                signed@[spec_cell_index(x as int, y as int)],
            ) == Sign::Negative);
            assert(!spec_window_all(signed@, x as int, y as int, Sign::Positive));
        }
    }
    sign
}

/// Law: one untouched neighbor anywhere in the 3x3 window forces the
/// consensus to `Unknown`, whatever the other neighbors hold.
pub proof fn lemma_unset_neighbor_aborts(
    signed: Seq<SignedTimestamp>,
    x: int,
    y: int,
    wx: int,
    wy: int,
)
    requires
        x - 1 <= wx <= x + 1,
        y - 1 <= wy <= y + 1,
        spec_stamp_sign(signed[spec_cell_index(wx, wy)]) == Sign::Unknown,
    ensures
        spec_consensus(signed, x, y) == Sign::Unknown,
{
    assert(!spec_window_all(signed, x, y, Sign::Positive));
    assert(!spec_window_all(signed, x, y, Sign::Negative));
}

} // verus!
