//! The order in which the pixels of an image are visited and written: rows
//! from the top one down, and within a row from left to right.
use vstd::prelude::*;

verus! {

/// The column and row of the pixel written at position `k` of a `width` by
/// `height` image. Rows are counted from the bottom, so the first pixel
/// written is in row `height - 1`.
pub open spec fn pixel_at(width: nat, height: nat, k: nat) -> (nat, nat) {
    ((k % width) as nat, (height - 1 - k / width) as nat)
}

/// The columns and rows of every pixel of a `width` by `height` image, in the
/// order in which they are written.
pub fn scan_order(width: u64, height: u64) -> (order: Vec<(u64, u64)>)
    requires
        width * height <= usize::MAX,
    ensures
        order@.len() == width * height,
        forall|k: int|
            0 <= k < order@.len() ==> {
                let (i, j) = #[trigger] order@[k];
                (i as nat, j as nat) == pixel_at(width as nat, height as nat, k as nat)
            },
{
    let mut order: Vec<(u64, u64)> = Vec::new();
    let mut row: u64 = height;
    while row > 0
        invariant
            row <= height,
            width * height <= usize::MAX,
            order@.len() == width * (height - row),
            forall|k: int|
                0 <= k < order@.len() ==> {
                    let (i, j) = #[trigger] order@[k];
                    (i as nat, j as nat) == pixel_at(width as nat, height as nat, k as nat)
                },
        decreases row,
    {
        row = row - 1;
        let ghost start = order@.len();
        let mut col: u64 = 0;
        while col < width
            invariant
                row < height,
                col <= width,
                width * height <= usize::MAX,
                start == width * (height - 1 - row),
                order@.len() == start + col,
                forall|k: int|
                    0 <= k < order@.len() ==> {
                        let (i, j) = #[trigger] order@[k];
                        (i as nat, j as nat) == pixel_at(width as nat, height as nat, k as nat)
                    },
            decreases width - col,
        {
            proof {
                let k = start + col;
                assert(k == width * (height - 1 - row) + col);
                assert(k % (width as int) == col && k / (width as int) == height - 1 - row) by {
                    vstd::arithmetic::div_mod::lemma_fundamental_div_mod_converse(
                        k as int,
                        width as int,
                        (height - 1 - row) as int,
                        col as int,
                    );
                }
                assert(width * (height - 1 - row) + col < width * (height - row)) by (nonlinear_arith)
                    requires
                        col < width,
                        row < height,
                ;
                assert(width * (height - row) <= width * height) by (nonlinear_arith);
            }
            order.push((col, row));
            col = col + 1;
        }
        proof {
            assert(width * (height - 1 - row) + width == width * (height - row)) by (nonlinear_arith)
                requires
                    row < height,
            ;
        }
    }
    proof {
        assert(width * (height - row) == width * height);
    }
    order
}

/// Every position of the scan names a pixel inside the image, two positions
/// never name the same pixel, and rows come from the top one down: a later
/// position is never in a higher row.
pub proof fn lemma_scan_visits_each_pixel_once(width: nat, height: nat, k1: nat, k2: nat)
    requires
        k1 < k2 < width * height,
    ensures
        pixel_at(width, height, k1).0 < width,
        pixel_at(width, height, k1).1 < height,
        pixel_at(width, height, k2).1 <= pixel_at(width, height, k1).1,
        pixel_at(width, height, k1) != pixel_at(width, height, k2),
{
    let w = width as int;
    assert(width > 0) by (nonlinear_arith)
        requires
            k2 < width * height,
    ;
    vstd::arithmetic::div_mod::lemma_fundamental_div_mod(k1 as int, w);
    vstd::arithmetic::div_mod::lemma_fundamental_div_mod(k2 as int, w);
    vstd::arithmetic::div_mod::lemma_mod_pos_bound(k1 as int, w);
    vstd::arithmetic::div_mod::lemma_mod_pos_bound(k2 as int, w);
    vstd::arithmetic::div_mod::lemma_div_is_ordered(k1 as int, k2 as int, w);
    vstd::arithmetic::div_mod::lemma_div_pos_is_pos(k1 as int, w);
    assert(k2 as int / w < height) by {
        vstd::arithmetic::div_mod::lemma_div_by_multiple_is_strongly_ordered(
            k2 as int,
            (width * height) as int,
            height as int,
            w,
        );
        vstd::arithmetic::div_mod::lemma_div_multiples_vanish(height as int, w);
    }
}

} // verus!
