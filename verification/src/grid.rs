use vstd::arithmetic::div_mod::{
    lemma_fundamental_div_mod, lemma_fundamental_div_mod_converse_div,
    lemma_fundamental_div_mod_converse_mod, lemma_mod_bound,
};
use vstd::arithmetic::mul::lemma_mul_inequality;
use vstd::prelude::*;

verus! {

// The board is a `height` by `width` grid stored row-major: the cell in row
// `row` and column `col` lives at index `row * width + col`.

pub open spec fn valid_dims(height: int, width: int) -> bool {
    1 <= height && 1 <= width
}

pub open spec fn valid_coord(height: int, width: int, row: int, col: int) -> bool {
    0 <= row < height && 0 <= col < width
}

pub open spec fn valid_index(height: int, width: int, index: int) -> bool {
    0 <= index < height * width
}

pub open spec fn index_of(width: int, row: int, col: int) -> int {
    row * width + col
}

pub open spec fn row_of(width: int, index: int) -> int {
    index / width
}

pub open spec fn col_of(width: int, index: int) -> int {
    index % width
}

/// Packing a coordinate pair into an index stays in bounds and unpacks to the
/// same pair.
pub proof fn lemma_index_of_coord(height: int, width: int, row: int, col: int)
    requires
        valid_dims(height, width),
        valid_coord(height, width, row, col),
    ensures
        valid_index(height, width, index_of(width, row, col)),
        row_of(width, index_of(width, row, col)) == row,
        col_of(width, index_of(width, row, col)) == col,
{
    let index = row * width + col;
    lemma_mul_inequality(row, height - 1, width);
    assert((height - 1) * width + width == height * width) by (nonlinear_arith);
    lemma_fundamental_div_mod_converse_div(index, width, row, col);
    lemma_fundamental_div_mod_converse_mod(index, width, row, col);
}

/// Unpacking a valid index gives an in-bounds coordinate pair that packs back
/// to the same index: the two conversions are a bijection.
pub proof fn lemma_coord_of_index(height: int, width: int, index: int)
    requires
        valid_dims(height, width),
        valid_index(height, width, index),
    ensures
        valid_coord(height, width, row_of(width, index), col_of(width, index)),
        index_of(width, row_of(width, index), col_of(width, index)) == index,
{
    let row = index / width;
    let col = index % width;
    lemma_fundamental_div_mod(index, width);
    lemma_mod_bound(index, width);
    assert(0 <= row) by (nonlinear_arith)
        requires
            0 <= index,
            1 <= width,
            row == index / width,
    ;
    if row >= height {
        lemma_mul_inequality(height, row, width);
        assert(width * row == row * width) by (nonlinear_arith);
        assert(false);
    }
    assert(width * row == row * width) by (nonlinear_arith);
}

/// Two cells are adjacent when they are distinct and their rows and columns
/// each differ by at most one: 8-connectivity, clipped at the borders.
pub open spec fn adjacent(height: int, width: int, i: int, j: int) -> bool {
    &&& valid_index(height, width, i)
    &&& valid_index(height, width, j)
    &&& i != j
    &&& -1 <= row_of(width, i) - row_of(width, j) <= 1
    &&& -1 <= col_of(width, i) - col_of(width, j) <= 1
}

/// The fixed enumeration of the 8 neighbor offsets:
/// NW, N, NE, W, E, SW, S, SE.
pub open spec fn nbr_offset(k: int) -> (int, int) {
    if k == 0 {
        (-1, -1)
    } else if k == 1 {
        (-1, 0)
    } else if k == 2 {
        (-1, 1)
    } else if k == 3 {
        (0, -1)
    } else if k == 4 {
        (0, 1)
    } else if k == 5 {
        (1, -1)
    } else if k == 6 {
        (1, 0)
    } else {
        (1, 1)
    }
}

/// Where a row/column difference pair sits in the `nbr_offset` enumeration.
pub open spec fn offset_slot(dr: int, dc: int) -> int {
    if dr == -1 {
        dc + 1
    } else if dr == 0 {
        if dc == -1 {
            3
        } else {
            4
        }
    } else {
        dc + 6
    }
}

/// `offset_slot` inverts `nbr_offset` on the 8 genuine offsets.
pub proof fn lemma_offset_slot(dr: int, dc: int)
    requires
        -1 <= dr <= 1,
        -1 <= dc <= 1,
        !(dr == 0 && dc == 0),
    ensures
        0 <= offset_slot(dr, dc) < 8,
        nbr_offset(offset_slot(dr, dc)) == (dr, dc),
{
}

/// Adjacent cells determine each other's coordinates through one of the 8
/// offsets, and distinct cells never share a coordinate pair.
pub proof fn lemma_adjacent_offset(height: int, width: int, i: int, j: int)
    requires
        valid_dims(height, width),
        adjacent(height, width, i, j),
    ensures
        ({
            let dr = row_of(width, j) - row_of(width, i);
            let dc = col_of(width, j) - col_of(width, i);
            &&& !(dr == 0 && dc == 0)
            &&& 0 <= offset_slot(dr, dc) < 8
            &&& nbr_offset(offset_slot(dr, dc)) == (dr, dc)
            &&& j == index_of(width, row_of(width, i) + dr, col_of(width, i) + dc)
        }),
{
    let dr = row_of(width, j) - row_of(width, i);
    let dc = col_of(width, j) - col_of(width, i);
    lemma_coord_of_index(height, width, i);
    lemma_coord_of_index(height, width, j);
    if dr == 0 && dc == 0 {
        assert(i == j);
    }
    lemma_offset_slot(dr, dc);
}

} // verus!
