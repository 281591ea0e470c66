use crate::counting::{
    count_hits, lemma_count_hits_congruent, lemma_count_hits_le, lemma_count_hits_uniform,
    lemma_count_hits_update,
};
use crate::grid::{
    adjacent, col_of, index_of, lemma_adjacent_offset, lemma_coord_of_index, lemma_index_of_coord,
    lemma_offset_slot, nbr_offset, offset_slot, row_of, valid_coord, valid_dims, valid_index,
};
use crate::tile::{danger_kind, TileKind};
use rand::Rng;
use vstd::prelude::*;

verus! {

/// The predicate `boom_total` counts with: the cell is a mine.
pub open spec fn boom_at() -> spec_fn(int, TileKind) -> bool {
    |p: int, t: TileKind| t is Boom
}

/// How many cells of the board are mines.
pub open spec fn boom_total(cells: Seq<TileKind>) -> nat {
    count_hits(cells, boom_at(), cells.len() as int)
}

/// The predicate mine placement samples from: the cell is still `Fine` and is
/// not the one index placement must keep safe.
pub open spec fn open_at(avoid: int) -> spec_fn(int, TileKind) -> bool {
    |p: int, t: TileKind| t is Fine && p != avoid
}

/// How many mines sit on the first `k` of the 8 neighbor offsets around
/// `(row, col)`, skipping offsets that fall off the board.
pub open spec fn booms_near_up_to(
    cells: Seq<TileKind>,
    height: int,
    width: int,
    row: int,
    col: int,
    k: int,
) -> nat
    decreases k,
{
    if k <= 0 {
        0
    } else {
        booms_near_up_to(cells, height, width, row, col, k - 1) + ({
            let dr = nbr_offset(k - 1).0;
            let dc = nbr_offset(k - 1).1;
            if valid_coord(height, width, row + dr, col + dc) && cells[index_of(
                width,
                row + dr,
                col + dc,
            )] is Boom {
                1nat
            } else {
                0nat
            }
        })
    }
}

/// The exact number of mines among the up-to-8 neighbors of `index`.
pub open spec fn boom_degree(cells: Seq<TileKind>, height: int, width: int, index: int) -> nat {
    booms_near_up_to(cells, height, width, row_of(width, index), col_of(width, index), 8)
}

/// Every safe cell carries exactly its neighbor-mine count: `Fine` when the
/// count is zero, else `Danger` with that count, or `Defused` with that count
/// once revealed.
pub open spec fn well_annotated(cells: Seq<TileKind>, height: int, width: int) -> bool {
    forall|i: int|
        0 <= i < cells.len() && !(#[trigger] cells[i] is Boom) ==> ({
            let n = boom_degree(cells, height, width, i);
            cells[i] == danger_kind(n) || (n > 0 && cells[i] == TileKind::Defused(n as u8))
        })
}

/// As `well_annotated`, but before anything has been revealed: no `Defused`.
pub open spec fn freshly_annotated(cells: Seq<TileKind>, height: int, width: int) -> bool {
    forall|i: int|
        0 <= i < cells.len() && !(#[trigger] cells[i] is Boom) ==> cells[i] == danger_kind(
            boom_degree(cells, height, width, i),
        )
}

/// Every cell is still untouched.
pub open spec fn all_fine(cells: Seq<TileKind>) -> bool {
    forall|i: int| 0 <= i < cells.len() ==> #[trigger] cells[i] is Fine
}

/// Mines have been scattered but the safe cells are not yet annotated.
pub open spec fn fine_or_boom(cells: Seq<TileKind>) -> bool {
    forall|i: int| 0 <= i < cells.len() ==> (#[trigger] cells[i] is Fine || cells[i] is Boom)
}

/// Two boards with mines at the same positions give every offset prefix the
/// same neighbor-mine count.
pub proof fn lemma_booms_near_congruent(
    a: Seq<TileKind>,
    b: Seq<TileKind>,
    height: int,
    width: int,
    row: int,
    col: int,
    k: int,
)
    requires
        valid_dims(height, width),
        a.len() == height * width,
        b.len() == a.len(),
        forall|i: int| 0 <= i < a.len() ==> (#[trigger] a[i] is Boom <==> #[trigger] b[i] is Boom),
        0 <= k <= 8,
    ensures
        booms_near_up_to(a, height, width, row, col, k) == booms_near_up_to(
            b,
            height,
            width,
            row,
            col,
            k,
        ),
    decreases k,
{
    if k > 0 {
        lemma_booms_near_congruent(a, b, height, width, row, col, k - 1);
        let dr = nbr_offset(k - 1).0;
        let dc = nbr_offset(k - 1).1;
        if valid_coord(height, width, row + dr, col + dc) {
            lemma_index_of_coord(height, width, row + dr, col + dc);
        }
    }
}

/// The count over the same boards' whole neighborhood of one cell.
pub proof fn lemma_boom_degree_congruent(
    a: Seq<TileKind>,
    b: Seq<TileKind>,
    height: int,
    width: int,
    index: int,
)
    requires
        valid_dims(height, width),
        a.len() == height * width,
        b.len() == a.len(),
        forall|i: int| 0 <= i < a.len() ==> (#[trigger] a[i] is Boom <==> #[trigger] b[i] is Boom),
    ensures
        boom_degree(a, height, width, index) == boom_degree(b, height, width, index),
{
    lemma_booms_near_congruent(
        a,
        b,
        height,
        width,
        row_of(width, index),
        col_of(width, index),
        8,
    );
}

/// A cell has at most 8 neighbors, so its mine count never exceeds 8.
pub proof fn lemma_booms_near_bound(
    cells: Seq<TileKind>,
    height: int,
    width: int,
    row: int,
    col: int,
    k: int,
)
    requires
        0 <= k,
    ensures
        booms_near_up_to(cells, height, width, row, col, k) <= k,
    decreases k,
{
    if k > 0 {
        lemma_booms_near_bound(cells, height, width, row, col, k - 1);
    }
}

/// A board without mines has a zero count everywhere.
pub proof fn lemma_booms_near_none(
    cells: Seq<TileKind>,
    height: int,
    width: int,
    row: int,
    col: int,
    k: int,
)
    requires
        valid_dims(height, width),
        cells.len() == height * width,
        forall|j: int| 0 <= j < cells.len() ==> !(#[trigger] cells[j] is Boom),
        0 <= k <= 8,
    ensures
        booms_near_up_to(cells, height, width, row, col, k) == 0,
    decreases k,
{
    if k > 0 {
        lemma_booms_near_none(cells, height, width, row, col, k - 1);
        let dr = nbr_offset(k - 1).0;
        let dc = nbr_offset(k - 1).1;
        if valid_coord(height, width, row + dr, col + dc) {
            lemma_index_of_coord(height, width, row + dr, col + dc);
        }
    }
}

/// On an all-`Fine` board the open cells are all cells but the avoided one.
proof fn lemma_open_all_fine(cells: Seq<TileKind>, avoid: int, n: int)
    requires
        0 <= n <= cells.len(),
        all_fine(cells),
    ensures
        count_hits(cells, open_at(avoid), n) == n - (if 0 <= avoid < n {
            1int
        } else {
            0int
        }),
    decreases n,
{
    if n > 0 {
        lemma_open_all_fine(cells, avoid, n - 1);
    }
}

/// One entry of a neighbor listing: the neighbor's `(row, col)`, its index,
/// and the cell found there.
pub open spec fn entry_ok(
    cells: Seq<TileKind>,
    height: int,
    width: int,
    row: int,
    col: int,
    e: ((usize, usize), usize, TileKind),
) -> bool {
    &&& valid_coord(height, width, e.0.0 as int, e.0.1 as int)
    &&& -1 <= e.0.0 - row <= 1
    &&& -1 <= e.0.1 - col <= 1
    &&& !(e.0.0 == row && e.0.1 == col)
    &&& e.1 == index_of(width, e.0.0 as int, e.0.1 as int)
    &&& e.2 == cells[e.1 as int]
    &&& adjacent(height, width, index_of(width, row, col), e.1 as int)
}

/// Which of the 8 offsets produced a neighbor entry around `(row, col)`.
pub open spec fn entry_slot(row: int, col: int, e: ((usize, usize), usize, TileKind)) -> int {
    offset_slot(e.0.0 - row, e.0.1 - col)
}

/// The neighbor entries around `(row, col)` for the first `k` of the 8
/// offsets, in enumeration order, skipping offsets that fall off the board.
pub open spec fn neighbor_list_up_to(
    cells: Seq<TileKind>,
    height: int,
    width: int,
    row: int,
    col: int,
    k: int,
) -> Seq<((usize, usize), usize, TileKind)>
    decreases k,
{
    if k <= 0 {
        Seq::empty()
    } else {
        let pre = neighbor_list_up_to(cells, height, width, row, col, k - 1);
        let dr = nbr_offset(k - 1).0;
        let dc = nbr_offset(k - 1).1;
        if valid_coord(height, width, row + dr, col + dc) {
            pre.push(
                (
                    ((row + dr) as usize, (col + dc) as usize),
                    index_of(width, row + dr, col + dc) as usize,
                    cells[index_of(width, row + dr, col + dc)],
                ),
            )
        } else {
            pre
        }
    }
}

/// The full neighbor listing of the cell at `index`.
pub open spec fn neighbor_list(
    cells: Seq<TileKind>,
    height: int,
    width: int,
    index: int,
) -> Seq<((usize, usize), usize, TileKind)> {
    neighbor_list_up_to(cells, height, width, row_of(width, index), col_of(width, index), 8)
}

/// The neighbor listing is sound (every entry is a distinct adjacent cell,
/// reported with its true index and kind) and complete (every adjacent cell
/// whose offset has been enumerated appears).
pub proof fn lemma_neighbor_list_props(
    cells: Seq<TileKind>,
    height: int,
    width: int,
    row: int,
    col: int,
    k: int,
)
    requires
        valid_dims(height, width),
        cells.len() == height * width,
        height * width <= usize::MAX,
        valid_coord(height, width, row, col),
        0 <= k <= 8,
    ensures
        ({
            let l = neighbor_list_up_to(cells, height, width, row, col, k);
            &&& l.len() <= k
            &&& forall|m: int|
                0 <= m < l.len() ==> entry_ok(cells, height, width, row, col, #[trigger] l[m])
            &&& forall|m: int| 0 <= m < l.len() ==> 0 <= entry_slot(row, col, #[trigger] l[m]) < k
            &&& forall|m1: int, m2: int|
                0 <= m1 < m2 < l.len() ==> entry_slot(row, col, #[trigger] l[m1]) < entry_slot(
                    row,
                    col,
                    #[trigger] l[m2],
                )
            &&& forall|j: int|
                #[trigger] adjacent(height, width, index_of(width, row, col), j) && offset_slot(
                    row_of(width, j) - row,
                    col_of(width, j) - col,
                ) < k ==> exists|m: int| 0 <= m < l.len() && (#[trigger] l[m]).1 == j
        }),
    decreases k,
{
    lemma_index_of_coord(height, width, row, col);
    let center = index_of(width, row, col);
    if k > 0 {
        lemma_neighbor_list_props(cells, height, width, row, col, k - 1);
        let pre = neighbor_list_up_to(cells, height, width, row, col, k - 1);
        let l = neighbor_list_up_to(cells, height, width, row, col, k);
        let dr = nbr_offset(k - 1).0;
        let dc = nbr_offset(k - 1).1;
        lemma_offset_slot(dr, dc);
        if valid_coord(height, width, row + dr, col + dc) {
            lemma_index_of_coord(height, width, row + dr, col + dc);
            let e = l[l.len() - 1];
            assert(entry_ok(cells, height, width, row, col, e) && entry_slot(row, col, e) == k - 1)
                by {
                assert(e.0.0 == row + dr && e.0.1 == col + dc);
                if center == e.1 {
                    assert(row_of(width, center) == row && row_of(width, e.1 as int) == row + dr);
                    assert(col_of(width, center) == col && col_of(width, e.1 as int) == col + dc);
                    assert(false);
                }
            };
        }
        assert forall|j: int|
            #[trigger] adjacent(height, width, center, j) && offset_slot(
                row_of(width, j) - row,
                col_of(width, j) - col,
            ) < k implies exists|m: int| 0 <= m < l.len() && (#[trigger] l[m]).1 == j by {
            lemma_adjacent_offset(height, width, center, j);
            lemma_coord_of_index(height, width, j);
            let jdr = row_of(width, j) - row;
            let jdc = col_of(width, j) - col;
            if offset_slot(jdr, jdc) < k - 1 {
                let m = choose|m: int| 0 <= m < pre.len() && (#[trigger] pre[m]).1 == j;
                assert(0 <= m < l.len() && l[m].1 == j);
            } else {
                assert((jdr, jdc) == nbr_offset(k - 1));
                assert(valid_coord(height, width, row + jdr, col + jdc));
                let m = l.len() - 1;
                assert(0 <= m < l.len() && l[m].1 == j);
            }
        }
    }
}

/// A rectangular minefield, row-major, with its mine count.
pub struct Minefield {
    /// How many mines are on the board.
    pub bombs: usize,
    /// Number of rows.
    pub height: usize,
    /// Number of columns.
    pub width: usize,
    /// The `height * width` cells, row-major.
    pub cells: Vec<TileKind>,
}

impl Minefield {
    /// Basic shape: positive dimensions, a full grid of cells, and a `bombs`
    /// field that equals the number of mines actually on the board.
    pub open spec fn wf(self) -> bool {
        &&& valid_dims(self.height as int, self.width as int)
        &&& self.cells@.len() == self.height * self.width
        &&& self.bombs == boom_total(self.cells@)
    }

    /// An all-`Fine` board with no mines placed yet.
    pub fn new(height: usize, width: usize) -> (field: Self)
        requires
            1 <= height,
            1 <= width,
            height * width <= usize::MAX,
        ensures
            field.wf(),
            field.height == height,
            field.width == width,
            field.bombs == 0,
            field.cells@.len() == height * width,
            forall|i: int| 0 <= i < field.cells@.len() ==> field.cells@[i] is Fine,
    {
        let total = height * width;
        let mut cells: Vec<TileKind> = Vec::new();
        let mut i: usize = 0;
        while i < total
            invariant
                i <= total,
                cells@.len() == i,
                forall|j: int| 0 <= j < i ==> cells@[j] is Fine,
            decreases total - i,
        {
            cells.push(TileKind::Fine);
            i += 1;
        }
        proof {
            lemma_count_hits_uniform(cells@, boom_at(), total as int, false);
        }
        Minefield { bombs: 0, height, width, cells }
    }

    /// The row and column of `index`, or `None` when `index` is off the board.
    pub fn index_to_coord(&self, index: usize) -> (r: Option<(usize, usize)>)
        requires
            self.wf(),
        ensures
            r is Some <==> valid_index(self.height as int, self.width as int, index as int),
            r matches Some(rc) ==> ({
                &&& rc.0 == row_of(self.width as int, index as int)
                &&& rc.1 == col_of(self.width as int, index as int)
                &&& valid_coord(self.height as int, self.width as int, rc.0 as int, rc.1 as int)
                &&& index_of(self.width as int, rc.0 as int, rc.1 as int) == index
            }),
    {
        if index < self.cells.len() {
            proof {
                lemma_coord_of_index(self.height as int, self.width as int, index as int);
            }
            Some((index / self.width, index % self.width))
        } else {
            None
        }
    }

    /// The index of `(row, col)`, or `None` when the pair is off the board.
    pub fn coord_to_index(&self, coords: (usize, usize)) -> (r: Option<usize>)
        requires
            self.wf(),
        ensures
            r is Some <==> valid_coord(
                self.height as int,
                self.width as int,
                coords.0 as int,
                coords.1 as int,
            ),
            r matches Some(index) ==> ({
                &&& index == index_of(self.width as int, coords.0 as int, coords.1 as int)
                &&& valid_index(self.height as int, self.width as int, index as int)
            }),
    {
        let (row, col) = coords;
        if row < self.height && col < self.width {
            proof {
                lemma_index_of_coord(self.height as int, self.width as int, row as int, col as int);
                assert(self.cells@.len() <= usize::MAX) by {
                    assert(self.cells.len() == self.cells@.len());
                }
            }
            Some(row * self.width + col)
        } else {
            None
        }
    }

    /// The cell at `(row, col)`, or `None` when the pair is off the board.
    pub fn at_coords(&self, coords: (usize, usize)) -> (r: Option<TileKind>)
        requires
            self.wf(),
        ensures
            r is Some <==> valid_coord(
                self.height as int,
                self.width as int,
                coords.0 as int,
                coords.1 as int,
            ),
            r matches Some(kind) ==> kind == self.cells@[index_of(
                self.width as int,
                coords.0 as int,
                coords.1 as int,
            )],
    {
        match self.coord_to_index(coords) {
            Some(index) => Some(self.cells[index]),
            None => None,
        }
    }

    /// The up-to-8 cells around `index`, in the fixed order NW, N, NE, W, E,
    /// SW, S, SE, each as `((row, col), index, kind)`; neighbors that would
    /// fall off the board are left out.
    pub fn neighbors(&self, index: usize) -> (r: Vec<((usize, usize), usize, TileKind)>)
        requires
            self.wf(),
            valid_index(self.height as int, self.width as int, index as int),
        ensures
            r@ == neighbor_list(self.cells@, self.height as int, self.width as int, index as int),
            r@.len() <= 8,
            forall|m: int|
                0 <= m < r@.len() ==> entry_ok(
                    self.cells@,
                    self.height as int,
                    self.width as int,
                    row_of(self.width as int, index as int),
                    col_of(self.width as int, index as int),
                    #[trigger] r@[m],
                ),
            forall|m: int|
                0 <= m < r@.len() ==> adjacent(
                    self.height as int,
                    self.width as int,
                    index as int,
                    #[trigger] r@[m].1 as int,
                ) && r@[m].2 == self.cells@[r@[m].1 as int],
            forall|j: int|
                #[trigger] adjacent(self.height as int, self.width as int, index as int, j)
                    ==> exists|m: int| 0 <= m < r@.len() && (#[trigger] r@[m]).1 == j,
    {
        let ghost ch = self.height as int;
        let ghost cw = self.width as int;
        proof {
            lemma_coord_of_index(ch, cw, index as int);
            assert(self.cells@.len() <= usize::MAX) by {
                assert(self.cells.len() == self.cells@.len());
            }
        }
        let row = index / self.width;
        let col = index % self.width;
        let mut out: Vec<((usize, usize), usize, TileKind)> = Vec::new();
        let mut k: usize = 0;
        while k < 8
            invariant
                k <= 8,
                self.wf(),
                self.cells@.len() <= usize::MAX,
                valid_index(ch, cw, index as int),
                ch == self.height as int,
                cw == self.width as int,
                row as int == row_of(cw, index as int),
                col as int == col_of(cw, index as int),
                valid_coord(ch, cw, row as int, col as int),
                out@ == neighbor_list_up_to(self.cells@, ch, cw, row as int, col as int, k as int),
            decreases 8 - k,
        {
            let (dr, dc) = offset_at(k);
            let row_shifted = shift(row, self.height, dr);
            let col_shifted = shift(col, self.width, dc);
            match (row_shifted, col_shifted) {
                (Some(nr), Some(nc)) => {
                    proof {
                        lemma_index_of_coord(ch, cw, nr as int, nc as int);
                    }
                    let j = nr * self.width + nc;
                    out.push(((nr, nc), j, self.cells[j]));
                },
                _ => {},
            }
            k += 1;
            proof {
                assert(out@ =~= neighbor_list_up_to(
                    self.cells@,
                    ch,
                    cw,
                    row as int,
                    col as int,
                    k as int,
                ));
            }
        }
        proof {
            lemma_neighbor_list_props(self.cells@, ch, cw, row as int, col as int, 8);
            assert forall|j: int| #[trigger] adjacent(ch, cw, index as int, j) implies exists|m: int|
                0 <= m < out@.len() && (#[trigger] out@[m]).1 == j by {
                lemma_adjacent_offset(ch, cw, index as int, j);
                lemma_offset_slot(
                    row_of(cw, j) - row as int,
                    col_of(cw, j) - col as int,
                );
            }
        }
        out
    }

    /// How many of the up-to-8 neighbors of `index` are mines.
    fn bomb_count_at(&self, index: usize) -> (count: u8)
        requires
            self.wf(),
            valid_index(self.height as int, self.width as int, index as int),
        ensures
            count as nat == boom_degree(
                self.cells@,
                self.height as int,
                self.width as int,
                index as int,
            ),
            count <= 8,
    {
        let ghost ch = self.height as int;
        let ghost cw = self.width as int;
        proof {
            lemma_coord_of_index(ch, cw, index as int);
            assert(self.cells@.len() <= usize::MAX) by {
                assert(self.cells.len() == self.cells@.len());
            }
        }
        let row = index / self.width;
        let col = index % self.width;
        let mut count: u8 = 0;
        let mut k: usize = 0;
        while k < 8
            invariant
                k <= 8,
                count <= k,
                self.wf(),
                self.cells@.len() <= usize::MAX,
                valid_index(ch, cw, index as int),
                ch == self.height as int,
                cw == self.width as int,
                row as int == row_of(cw, index as int),
                col as int == col_of(cw, index as int),
                valid_coord(ch, cw, row as int, col as int),
                count as nat == booms_near_up_to(
                    self.cells@,
                    ch,
                    cw,
                    row as int,
                    col as int,
                    k as int,
                ),
            decreases 8 - k,
        {
            let (dr, dc) = offset_at(k);
            match (shift(row, self.height, dr), shift(col, self.width, dc)) {
                (Some(nr), Some(nc)) => {
                    proof {
                        lemma_index_of_coord(ch, cw, nr as int, nc as int);
                    }
                    let j = nr * self.width + nc;
                    if matches!(self.cells[j], TileKind::Boom) {
                        count += 1;
                    }
                },
                _ => {},
            }
            k += 1;
        }
        count
    }

    /// Turn every safe cell's kind into its exact annotation: `Danger(n)`
    /// where `n > 0` mines are adjacent, `Fine` where none is.
    fn annotate(&mut self)
        requires
            old(self).wf(),
            fine_or_boom(old(self).cells@),
        ensures
            final(self).wf(),
            final(self).height == old(self).height,
            final(self).width == old(self).width,
            final(self).bombs == old(self).bombs,
            final(self).cells@.len() == old(self).cells@.len(),
            forall|i: int|
                0 <= i < final(self).cells@.len() ==> (#[trigger] final(self).cells@[i] is Boom <==> old(
                    self,
                ).cells@[i] is Boom),
            freshly_annotated(final(self).cells@, final(self).height as int, final(self).width as int),
    {
        let ghost ch = self.height as int;
        let ghost cw = self.width as int;
        let ghost cells0 = self.cells@;
        let total = self.cells.len();
        let mut i: usize = 0;
        while i < total
            invariant
                i <= total,
                self.wf(),
                self.height == old(self).height,
                self.width == old(self).width,
                self.bombs == old(self).bombs,
                ch == self.height as int,
                cw == self.width as int,
                cells0 == old(self).cells@,
                fine_or_boom(cells0),
                total == self.cells@.len(),
                cells0.len() == total,
                forall|j: int|
                    0 <= j < total ==> (#[trigger] self.cells@[j] is Boom <==> cells0[j] is Boom),
                forall|j: int| i <= j < total ==> #[trigger] self.cells@[j] == cells0[j],
                forall|j: int|
                    0 <= j < i && !(#[trigger] self.cells@[j] is Boom) ==> self.cells@[j]
                        == danger_kind(boom_degree(cells0, ch, cw, j)),
            decreases total - i,
        {
            let is_mine = matches!(self.cells[i], TileKind::Boom);
            if !is_mine {
                proof {
                    lemma_coord_of_index(ch, cw, i as int);
                }
                let n = self.bomb_count_at(i);
                proof {
                    lemma_boom_degree_congruent(self.cells@, cells0, ch, cw, i as int);
                }
                if n > 0 {
                    let ghost before = self.cells@;
                    self.cells.set(i, TileKind::Danger(n));
                    proof {
                        lemma_count_hits_congruent(
                            self.cells@,
                            before,
                            boom_at(),
                            boom_at(),
                            total as int,
                        );
                    }
                }
            }
            i += 1;
        }
        proof {
            assert forall|j: int|
                0 <= j < self.cells@.len() && !(#[trigger] self.cells@[j] is Boom) implies self.cells@[j]
                == danger_kind(
                boom_degree(self.cells@, self.height as int, self.width as int, j),
            ) by {
                lemma_boom_degree_congruent(cells0, self.cells@, ch, cw, j);
            }
        }
    }

    /// The index of the `k`-th cell, in board order, that is still `Fine` and
    /// is not the avoided index.
    fn nth_open(&self, avoid: usize, k: usize) -> (idx: usize)
        requires
            (k as nat) < count_hits(
                self.cells@,
                open_at(avoid as int),
                self.cells@.len() as int,
            ),
        ensures
            idx < self.cells@.len(),
            self.cells@[idx as int] is Fine,
            idx != avoid,
    {
        let n = self.cells.len();
        let mut i: usize = 0;
        let mut seen: usize = 0;
        while i < n
            invariant
                i <= n,
                n == self.cells@.len(),
                seen <= k,
                (k as nat) < count_hits(self.cells@, open_at(avoid as int), n as int),
                seen as nat == count_hits(self.cells@, open_at(avoid as int), i as int),
            decreases n - i,
        {
            if i != avoid && matches!(self.cells[i], TileKind::Fine) {
                if seen == k {
                    return i;
                }
                seen += 1;
            }
            i += 1;
        }
        proof {
            assert(false);
        }
        0
    }

    /// Scatter `count` mines uniformly at random over the cells that are
    /// `Fine` and distinct from `avoid`, drawing without replacement; pass
    /// the cell count as `avoid` to avoid nothing. Sets the `bombs` field.
    fn scatter(&mut self, count: usize, avoid: usize)
        requires
            old(self).wf(),
            all_fine(old(self).cells@),
            avoid <= old(self).cells@.len(),
            count + (if (avoid as int) < old(self).cells@.len() {
                1int
            } else {
                0int
            }) <= old(self).cells@.len(),
        ensures
            final(self).wf(),
            final(self).height == old(self).height,
            final(self).width == old(self).width,
            final(self).cells@.len() == old(self).cells@.len(),
            final(self).bombs == count,
            boom_total(final(self).cells@) == count,
            fine_or_boom(final(self).cells@),
            (avoid as int) < final(self).cells@.len() ==> final(self).cells@[avoid as int] is Fine,
    {
        let n = self.cells.len();
        let avail: usize = if avoid < n {
            n - 1
        } else {
            n
        };
        proof {
            lemma_open_all_fine(self.cells@, avoid as int, n as int);
            lemma_count_hits_uniform(self.cells@, boom_at(), n as int, false);
        }
        let mut placed: usize = 0;
        while placed < count
            invariant
                placed <= count,
                count <= avail,
                avail <= n,
                n == self.cells@.len(),
                self.height == old(self).height,
                self.width == old(self).width,
                self.bombs == old(self).bombs,
                valid_dims(self.height as int, self.width as int),
                self.cells@.len() == self.height * self.width,
                fine_or_boom(self.cells@),
                (avoid as int) < n ==> self.cells@[avoid as int] is Fine,
                count_hits(self.cells@, open_at(avoid as int), n as int) == avail - placed,
                boom_total(self.cells@) == placed,
            decreases count - placed,
        {
            let k = random_below(avail - placed);
            let idx = self.nth_open(avoid, k);
            let ghost before = self.cells@;
            self.cells.set(idx, TileKind::Boom);
            placed += 1;
            proof {
                lemma_count_hits_update(
                    before,
                    open_at(avoid as int),
                    idx as int,
                    TileKind::Boom,
                    n as int,
                );
                lemma_count_hits_update(
                    before,
                    boom_at(),
                    idx as int,
                    TileKind::Boom,
                    n as int,
                );
            }
        }
        self.bombs = placed;
    }

    /// Place `count` mines uniformly at random, then annotate every safe
    /// cell with its neighbor-mine count. A `count` that would fill the whole
    /// board is clamped so that one cell stays free.
    pub fn set_bombs(&mut self, count: usize)
        requires
            old(self).wf(),
            all_fine(old(self).cells@),
        ensures
            final(self).wf(),
            final(self).height == old(self).height,
            final(self).width == old(self).width,
            final(self).cells@.len() == old(self).cells@.len(),
            final(self).bombs == if (count as int) < old(self).cells@.len() {
                count as int
            } else {
                old(self).cells@.len() - 1
            },
            boom_total(final(self).cells@) == final(self).bombs,
            freshly_annotated(final(self).cells@, final(self).height as int, final(self).width as int),
    {
        let n = self.cells.len();
        proof {
            assert(self.cells@.len() >= 1) by (nonlinear_arith)
                requires
                    self.cells@.len() == self.height * self.width,
                    self.height >= 1,
                    self.width >= 1,
            ;
        }
        let capped = if count < n {
            count
        } else {
            n - 1
        };
        self.scatter(capped, n);
        self.annotate();
    }

    /// As `set_bombs`, but the cell at `safe` is guaranteed to hold no mine:
    /// used to make the first click of a game always survivable.
    pub fn set_bombs_avoiding(&mut self, count: usize, safe: usize)
        requires
            old(self).wf(),
            all_fine(old(self).cells@),
            (safe as int) < old(self).cells@.len(),
        ensures
            final(self).wf(),
            final(self).height == old(self).height,
            final(self).width == old(self).width,
            final(self).cells@.len() == old(self).cells@.len(),
            final(self).bombs == if (count as int) <= old(self).cells@.len() - 1 {
                count as int
            } else {
                old(self).cells@.len() - 1
            },
            boom_total(final(self).cells@) == final(self).bombs,
            !(final(self).cells@[safe as int] is Boom),
            freshly_annotated(final(self).cells@, final(self).height as int, final(self).width as int),
    {
        let n = self.cells.len();
        let capped = if count <= n - 1 {
            count
        } else {
            n - 1
        };
        self.scatter(capped, safe);
        self.annotate();
    }

    /// Place a mine at each listed index that is on the board, then annotate
    /// every safe cell; indices off the board are ignored.
    pub fn set_bombs_at(&mut self, mines: &Vec<usize>)
        requires
            old(self).wf(),
            all_fine(old(self).cells@),
        ensures
            final(self).wf(),
            final(self).height == old(self).height,
            final(self).width == old(self).width,
            final(self).cells@.len() == old(self).cells@.len(),
            forall|i: int|
                0 <= i < final(self).cells@.len() ==> (#[trigger] final(self).cells@[i] is Boom <==> mines@.contains(
                    i as usize,
                )),
            boom_total(final(self).cells@) == final(self).bombs,
            freshly_annotated(final(self).cells@, final(self).height as int, final(self).width as int),
    {
        let n = self.cells.len();
        proof {
            lemma_count_hits_uniform(self.cells@, boom_at(), n as int, false);
        }
        let mut t: usize = 0;
        let mut placed: usize = 0;
        while t < mines.len()
            invariant
                t <= mines@.len(),
                placed <= n,
                n == self.cells@.len(),
                self.height == old(self).height,
                self.width == old(self).width,
                valid_dims(self.height as int, self.width as int),
                self.cells@.len() == self.height * self.width,
                fine_or_boom(self.cells@),
                forall|i: int|
                    0 <= i < n ==> (#[trigger] self.cells@[i] is Boom <==> exists|m: int|
                        0 <= m < t && mines@[m] == i),
                placed as nat == boom_total(self.cells@),
            decreases mines@.len() - t,
        {
            let m = mines[t];
            if m < n {
                if matches!(self.cells[m], TileKind::Fine) {
                    let ghost before = self.cells@;
                    self.cells.set(m, TileKind::Boom);
                    proof {
                        lemma_count_hits_update(
                            before,
                            boom_at(),
                            m as int,
                            TileKind::Boom,
                            n as int,
                        );
                        lemma_count_hits_le(self.cells@, boom_at(), n as int);
                    }
                    placed += 1;
                }
            }
            t += 1;
        }
        self.bombs = placed;
        self.annotate();
    }

    /// Record reveals on the board: every revealed `Danger` cell becomes
    /// `Defused` with the same count; nothing else changes.
    pub fn defuse_revealed(&mut self, hidden: &Vec<bool>)
        requires
            old(self).wf(),
            hidden@.len() == old(self).cells@.len(),
        ensures
            final(self).wf(),
            final(self).height == old(self).height,
            final(self).width == old(self).width,
            final(self).bombs == old(self).bombs,
            final(self).cells@.len() == old(self).cells@.len(),
            forall|i: int|
                0 <= i < old(self).cells@.len() && !hidden@[i] ==> (#[trigger] old(
                    self,
                ).cells@[i] matches TileKind::Danger(n) ==> final(self).cells@[i]
                    == TileKind::Defused(n)),
            forall|i: int|
                0 <= i < old(self).cells@.len() && !(!hidden@[i] && #[trigger] old(
                    self,
                ).cells@[i] is Danger) ==> final(self).cells@[i] == old(self).cells@[i],
    {
        let ghost cells0 = self.cells@;
        let total = self.cells.len();
        let mut i: usize = 0;
        while i < total
            invariant
                i <= total,
                total == self.cells@.len(),
                cells0 == old(self).cells@,
                cells0.len() == total,
                hidden@.len() == total,
                self.height == old(self).height,
                self.width == old(self).width,
                self.bombs == old(self).bombs,
                old(self).wf(),
                forall|j: int|
                    0 <= j < i && !hidden@[j] ==> (#[trigger] cells0[j] matches TileKind::Danger(
                    n) ==> self.cells@[j] == TileKind::Defused(n)),
                forall|j: int|
                    0 <= j < total && !(j < i && !hidden@[j] && #[trigger] cells0[j] is Danger)
                        ==> self.cells@[j] == cells0[j],
            decreases total - i,
        {
            if !hidden[i] {
                match self.cells[i] {
                    TileKind::Danger(n) => {
                        self.cells.set(i, TileKind::Defused(n));
                    },
                    _ => {},
                }
            }
            i += 1;
        }
        proof {
            lemma_count_hits_congruent(
                self.cells@,
                cells0,
                boom_at(),
                boom_at(),
                total as int,
            );
        }
    }
}

/// Relies on rand's `thread_rng` and `Rng::gen_range`: returns a number
/// drawn uniformly from `0..bound`. `gen_range` panics only on an empty
/// range, which the precondition rules out.
#[verifier::external_body]
fn random_below(bound: usize) -> (r: usize)
    requires
        bound > 0,
    ensures
        r < bound,
{
    rand::thread_rng().gen_range(0..bound)
}

/// Move `pos` by `delta` (one of -1, 0, 1), reporting `None` when the result
/// would leave `[0, bound)`.
fn shift(pos: usize, bound: usize, delta: i8) -> (r: Option<usize>)
    requires
        pos < bound,
        -1 <= delta as int <= 1,
    ensures
        r is Some <==> (0 <= pos as int + delta as int && (pos as int + delta as int) < (
        bound as int)),
        r matches Some(q) ==> q as int == pos as int + delta as int,
{
    if delta < 0 {
        if pos == 0 {
            None
        } else {
            Some(pos - 1)
        }
    } else if delta > 0 {
        if pos + 1 < bound {
            Some(pos + 1)
        } else {
            None
        }
    } else {
        Some(pos)
    }
}

/// The `k`-th neighbor offset as machine integers.
fn offset_at(k: usize) -> (o: (i8, i8))
    requires
        k < 8,
    ensures
        o.0 as int == nbr_offset(k as int).0,
        o.1 as int == nbr_offset(k as int).1,
{
    if k == 0 {
        (-1, -1)
    } else if k == 1 {
        (-1, 0)
    } else if k == 2 {
        (-1, 1)
    } else if k == 3 {
        (0, -1)
    } else if k == 4 {
        (0, 1)
    } else if k == 5 {
        (1, -1)
    } else if k == 6 {
        (1, 0)
    } else {
        (1, 1)
    }
}

} // verus!
