use crate::grid::{adjacent, valid_dims, valid_index};
use crate::tile::{warns, TileKind};
use vstd::prelude::*;

verus! {

// The flood-clear of a clicked cell reveals the connected region of `Fine`
// cells around it together with the counted cells on that region's rim. The
// specs here describe that region as reachability along walks across the
// board, and the lemmas tie the worklist algorithm's final state to it.

/// A walk across the board: it starts at `seed`, every step moves to an
/// adjacent cell, and every cell after the seed is `Fine`.
pub open spec fn walk_ok(
    cells: Seq<TileKind>,
    height: int,
    width: int,
    p: Seq<int>,
    seed: int,
) -> bool {
    &&& p.len() > 0
    &&& p[0] == seed
    &&& forall|k: int| 0 <= k < p.len() ==> valid_index(height, width, #[trigger] p[k])
    &&& forall|k: int| 1 <= k < p.len() ==> cells[#[trigger] p[k]] is Fine
    &&& forall|k: int| 1 <= k < p.len() ==> adjacent(height, width, p[k - 1], #[trigger] p[k])
}

/// The walk never leaves the still-hidden part of the board.
pub open spec fn hidden_walk(hidden: Seq<bool>, p: Seq<int>) -> bool {
    forall|k: int| 0 <= k < p.len() ==> hidden[#[trigger] p[k]]
}

/// `j` can be reached from `seed` by a walk through hidden cells: these are
/// exactly the cells the flood-clear reveals and then keeps expanding.
pub open spec fn flood_reaches(
    cells: Seq<TileKind>,
    height: int,
    width: int,
    hidden: Seq<bool>,
    seed: int,
    j: int,
) -> bool {
    exists|p: Seq<int>|
        walk_ok(cells, height, width, p, seed) && hidden_walk(hidden, p) && p.last() == j
}

/// `j` is a hidden counted cell on the rim of the flooded region: revealed,
/// but never expanded.
pub open spec fn border_reached(
    cells: Seq<TileKind>,
    height: int,
    width: int,
    hidden: Seq<bool>,
    seed: int,
    j: int,
) -> bool {
    &&& valid_index(height, width, j)
    &&& hidden[j]
    &&& warns(cells[j])
    &&& exists|i: int|
        flood_reaches(cells, height, width, hidden, seed, i) && #[trigger] adjacent(
            height,
            width,
            i,
            j,
        )
}

/// Everything one flood-clear from `seed` reveals.
#[verifier::opaque]
pub open spec fn newly_cleared(
    cells: Seq<TileKind>,
    height: int,
    width: int,
    hidden: Seq<bool>,
    seed: int,
    j: int,
) -> bool {
    flood_reaches(cells, height, width, hidden, seed, j) || border_reached(
        cells,
        height,
        width,
        hidden,
        seed,
        j,
    )
}

/// `j` lies in the connected `Fine` region around `seed`, regardless of what
/// is currently hidden.
pub open spec fn region_reaches(
    cells: Seq<TileKind>,
    height: int,
    width: int,
    seed: int,
    j: int,
) -> bool {
    exists|p: Seq<int>| walk_ok(cells, height, width, p, seed) && p.last() == j
}

/// How one flood-clear changes the hidden set: a cell stays hidden unless
/// this clear reveals it, and nothing hidden reappears.
pub open spec fn flood_post(
    cells: Seq<TileKind>,
    height: int,
    width: int,
    h0: Seq<bool>,
    h1: Seq<bool>,
    seed: int,
) -> bool {
    &&& h1.len() == h0.len()
    &&& forall|j: int|
        0 <= j < h0.len() ==> (#[trigger] h1[j] <==> h0[j] && !newly_cleared(
            cells,
            height,
            width,
            h0,
            seed,
            j,
        ))
}

/// Every revealable neighbor of `i` (anything but a mine or an already
/// revealed counted cell) has been revealed.
pub open spec fn expanded(
    cells: Seq<TileKind>,
    height: int,
    width: int,
    hidden: Seq<bool>,
    i: int,
) -> bool {
    forall|j: int|
        #[trigger] adjacent(height, width, i, j) && !(cells[j] is Boom) && !(cells[j] is Defused)
            ==> !hidden[j]
}

/// The worklist is done: every cell this flood has revealed and may expand
/// (the seed and the revealed `Fine` cells) is fully expanded.
pub open spec fn swept(
    cells: Seq<TileKind>,
    height: int,
    width: int,
    h0: Seq<bool>,
    hidden: Seq<bool>,
    seed: int,
) -> bool {
    forall|i: int|
        0 <= i < cells.len() && h0[i] && !hidden[i] && (i == seed || cells[i] is Fine)
            ==> #[trigger] expanded(cells, height, width, hidden, i)
}

/// Between one click and the next, a revealed `Fine` cell never has a hidden
/// revealable neighbor: flood-clears always finish their region's rim.
pub open spec fn frontier_clear(
    cells: Seq<TileKind>,
    height: int,
    width: int,
    hidden: Seq<bool>,
) -> bool {
    forall|i: int, j: int|
        #[trigger] adjacent(height, width, i, j) && !hidden[i] && cells[i] is Fine && !(cells[j]
            is Boom) ==> !hidden[j]
}

/// The one-cell walk: a hidden seed reaches itself.
pub proof fn lemma_seed_reaches_itself(
    cells: Seq<TileKind>,
    height: int,
    width: int,
    hidden: Seq<bool>,
    seed: int,
)
    requires
        valid_index(height, width, seed),
        hidden[seed],
    ensures
        flood_reaches(cells, height, width, hidden, seed, seed),
{
    let p = seq![seed];
    assert(walk_ok(cells, height, width, p, seed) && hidden_walk(hidden, p) && p.last() == seed);
}

/// Extending a hidden walk by one adjacent hidden `Fine` cell.
pub proof fn lemma_reach_step(
    cells: Seq<TileKind>,
    height: int,
    width: int,
    hidden: Seq<bool>,
    seed: int,
    i: int,
    j: int,
)
    requires
        flood_reaches(cells, height, width, hidden, seed, i),
        adjacent(height, width, i, j),
        cells[j] is Fine,
        hidden[j],
    ensures
        flood_reaches(cells, height, width, hidden, seed, j),
{
    let p = choose|p: Seq<int>|
        walk_ok(cells, height, width, p, seed) && hidden_walk(hidden, p) && p.last() == i;
    let q = p.push(j);
    assert(q.last() == j);
    assert(forall|k: int| 0 <= k < p.len() ==> #[trigger] q[k] == p[k]);
    assert(q[p.len() as int] == j);
    assert(walk_ok(cells, height, width, q, seed) && hidden_walk(hidden, q));
}

/// What a reachable cell can be: the seed itself, or a `Fine` cell; either
/// way it is a valid, hidden index.
pub proof fn lemma_reaches_shape(
    cells: Seq<TileKind>,
    height: int,
    width: int,
    hidden: Seq<bool>,
    seed: int,
    i: int,
)
    requires
        flood_reaches(cells, height, width, hidden, seed, i),
    ensures
        valid_index(height, width, i),
        hidden[i],
        i == seed || cells[i] is Fine,
{
    let p = choose|p: Seq<int>|
        walk_ok(cells, height, width, p, seed) && hidden_walk(hidden, p) && p.last() == i;
    assert(p.last() == p[p.len() - 1]);
}

/// The same, without the hidden set: a region cell is the seed or `Fine`.
pub proof fn lemma_region_shape(
    cells: Seq<TileKind>,
    height: int,
    width: int,
    seed: int,
    i: int,
)
    requires
        region_reaches(cells, height, width, seed, i),
    ensures
        valid_index(height, width, i),
        i == seed || cells[i] is Fine,
{
    let p = choose|p: Seq<int>| walk_ok(cells, height, width, p, seed) && p.last() == i;
    assert(p.last() == p[p.len() - 1]);
}

/// Once the worklist is empty, every cell a hidden walk reaches has been
/// revealed: walk by walk, each step was expanded.
proof fn lemma_walk_cleared(
    cells: Seq<TileKind>,
    height: int,
    width: int,
    h0: Seq<bool>,
    cur: Seq<bool>,
    p: Seq<int>,
    seed: int,
)
    requires
        walk_ok(cells, height, width, p, seed),
        hidden_walk(h0, p),
        !cur[seed],
        swept(cells, height, width, h0, cur, seed),
        cells.len() == height * width,
    ensures
        !cur[p.last()],
    decreases p.len(),
{
    if p.len() == 1 {
        assert(p.last() == seed);
    } else {
        let q = p.drop_last();
        assert(q[0] == p[0]);
        assert(forall|k: int| 0 <= k < q.len() ==> #[trigger] q[k] == p[k]);
        lemma_walk_cleared(cells, height, width, h0, cur, q, seed);
        let i = p[p.len() - 2];
        assert(q.last() == i);
        assert(h0[i] && !cur[i] && (i == seed || cells[i] is Fine));
        assert(expanded(cells, height, width, cur, i));
        assert(adjacent(height, width, i, p.last()) && cells[p.last()] is Fine);
    }
}

/// After a flood-clear from a hidden seed, a whole-region walk ends revealed;
/// and where the walk's end was still hidden beforehand, it was revealed by
/// this very flood. The walk may cross cells revealed earlier: there the
/// frontier invariant says everything beyond was already revealed.
proof fn lemma_region_walk_cleared(
    cells: Seq<TileKind>,
    height: int,
    width: int,
    h0: Seq<bool>,
    h1: Seq<bool>,
    p: Seq<int>,
    seed: int,
)
    requires
        valid_dims(height, width),
        cells.len() == height * width,
        h0.len() == cells.len(),
        walk_ok(cells, height, width, p, seed),
        flood_post(cells, height, width, h0, h1, seed),
        frontier_clear(cells, height, width, h0),
        valid_index(height, width, seed),
        h0[seed],
    ensures
        !h1[p.last()],
        h0[p.last()] ==> flood_reaches(cells, height, width, h0, seed, p.last()),
    decreases p.len(),
{
    reveal(newly_cleared);
    if p.len() == 1 {
        assert(p.last() == seed);
        lemma_seed_reaches_itself(cells, height, width, h0, seed);
    } else {
        let q = p.drop_last();
        assert(q[0] == p[0]);
        assert(forall|k: int| 0 <= k < q.len() ==> #[trigger] q[k] == p[k]);
        lemma_region_walk_cleared(cells, height, width, h0, h1, q, seed);
        let i = p[p.len() - 2];
        assert(q.last() == i);
        let last = p.last();
        assert(adjacent(height, width, i, last) && cells[last] is Fine);
        if h0[i] {
            if h0[last] {
                lemma_reach_step(cells, height, width, h0, seed, i, last);
            }
        } else {
            assert(i != seed);
            assert(cells[i] is Fine);
            assert(!h0[last]);
        }
    }
}

/// Flood-clear completeness at the level of one click: every cell of the
/// clicked cell's connected `Fine` region ends revealed.
pub proof fn lemma_region_cleared(
    cells: Seq<TileKind>,
    height: int,
    width: int,
    h0: Seq<bool>,
    h1: Seq<bool>,
    seed: int,
    j: int,
)
    requires
        valid_dims(height, width),
        cells.len() == height * width,
        h0.len() == cells.len(),
        flood_post(cells, height, width, h0, h1, seed),
        frontier_clear(cells, height, width, h0),
        valid_index(height, width, seed),
        h0[seed],
        region_reaches(cells, height, width, seed, j),
    ensures
        !h1[j],
        h0[j] ==> flood_reaches(cells, height, width, h0, seed, j),
{
    let p = choose|p: Seq<int>| walk_ok(cells, height, width, p, seed) && p.last() == j;
    lemma_region_walk_cleared(cells, height, width, h0, h1, p, seed);
}

/// And the region's rim: every counted cell next to the region ends
/// revealed as well.
pub proof fn lemma_border_region_cleared(
    cells: Seq<TileKind>,
    height: int,
    width: int,
    h0: Seq<bool>,
    h1: Seq<bool>,
    seed: int,
    i: int,
    j: int,
)
    requires
        valid_dims(height, width),
        cells.len() == height * width,
        h0.len() == cells.len(),
        flood_post(cells, height, width, h0, h1, seed),
        frontier_clear(cells, height, width, h0),
        valid_index(height, width, seed),
        h0[seed],
        region_reaches(cells, height, width, seed, i),
        adjacent(height, width, i, j),
        warns(cells[j]),
    ensures
        !h1[j],
{
    reveal(newly_cleared);
    lemma_region_cleared(cells, height, width, h0, h1, seed, i);
    lemma_region_shape(cells, height, width, seed, i);
    if h0[j] {
        if h0[i] {
            assert(border_reached(cells, height, width, h0, seed, j));
        } else {
            assert(i != seed);
            assert(cells[i] is Fine && !(cells[j] is Boom));
            assert(!h0[j]);
        }
    }
}

/// Mines are never revealed by a flood-clear.
pub proof fn lemma_boom_stays_hidden(
    cells: Seq<TileKind>,
    height: int,
    width: int,
    h0: Seq<bool>,
    h1: Seq<bool>,
    seed: int,
    b: int,
)
    requires
        cells.len() == height * width,
        h0.len() == cells.len(),
        flood_post(cells, height, width, h0, h1, seed),
        !(cells[seed] is Boom),
        0 <= b < cells.len(),
        cells[b] is Boom,
    ensures
        h1[b] == h0[b],
{
    reveal(newly_cleared);
    if h0[b] && !h1[b] {
        assert(newly_cleared(cells, height, width, h0, seed, b));
        if flood_reaches(cells, height, width, h0, seed, b) {
            lemma_reaches_shape(cells, height, width, h0, seed, b);
        }
        assert(false);
    }
}

/// A flood-clear leaves no revealed `Fine` cell with a hidden revealable
/// neighbor: the frontier invariant survives every click.
pub proof fn lemma_frontier_preserved(
    cells: Seq<TileKind>,
    height: int,
    width: int,
    h0: Seq<bool>,
    h1: Seq<bool>,
    seed: int,
)
    requires
        valid_dims(height, width),
        cells.len() == height * width,
        h0.len() == cells.len(),
        flood_post(cells, height, width, h0, h1, seed),
        frontier_clear(cells, height, width, h0),
        valid_index(height, width, seed),
        h0[seed],
        forall|j: int| 0 <= j < cells.len() && #[trigger] cells[j] is Defused ==> !h0[j],
    ensures
        frontier_clear(cells, height, width, h1),
{
    reveal(newly_cleared);
    assert forall|i: int, j: int|
        #[trigger] adjacent(height, width, i, j) && !h1[i] && cells[i] is Fine && !(cells[j]
            is Boom) implies !h1[j] by {
        if !h0[i] {
            assert(!h0[j]);
        } else {
            assert(newly_cleared(cells, height, width, h0, seed, i));
            assert(!warns(cells[i]));
            assert(flood_reaches(cells, height, width, h0, seed, i));
            if h0[j] {
                if cells[j] is Fine {
                    lemma_reach_step(cells, height, width, h0, seed, i, j);
                } else {
                    assert(warns(cells[j]));
                    assert(border_reached(cells, height, width, h0, seed, j));
                }
            }
        }
    }
}

/// What the reachability specs read of a cell: whether it is `Fine`, a mine,
/// or a counted cell. Boards that agree on this profile agree on every
/// reachability question.
pub open spec fn same_profile(a: Seq<TileKind>, b: Seq<TileKind>) -> bool {
    &&& a.len() == b.len()
    &&& forall|i: int|
        0 <= i < a.len() ==> ((#[trigger] a[i] is Fine <==> #[trigger] b[i] is Fine) && (a[i]
            is Boom <==> b[i] is Boom) && (warns(a[i]) <==> warns(b[i])))
}

proof fn lemma_newly_cleared_profile_one_way(
    a: Seq<TileKind>,
    b: Seq<TileKind>,
    height: int,
    width: int,
    hidden: Seq<bool>,
    seed: int,
    j: int,
)
    requires
        same_profile(a, b),
        cells_fit(a, height, width),
        newly_cleared(a, height, width, hidden, seed, j),
    ensures
        newly_cleared(b, height, width, hidden, seed, j),
{
    reveal(newly_cleared);
    if flood_reaches(a, height, width, hidden, seed, j) {
        let p = choose|p: Seq<int>|
            walk_ok(a, height, width, p, seed) && hidden_walk(hidden, p) && p.last() == j;
        assert(walk_ok(b, height, width, p, seed));
        assert(flood_reaches(b, height, width, hidden, seed, j));
    } else {
        let i = choose|i: int|
            flood_reaches(a, height, width, hidden, seed, i) && #[trigger] adjacent(
                height,
                width,
                i,
                j,
            );
        let p = choose|p: Seq<int>|
            walk_ok(a, height, width, p, seed) && hidden_walk(hidden, p) && p.last() == i;
        assert(walk_ok(b, height, width, p, seed));
        assert(flood_reaches(b, height, width, hidden, seed, i));
        assert(border_reached(b, height, width, hidden, seed, j));
    }
}

/// A helper guard so profile lemmas can check indices are on the board.
pub open spec fn cells_fit(cells: Seq<TileKind>, height: int, width: int) -> bool {
    cells.len() == height * width
}

/// Marking revealed counted cells as `Defused` (or any other change that
/// keeps the profile) changes nothing about what a flood-clear reveals.
pub proof fn lemma_flood_post_profile(
    a: Seq<TileKind>,
    b: Seq<TileKind>,
    height: int,
    width: int,
    h0: Seq<bool>,
    h1: Seq<bool>,
    seed: int,
)
    requires
        same_profile(a, b),
        cells_fit(a, height, width),
        flood_post(a, height, width, h0, h1, seed),
        h0.len() == a.len(),
    ensures
        flood_post(b, height, width, h0, h1, seed),
{
    reveal(newly_cleared);
    assert forall|j: int| 0 <= j < h0.len() implies (#[trigger] h1[j] <==> h0[j] && !newly_cleared(
        b,
        height,
        width,
        h0,
        seed,
        j,
    )) by {
        if newly_cleared(a, height, width, h0, seed, j) {
            lemma_newly_cleared_profile_one_way(a, b, height, width, h0, seed, j);
        }
        if newly_cleared(b, height, width, h0, seed, j) {
            lemma_newly_cleared_profile_one_way(b, a, height, width, h0, seed, j);
        }
    }
}

/// The frontier invariant also carries across profile-preserving board
/// changes, such as marking revealed counted cells `Defused`.
pub proof fn lemma_frontier_profile(
    a: Seq<TileKind>,
    b: Seq<TileKind>,
    height: int,
    width: int,
    hidden: Seq<bool>,
)
    requires
        same_profile(a, b),
        cells_fit(a, height, width),
        frontier_clear(a, height, width, hidden),
    ensures
        frontier_clear(b, height, width, hidden),
{
    assert forall|i: int, j: int|
        #[trigger] adjacent(height, width, i, j) && !hidden[i] && b[i] is Fine && !(b[j]
            is Boom) implies !hidden[j] by {
        assert(a[i] is Fine && !(a[j] is Boom));
    }
}

/// The exit lemma of the flood loop: monotone reveals, sound reveals and an
/// empty worklist amount exactly to `flood_post`.
pub proof fn lemma_flood_exit(
    cells: Seq<TileKind>,
    height: int,
    width: int,
    h0: Seq<bool>,
    cur: Seq<bool>,
    seed: int,
)
    requires
        valid_dims(height, width),
        cells.len() == height * width,
        h0.len() == cells.len(),
        cur.len() == cells.len(),
        valid_index(height, width, seed),
        h0[seed],
        !cur[seed],
        forall|j: int| 0 <= j < cells.len() && !h0[j] ==> !(#[trigger] cur[j]),
        forall|j: int|
            0 <= j < cells.len() && h0[j] && !(#[trigger] cur[j]) ==> newly_cleared(
                cells,
                height,
                width,
                h0,
                seed,
                j,
            ),
        swept(cells, height, width, h0, cur, seed),
        forall|j: int| 0 <= j < cells.len() && #[trigger] cells[j] is Defused ==> !h0[j],
    ensures
        flood_post(cells, height, width, h0, cur, seed),
{
    reveal(newly_cleared);
    assert forall|j: int| 0 <= j < h0.len() implies (#[trigger] cur[j] <==> h0[j]
        && !newly_cleared(cells, height, width, h0, seed, j)) by {
        if h0[j] && newly_cleared(cells, height, width, h0, seed, j) {
            if flood_reaches(cells, height, width, h0, seed, j) {
                let p = choose|p: Seq<int>|
                    walk_ok(cells, height, width, p, seed) && hidden_walk(h0, p) && p.last() == j;
                lemma_walk_cleared(cells, height, width, h0, cur, p, seed);
            } else {
                let i = choose|i: int|
                    flood_reaches(cells, height, width, h0, seed, i) && #[trigger] adjacent(
                        height,
                        width,
                        i,
                        j,
                    );
                let p = choose|p: Seq<int>|
                    walk_ok(cells, height, width, p, seed) && hidden_walk(h0, p) && p.last() == i;
                lemma_walk_cleared(cells, height, width, h0, cur, p, seed);
                lemma_reaches_shape(cells, height, width, h0, seed, i);
                assert(expanded(cells, height, width, cur, i));
                assert(!(cells[j] is Boom) && !(cells[j] is Defused));
            }
        }
    }
}

} // verus!
