use crate::counting::{count_hits, lemma_count_hits_update};
use crate::grid::{adjacent, valid_index};
use crate::minefield::Minefield;
use crate::reach::{
    border_reached, expanded, flood_post, flood_reaches, lemma_flood_exit, lemma_reach_step,
    lemma_seed_reaches_itself, newly_cleared,
};
use crate::tile::TileKind;
use vstd::prelude::*;

verus! {

broadcast use vstd::seq_lib::lemma_seq_contains, vstd::seq_lib::lemma_seq_contains_after_push;

/// The predicate `hidden_total` counts with: the cell is still hidden.
pub open spec fn hidden_at() -> spec_fn(int, bool) -> bool {
    |p: int, b: bool| b
}

/// How many cells are still hidden; the flood-clear shrinks this, which is
/// what bounds its worklist.
pub open spec fn hidden_total(hidden: Seq<bool>) -> nat {
    count_hits(hidden, hidden_at(), hidden.len() as int)
}

/// Appending a fresh element keeps a list duplicate-free.
proof fn lemma_push_nodup<T>(s: Seq<T>, x: T)
    requires
        s.no_duplicates(),
        !s.contains(x),
    ensures
        s.push(x).no_duplicates(),
{
    let q = s.push(x);
    assert forall|m1: int, m2: int|
        0 <= m1 < q.len() && 0 <= m2 < q.len() && m1 != m2 implies q[m1] != q[m2] by {
        if m1 < s.len() && m2 < s.len() {
            assert(q[m1] == s[m1] && q[m2] == s[m2]);
        } else if m2 == s.len() {
            assert(q[m1] == s[m1] && q[m2] == x);
        } else {
            assert(q[m2] == s[m2] && q[m1] == x);
        }
    }
}

/// Reveal the clicked cell and flood-clear from it: every still-hidden
/// `Fine` cell connected to it is revealed and expanded, every counted cell
/// on the region's rim is revealed but not expanded, and mines stay hidden.
/// Returns the indices revealed by this call, each exactly once.
pub fn clear(field: &Minefield, hidden: &mut Vec<bool>, start: usize) -> (cleared: Vec<usize>)
    requires
        field.wf(),
        old(hidden)@.len() == field.cells@.len(),
        valid_index(field.height as int, field.width as int, start as int),
        !(field.cells@[start as int] is Boom),
        !(field.cells@[start as int] is Defused),
        old(hidden)@[start as int],
        forall|j: int|
            0 <= j < field.cells@.len() && #[trigger] field.cells@[j] is Defused ==> !old(
                hidden,
            )@[j],
    ensures
        final(hidden)@.len() == old(hidden)@.len(),
        flood_post(
            field.cells@,
            field.height as int,
            field.width as int,
            old(hidden)@,
            final(hidden)@,
            start as int,
        ),
        cleared@.no_duplicates(),
        forall|m: int|
            0 <= m < cleared@.len() ==> ({
                let c = #[trigger] cleared@[m] as int;
                &&& valid_index(field.height as int, field.width as int, c)
                &&& old(hidden)@[c]
                &&& !final(hidden)@[c]
            }),
        forall|j: int|
            0 <= j < old(hidden)@.len() && old(hidden)@[j] && !(#[trigger] final(hidden)@[j])
                ==> cleared@.contains(j as usize),
{
    let ghost ch = field.height as int;
    let ghost cw = field.width as int;
    let ghost cells = field.cells@;
    let ghost h0 = hidden@;
    let ghost s = start as int;

    let mut cleared: Vec<usize> = Vec::new();
    let mut stack: Vec<usize> = Vec::new();
    hidden.set(start, false);
    cleared.push(start);
    stack.push(start);
    proof {
        reveal(newly_cleared);
        assert(cells.len() <= usize::MAX) by {
            assert(field.cells.len() == cells.len());
        }
        lemma_seed_reaches_itself(cells, ch, cw, h0, s);
        lemma_count_hits_update(h0, hidden_at(), s, false, h0.len() as int);
        assert(cleared@[0] == start);
        assert(stack@[0] == start);
    }
    while stack.len() != 0
        invariant
            field.wf(),
            cells == field.cells@,
            ch == field.height as int,
            cw == field.width as int,
            h0.len() == cells.len(),
            hidden@.len() == cells.len(),
            cells.len() <= usize::MAX,
            valid_index(ch, cw, s),
            s == start as int,
            h0[s],
            !hidden@[s],
            !(cells[s] is Boom),
            !(cells[s] is Defused),
            forall|j: int| 0 <= j < cells.len() && #[trigger] cells[j] is Defused ==> !h0[j],
            forall|j: int| 0 <= j < cells.len() && !h0[j] ==> !(#[trigger] hidden@[j]),
            forall|j: int|
                0 <= j < cells.len() && h0[j] && !(#[trigger] hidden@[j]) ==> newly_cleared(
                    cells,
                    ch,
                    cw,
                    h0,
                    s,
                    j,
                ),
            forall|m: int|
                0 <= m < stack@.len() ==> ({
                    let e = (#[trigger] stack@[m]) as int;
                    &&& valid_index(ch, cw, e)
                    &&& h0[e]
                    &&& !hidden@[e]
                    &&& flood_reaches(cells, ch, cw, h0, s, e)
                    &&& (e == s || cells[e] is Fine)
                    &&& !(cells[e] is Boom)
                    &&& !(cells[e] is Defused)
                }),
            forall|j: int|
                0 <= j < cells.len() && h0[j] && !(#[trigger] hidden@[j]) && (j == s || cells[j]
                    is Fine) ==> stack@.contains(j as usize) || expanded(cells, ch, cw, hidden@, j),
            cleared@.no_duplicates(),
            forall|m: int|
                0 <= m < cleared@.len() ==> ({
                    let c = (#[trigger] cleared@[m]) as int;
                    &&& valid_index(ch, cw, c)
                    &&& h0[c]
                    &&& !hidden@[c]
                }),
            forall|j: int|
                0 <= j < cells.len() && h0[j] && !(#[trigger] hidden@[j]) ==> cleared@.contains(
                    j as usize,
                ),
        decreases hidden_total(hidden@) + stack@.len(),
    {
        let ghost budget = hidden_total(hidden@) + stack@.len();
        let ghost stack_before = stack@;
        let i = match stack.pop() {
            Some(x) => x,
            None => {
                proof {
                    assert(false);
                }
                0
            },
        };
        proof {
            assert forall|j: int|
                0 <= j < cells.len() && h0[j] && !(#[trigger] hidden@[j]) && (j == s || cells[j]
                    is Fine) && j != i as int implies stack@.contains(j as usize) || expanded(
                cells,
                ch,
                cw,
                hidden@,
                j,
            ) by {
                if stack_before.contains(j as usize) && !expanded(cells, ch, cw, hidden@, j) {
                    let m = choose|m: int|
                        0 <= m < stack_before.len() && stack_before[m] == j as usize;
                    assert(m < stack_before.len() - 1);
                    assert(stack@[m] == j as usize);
                }
            }
        }
        let nbrs = field.neighbors(i);
        let ghost nlen = nbrs@.len() as int;
        let mut t: usize = 0;
        while t < nbrs.len()
            invariant
                field.wf(),
                cells == field.cells@,
                ch == field.height as int,
                cw == field.width as int,
                h0.len() == cells.len(),
                hidden@.len() == cells.len(),
                cells.len() <= usize::MAX,
                valid_index(ch, cw, s),
                s == start as int,
                h0[s],
                !hidden@[s],
                !(cells[s] is Boom),
                !(cells[s] is Defused),
                t <= nbrs@.len(),
                nlen == nbrs@.len() as int,
                valid_index(ch, cw, i as int),
                h0[i as int],
                !hidden@[i as int],
                flood_reaches(cells, ch, cw, h0, s, i as int),
                i as int == s || cells[i as int] is Fine,
                forall|m: int|
                    0 <= m < nbrs@.len() ==> adjacent(ch, cw, i as int, (#[trigger] nbrs@[m]).1 as int)
                        && nbrs@[m].2 == cells[nbrs@[m].1 as int],
                forall|j: int|
                    #[trigger] adjacent(ch, cw, i as int, j) ==> exists|m: int|
                        0 <= m < nbrs@.len() && (#[trigger] nbrs@[m]).1 == j,
                forall|j: int| 0 <= j < cells.len() && #[trigger] cells[j] is Defused ==> !h0[j],
                forall|j: int| 0 <= j < cells.len() && !h0[j] ==> !(#[trigger] hidden@[j]),
                forall|j: int|
                    0 <= j < cells.len() && h0[j] && !(#[trigger] hidden@[j]) ==> newly_cleared(
                        cells,
                        ch,
                        cw,
                        h0,
                        s,
                        j,
                    ),
                forall|m: int|
                    0 <= m < stack@.len() ==> ({
                        let e = (#[trigger] stack@[m]) as int;
                        &&& valid_index(ch, cw, e)
                        &&& h0[e]
                        &&& !hidden@[e]
                        &&& flood_reaches(cells, ch, cw, h0, s, e)
                        &&& (e == s || cells[e] is Fine)
                        &&& !(cells[e] is Boom)
                        &&& !(cells[e] is Defused)
                    }),
                forall|j: int|
                    0 <= j < cells.len() && h0[j] && !(#[trigger] hidden@[j]) && (j == s || cells[j]
                        is Fine) && j != i as int ==> stack@.contains(j as usize) || expanded(
                        cells,
                        ch,
                        cw,
                        hidden@,
                        j,
                    ),
                forall|m: int|
                    0 <= m < t ==> ({
                        let j = (#[trigger] nbrs@[m]).1 as int;
                        (!(cells[j] is Boom) && !(cells[j] is Defused)) ==> !hidden@[j]
                    }),
                cleared@.no_duplicates(),
                forall|m: int|
                    0 <= m < cleared@.len() ==> ({
                        let c = (#[trigger] cleared@[m]) as int;
                        &&& valid_index(ch, cw, c)
                        &&& h0[c]
                        &&& !hidden@[c]
                    }),
                forall|j: int|
                    0 <= j < cells.len() && h0[j] && !(#[trigger] hidden@[j]) ==> cleared@.contains(
                        j as usize,
                    ),
                hidden_total(hidden@) + stack@.len() <= budget - 1,
            decreases nbrs@.len() - t,
        {
            let entry = nbrs[t];
            let j = entry.1;
            let hid = hidden[j];
            if hid {
                proof {
                    assert(h0[j as int]);
                }
                match entry.2 {
                    TileKind::Fine => {
                        let ghost hprev = hidden@;
                        hidden.set(j, false);
                        proof {
                            reveal(newly_cleared);
                            lemma_reach_step(cells, ch, cw, h0, s, i as int, j as int);
                            lemma_count_hits_update(
                                hprev,
                                hidden_at(),
                                j as int,
                                false,
                                hprev.len() as int,
                            );
                            assert(!cleared@.contains(j));
                            lemma_push_nodup(cleared@, j);
                        }
                        cleared.push(j);
                        stack.push(j);
                    },
                    TileKind::Danger(_) => {
                        let ghost hprev = hidden@;
                        hidden.set(j, false);
                        proof {
                            reveal(newly_cleared);
                            assert(adjacent(ch, cw, i as int, j as int) && flood_reaches(
                                cells,
                                ch,
                                cw,
                                h0,
                                s,
                                i as int,
                            ));
                            assert(border_reached(cells, ch, cw, h0, s, j as int));
                            lemma_count_hits_update(
                                hprev,
                                hidden_at(),
                                j as int,
                                false,
                                hprev.len() as int,
                            );
                            assert(!cleared@.contains(j));
                            lemma_push_nodup(cleared@, j);
                        }
                        cleared.push(j);
                    },
                    _ => {},
                }
            }
            t += 1;
        }
        proof {
            assert forall|j: int|
                0 <= j < cells.len() && h0[j] && !(#[trigger] hidden@[j]) && (j == s || cells[j]
                    is Fine) implies stack@.contains(j as usize) || expanded(
                cells,
                ch,
                cw,
                hidden@,
                j,
            ) by {
                if j == i as int {
                    assert forall|x: int|
                        #[trigger] adjacent(ch, cw, j, x) && !(cells[x] is Boom) && !(cells[x]
                            is Defused) implies !hidden@[x] by {
                        let m = choose|m: int| 0 <= m < nbrs@.len() && (#[trigger] nbrs@[m]).1 == x;
                        assert(nbrs@[m].1 as int == x);
                    }
                    assert(expanded(cells, ch, cw, hidden@, j));
                }
            }
        }
    }
    proof {
        assert forall|j: int|
            0 <= j < cells.len() && h0[j] && !(#[trigger] hidden@[j]) && (j == s || cells[j]
                is Fine) implies expanded(cells, ch, cw, hidden@, j) by {
            assert(!stack@.contains(j as usize));
        }
        lemma_flood_exit(cells, ch, cw, h0, hidden@, s);
    }
    cleared
}

} // verus!
