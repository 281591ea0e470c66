use crate::grid::{adjacent, valid_index};
use crate::minefield::{
    all_fine, boom_total, freshly_annotated, lemma_boom_degree_congruent, lemma_booms_near_none,
    well_annotated, Minefield,
};
use crate::minesweeper::clear;
use crate::reach::{
    flood_post, frontier_clear, lemma_boom_stays_hidden, lemma_border_region_cleared,
    lemma_flood_post_profile, lemma_frontier_preserved, lemma_frontier_profile,
    lemma_region_cleared, lemma_reaches_shape, newly_cleared, region_reaches, same_profile,
};
use crate::stages::GameStage;
use crate::tile::{danger_kind, warns, TileKind};
use vstd::prelude::*;

verus! {

/// What the stage machine reports to the surrounding layers, per input.
#[derive(Clone, Copy, Debug, PartialEq, Eq, Structural)]
pub enum GameEvent {
    /// A cell moved from hidden to revealed; `kind` is what the board records
    /// there after the reveal: `Fine`, or `Defused` with its count.
    TileCleared { index: usize, kind: TileKind },
    /// A mine was clicked.
    BombTriggered { index: usize },
    /// The stage entered `KillScreen`.
    GameOver,
    /// The stage entered `WinScreen`.
    GameWon,
    /// Any stage change, for screen-swapping collaborators.
    StageChanged { from: GameStage, to: GameStage },
}

/// One game: the board, the current stage, which cells the player has not
/// yet revealed, and how many mines the first click will place.
pub struct Game {
    /// The board.
    pub field: Minefield,
    /// The current stage.
    pub stage: GameStage,
    /// `hidden[i]` holds until cell `i` is revealed.
    pub hidden: Vec<bool>,
    /// How many mines `set_bombs_avoiding` is asked for on the first click.
    pub bomb_target: usize,
}

/// The reveal reports of one click: a `TileCleared` event for each cell the
/// click revealed, each exactly once, carrying the cell's recorded kind.
pub open spec fn clear_list_ok(
    evs: Seq<GameEvent>,
    cells: Seq<TileKind>,
    h0: Seq<bool>,
    h1: Seq<bool>,
) -> bool {
    &&& forall|k: int|
        0 <= k < evs.len() ==> (#[trigger] evs[k] matches GameEvent::TileCleared { index, kind }
            && 0 <= index < h0.len() && h0[index as int] && !h1[index as int] && kind
            == cells[index as int])
    &&& forall|j: int|
        0 <= j < h0.len() && h0[j] && !(#[trigger] h1[j]) ==> evs.contains(
            GameEvent::TileCleared { index: j as usize, kind: cells[j] },
        )
    &&& evs.no_duplicates()
}

impl Game {
    /// The board's cells.
    pub open spec fn cells(self) -> Seq<TileKind> {
        self.field.cells@
    }

    /// The game's invariant. Beyond the board's own shape: the hidden set
    /// covers the board; annotations are exact; a revealed cell is `Fine` or
    /// `Defused` (mines stay hidden, `KillScreen` or not); `Defused` marks
    /// exactly the revealed counted cells; no revealed `Fine` cell still has
    /// a hidden revealable neighbor (flood-clears finish their work); and
    /// before the first click the board is untouched.
    pub open spec fn wf(self) -> bool {
        &&& self.field.wf()
        &&& self.hidden@.len() == self.cells().len()
        &&& well_annotated(self.cells(), self.field.height as int, self.field.width as int)
        &&& forall|i: int|
            0 <= i < self.cells().len() && !self.hidden@[i] ==> (#[trigger] self.cells()[i]
                is Fine || self.cells()[i] is Defused)
        &&& forall|i: int|
            0 <= i < self.cells().len() && #[trigger] self.cells()[i] is Defused
                ==> !self.hidden@[i]
        &&& frontier_clear(
            self.cells(),
            self.field.height as int,
            self.field.width as int,
            self.hidden@,
        )
        &&& self.stage is NewGame ==> (all_fine(self.cells()) && self.field.bombs == 0 && forall|
            i: int,
        | 0 <= i < self.hidden@.len() ==> self.hidden@[i])
    }

    /// The win condition: no `Fine` cell is still hidden.
    pub open spec fn won(self) -> bool {
        forall|i: int|
            0 <= i < self.cells().len() && self.hidden@[i] ==> !(#[trigger] self.cells()[i]
                is Fine)
    }

    /// Whether a click at `index` is ignored: the game is over, the index is
    /// off the board, or the cell is already revealed.
    pub open spec fn click_ignored(self, index: usize) -> bool {
        ||| self.stage is KillScreen
        ||| self.stage is WinScreen
        ||| (index as int) >= self.cells().len()
        ||| !self.hidden@[index as int]
    }

    /// A fresh game: an all-`Fine` board, everything hidden, no mines yet;
    /// `bombs` mines will be placed on the first click.
    pub fn new(height: usize, width: usize, bombs: usize) -> (game: Game)
        requires
            1 <= height,
            1 <= width,
            height * width <= usize::MAX,
        ensures
            game.wf(),
            game.stage is NewGame,
            game.field.height == height,
            game.field.width == width,
            game.field.bombs == 0,
            game.bomb_target == bombs,
            all_fine(game.cells()),
            game.hidden@.len() == height * width,
            forall|i: int| 0 <= i < game.hidden@.len() ==> game.hidden@[i],
    {
        let field = Minefield::new(height, width);
        let total = field.cells.len();
        let mut hidden: Vec<bool> = Vec::new();
        let mut i: usize = 0;
        while i < total
            invariant
                i <= total,
                hidden@.len() == i,
                forall|j: int| 0 <= j < i ==> hidden@[j],
            decreases total - i,
        {
            hidden.push(true);
            i += 1;
        }
        let game = Game { field, stage: GameStage::NewGame, hidden, bomb_target: bombs };
        proof {
            assert forall|i2: int|
                0 <= i2 < game.cells().len() && !(#[trigger] game.cells()[i2] is Boom) implies game.cells()[i2]
                == danger_kind(
                boom_degree_of(game, i2),
            ) by {
                lemma_booms_near_none(
                    game.cells(),
                    height as int,
                    width as int,
                    crate::grid::row_of(width as int, i2),
                    crate::grid::col_of(width as int, i2),
                    8,
                );
            }
        }
        game
    }

    /// Resume play on a prepared board: mines placed, annotations exact,
    /// nothing revealed yet. The stage starts at `MapSet`.
    pub fn from_minefield(field: Minefield) -> (game: Game)
        requires
            field.wf(),
            freshly_annotated(field.cells@, field.height as int, field.width as int),
        ensures
            game.wf(),
            game.stage is MapSet,
            game.field == field,
            game.bomb_target == field.bombs,
            game.hidden@.len() == field.cells@.len(),
            forall|i: int| 0 <= i < game.hidden@.len() ==> game.hidden@[i],
    {
        let total = field.cells.len();
        let bombs = field.bombs;
        let mut hidden: Vec<bool> = Vec::new();
        let mut i: usize = 0;
        while i < total
            invariant
                i <= total,
                hidden@.len() == i,
                forall|j: int| 0 <= j < i ==> hidden@[j],
            decreases total - i,
        {
            hidden.push(true);
            i += 1;
        }
        Game { field, stage: GameStage::MapSet, hidden, bomb_target: bombs }
    }

    /// The current stage.
    pub fn current_stage(&self) -> (stage: GameStage)
        ensures
            stage == self.stage,
    {
        self.stage
    }

    /// How many mines are on the board (zero until the first click).
    pub fn bomb_count(&self) -> (count: usize)
        ensures
            count == self.field.bombs,
    {
        self.field.bombs
    }

    /// The board's `(height, width)`.
    pub fn board_dimensions(&self) -> (dims: (usize, usize))
        ensures
            dims.0 == self.field.height,
            dims.1 == self.field.width,
    {
        (self.field.height, self.field.width)
    }

    /// The kind recorded at `index`, or `None` off the board.
    pub fn tile_kind_at(&self, index: usize) -> (r: Option<TileKind>)
        ensures
            r is Some <==> (index as int) < self.cells().len(),
            r matches Some(kind) ==> kind == self.cells()[index as int],
    {
        if index < self.field.cells.len() {
            Some(self.field.cells[index])
        } else {
            None
        }
    }

    /// Whether the cell at `index` is still hidden, or `None` off the board.
    pub fn is_hidden(&self, index: usize) -> (r: Option<bool>)
        ensures
            r is Some <==> (index as int) < self.hidden@.len(),
            r matches Some(b) ==> b == self.hidden@[index as int],
    {
        if index < self.hidden.len() {
            Some(self.hidden[index])
        } else {
            None
        }
    }

    /// Whether the player has won: every `Fine` cell is revealed.
    pub fn you_win(&self) -> (r: bool)
        requires
            self.wf(),
        ensures
            r == self.won(),
    {
        let total = self.field.cells.len();
        let mut i: usize = 0;
        while i < total
            invariant
                i <= total,
                total == self.cells().len(),
                self.hidden@.len() == total,
                forall|j: int|
                    0 <= j < i && self.hidden@[j] ==> !(#[trigger] self.cells()[j] is Fine),
            decreases total - i,
        {
            if self.hidden[i] && matches!(self.field.cells[i], TileKind::Fine) {
                proof {
                    assert(self.hidden@[i as int] && self.cells()[i as int] is Fine);
                }
                return false;
            }
            i += 1;
        }
        true
    }

    /// Force the game over, as a quit key would: any stage but `WinScreen`
    /// drops to `KillScreen`; a won game stays won.
    pub fn end_game(&mut self) -> (events: Vec<GameEvent>)
        requires
            old(self).wf(),
        ensures
            final(self).wf(),
            final(self).field == old(self).field,
            final(self).hidden == old(self).hidden,
            final(self).bomb_target == old(self).bomb_target,
            final(self).stage == if old(self).stage is WinScreen {
                GameStage::WinScreen
            } else {
                GameStage::KillScreen
            },
            events@ == if old(self).stage is WinScreen {
                Seq::<GameEvent>::empty()
            } else {
                seq![
                    GameEvent::GameOver,
                    GameEvent::StageChanged { from: old(self).stage, to: GameStage::KillScreen },
                ]
            },
    {
        if matches!(self.stage, GameStage::WinScreen) {
            Vec::new()
        } else {
            let from = self.stage;
            self.stage = GameStage::KillScreen;
            let mut events: Vec<GameEvent> = Vec::new();
            events.push(GameEvent::GameOver);
            events.push(GameEvent::StageChanged { from, to: GameStage::KillScreen });
            proof {
                assert(events@ =~= seq![
                    GameEvent::GameOver,
                    GameEvent::StageChanged { from, to: GameStage::KillScreen },
                ]);
            }
            events
        }
    }

    /// Start over: whatever the stage, return to `NewGame` with a fresh
    /// all-`Fine` board of the same dimensions, everything hidden and no
    /// mines; the first click will place them again.
    pub fn reset(&mut self) -> (events: Vec<GameEvent>)
        requires
            old(self).wf(),
        ensures
            final(self).wf(),
            final(self).stage is NewGame,
            final(self).field.height == old(self).field.height,
            final(self).field.width == old(self).field.width,
            final(self).field.bombs == 0,
            final(self).bomb_target == old(self).bomb_target,
            all_fine(final(self).cells()),
            final(self).hidden@.len() == final(self).cells().len(),
            forall|i: int| 0 <= i < final(self).hidden@.len() ==> final(self).hidden@[i],
            events@ == seq![
                GameEvent::StageChanged { from: old(self).stage, to: GameStage::NewGame },
            ],
    {
        proof {
            assert(self.field.cells@.len() <= usize::MAX) by {
                assert(self.field.cells.len() == self.field.cells@.len());
            }
        }
        let from = self.stage;
        *self = Game::new(self.field.height, self.field.width, self.bomb_target);
        let mut events: Vec<GameEvent> = Vec::new();
        events.push(GameEvent::StageChanged { from, to: GameStage::NewGame });
        proof {
            assert(events@ =~= seq![GameEvent::StageChanged { from, to: GameStage::NewGame }]);
        }
        events
    }
}

/// The shape of one reveal step: dimensions, mine count, bomb target and
/// stage are kept; the hidden set changed exactly by the flood-clear from
/// `index`; on the board, exactly the newly revealed `Danger` cells turned
/// into `Defused` ones with the same count.
pub open spec fn reveal_step_ok(g0: Game, g1: Game, index: int) -> bool {
    &&& g1.field.height == g0.field.height
    &&& g1.field.width == g0.field.width
    &&& g1.field.bombs == g0.field.bombs
    &&& g1.bomb_target == g0.bomb_target
    &&& g1.stage == g0.stage
    &&& g1.hidden@.len() == g0.hidden@.len()
    &&& g1.cells().len() == g0.cells().len()
    &&& (forall|i: int|
        0 <= i < g0.cells().len() && !g1.hidden@[i] ==> (#[trigger] g0.cells()[i] matches TileKind::Danger(
            n,
        ) ==> g1.cells()[i] == TileKind::Defused(n)))
    &&& (forall|i: int|
        0 <= i < g0.cells().len() && !(!g1.hidden@[i] && #[trigger] g0.cells()[i] is Danger)
            ==> g1.cells()[i] == g0.cells()[i])
    &&& flood_post(
        g0.cells(),
        g0.field.height as int,
        g0.field.width as int,
        g0.hidden@,
        g1.hidden@,
        index,
    )
}

/// One reveal step keeps the game invariant, keeps the board's reachability
/// profile, keeps every mine hidden, and reveals the clicked cell.
#[verifier::rlimit(100)]
#[verifier::spinoff_prover]
proof fn lemma_reveal_step(g0: Game, g1: Game, index: int)
    requires
        g0.wf(),
        g1.field.wf(),
        g0.stage is MapSet,
        valid_index(g0.field.height as int, g0.field.width as int, index),
        g0.hidden@[index],
        !(g0.cells()[index] is Boom),
        reveal_step_ok(g0, g1, index),
    ensures
        g1.wf(),
        same_profile(g0.cells(), g1.cells()),
        flood_post(
            g1.cells(),
            g0.field.height as int,
            g0.field.width as int,
            g0.hidden@,
            g1.hidden@,
            index,
        ),
        !g1.hidden@[index],
        forall|b: int|
            0 <= b < g0.cells().len() && #[trigger] g0.cells()[b] is Boom ==> g1.hidden@[b]
                == g0.hidden@[b],
{
    let ch = g0.field.height as int;
    let cw = g0.field.width as int;
    let cells0 = g0.cells();
    let cells1 = g1.cells();
    let h0 = g0.hidden@;
    let h1 = g1.hidden@;
    reveal(crate::reach::newly_cleared);

    // The board keeps its reachability profile: only revealed `Danger`
    // cells turned into `Defused` ones.
    assert forall|i: int| 0 <= i < cells0.len() implies ((#[trigger] cells0[i] is Fine
        <==> #[trigger] cells1[i] is Fine) && (cells0[i] is Boom <==> cells1[i] is Boom) && (
    warns(cells0[i]) <==> warns(cells1[i]))) by {
        if !h1[i] && cells0[i] is Danger {
        } else {
            assert(cells1[i] == cells0[i]);
        }
    }
    assert(same_profile(cells0, cells1));
    lemma_flood_post_profile(cells0, cells1, ch, cw, h0, h1, index);

    // The clicked cell itself ends revealed.
    crate::reach::lemma_seed_reaches_itself(cells0, ch, cw, h0, index);

    // Annotations stay exact: counts depend only on mine positions.
    assert forall|i: int| 0 <= i < cells1.len() && !(#[trigger] cells1[i] is Boom) implies ({
        let n = crate::minefield::boom_degree(cells1, ch, cw, i);
        cells1[i] == danger_kind(n) || (n > 0 && cells1[i] == TileKind::Defused(n as u8))
    }) by {
        lemma_boom_degree_congruent(cells0, cells1, ch, cw, i);
        assert(!(cells0[i] is Boom));
    }

    // A revealed cell is `Fine` or `Defused`.
    assert forall|i: int| 0 <= i < cells1.len() && !h1[i] implies (#[trigger] cells1[i] is Fine
        || cells1[i] is Defused) by {
        if !h0[i] {
            assert(cells0[i] is Fine || cells0[i] is Defused);
        } else {
            assert(newly_cleared(cells0, ch, cw, h0, index, i));
            if crate::reach::flood_reaches(cells0, ch, cw, h0, index, i) {
                lemma_reaches_shape(cells0, ch, cw, h0, index, i);
                assert(i == index || cells0[i] is Fine);
                assert(!(cells0[i] is Defused));
            } else {
                assert(warns(cells0[i]) && h0[i]);
                assert(!(cells0[i] is Defused));
            }
        }
    }

    // `Defused` still marks exactly revealed cells.
    assert forall|i: int| 0 <= i < cells1.len() && #[trigger] cells1[i] is Defused implies !h1[i] by {
        if !(!h1[i] && cells0[i] is Danger) {
            assert(cells1[i] == cells0[i]);
            assert(!h0[i]);
        }
    }

    // No revealed `Fine` cell keeps a hidden revealable neighbor.
    lemma_frontier_preserved(cells0, ch, cw, h0, h1, index);
    lemma_frontier_profile(cells0, cells1, ch, cw, h1);

    // Mines stay hidden.
    assert forall|b: int|
        0 <= b < cells0.len() && #[trigger] cells0[b] is Boom implies h1[b] == h0[b] by {
        lemma_boom_stays_hidden(cells0, ch, cw, h0, h1, index, b);
    }
}

/// Build the `TileCleared` report for one reveal list.
#[verifier::spinoff_prover]
fn events_for(
    field: &Minefield,
    cleared: &Vec<usize>,
    Ghost(h0): Ghost<Seq<bool>>,
    Ghost(h1): Ghost<Seq<bool>>,
) -> (events: Vec<GameEvent>)
    requires
        h0.len() == field.cells@.len(),
        h1.len() == h0.len(),
        cleared@.no_duplicates(),
        forall|m: int|
            0 <= m < cleared@.len() ==> ({
                let c = (#[trigger] cleared@[m]) as int;
                &&& 0 <= c < h0.len()
                &&& h0[c]
                &&& !h1[c]
            }),
        forall|j: int|
            0 <= j < h0.len() && h0[j] && !(#[trigger] h1[j]) ==> cleared@.contains(j as usize),
    ensures
        clear_list_ok(events@, field.cells@, h0, h1),
{
    let ghost cells1 = field.cells@;
    let mut events: Vec<GameEvent> = Vec::new();
    let mut t: usize = 0;
    while t < cleared.len()
        invariant
            t <= cleared@.len(),
            events@.len() == t,
            cells1 == field.cells@,
            h0.len() == cells1.len(),
            h1.len() == h0.len(),
            forall|m: int|
                0 <= m < cleared@.len() ==> ({
                    let c = (#[trigger] cleared@[m]) as int;
                    &&& 0 <= c < h0.len()
                    &&& h0[c]
                    &&& !h1[c]
                }),
            cleared@.no_duplicates(),
            forall|j: int|
                0 <= j < h0.len() && h0[j] && !(#[trigger] h1[j]) ==> cleared@.contains(
                    j as usize,
                ),
            forall|m: int|
                0 <= m < t ==> #[trigger] events@[m] == (GameEvent::TileCleared {
                    index: cleared@[m],
                    kind: cells1[cleared@[m] as int],
                }),
        decreases cleared@.len() - t,
    {
        let c = cleared[t];
        let kind = field.cells[c];
        events.push(GameEvent::TileCleared { index: c, kind });
        t += 1;
    }
    proof {
        assert(cells1.len() <= usize::MAX) by {
            assert(field.cells.len() == field.cells@.len());
        }
        assert forall|j: int| 0 <= j < h0.len() && h0[j] && !(#[trigger] h1[j]) implies events@.contains(
            GameEvent::TileCleared { index: j as usize, kind: cells1[j] },
        ) by {
            let m = choose|m: int| 0 <= m < cleared@.len() && cleared@[m] == j as usize;
            assert(events@[m] == (GameEvent::TileCleared { index: j as usize, kind: cells1[j] }));
        }
        assert forall|m1: int, m2: int|
            0 <= m1 < events@.len() && 0 <= m2 < events@.len() && m1 != m2 implies events@[m1]
            != events@[m2] by {
            assert(cleared@[m1] != cleared@[m2]);
        }
    }
    events
}

impl Game {
    /// Flood-clear from a safe hidden cell and record the reveals on the
    /// board; returns the revealed indices, each exactly once.
    #[verifier::rlimit(100)]
    #[verifier::spinoff_prover]
    fn reveal_on_board(&mut self, index: usize) -> (cleared: Vec<usize>)
        requires
            old(self).wf(),
            old(self).stage is MapSet,
            valid_index(
                old(self).field.height as int,
                old(self).field.width as int,
                index as int,
            ),
            old(self).hidden@[index as int],
            !(old(self).cells()[index as int] is Boom),
        ensures
            final(self).wf(),
            reveal_step_ok(*old(self), *final(self), index as int),
            same_profile(old(self).cells(), final(self).cells()),
            flood_post(
                final(self).cells(),
                old(self).field.height as int,
                old(self).field.width as int,
                old(self).hidden@,
                final(self).hidden@,
                index as int,
            ),
            !final(self).hidden@[index as int],
            forall|b: int|
                0 <= b < old(self).cells().len() && #[trigger] old(self).cells()[b] is Boom
                    ==> final(self).hidden@[b] == old(self).hidden@[b],
            cleared@.no_duplicates(),
            forall|m: int|
                0 <= m < cleared@.len() ==> ({
                    let c = (#[trigger] cleared@[m]) as int;
                    &&& 0 <= c < old(self).hidden@.len()
                    &&& old(self).hidden@[c]
                    &&& !final(self).hidden@[c]
                }),
            forall|j: int|
                0 <= j < old(self).hidden@.len() && old(self).hidden@[j] && !(#[trigger]
                final(self).hidden@[j]) ==> cleared@.contains(j as usize),
    {
        proof {
            assert(!(self.cells()[index as int] is Defused));
        }
        let cleared = clear(&self.field, &mut self.hidden, index);
        self.field.defuse_revealed(&self.hidden);
        proof {
            lemma_reveal_step(*old(self), *self, index as int);
        }
        cleared
    }

    /// As `reveal_on_board`, and additionally: report each reveal as a
    /// `TileCleared` event, and enter `WinScreen` (with its events) if the
    /// click cleared the last `Fine` cell.
    #[verifier::rlimit(100)]
    #[verifier::spinoff_prover]
    fn reveal_and_report(&mut self, index: usize) -> (events: Vec<GameEvent>)
        requires
            old(self).wf(),
            old(self).stage is MapSet,
            valid_index(
                old(self).field.height as int,
                old(self).field.width as int,
                index as int,
            ),
            old(self).hidden@[index as int],
            !(old(self).cells()[index as int] is Boom),
        ensures
            final(self).wf(),
            final(self).field.height == old(self).field.height,
            final(self).field.width == old(self).field.width,
            final(self).field.bombs == old(self).field.bombs,
            final(self).bomb_target == old(self).bomb_target,
            final(self).hidden@.len() == old(self).hidden@.len(),
            final(self).cells().len() == old(self).cells().len(),
            same_profile(old(self).cells(), final(self).cells()),
            forall|i: int|
                0 <= i < old(self).cells().len() && !final(self).hidden@[i] ==> (#[trigger] old(
                    self,
                ).cells()[i] matches TileKind::Danger(n) ==> final(self).cells()[i]
                    == TileKind::Defused(n)),
            forall|i: int|
                0 <= i < old(self).cells().len() && !(!final(self).hidden@[i] && #[trigger] old(
                    self,
                ).cells()[i] is Danger) ==> final(self).cells()[i] == old(self).cells()[i],
            flood_post(
                old(self).cells(),
                old(self).field.height as int,
                old(self).field.width as int,
                old(self).hidden@,
                final(self).hidden@,
                index as int,
            ),
            flood_post(
                final(self).cells(),
                old(self).field.height as int,
                old(self).field.width as int,
                old(self).hidden@,
                final(self).hidden@,
                index as int,
            ),
            !final(self).hidden@[index as int],
            forall|b: int|
                0 <= b < old(self).cells().len() && #[trigger] old(self).cells()[b] is Boom
                    ==> final(self).hidden@[b] == old(self).hidden@[b],
            (final(self).stage is WinScreen <==> final(self).won()),
            final(self).stage is WinScreen || final(self).stage is MapSet,
            ({
                let evs = events@;
                let body = if final(self).stage is WinScreen {
                    evs.subrange(0, evs.len() - 2)
                } else {
                    evs
                };
                &&& (final(self).stage is WinScreen ==> evs.len() >= 2 && evs[evs.len() - 2]
                    == GameEvent::GameWon && evs[evs.len() - 1] == (GameEvent::StageChanged {
                    from: GameStage::MapSet,
                    to: GameStage::WinScreen,
                }))
                &&& clear_list_ok(
                    body,
                    final(self).cells(),
                    old(self).hidden@,
                    final(self).hidden@,
                )
            }),
    {
        let ghost h0 = self.hidden@;
        let cleared = self.reveal_on_board(index);
        let ghost h1 = self.hidden@;
        let ghost cells1 = self.cells();

        let mut events = events_for(&self.field, &cleared, Ghost(h0), Ghost(h1));
        let won = self.you_win();
        if won {
            let ghost before = events@;
            self.stage = GameStage::WinScreen;
            events.push(GameEvent::GameWon);
            events.push(GameEvent::StageChanged {
                from: GameStage::MapSet,
                to: GameStage::WinScreen,
            });
            proof {
                assert(events@.subrange(0, events@.len() - 2) =~= before);
            }
        }
        events
    }
}

impl Game {
    /// Handle one click on the tile at `index`. In `NewGame` this places the
    /// mines (never on the clicked cell), moves to `MapSet` and then clears
    /// the clicked cell; in `MapSet` it detonates a mine or flood-clears a
    /// safe cell and checks for the win; after the game is over, off the
    /// board, or on an already revealed cell it does nothing.
    #[verifier::rlimit(100)]
    #[verifier::spinoff_prover]
    pub fn click_on_tile(&mut self, index: usize) -> (events: Vec<GameEvent>)
        requires
            old(self).wf(),
        ensures
            final(self).wf(),
            final(self).field.height == old(self).field.height,
            final(self).field.width == old(self).field.width,
            final(self).bomb_target == old(self).bomb_target,
            old(self).click_ignored(index) ==> *final(self) == *old(self) && events@ == Seq::<
                GameEvent,
            >::empty(),
            (!old(self).click_ignored(index) && old(self).stage is NewGame) ==> ({
                let len = old(self).cells().len();
                &&& !(final(self).cells()[index as int] is Boom)
                &&& final(self).field.bombs == (if (old(self).bomb_target as int) <= len - 1 {
                    old(self).bomb_target as int
                } else {
                    len - 1
                })
                &&& boom_total(final(self).cells()) == final(self).field.bombs
                &&& !final(self).hidden@[index as int]
                &&& flood_post(
                    final(self).cells(),
                    old(self).field.height as int,
                    old(self).field.width as int,
                    old(self).hidden@,
                    final(self).hidden@,
                    index as int,
                )
                &&& (final(self).stage is WinScreen <==> final(self).won())
                &&& (final(self).stage is WinScreen || final(self).stage is MapSet)
                &&& events@.len() >= 1
                &&& events@[0] == (GameEvent::StageChanged {
                    from: GameStage::NewGame,
                    to: GameStage::MapSet,
                })
                &&& ({
                    let tail = events@.subrange(1, events@.len() as int);
                    let body = if final(self).stage is WinScreen {
                        tail.subrange(0, tail.len() - 2)
                    } else {
                        tail
                    };
                    &&& (final(self).stage is WinScreen ==> tail.len() >= 2 && tail[tail.len()
                        - 2] == GameEvent::GameWon && tail[tail.len() - 1]
                        == (GameEvent::StageChanged {
                        from: GameStage::MapSet,
                        to: GameStage::WinScreen,
                    }))
                    &&& clear_list_ok(
                        body,
                        final(self).cells(),
                        old(self).hidden@,
                        final(self).hidden@,
                    )
                })
            }),
            (!old(self).click_ignored(index) && old(self).stage is MapSet && old(
                self,
            ).cells()[index as int] is Boom) ==> ({
                &&& final(self).field == old(self).field
                &&& final(self).hidden == old(self).hidden
                &&& final(self).stage is KillScreen
                &&& events@ == seq![
                    GameEvent::BombTriggered { index },
                    GameEvent::GameOver,
                    GameEvent::StageChanged {
                        from: GameStage::MapSet,
                        to: GameStage::KillScreen,
                    },
                ]
            }),
            (!old(self).click_ignored(index) && old(self).stage is MapSet && !(old(
                self,
            ).cells()[index as int] is Boom)) ==> ({
                &&& flood_post(
                    old(self).cells(),
                    old(self).field.height as int,
                    old(self).field.width as int,
                    old(self).hidden@,
                    final(self).hidden@,
                    index as int,
                )
                &&& !final(self).hidden@[index as int]
                &&& final(self).field.bombs == old(self).field.bombs
                &&& (forall|i: int|
                    0 <= i < old(self).cells().len() && !final(self).hidden@[i] ==> (#[trigger]
                    old(self).cells()[i] matches TileKind::Danger(n) ==> final(self).cells()[i]
                        == TileKind::Defused(n)))
                &&& (forall|i: int|
                    0 <= i < old(self).cells().len() && !(!final(self).hidden@[i] && #[trigger]
                    old(self).cells()[i] is Danger) ==> final(self).cells()[i] == old(
                        self,
                    ).cells()[i])
                &&& (forall|b: int|
                    0 <= b < old(self).cells().len() && #[trigger] old(self).cells()[b] is Boom
                        ==> final(self).hidden@[b] == old(self).hidden@[b])
                &&& (final(self).stage is WinScreen <==> final(self).won())
                &&& (final(self).stage is WinScreen || final(self).stage is MapSet)
                &&& ({
                    let evs = events@;
                    let body = if final(self).stage is WinScreen {
                        evs.subrange(0, evs.len() - 2)
                    } else {
                        evs
                    };
                    &&& (final(self).stage is WinScreen ==> evs.len() >= 2 && evs[evs.len() - 2]
                        == GameEvent::GameWon && evs[evs.len() - 1] == (GameEvent::StageChanged {
                        from: GameStage::MapSet,
                        to: GameStage::WinScreen,
                    }))
                    &&& clear_list_ok(
                        body,
                        final(self).cells(),
                        old(self).hidden@,
                        final(self).hidden@,
                    )
                })
            }),
    {
        let over = matches!(self.stage, GameStage::KillScreen) || matches!(
            self.stage,
            GameStage::WinScreen,
        );
        if over || index >= self.hidden.len() || !self.hidden[index] {
            return Vec::new();
        }
        if matches!(self.stage, GameStage::NewGame) {
            self.field.set_bombs_avoiding(self.bomb_target, index);
            self.stage = GameStage::MapSet;
            proof {
                assert(self.wf());
            }
            let sub = self.reveal_and_report(index);
            let mut events: Vec<GameEvent> = Vec::new();
            events.push(GameEvent::StageChanged {
                from: GameStage::NewGame,
                to: GameStage::MapSet,
            });
            let mut t: usize = 0;
            while t < sub.len()
                invariant
                    t <= sub@.len(),
                    events@.len() == t + 1,
                    events@[0] == (GameEvent::StageChanged {
                        from: GameStage::NewGame,
                        to: GameStage::MapSet,
                    }),
                    forall|m: int| 0 <= m < t ==> #[trigger] events@[m + 1] == sub@[m],
                decreases sub@.len() - t,
            {
                let e = sub[t];
                events.push(e);
                t += 1;
            }
            proof {
                assert(events@.subrange(1, events@.len() as int) =~= sub@);
                let tail = events@.subrange(1, events@.len() as int);
                if self.stage is WinScreen {
                    assert(tail.subrange(0, tail.len() - 2) =~= sub@.subrange(
                        0,
                        sub@.len() - 2,
                    ));
                }
            }
            events
        } else {
            match self.field.cells[index] {
                TileKind::Boom => {
                    self.stage = GameStage::KillScreen;
                    let mut events: Vec<GameEvent> = Vec::new();
                    events.push(GameEvent::BombTriggered { index });
                    events.push(GameEvent::GameOver);
                    events.push(GameEvent::StageChanged {
                        from: GameStage::MapSet,
                        to: GameStage::KillScreen,
                    });
                    proof {
                        assert(events@ =~= seq![
                            GameEvent::BombTriggered { index },
                            GameEvent::GameOver,
                            GameEvent::StageChanged {
                                from: GameStage::MapSet,
                                to: GameStage::KillScreen,
                            },
                        ]);
                    }
                    events
                },
                TileKind::Defused(_) => {
                    proof {
                        assert(false);
                    }
                    Vec::new()
                },
                _ => self.reveal_and_report(index),
            }
        }
    }
}

/// Flood-clear completeness at the click level: after a click's flood ran
/// from a hidden `Fine` cell of a well-formed game, the clicked cell's whole
/// connected `Fine` region is revealed, so is every counted cell on that
/// region's rim, and every mine keeps exactly the hidden state it had.
pub proof fn lemma_click_clears_region(g0: Game, g1: Game, index: int, j: int)
    requires
        g0.wf(),
        valid_index(g0.field.height as int, g0.field.width as int, index),
        g0.hidden@[index],
        g0.cells()[index] is Fine,
        flood_post(
            g0.cells(),
            g0.field.height as int,
            g0.field.width as int,
            g0.hidden@,
            g1.hidden@,
            index,
        ),
    ensures
        region_reaches(g0.cells(), g0.field.height as int, g0.field.width as int, index, j)
            ==> !g1.hidden@[j],
        (warns(g0.cells()[j]) && exists|i2: int|
            region_reaches(g0.cells(), g0.field.height as int, g0.field.width as int, index, i2)
                && #[trigger] adjacent(g0.field.height as int, g0.field.width as int, i2, j))
            ==> !g1.hidden@[j],
        (0 <= j < g0.cells().len() && g0.cells()[j] is Boom) ==> g1.hidden@[j] == g0.hidden@[j],
{
    let ch = g0.field.height as int;
    let cw = g0.field.width as int;
    if region_reaches(g0.cells(), ch, cw, index, j) {
        lemma_region_cleared(g0.cells(), ch, cw, g0.hidden@, g1.hidden@, index, j);
    }
    if warns(g0.cells()[j]) && exists|i2: int|
        region_reaches(g0.cells(), ch, cw, index, i2) && #[trigger] adjacent(ch, cw, i2, j) {
        let i2 = choose|i2: int|
            region_reaches(g0.cells(), ch, cw, index, i2) && #[trigger] adjacent(ch, cw, i2, j);
        lemma_border_region_cleared(g0.cells(), ch, cw, g0.hidden@, g1.hidden@, index, i2, j);
    }
    if 0 <= j < g0.cells().len() && g0.cells()[j] is Boom {
        lemma_boom_stays_hidden(g0.cells(), ch, cw, g0.hidden@, g1.hidden@, index, j);
    }
}

/// The neighbor-mine count of cell `i` on `game`'s board.
pub open spec fn boom_degree_of(game: Game, i: int) -> nat {
    crate::minefield::boom_degree(
        game.cells(),
        game.field.height as int,
        game.field.width as int,
        i,
    )
}

} // verus!
