use minefield::game::{Game, GameEvent};
use minefield::minefield::Minefield;
use minefield::stages::GameStage;
use minefield::tile::TileKind;

/// An 8x8 board whose mines fill rows 3 and 4: two separate safe areas, one
/// in rows 0..3 (rim in row 2) and one in rows 5..8 (rim in row 5).
fn mined_rows_board() -> Minefield {
    let mut field = Minefield::new(8, 8);
    let mines: Vec<usize> = (24..40).collect();
    field.set_bombs_at(&mines);
    field
}

fn assert_fresh(game: &Game) {
    assert_eq!(game.current_stage(), GameStage::NewGame);
    assert_eq!(game.bomb_count(), 0);
    assert_eq!(game.board_dimensions(), (8, 8));
    for i in 0..64 {
        assert_eq!(game.tile_kind_at(i), Some(TileKind::Fine));
        assert_eq!(game.is_hidden(i), Some(true));
    }
}

#[test]
fn first_click_is_safe() {
    for _ in 0..20 {
        let mut game = Game::new(8, 8, 10);
        let events = game.click_on_tile(27);
        assert_eq!(
            events[0],
            GameEvent::StageChanged { from: GameStage::NewGame, to: GameStage::MapSet }
        );
        assert_ne!(game.tile_kind_at(27), Some(TileKind::Boom));
        assert_eq!(game.is_hidden(27), Some(false));
        let stage = game.current_stage();
        assert!(stage == GameStage::MapSet || stage == GameStage::WinScreen);
        assert_eq!(game.bomb_count(), 10);
    }
}

#[test]
fn win_on_last_reveal() {
    let mut game = Game::from_minefield(mined_rows_board());
    let first = game.click_on_tile(0);
    assert_eq!(game.current_stage(), GameStage::MapSet);
    assert_eq!(first.len(), 24);
    assert!(first.iter().all(|e| matches!(e, GameEvent::TileCleared { .. })));
    for i in 0..24 {
        assert_eq!(game.is_hidden(i), Some(false));
    }
    for i in 40..64 {
        assert_eq!(game.is_hidden(i), Some(true));
    }
    assert!(!game.you_win());

    let last = game.click_on_tile(56);
    assert_eq!(game.current_stage(), GameStage::WinScreen);
    assert!(game.you_win());
    assert!(last.contains(&GameEvent::GameWon));
    assert_eq!(
        last.last(),
        Some(&GameEvent::StageChanged { from: GameStage::MapSet, to: GameStage::WinScreen })
    );
    for i in 40..64 {
        assert_eq!(game.is_hidden(i), Some(false));
    }
    for i in 24..40 {
        assert_eq!(game.is_hidden(i), Some(true));
    }
    assert!(game.click_on_tile(24).is_empty());
}

#[test]
fn detonation_keeps_board() {
    let mut game = Game::from_minefield(mined_rows_board());
    let events = game.click_on_tile(24);
    assert_eq!(
        events,
        vec![
            GameEvent::BombTriggered { index: 24 },
            GameEvent::GameOver,
            GameEvent::StageChanged { from: GameStage::MapSet, to: GameStage::KillScreen },
        ]
    );
    assert_eq!(game.current_stage(), GameStage::KillScreen);
    assert_eq!(game.tile_kind_at(24), Some(TileKind::Boom));
    assert!(game.click_on_tile(0).is_empty());
}

#[test]
fn reset_always_yields_fresh_newgame() {
    let mut dead = Game::from_minefield(mined_rows_board());
    dead.click_on_tile(24);
    assert_eq!(dead.current_stage(), GameStage::KillScreen);
    let events = dead.reset();
    assert_eq!(
        events,
        vec![GameEvent::StageChanged { from: GameStage::KillScreen, to: GameStage::NewGame }]
    );
    assert_fresh(&dead);

    let mut won = Game::from_minefield(mined_rows_board());
    won.click_on_tile(0);
    won.click_on_tile(56);
    assert_eq!(won.current_stage(), GameStage::WinScreen);
    won.reset();
    assert_fresh(&won);
}

#[test]
fn clicking_danger_reveals_and_floods_its_neighbors() {
    let mut game = Game::from_minefield(mined_rows_board());
    let events = game.click_on_tile(16);
    assert_eq!(game.current_stage(), GameStage::MapSet);
    assert_eq!(game.is_hidden(16), Some(false));
    assert_eq!(game.tile_kind_at(16), Some(TileKind::Defused(2)));
    assert_eq!(events.len(), 24);
}

#[test]
fn end_game_forces_killscreen() {
    let mut game = Game::from_minefield(mined_rows_board());
    assert!(!game.you_win());
    let events = game.end_game();
    assert_eq!(game.current_stage(), GameStage::KillScreen);
    assert_eq!(
        events,
        vec![
            GameEvent::GameOver,
            GameEvent::StageChanged { from: GameStage::MapSet, to: GameStage::KillScreen },
        ]
    );
}

#[test]
fn events_report_revealed_kinds() {
    let mut game = Game::from_minefield(mined_rows_board());
    let events = game.click_on_tile(0);
    assert_eq!(events.len(), 24);
    for event in &events {
        match event {
            GameEvent::TileCleared { index, kind } => {
                if *index >= 16 {
                    assert!(matches!(kind, TileKind::Defused(_)));
                } else {
                    assert_eq!(*kind, TileKind::Fine);
                }
            },
            _ => panic!("only reveal reports expected"),
        }
    }
}
