use minefield::minefield::Minefield;
use minefield::minesweeper::clear;
use minefield::tile::TileKind;

#[test]
fn test_index_to_coord() {
    let map = Minefield::new(8, 8);
    assert_eq!(map.index_to_coord(0), Some((0, 0)));
    assert_eq!(map.index_to_coord(1), Some((0, 1)));
    assert_eq!(map.index_to_coord(8), Some((1, 0)));
    assert_eq!(map.index_to_coord(63), Some((7, 7)));
}

#[test]
fn test_coord_to_index() {
    let map = Minefield::new(8, 8);
    assert_eq!(map.coord_to_index((0, 0)), Some(0));
    assert_eq!(map.coord_to_index((0, 1)), Some(1));
    assert_eq!(map.coord_to_index((1, 0)), Some(8));
    assert_eq!(map.coord_to_index((7, 7)), Some(63));
}

#[test]
fn map_test_map() {
    let mut map = Minefield::new(8, 8);
    map.set_bombs(16);
    assert!(
        map.cells
            .iter()
            .filter(|x| matches!(x, TileKind::Danger(_)))
            .count()
            > 0
    );
}

#[test]
fn map_generator_test_map() {
    let mut map = Minefield::new(8, 8);
    map.set_bombs(16);
    assert!(
        map.cells
            .iter()
            .filter(|x| matches!(x, TileKind::Danger(_)))
            .count()
            > 0
    );
}

#[test]
fn roundtrip_all_indices() {
    let map = Minefield::new(8, 8);
    for i in 0..64 {
        let rc = map.index_to_coord(i).unwrap();
        assert_eq!(map.coord_to_index(rc), Some(i));
    }
}

#[test]
fn out_of_bounds_lookups() {
    let map = Minefield::new(8, 8);
    assert_eq!(map.index_to_coord(64), None);
    assert_eq!(map.coord_to_index((8, 0)), None);
    assert_eq!(map.coord_to_index((0, 8)), None);
    assert_eq!(map.at_coords((8, 8)), None);
    assert_eq!(map.at_coords((0, 0)), Some(TileKind::Fine));
}

#[test]
fn neighbors_center_and_corner() {
    let map = Minefield::new(3, 3);
    let center: Vec<usize> = map.neighbors(4).iter().map(|e| e.1).collect();
    assert_eq!(center, vec![0, 1, 2, 3, 5, 6, 7, 8]);
    let corner: Vec<usize> = map.neighbors(0).iter().map(|e| e.1).collect();
    assert_eq!(corner, vec![1, 3, 4]);
    let kinds_ok = map.neighbors(4).iter().all(|e| e.2 == TileKind::Fine);
    assert!(kinds_ok);
}

#[test]
fn danger_annotations_exact() {
    let mut map = Minefield::new(3, 3);
    map.set_bombs_at(&vec![4]);
    assert_eq!(map.at_coords((1, 1)), Some(TileKind::Boom));
    for i in [0, 1, 2, 3, 5, 6, 7, 8] {
        let rc = map.index_to_coord(i).unwrap();
        assert_eq!(map.at_coords(rc), Some(TileKind::Danger(1)));
    }
}

#[test]
fn danger_annotations_two_mines() {
    let mut map = Minefield::new(2, 3);
    map.set_bombs_at(&vec![0, 2]);
    assert_eq!(map.at_coords((0, 1)), Some(TileKind::Danger(2)));
    assert_eq!(map.at_coords((1, 0)), Some(TileKind::Danger(1)));
    assert_eq!(map.at_coords((1, 1)), Some(TileKind::Danger(2)));
    assert_eq!(map.at_coords((1, 2)), Some(TileKind::Danger(1)));
}

#[test]
fn mine_count_exact() {
    let mut map = Minefield::new(8, 8);
    map.set_bombs(5);
    let booms = map.cells.iter().filter(|x| matches!(x, TileKind::Boom)).count();
    assert_eq!(booms, 5);
    assert_eq!(map.bombs, 5);
}

#[test]
fn mine_count_clamped() {
    let mut map = Minefield::new(3, 3);
    map.set_bombs(50);
    let booms = map.cells.iter().filter(|x| matches!(x, TileKind::Boom)).count();
    assert_eq!(booms, 8);
    assert_eq!(map.bombs, 8);
}

#[test]
fn avoided_cell_never_mined() {
    for _ in 0..20 {
        let mut map = Minefield::new(4, 4);
        map.set_bombs_avoiding(15, 5);
        assert!(!matches!(map.cells[5], TileKind::Boom));
        let booms = map.cells.iter().filter(|x| matches!(x, TileKind::Boom)).count();
        assert_eq!(booms, 15);
    }
}

#[test]
fn flood_clear_reveals_region_and_rim() {
    let mut map = Minefield::new(4, 4);
    map.set_bombs_at(&vec![3, 7, 11, 15]);
    let mut hidden = vec![true; 16];
    let cleared = clear(&map, &mut hidden, 0);
    assert_eq!(cleared.len(), 12);
    for i in 0..16 {
        let mined = i % 4 == 3;
        assert_eq!(hidden[i], mined, "cell {i}");
    }
}

#[test]
fn flood_clear_stops_at_revealed_cells() {
    let map = Minefield::new(1, 5);
    let mut hidden = vec![true, true, false, true, true];
    let cleared = clear(&map, &mut hidden, 0);
    assert_eq!(cleared, vec![0, 1]);
    assert_eq!(hidden, vec![false, false, false, true, true]);
}
