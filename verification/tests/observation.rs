use detonito_core::error::GameError;
use detonito_core::grid::Grid;
use detonito_core::observation::Observation;
use detonito_core::tile::EngineCell;

#[test]
fn validate_rejects_shape_mismatch() {
    let obs = Observation {
        size: (2, 2),
        mine_count: Some(1),
        revealed: Grid::from_elem((2, 2), None),
        flags: Grid::from_elem((1, 2), false),
    };

    assert_eq!(obs.validate(), Err(GameError::InvalidBoardShape));
}

#[test]
fn validate_rejects_oversized_mine_count() {
    let obs = Observation {
        size: (2, 2),
        mine_count: Some(5),
        revealed: Grid::from_elem((2, 2), None),
        flags: Grid::from_elem((2, 2), false),
    };

    assert_eq!(obs.validate(), Err(GameError::TooManyMines));
}

#[test]
fn validate_accepts_matching_shapes() {
    let obs = Observation {
        size: (3, 2),
        mine_count: Some(6),
        revealed: Grid::from_elem((3, 2), None),
        flags: Grid::from_elem((3, 2), false),
    };

    assert_eq!(obs.validate(), Ok(()));
}

#[test]
fn new_checks_the_snapshot() {
    let ok = Observation::new(
        (2, 1),
        None,
        Grid::from_elem((2, 1), None),
        Grid::from_elem((2, 1), false),
    );
    assert!(ok.is_ok());

    let bad_shape = Observation::new(
        (2, 1),
        None,
        Grid::from_elem((2, 1), None),
        Grid::from_elem((1, 1), false),
    );
    assert_eq!(bad_shape.err(), Some(GameError::InvalidBoardShape));

    let bad_count = Observation::new(
        (2, 1),
        Some(3),
        Grid::from_elem((2, 1), None),
        Grid::from_elem((2, 1), false),
    );
    assert_eq!(bad_count.err(), Some(GameError::TooManyMines));
}

#[test]
fn grid_rejects_wrong_buffer_length() {
    assert!(Grid::from_vec((2, 2), vec![0u8; 3]).is_none());
    assert!(Grid::from_vec((2, 2), vec![0u8; 4]).is_some());
}

#[test]
fn grid_reads_back_written_cells() {
    let mut g: Grid<u8> = Grid::from_elem((3, 2), 0);
    g.set((2, 1), 7);
    g.set((0, 0), 9);
    assert_eq!(g.get((2, 1)), 7);
    assert_eq!(g.get((0, 0)), 9);
    assert_eq!(g.get((1, 1)), 0);
    assert_eq!(g.size(), (3, 2));
}

#[test]
fn from_engine_maps_revealed_and_flagged_cells() {
    // The cell states a 2x2 engine session shows after revealing (1,1)
    // (clue value 1) and flagging the mine at (0,0); the engine knows one
    // mine in total.
    let mut cells: Grid<EngineCell> = Grid::from_elem((2, 2), EngineCell::Hidden);
    cells.set((1, 1), EngineCell::Revealed(1));
    cells.set((0, 0), EngineCell::Flagged);

    let obs = Observation::from_engine_with_mine_count(&cells, Some(1));

    assert_eq!(obs.mine_count, Some(1));
    assert_eq!(obs.revealed.get((1, 1)), Some(1));
    assert!(obs.flags.get((0, 0)));
    assert_eq!(obs.revealed.get((0, 0)), None);
    assert_eq!(obs.revealed.get((1, 0)), None);
    assert!(!obs.flags.get((1, 1)));
    assert_eq!(obs.validate(), Ok(()));
}
