use detonito_core::engine::EngineState;
use detonito_core::grid::Grid;
use detonito_core::tile::EngineCell;
use detonito_core::types::{mult, neighbor_list, NeighborIterExt};

#[test]
fn mult_computes_total_cells() {
    assert_eq!(mult(0, 10), 0);
    assert_eq!(mult(3, 2), 6);
    assert_eq!(mult(255, 255), 65025);
}

#[test]
fn neighbors_enumerate_clockwise_from_top_left() {
    assert_eq!(
        neighbor_list((1, 1), (3, 3)),
        vec![
            (0, 0),
            (1, 0),
            (2, 0),
            (0, 1),
            (2, 1),
            (0, 2),
            (1, 2),
            (2, 2),
        ]
    );
}

#[test]
fn neighbors_are_clipped_at_the_border() {
    assert_eq!(neighbor_list((0, 0), (2, 2)), vec![(1, 0), (0, 1), (1, 1)]);
    assert_eq!(neighbor_list((1, 0), (2, 1)), vec![(0, 0)]);
    assert_eq!(neighbor_list((0, 0), (1, 1)), vec![]);
}

#[test]
fn grid_iterates_neighbors_of_a_cell() {
    let g: Grid<bool> = Grid::from_elem((2, 2), false);
    let mut it = g.iter_neighbors((1, 1));
    let mut collected = Vec::new();
    while let Some(p) = it.next() {
        collected.push(p);
    }
    assert_eq!(collected, vec![(0, 0), (1, 0), (0, 1)]);
}

#[test]
fn engine_state_reports_lifecycle() {
    assert!(EngineState::Ready.is_ready());
    assert!(!EngineState::Active.is_ready());
    assert!(!EngineState::Ready.is_finished());
    assert!(!EngineState::Active.is_finished());
    assert!(EngineState::Won.is_finished());
    assert!(EngineState::Lost.is_finished());
    assert_eq!(EngineState::default(), EngineState::Ready);
}

#[test]
fn engine_cell_reports_unrevealed() {
    assert!(EngineCell::Hidden.is_unrevealed());
    assert!(EngineCell::Flagged.is_unrevealed());
    assert!(!EngineCell::Revealed(0).is_unrevealed());
    assert!(!EngineCell::Revealed(8).is_unrevealed());
    assert_eq!(EngineCell::default(), EngineCell::Hidden);
}
