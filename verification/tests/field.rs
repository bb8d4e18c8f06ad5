use flowfield::geometry::{Cell, Direction};
use flowfield::grid::{GridError, GridField};
use flowfield::tile::{PathInfo, Tile};

fn cell(col: i32, row: i32) -> Cell {
    Cell::new(col, row)
}

fn open_board(width: i32, height: i32, target: Cell) -> GridField {
    let mut field = GridField::new(width, height).unwrap();
    field.set_target(Some(target)).unwrap();
    field.recompute();
    field
}

fn info(field: &GridField, col: i32, row: i32) -> PathInfo {
    field.path_info_at(cell(col, row)).unwrap()
}

/// Follows the headings from `from`; the cells passed, the last one included.
fn follow(field: &GridField, from: Cell) -> Vec<Cell> {
    let mut at = from;
    let mut passed = vec![];
    let limit = field.width() * field.height();
    for _ in 0..limit {
        match field.path_info_at(at) {
            Some(path) => {
                at = at.step(path.next);
                passed.push(at);
            }
            None => break,
        }
    }
    passed
}

/// Distances by a plain search of our own, -1 where there is no way.
fn reference_distances(field: &GridField) -> Vec<Vec<i64>> {
    let (w, h) = (field.width(), field.height());
    let mut dist = vec![vec![-1i64; w as usize]; h as usize];
    let mut frontier = vec![];
    if let Some(t) = field.target() {
        dist[t.row as usize][t.col as usize] = 0;
        frontier.push(t);
    }
    while !frontier.is_empty() {
        let mut next = vec![];
        for c in &frontier {
            let d = dist[c.row as usize][c.col as usize];
            for (dc, dr) in [(0, -1), (0, 1), (-1, 0), (1, 0)] {
                let n = cell(c.col + dc, c.row + dr);
                if let Some(tile) = field.tile_at(n) {
                    if tile != Tile::Wall && dist[n.row as usize][n.col as usize] < 0 {
                        dist[n.row as usize][n.col as usize] = d + 1;
                        next.push(n);
                    }
                }
            }
        }
        frontier = next;
    }
    dist
}

fn assert_field_exact(field: &GridField) {
    let dist = reference_distances(field);
    for row in 0..field.height() {
        for col in 0..field.width() {
            let c = cell(col, row);
            match field.tile_at(c).unwrap() {
                Tile::Open(Some(path)) => {
                    assert_eq!(path.distance as i64, dist[row as usize][col as usize]);
                    let n = c.step(path.next);
                    match field.tile_at(n).unwrap() {
                        Tile::Target => assert_eq!(path.distance, 1),
                        Tile::Open(Some(closer)) => assert_eq!(closer.distance + 1, path.distance),
                        other => panic!("heading of {:?} leads to {:?}", c, other),
                    }
                }
                Tile::Open(None) => assert_eq!(dist[row as usize][col as usize], -1),
                Tile::Target => assert_eq!(dist[row as usize][col as usize], 0),
                Tile::Wall => {}
            }
        }
    }
}

fn maze() -> GridField {
    let mut field = GridField::new(9, 7).unwrap();
    for (col, row) in [
        (1, 1), (2, 1), (3, 1), (5, 1), (6, 1), (7, 1), (1, 2), (7, 2), (1, 3), (3, 3), (4, 3),
        (5, 3), (7, 3), (1, 4), (7, 4), (1, 5), (2, 5), (3, 5), (4, 5), (5, 5), (6, 5), (7, 5),
    ] {
        field.set_wall(cell(col, row), true).unwrap();
    }
    field.set_target(Some(cell(4, 4))).unwrap();
    field.recompute();
    field
}

#[test]
fn new_board_is_open_and_empty() {
    let field = GridField::new(20, 15).unwrap();
    assert_eq!(field.width(), 20);
    assert_eq!(field.height(), 15);
    assert_eq!(field.target(), None);
    for row in 0..15 {
        for col in 0..20 {
            assert_eq!(field.tile_at(cell(col, row)), Some(Tile::Open(None)));
        }
    }
}

#[test]
fn new_refuses_bad_sizes() {
    assert!(matches!(GridField::new(0, 5), Err(GridError::BadSize)));
    assert!(matches!(GridField::new(5, 0), Err(GridError::BadSize)));
    assert!(matches!(GridField::new(-3, 4), Err(GridError::BadSize)));
    assert!(matches!(GridField::new(65536, 32768), Err(GridError::BadSize)));
    assert!(matches!(GridField::centered(0, 0), Err(GridError::BadSize)));
    assert!(GridField::new(1, 1).is_ok());
}

#[test]
fn queries_off_the_board_find_no_cell() {
    let field = open_board(5, 5, cell(2, 2));
    for c in [cell(-1, 0), cell(0, -1), cell(5, 0), cell(0, 5), cell(i32::MAX, i32::MIN)] {
        assert!(!field.contains(c));
        assert_eq!(field.tile_at(c), None);
        assert_eq!(field.path_info_at(c), None);
    }
    assert!(field.contains(cell(4, 4)));
}

#[test]
fn walls_and_target_have_no_path_info() {
    let mut field = GridField::new(5, 5).unwrap();
    field.set_wall(cell(1, 1), true).unwrap();
    field.set_target(Some(cell(2, 2))).unwrap();
    field.recompute();
    assert_eq!(field.tile_at(cell(1, 1)), Some(Tile::Wall));
    assert_eq!(field.path_info_at(cell(1, 1)), None);
    assert_eq!(field.tile_at(cell(2, 2)), Some(Tile::Target));
    assert_eq!(field.path_info_at(cell(2, 2)), None);
    assert_eq!(Tile::Wall.path_info(), None);
    assert_eq!(Tile::Target.path_info(), None);
    assert_eq!(Tile::Open(None).path_info(), None);
    let path = PathInfo { distance: 7, next: Direction::West };
    assert_eq!(Tile::Open(Some(path)).path_info(), Some(path));
}

#[test]
fn five_by_five_open_board() {
    let field = open_board(5, 5, cell(2, 2));
    assert_eq!(info(&field, 2, 1), PathInfo { distance: 1, next: Direction::South });
    assert_eq!(info(&field, 2, 3), PathInfo { distance: 1, next: Direction::North });
    assert_eq!(info(&field, 1, 2), PathInfo { distance: 1, next: Direction::East });
    assert_eq!(info(&field, 3, 2), PathInfo { distance: 1, next: Direction::West });
    let corner = info(&field, 0, 0);
    assert_eq!(corner.distance, 4);
    assert!(corner.next == Direction::East || corner.next == Direction::South);
    let passed = follow(&field, cell(0, 0));
    assert_eq!(passed.len(), 4);
    assert_eq!(passed[3], cell(2, 2));
    assert_eq!(info(&field, 4, 4).distance, 4);
    assert_eq!(info(&field, 4, 0).distance, 4);
    assert_eq!(info(&field, 0, 4).distance, 4);
    assert_eq!(info(&field, 1, 1).distance, 2);
    assert_field_exact(&field);
}

#[test]
fn first_settler_wins_a_tie() {
    let field = open_board(5, 5, cell(2, 2));
    // Probes go out to the north, south, west and east, in this order, so of
    // two parents at the same distance the one settled first keeps the cell.
    // (1,1) is reached from (2,1), which settled before (1,2).
    assert_eq!(info(&field, 1, 1), PathInfo { distance: 2, next: Direction::East });
    assert_eq!(info(&field, 3, 1), PathInfo { distance: 2, next: Direction::West });
    assert_eq!(info(&field, 1, 3), PathInfo { distance: 2, next: Direction::East });
    assert_eq!(info(&field, 3, 3), PathInfo { distance: 2, next: Direction::West });
    assert_eq!(info(&field, 1, 0), PathInfo { distance: 3, next: Direction::East });
    assert_eq!(info(&field, 0, 1), PathInfo { distance: 3, next: Direction::East });
    assert_eq!(info(&field, 0, 0), PathInfo { distance: 4, next: Direction::East });
}

#[test]
fn ring_with_one_gap_routes_through_the_gap() {
    let mut field = GridField::new(9, 9).unwrap();
    let gap = cell(4, 2);
    for i in 2..=6 {
        for c in [cell(i, 2), cell(i, 6), cell(2, i), cell(6, i)] {
            if c != gap {
                field.set_wall(c, true).unwrap();
            }
        }
    }
    // A pocket that no way leads into.
    field.set_wall(cell(7, 8), true).unwrap();
    field.set_wall(cell(8, 7), true).unwrap();
    field.set_target(Some(cell(4, 4))).unwrap();
    field.recompute();

    assert_eq!(field.path_info_at(cell(8, 8)), None);
    assert_eq!(field.tile_at(cell(8, 8)), Some(Tile::Open(None)));
    assert_eq!(info(&field, 4, 2), PathInfo { distance: 2, next: Direction::South });
    assert_eq!(info(&field, 4, 1).distance, 3);
    assert_eq!(info(&field, 4, 7).distance, 15);
    for row in 0..9 {
        for col in 0..9 {
            let c = cell(col, row);
            let outside = col < 2 || col > 6 || row < 2 || row > 6;
            if outside && c != cell(8, 8) && field.tile_at(c) != Some(Tile::Wall) {
                let passed = follow(&field, c);
                assert_eq!(passed.last(), Some(&cell(4, 4)));
                assert!(passed.contains(&gap), "{:?} does not pass the gap", c);
                assert_eq!(passed.len() as u32, info(&field, col, row).distance);
            }
        }
    }
    assert_field_exact(&field);
}

#[test]
fn distances_are_shortest_in_a_maze() {
    let field = maze();
    assert_field_exact(&field);
    assert_eq!(info(&field, 4, 2).distance, 6);
    assert_eq!(info(&field, 0, 0).distance, 12);
}

#[test]
fn sealed_target_reaches_nothing() {
    let mut field = GridField::new(5, 5).unwrap();
    for c in [cell(2, 1), cell(2, 3), cell(1, 2), cell(3, 2)] {
        field.set_wall(c, true).unwrap();
    }
    field.set_target(Some(cell(2, 2))).unwrap();
    field.recompute();
    for row in 0..5 {
        for col in 0..5 {
            assert_eq!(field.path_info_at(cell(col, row)), None);
        }
    }
}

#[test]
fn recompute_twice_changes_nothing() {
    let mut field = maze();
    let mut before = vec![];
    for row in 0..7 {
        for col in 0..9 {
            before.push(field.tile_at(cell(col, row)));
        }
    }
    field.recompute();
    let mut after = vec![];
    for row in 0..7 {
        for col in 0..9 {
            after.push(field.tile_at(cell(col, row)));
        }
    }
    assert_eq!(before, after);
}

#[test]
fn recompute_without_target_clears_the_field() {
    let mut field = open_board(5, 5, cell(2, 2));
    field.set_target(None).unwrap();
    assert_eq!(field.target(), None);
    assert_eq!(field.tile_at(cell(2, 2)), Some(Tile::Open(None)));
    // Until the recomputation the old path data is still there.
    assert_eq!(info(&field, 0, 0).distance, 4);
    field.recompute();
    for row in 0..5 {
        for col in 0..5 {
            assert_eq!(field.tile_at(cell(col, row)), Some(Tile::Open(None)));
        }
    }
}

#[test]
fn no_distance_of_an_earlier_target_persists() {
    let mut field = open_board(5, 5, cell(0, 0));
    assert_eq!(info(&field, 4, 4).distance, 8);
    field.set_target(None).unwrap();
    field.recompute();
    field.set_target(Some(cell(4, 4))).unwrap();
    field.recompute();
    let fresh = open_board(5, 5, cell(4, 4));
    for row in 0..5 {
        for col in 0..5 {
            assert_eq!(field.tile_at(cell(col, row)), fresh.tile_at(cell(col, row)));
        }
    }
    assert_eq!(info(&field, 0, 0).distance, 8);
    assert_eq!(info(&field, 3, 4), PathInfo { distance: 1, next: Direction::East });
}

#[test]
fn set_wall_rejects_what_it_cannot_change() {
    let mut field = open_board(5, 5, cell(2, 2));
    assert_eq!(field.set_wall(cell(5, 5), true), Err(GridError::NoSuchCell));
    assert_eq!(field.set_wall(cell(-1, 2), false), Err(GridError::NoSuchCell));
    assert_eq!(field.set_wall(cell(2, 2), true), Err(GridError::TargetCell));
    assert_eq!(field.tile_at(cell(2, 2)), Some(Tile::Target));
    assert_eq!(field.set_wall(cell(1, 1), true), Ok(()));
    assert_eq!(field.tile_at(cell(1, 1)), Some(Tile::Wall));
    assert_eq!(field.set_wall(cell(1, 1), false), Ok(()));
    assert_eq!(field.tile_at(cell(1, 1)), Some(Tile::Open(None)));
    // Opening an open cell drops its path data until the next recomputation.
    assert_eq!(field.set_wall(cell(0, 0), false), Ok(()));
    assert_eq!(field.tile_at(cell(0, 0)), Some(Tile::Open(None)));
}

#[test]
fn set_target_moves_the_single_target() {
    let mut field = GridField::new(4, 3).unwrap();
    assert_eq!(field.set_target(Some(cell(4, 0))), Err(GridError::NoSuchCell));
    assert_eq!(field.target(), None);
    field.set_wall(cell(3, 2), true).unwrap();
    assert_eq!(field.set_target(Some(cell(1, 1))), Ok(()));
    assert_eq!(field.set_target(Some(cell(3, 2))), Ok(()));
    assert_eq!(field.target(), Some(cell(3, 2)));
    assert_eq!(field.tile_at(cell(1, 1)), Some(Tile::Open(None)));
    assert_eq!(field.tile_at(cell(3, 2)), Some(Tile::Target));
    let mut targets = 0;
    for row in 0..3 {
        for col in 0..4 {
            if field.tile_at(cell(col, row)) == Some(Tile::Target) {
                targets += 1;
            }
        }
    }
    assert_eq!(targets, 1);
    assert_eq!(field.set_target(Some(cell(9, 9))), Err(GridError::NoSuchCell));
    assert_eq!(field.target(), Some(cell(3, 2)));
}

#[test]
fn centered_board_has_its_target_in_the_middle() {
    let field = GridField::centered(20, 15).unwrap();
    assert_eq!(field.target(), Some(cell(10, 7)));
    assert_eq!(field.tile_at(cell(10, 7)), Some(Tile::Target));
    assert_eq!(info(&field, 0, 0).distance, 17);
    assert_eq!(info(&field, 19, 14).distance, 16);
    assert_field_exact(&field);
}

#[test]
fn one_cell_board() {
    let mut field = GridField::new(1, 1).unwrap();
    field.recompute();
    assert_eq!(field.tile_at(cell(0, 0)), Some(Tile::Open(None)));
    field.set_target(Some(cell(0, 0))).unwrap();
    field.recompute();
    assert_eq!(field.tile_at(cell(0, 0)), Some(Tile::Target));
}
