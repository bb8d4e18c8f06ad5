use flowfield::editor::{PointerButton, Selection};
use flowfield::geometry::{Cell, Direction};
use flowfield::grid::{GridError, GridField};
use flowfield::tile::{PathInfo, Tile};

fn cell(col: i32, row: i32) -> Cell {
    Cell::new(col, row)
}

fn walls(field: &GridField) -> Vec<Cell> {
    let mut found = vec![];
    for row in 0..field.height() {
        for col in 0..field.width() {
            if field.tile_at(cell(col, row)) == Some(Tile::Wall) {
                found.push(cell(col, row));
            }
        }
    }
    found
}

#[test]
fn a_drag_from_an_open_cell_builds_walls() {
    let mut field = GridField::centered(7, 7).unwrap();
    assert_eq!(field.toggle_region(cell(4, 1), cell(2, 3)), Ok(()));
    assert_eq!(
        walls(&field),
        vec![
            cell(2, 1), cell(3, 1), cell(4, 1), cell(2, 2), cell(3, 2), cell(4, 2), cell(2, 3),
            cell(4, 3),
        ]
    );
    // The target lay inside the rectangle and is still there.
    assert_eq!(field.tile_at(cell(3, 3)), Some(Tile::Target));
    assert_eq!(field.target(), Some(cell(3, 3)));
    // The field was recomputed: the only way in is from the south.
    assert_eq!(
        field.path_info_at(cell(3, 4)),
        Some(PathInfo { distance: 1, next: Direction::North })
    );
    assert_eq!(field.path_info_at(cell(3, 0)).unwrap().distance, 9);
}

#[test]
fn a_drag_from_a_wall_opens_cells() {
    let mut field = GridField::centered(7, 7).unwrap();
    field.toggle_region(cell(0, 0), cell(6, 1)).unwrap();
    assert_eq!(walls(&field).len(), 14);
    assert_eq!(field.toggle_region(cell(1, 1), cell(5, 0)), Ok(()));
    assert_eq!(walls(&field), vec![cell(0, 0), cell(6, 0), cell(0, 1), cell(6, 1)]);
    assert_eq!(field.path_info_at(cell(3, 0)).unwrap().distance, 3);
}

#[test]
fn a_drag_from_the_target_or_off_the_board_changes_nothing() {
    let mut field = GridField::centered(5, 5).unwrap();
    assert_eq!(field.toggle_region(cell(2, 2), cell(4, 4)), Err(GridError::TargetCell));
    assert_eq!(field.toggle_region(cell(0, 0), cell(5, 5)), Err(GridError::NoSuchCell));
    assert_eq!(field.toggle_region(cell(-1, 0), cell(1, 1)), Err(GridError::NoSuchCell));
    assert_eq!(walls(&field), vec![]);
    assert_eq!(field.path_info_at(cell(0, 0)).unwrap().distance, 4);
}

#[test]
fn toggle_target_moves_and_removes() {
    let mut field = GridField::centered(5, 5).unwrap();
    assert_eq!(field.toggle_target(cell(0, 0)), Ok(()));
    assert_eq!(field.target(), Some(cell(0, 0)));
    assert_eq!(field.tile_at(cell(2, 2)).unwrap().path_info().unwrap().distance, 4);
    assert_eq!(field.toggle_target(cell(0, 0)), Ok(()));
    assert_eq!(field.target(), None);
    for row in 0..5 {
        for col in 0..5 {
            assert_eq!(field.tile_at(cell(col, row)), Some(Tile::Open(None)));
        }
    }
    assert_eq!(field.toggle_target(cell(5, 0)), Err(GridError::NoSuchCell));
    assert_eq!(field.target(), None);
    field.set_wall(cell(4, 4), true).unwrap();
    assert_eq!(field.toggle_target(cell(4, 4)), Ok(()));
    assert_eq!(field.tile_at(cell(4, 4)), Some(Tile::Target));
}

#[test]
fn the_pointer_tracks_moves_and_presses() {
    let mut selection = Selection::new();
    assert_eq!(selection, Selection { pointer: None, anchor: None });
    selection.mouse_press(PointerButton::Left);
    assert_eq!(selection.anchor, None);
    selection.mouse_move(Some(cell(1, 2)));
    selection.mouse_press(PointerButton::Right);
    assert_eq!(selection.anchor, None);
    selection.mouse_press(PointerButton::Left);
    assert_eq!(selection, Selection { pointer: Some(cell(1, 2)), anchor: Some(cell(1, 2)) });
    selection.mouse_move(Some(cell(3, 3)));
    assert_eq!(selection, Selection { pointer: Some(cell(3, 3)), anchor: Some(cell(1, 2)) });
    selection.mouse_move(None);
    assert_eq!(selection, Selection { pointer: None, anchor: None });
}

#[test]
fn a_left_release_ends_the_drag_and_toggles_its_rectangle() {
    let mut field = GridField::centered(5, 5).unwrap();
    let mut selection = Selection::new();
    selection.mouse_move(Some(cell(0, 0)));
    selection.mouse_press(PointerButton::Left);
    selection.mouse_move(Some(cell(1, 4)));
    selection.mouse_release(PointerButton::Left, &mut field);
    assert_eq!(selection, Selection { pointer: Some(cell(1, 4)), anchor: None });
    assert_eq!(walls(&field).len(), 10);
    // A release without a drag changes no tile.
    selection.mouse_release(PointerButton::Left, &mut field);
    assert_eq!(walls(&field).len(), 10);
    // A click on a wall opens it.
    selection.mouse_press(PointerButton::Left);
    selection.mouse_release(PointerButton::Left, &mut field);
    assert_eq!(walls(&field).len(), 9);
    assert_eq!(field.tile_at(cell(1, 4)).unwrap().path_info().unwrap().distance, 3);
}

#[test]
fn a_right_release_toggles_the_target_under_the_pointer() {
    let mut field = GridField::centered(5, 5).unwrap();
    let mut selection = Selection::new();
    selection.mouse_release(PointerButton::Right, &mut field);
    assert_eq!(field.target(), Some(cell(2, 2)));
    selection.mouse_move(Some(cell(4, 0)));
    selection.mouse_release(PointerButton::Right, &mut field);
    assert_eq!(field.target(), Some(cell(4, 0)));
    assert_eq!(field.tile_at(cell(2, 2)).unwrap().path_info().unwrap().distance, 4);
    selection.mouse_release(PointerButton::Right, &mut field);
    assert_eq!(field.target(), None);
    assert_eq!(field.tile_at(cell(2, 2)), Some(Tile::Open(None)));
}

#[test]
fn any_release_brings_the_field_up_to_date() {
    let mut field = GridField::centered(5, 5).unwrap();
    field.set_wall(cell(2, 1), true).unwrap();
    assert_eq!(field.tile_at(cell(2, 0)).unwrap().path_info().unwrap().distance, 2);
    let mut selection = Selection::new();
    selection.mouse_release(PointerButton::Other, &mut field);
    assert_eq!(field.tile_at(cell(2, 0)).unwrap().path_info().unwrap().distance, 4);
}

#[test]
fn a_drag_that_began_on_the_target_leaves_the_board_alone() {
    let mut field = GridField::centered(5, 5).unwrap();
    field.set_wall(cell(2, 1), true).unwrap();
    let mut selection = Selection::new();
    selection.mouse_move(Some(cell(2, 2)));
    selection.mouse_press(PointerButton::Left);
    selection.mouse_move(Some(cell(4, 4)));
    selection.mouse_release(PointerButton::Left, &mut field);
    assert_eq!(selection.anchor, None);
    assert_eq!(walls(&field), vec![cell(2, 1)]);
    // Not even the field: it is as out of date as it was.
    assert_eq!(field.tile_at(cell(2, 0)).unwrap().path_info().unwrap().distance, 2);
}
