use flowfield::agents::{decide, Action, AgentSimulator, POPULATION_CAP};
use flowfield::geometry::{Cell, Direction};
use flowfield::grid::{GridError, GridField};
use flowfield::tile::{PathInfo, Tile};

fn cell(col: i32, row: i32) -> Cell {
    Cell::new(col, row)
}

fn cells(sim: &AgentSimulator) -> Vec<Cell> {
    (0..sim.population()).map(|i| sim.agent(i).unwrap()).collect()
}

fn open_board(width: i32, height: i32, target: Cell) -> GridField {
    let mut field = GridField::new(width, height).unwrap();
    field.set_target(Some(target)).unwrap();
    field.recompute();
    field
}

#[test]
fn decide_by_tile_and_population() {
    let path = PathInfo { distance: 3, next: Direction::West };
    assert_eq!(decide(Tile::Open(Some(path)), 0), Action::Advance(Direction::West));
    assert_eq!(decide(Tile::Open(Some(path)), 500), Action::Advance(Direction::West));
    assert_eq!(decide(Tile::Open(None), 7), Action::Jitter);
    assert_eq!(decide(Tile::Wall, 7), Action::Remove);
    assert_eq!(decide(Tile::Target, 0), Action::Spawn);
    assert_eq!(decide(Tile::Target, 199), Action::Spawn);
    assert_eq!(decide(Tile::Target, 200), Action::Rest);
    assert_eq!(decide(Tile::Target, 201), Action::Rest);
    assert_eq!(POPULATION_CAP, 200);
}

#[test]
fn corners_hold_the_first_four_agents() {
    let field = GridField::centered(20, 15).unwrap();
    let sim = AgentSimulator::at_corners(&field);
    assert_eq!(cells(&sim), vec![cell(0, 0), cell(0, 14), cell(19, 0), cell(19, 14)]);
    assert_eq!(sim.positions(), cells(&sim));
    assert_eq!(AgentSimulator::new().positions(), vec![]);
    assert!(sim.fits(&field));
    assert_eq!(sim.agent(4), None);
}

#[test]
fn add_agent_refuses_cells_off_the_board() {
    let field = open_board(5, 5, cell(2, 2));
    let mut sim = AgentSimulator::new();
    assert_eq!(sim.population(), 0);
    assert_eq!(sim.add_agent(&field, cell(5, 0)), Err(GridError::NoSuchCell));
    assert_eq!(sim.add_agent(&field, cell(0, -1)), Err(GridError::NoSuchCell));
    assert_eq!(sim.population(), 0);
    assert_eq!(sim.add_agent(&field, cell(4, 4)), Ok(()));
    assert_eq!(cells(&sim), vec![cell(4, 4)]);
    let small = GridField::new(2, 2).unwrap();
    assert!(sim.fits(&field));
    assert!(!sim.fits(&small));
}

#[test]
fn agents_advance_one_cell_along_the_field() {
    let field = open_board(5, 5, cell(2, 2));
    let mut sim = AgentSimulator::new();
    sim.add_agent(&field, cell(2, 0)).unwrap();
    sim.add_agent(&field, cell(4, 2)).unwrap();
    let actions = sim.step(&field);
    assert_eq!(actions, vec![Action::Advance(Direction::South), Action::Advance(Direction::West)]);
    assert_eq!(cells(&sim), vec![cell(2, 1), cell(3, 2)]);
    sim.step(&field);
    assert_eq!(cells(&sim), vec![cell(2, 2), cell(2, 2)]);
}

#[test]
fn an_agent_reaches_the_target_in_distance_ticks() {
    let field = GridField::centered(20, 15).unwrap();
    let mut sim = AgentSimulator::new();
    sim.add_agent(&field, cell(0, 0)).unwrap();
    let distance = field.path_info_at(cell(0, 0)).unwrap().distance;
    for left in (1..=distance).rev() {
        let at = sim.agent(0).unwrap();
        assert_eq!(field.path_info_at(at).unwrap().distance, left);
        let actions = sim.step(&field);
        assert!(matches!(actions[0], Action::Advance(_)));
        assert_eq!(sim.population(), 1);
    }
    assert_eq!(sim.agent(0), Some(cell(10, 7)));
}

#[test]
fn agents_without_a_path_jitter_in_place() {
    let mut field = GridField::new(5, 5).unwrap();
    field.recompute();
    let mut sim = AgentSimulator::new();
    sim.add_agent(&field, cell(1, 3)).unwrap();
    sim.add_agent(&field, cell(4, 0)).unwrap();
    for _ in 0..50 {
        let actions = sim.step(&field);
        assert_eq!(actions, vec![Action::Jitter, Action::Jitter]);
        assert_eq!(cells(&sim), vec![cell(1, 3), cell(4, 0)]);
    }
}

#[test]
fn an_agent_on_a_new_wall_is_removed_and_no_other() {
    let mut field = open_board(6, 6, cell(5, 5));
    let mut sim = AgentSimulator::new();
    for c in [cell(0, 0), cell(1, 0), cell(2, 0), cell(3, 0), cell(0, 0)] {
        sim.add_agent(&field, c).unwrap();
    }
    field.set_wall(cell(1, 0), true).unwrap();
    field.recompute();
    let expected: Vec<Cell> = [cell(0, 0), cell(2, 0), cell(3, 0), cell(0, 0)]
        .iter()
        .map(|c| c.step(field.path_info_at(*c).unwrap().next))
        .collect();
    let actions = sim.step(&field);
    assert_eq!(actions.len(), 5);
    assert_eq!(actions[1], Action::Remove);
    assert_eq!(actions.iter().filter(|a| **a == Action::Remove).count(), 1);
    assert_eq!(cells(&sim), expected);
    assert!(sim.fits(&field));
}

#[test]
fn removing_the_last_and_the_only_agent() {
    let mut field = open_board(4, 4, cell(3, 3));
    let mut sim = AgentSimulator::new();
    sim.add_agent(&field, cell(0, 3)).unwrap();
    sim.add_agent(&field, cell(1, 1)).unwrap();
    field.set_wall(cell(1, 1), true).unwrap();
    field.recompute();
    assert_eq!(sim.step(&field), vec![Action::Advance(Direction::East), Action::Remove]);
    assert_eq!(cells(&sim), vec![cell(1, 3)]);
    field.set_wall(cell(1, 3), true).unwrap();
    field.recompute();
    assert_eq!(sim.step(&field), vec![Action::Remove]);
    assert_eq!(sim.population(), 0);
    assert_eq!(sim.step(&field), vec![]);
}

#[test]
fn the_target_spawns_and_the_newborn_wait_a_tick() {
    let field = open_board(5, 5, cell(2, 2));
    let mut sim = AgentSimulator::new();
    sim.add_agent(&field, cell(2, 2)).unwrap();
    sim.add_agent(&field, cell(0, 0)).unwrap();
    sim.add_agent(&field, cell(2, 2)).unwrap();
    let actions = sim.step(&field);
    // Three agents were there at the start of the tick: three are examined.
    assert_eq!(actions, vec![Action::Spawn, Action::Advance(Direction::East), Action::Spawn]);
    assert_eq!(
        cells(&sim),
        vec![cell(2, 2), cell(1, 0), cell(2, 2), cell(2, 2), cell(2, 2)]
    );
    let actions = sim.step(&field);
    assert_eq!(actions.len(), 5);
    assert_eq!(sim.population(), 9);
}

#[test]
fn no_spawn_at_the_cap() {
    let field = open_board(5, 5, cell(2, 2));
    let mut sim = AgentSimulator::new();
    sim.add_agent(&field, cell(2, 2)).unwrap();
    for _ in 1..200 {
        sim.add_agent(&field, cell(0, 4)).unwrap();
    }
    assert_eq!(sim.population(), 200);
    let actions = sim.step(&field);
    assert_eq!(actions[0], Action::Rest);
    assert_eq!(sim.population(), 200);
    assert_eq!(sim.agent(0), Some(cell(2, 2)));
}

#[test]
fn spawning_stops_exactly_at_the_cap() {
    let field = open_board(3, 3, cell(1, 1));
    let mut sim = AgentSimulator::new();
    for _ in 0..150 {
        sim.add_agent(&field, cell(1, 1)).unwrap();
    }
    let actions = sim.step(&field);
    assert_eq!(actions.iter().filter(|a| **a == Action::Spawn).count(), 50);
    assert_eq!(actions.iter().filter(|a| **a == Action::Rest).count(), 100);
    assert_eq!(actions[49], Action::Spawn);
    assert_eq!(actions[50], Action::Rest);
    assert_eq!(sim.population(), 200);
}

#[test]
fn a_removal_makes_room_for_a_spawn() {
    let mut field = open_board(3, 3, cell(1, 1));
    let mut sim = AgentSimulator::new();
    sim.add_agent(&field, cell(0, 0)).unwrap();
    for _ in 1..200 {
        sim.add_agent(&field, cell(1, 1)).unwrap();
    }
    field.set_wall(cell(0, 0), true).unwrap();
    field.recompute();
    let actions = sim.step(&field);
    assert_eq!(actions[0], Action::Remove);
    assert_eq!(actions[1], Action::Spawn);
    assert_eq!(actions[2], Action::Rest);
    assert_eq!(sim.population(), 200);
}

#[test]
fn population_never_passes_the_cap() {
    let field = GridField::centered(20, 15).unwrap();
    let mut sim = AgentSimulator::at_corners(&field);
    let mut most = 0;
    for _ in 0..100 {
        sim.step(&field);
        assert!(sim.population() <= POPULATION_CAP);
        assert!(sim.fits(&field));
        most = most.max(sim.population());
    }
    assert_eq!(most, 200);
    assert_eq!(sim.population(), 200);
}

#[test]
fn a_population_above_the_cap_does_not_grow() {
    let field = open_board(3, 3, cell(1, 1));
    let mut sim = AgentSimulator::new();
    for _ in 0..250 {
        sim.add_agent(&field, cell(1, 1)).unwrap();
    }
    sim.step(&field);
    assert_eq!(sim.population(), 250);
}
