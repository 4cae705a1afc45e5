use raid_night::battle_grid::{BattleGrid, ScreenPoint, TileStatus};
use raid_night::components::{EntityId, Piece};
use raid_night::coordinate::Coordinate;
use raid_night::direction::Direction;
use raid_night::move_action::{generate_random_walk, is_step_legal, is_walk_legal, legal_directions};
use raid_night::movement::resolve_move;

use Direction::{Down, Left, Right, Up};

fn grid_of(width: i32, height: i32) -> BattleGrid {
    BattleGrid {
        screen_pos: ScreenPoint { x: 100, y: 100 },
        width,
        height,
        grid_size: 96,
        line_width: 4,
        tile_statuses: vec![TileStatus::Empty; (width * height) as usize],
    }
}

fn piece_at(grid: &mut BattleGrid, x: i32, y: i32) -> Piece {
    let coord = Coordinate { x, y };
    grid.set_status_at_coord(&coord, TileStatus::Occupied);
    Piece { entity: EntityId(1), coord, status: TileStatus::Occupied }
}

fn occupied_cells(grid: &BattleGrid) -> Vec<(i32, i32)> {
    let mut cells = Vec::new();
    for y in 0..grid.height {
        for x in 0..grid.width {
            if grid.get_status_at_coord(&Coordinate { x, y }) == TileStatus::Occupied {
                cells.push((x, y));
            }
        }
    }
    cells
}

#[test]
fn movement_is_truncated_at_the_boundary() {
    let mut grid = grid_of(4, 5);
    let mut piece = piece_at(&mut grid, 2, 2);
    let taken = resolve_move(&mut grid, &mut piece, &vec![Right, Right, Right]);
    assert_eq!(taken, 1);
    assert_eq!(piece.coord, Coordinate { x: 3, y: 2 });
    assert_eq!(occupied_cells(&grid), vec![(3, 2)]);
}

#[test]
fn collision_on_the_first_step_leaves_the_actor_in_place() {
    let mut grid = grid_of(2, 1);
    let mut piece = piece_at(&mut grid, 0, 0);
    grid.set_status_at_coord(&Coordinate { x: 1, y: 0 }, TileStatus::Occupied);
    let taken = resolve_move(&mut grid, &mut piece, &vec![Right, Right]);
    assert_eq!(taken, 0);
    assert_eq!(piece.coord, Coordinate { x: 0, y: 0 });
    assert_eq!(occupied_cells(&grid), vec![(0, 0), (1, 0)]);
}

#[test]
fn only_the_end_of_a_prefix_is_looked_at() {
    let mut grid = BattleGrid::new();
    let mut piece = piece_at(&mut grid, 0, 0);
    grid.set_status_at_coord(&Coordinate { x: 1, y: 0 }, TileStatus::Occupied);
    let taken = resolve_move(&mut grid, &mut piece, &vec![Right, Right]);
    assert_eq!(taken, 2);
    assert_eq!(piece.coord, Coordinate { x: 2, y: 0 });
    assert_eq!(occupied_cells(&grid), vec![(1, 0), (2, 0)]);
}

#[test]
fn an_occupied_end_falls_back_to_the_longest_free_prefix() {
    let mut grid = BattleGrid::new();
    let mut piece = piece_at(&mut grid, 0, 0);
    grid.set_status_at_coord(&Coordinate { x: 3, y: 0 }, TileStatus::Occupied);
    let taken = resolve_move(&mut grid, &mut piece, &vec![Right, Right, Right]);
    assert_eq!(taken, 2);
    assert_eq!(piece.coord, Coordinate { x: 2, y: 0 });
    assert_eq!(occupied_cells(&grid), vec![(2, 0), (3, 0)]);
}

#[test]
fn an_empty_plan_changes_nothing() {
    let mut grid = BattleGrid::new();
    let mut piece = piece_at(&mut grid, 2, 2);
    let taken = resolve_move(&mut grid, &mut piece, &vec![]);
    assert_eq!(taken, 0);
    assert_eq!(piece.coord, Coordinate { x: 2, y: 2 });
    assert_eq!(occupied_cells(&grid), vec![(2, 2)]);
}

#[test]
fn a_plan_that_returns_home_stops_one_step_short() {
    let mut grid = BattleGrid::new();
    let mut piece = piece_at(&mut grid, 2, 2);
    let taken = resolve_move(&mut grid, &mut piece, &vec![Up, Right, Down, Left]);
    assert_eq!(taken, 3);
    assert_eq!(piece.coord, Coordinate { x: 3, y: 2 });
    assert_eq!(occupied_cells(&grid), vec![(3, 2)]);
}

#[test]
fn a_plan_may_leave_the_board_and_come_back() {
    let mut grid = BattleGrid::new();
    let mut piece = piece_at(&mut grid, 0, 0);
    let taken = resolve_move(&mut grid, &mut piece, &vec![Left, Left, Down, Right, Right]);
    assert_eq!(taken, 5);
    assert_eq!(piece.coord, Coordinate { x: 0, y: 1 });
    assert_eq!(occupied_cells(&grid), vec![(0, 1)]);
}

#[test]
fn a_plan_that_never_ends_on_a_free_cell_changes_nothing() {
    let mut grid = grid_of(1, 1);
    let mut piece = piece_at(&mut grid, 0, 0);
    let taken = resolve_move(&mut grid, &mut piece, &vec![Up, Up, Left, Down]);
    assert_eq!(taken, 0);
    assert_eq!(piece.coord, Coordinate { x: 0, y: 0 });
    assert_eq!(occupied_cells(&grid), vec![(0, 0)]);
}

#[test]
fn a_resolved_move_frees_the_origin_and_marks_the_destination() {
    let mut grid = BattleGrid::new();
    let mut piece = piece_at(&mut grid, 1, 1);
    grid.set_status_at_coord(&Coordinate { x: 4, y: 4 }, TileStatus::Occupied);
    let taken = resolve_move(&mut grid, &mut piece, &vec![Down, Down, Right]);
    assert_eq!(taken, 3);
    assert_eq!(grid.get_status_at_coord(&Coordinate { x: 1, y: 1 }), TileStatus::Empty);
    assert_eq!(grid.get_status_at_coord(&Coordinate { x: 2, y: 3 }), TileStatus::Occupied);
    assert_eq!(occupied_cells(&grid), vec![(2, 3), (4, 4)]);
}

#[test]
fn a_piece_of_empty_status_leaves_no_mark() {
    let mut grid = BattleGrid::new();
    let mut piece =
        Piece { entity: EntityId(9), coord: Coordinate { x: 0, y: 0 }, status: TileStatus::Empty };
    let taken = resolve_move(&mut grid, &mut piece, &vec![Right, Left]);
    assert_eq!(taken, 2);
    assert_eq!(piece.coord, Coordinate { x: 0, y: 0 });
    assert_eq!(occupied_cells(&grid), vec![]);
}

#[test]
fn far_away_plans_do_not_overflow() {
    let mut grid = BattleGrid::new();
    let mut piece = piece_at(&mut grid, 4, 4);
    let plan = vec![Right; 1000];
    assert_eq!(resolve_move(&mut grid, &mut piece, &plan), 0);
    assert_eq!(piece.coord, Coordinate { x: 4, y: 4 });
}

#[test]
fn legal_steps_stay_on_the_board_and_do_not_turn_back() {
    let grid = BattleGrid::new();
    let corner = Coordinate { x: 0, y: 0 };
    assert_eq!(legal_directions(corner, &grid, None), vec![Right, Down]);
    assert_eq!(legal_directions(corner, &grid, Some(Up)), vec![Right]);
    assert_eq!(legal_directions(corner, &grid, Some(Left)), vec![Down]);
    let middle = Coordinate { x: 2, y: 2 };
    assert_eq!(legal_directions(middle, &grid, None), vec![Up, Right, Down, Left]);
    assert_eq!(legal_directions(middle, &grid, Some(Right)), vec![Up, Right, Down]);
    let outside = Coordinate { x: -1, y: 2 };
    assert_eq!(legal_directions(outside, &grid, None), vec![Right]);
    assert_eq!(legal_directions(Coordinate { x: i32::MAX, y: i32::MIN }, &grid, None), vec![]);
    assert!(is_step_legal(&grid, middle, Some(Up), Up));
    assert!(!is_step_legal(&grid, middle, Some(Up), Down));
    assert!(!is_step_legal(&grid, corner, None, Left));
}

#[test]
fn occupied_cells_do_not_stop_a_planned_step() {
    let mut grid = BattleGrid::new();
    grid.set_status_at_coord(&Coordinate { x: 1, y: 0 }, TileStatus::Occupied);
    assert_eq!(legal_directions(Coordinate { x: 0, y: 0 }, &grid, None), vec![Right, Down]);
}

#[test]
fn walk_legality_is_decided_step_by_step() {
    let grid = BattleGrid::new();
    let start = Coordinate { x: 0, y: 0 };
    assert!(is_walk_legal(start, &grid, None, &vec![]));
    assert!(is_walk_legal(start, &grid, None, &vec![Right, Down, Left]));
    assert!(!is_walk_legal(start, &grid, None, &vec![Right, Left]));
    assert!(!is_walk_legal(start, &grid, None, &vec![Left]));
    assert!(!is_walk_legal(start, &grid, Some(Left), &vec![Right]));
    assert!(!is_walk_legal(start, &grid, None, &vec![Down, Down, Down, Down, Down]));
}

#[test]
fn random_walks_are_legal_and_full_length_where_possible() {
    let grid = BattleGrid::new();
    for x in 0..grid.width {
        for y in 0..grid.height {
            for _ in 0..20 {
                let start = Coordinate { x, y };
                let walk = generate_random_walk(start, &grid, 1, 3, None);
                assert_eq!(walk.len(), 3);
                assert!(is_walk_legal(start, &grid, None, &walk));
            }
        }
    }
}

#[test]
fn random_walks_stop_early_when_stuck() {
    let lane = grid_of(3, 1);
    for _ in 0..50 {
        let walk = generate_random_walk(Coordinate { x: 1, y: 0 }, &lane, 1, 3, None);
        assert!(walk == vec![Left] || walk == vec![Right]);
    }
    let cell = grid_of(1, 1);
    assert_eq!(generate_random_walk(Coordinate { x: 0, y: 0 }, &cell, 1, 3, None), vec![]);
    let walk = generate_random_walk(Coordinate { x: 0, y: 0 }, &lane, 3, 3, Some(Left));
    assert_eq!(walk, vec![]);
}

#[test]
fn random_walks_visit_more_than_one_direction() {
    let grid = BattleGrid::new();
    let mut seen = Vec::new();
    for _ in 0..200 {
        let walk = generate_random_walk(Coordinate { x: 2, y: 2 }, &grid, 3, 3, None);
        assert_eq!(walk.len(), 1);
        if !seen.contains(&walk[0]) {
            seen.push(walk[0]);
        }
    }
    assert!(seen.len() > 1);
}

#[test]
fn random_walk_depth_counts_from_the_given_step() {
    let grid = BattleGrid::new();
    let start = Coordinate { x: 2, y: 2 };
    assert_eq!(generate_random_walk(start, &grid, 3, 3, None).len(), 1);
    assert_eq!(generate_random_walk(start, &grid, 2, 3, None).len(), 2);
    assert_eq!(generate_random_walk(start, &grid, 0, 3, None).len(), 4);
}
