use raid_night::battle_grid::{BattleGrid, TileStatus};
use raid_night::components::{
    ActionDeclarationFinished, Declaration, EntityId, Initiative, Message, Move, Piece, Round,
    Source,
};
use raid_night::coordinate::Coordinate;
use raid_night::direction::Direction;
use raid_night::game_state::GameState;
use raid_night::move_action::is_walk_legal;
use raid_night::systems::{
    begin_combat, build_declare_phase_schedule, build_resolve_phase_schedule,
    build_start_of_round_schedule, clear_round_messages, declare_ai_action, end_turn, find_piece,
    is_declaration_finished, register_roll, resolve_moves, roll_initiative, schedule_for,
    update_tile_statuses, PhaseTimer, Stage, System,
};
use raid_night::turn_tracker::{TurnState, TurnTracker};

fn tracker_with(rolls: &[(u64, i32, i32)]) -> TurnTracker {
    let mut tracker = TurnTracker::new();
    for (id, init, priority) in rolls {
        tracker.register_combatant(&EntityId(*id), *init, *priority);
    }
    tracker
}

fn finished(id: u64) -> Message {
    Message {
        source: Source { entity: EntityId(id) },
        content: Declaration::Finished(ActionDeclarationFinished),
        scope: Round,
    }
}

fn walk(id: u64, dirs: Vec<Direction>) -> Message {
    Message {
        source: Source { entity: EntityId(id) },
        content: Declaration::Movement(Move { dirs }),
        scope: Round,
    }
}

fn piece(id: u64, x: i32, y: i32) -> Piece {
    Piece { entity: EntityId(id), coord: Coordinate { x, y }, status: TileStatus::Occupied }
}

fn opening() -> Vec<Stage> {
    vec![
        Stage::ThreadLocal(System::ClearBg),
        Stage::ThreadLocal(System::DrawGrid),
        Stage::ThreadLocal(System::DrawTurnTracker),
        Stage::ThreadLocal(System::DrawGridPieces),
        Stage::ThreadLocal(System::DrawDeclaredMoves),
        Stage::Flush,
        Stage::Parallel(System::UpdateTileStatuses),
    ]
}

#[test]
fn start_of_round_schedule_refreshes_rolls_and_clears() {
    let mut expected = opening();
    expected.extend([
        Stage::Parallel(System::RollInitiative),
        Stage::Parallel(System::ClearRoundMessages),
        Stage::Flush,
        Stage::Parallel(System::EndTurn),
    ]);
    assert_eq!(build_start_of_round_schedule().stages, expected);
    assert_eq!(schedule_for(TurnState::StartOfRound).stages, expected);
}

#[test]
fn declare_phase_schedule_lets_the_ai_declare() {
    let mut expected = opening();
    expected.extend([
        Stage::Parallel(System::DeclareAiAction),
        Stage::Flush,
        Stage::Parallel(System::EndTurn),
    ]);
    assert_eq!(build_declare_phase_schedule().stages, expected);
    assert_eq!(schedule_for(TurnState::DeclarePhase).stages, expected);
}

#[test]
fn resolve_phase_schedule_resolves_moves() {
    let mut expected = opening();
    expected.extend([
        Stage::Parallel(System::ResolveMoves),
        Stage::Flush,
        Stage::Parallel(System::EndTurn),
    ]);
    assert_eq!(build_resolve_phase_schedule().stages, expected);
    assert_eq!(schedule_for(TurnState::ResolvePhase).stages, expected);
}

#[test]
fn begin_combat_opens_a_round() {
    let mut state = GameState::Initialization;
    let mut tracker = tracker_with(&[(1, 3, 0), (2, 9, 0)]);
    tracker.next_turn();
    begin_combat(&mut state, &mut tracker);
    assert_eq!(state, GameState::Combat);
    assert_eq!(tracker.turn_state, TurnState::StartOfRound);
    assert_eq!(tracker.current_combatant, 1);
    assert_eq!(tracker.combatants.len(), 2);
}

#[test]
fn a_roll_is_registered_with_the_modifier_added() {
    let mut tracker = TurnTracker::new();
    register_roll(&EntityId(7), &Initiative { init_mod: -1, priority: 5 }, 10, &mut tracker);
    assert_eq!(tracker.combatants.len(), 1);
    assert_eq!(tracker.combatants[0].init, 9);
    assert_eq!(tracker.combatants[0].priority, 5);
    assert_eq!(tracker.combatants[0].entity, EntityId(7));
}

#[test]
fn initiative_rolls_lie_between_one_and_ten_plus_the_modifier() {
    let mut seen = Vec::new();
    for _ in 0..300 {
        let mut tracker = TurnTracker::new();
        roll_initiative(&EntityId(1), &Initiative { init_mod: 100, priority: 2 }, &mut tracker);
        assert_eq!(tracker.combatants.len(), 1);
        let rolled = tracker.combatants[0];
        assert!(101 <= rolled.init && rolled.init <= 110);
        assert_eq!(rolled.priority, 2);
        assert_eq!(rolled.entity, EntityId(1));
        if !seen.contains(&rolled.init) {
            seen.push(rolled.init);
        }
    }
    assert!(seen.len() > 1);
}

#[test]
fn rolling_again_keeps_one_record_per_entity() {
    let mut tracker = TurnTracker::new();
    let init = Initiative { init_mod: 0, priority: 0 };
    for _ in 0..5 {
        roll_initiative(&EntityId(1), &init, &mut tracker);
        roll_initiative(&EntityId(2), &init, &mut tracker);
    }
    assert_eq!(tracker.combatants.len(), 2);
}

#[test]
fn finished_declarations_are_found_by_source() {
    let messages = vec![walk(1, vec![Direction::Up]), finished(2), walk(3, vec![])];
    assert!(!is_declaration_finished(&messages, &EntityId(1)));
    assert!(is_declaration_finished(&messages, &EntityId(2)));
    assert!(!is_declaration_finished(&messages, &EntityId(3)));
    assert!(!is_declaration_finished(&vec![], &EntityId(2)));
}

#[test]
fn a_player_declares_until_confirm_is_pressed() {
    let mut tracker = tracker_with(&[(1, 3, 0), (2, 9, 0)]);
    tracker.next_turn();
    let mut timer = PhaseTimer { elapsed_ms: 120 };
    let messages = vec![finished(1)];

    end_turn(&mut tracker, true, false, &messages, &mut timer, 10_000);
    assert_eq!((tracker.turn_state, tracker.current_combatant), (TurnState::DeclarePhase, 1));
    assert_eq!(timer.elapsed_ms, 120);

    end_turn(&mut tracker, true, true, &vec![], &mut timer, 16);
    assert_eq!((tracker.turn_state, tracker.current_combatant), (TurnState::DeclarePhase, 0));
    assert_eq!(timer.elapsed_ms, 120);
}

#[test]
fn an_ai_declares_until_its_declaration_is_finished() {
    let mut tracker = tracker_with(&[(1, 3, 0), (2, 9, 0)]);
    tracker.next_turn();
    assert_eq!(tracker.get_current_combatant().entity, EntityId(1));
    let mut timer = PhaseTimer { elapsed_ms: 0 };

    end_turn(&mut tracker, false, true, &vec![finished(2), walk(1, vec![])], &mut timer, 700);
    assert_eq!((tracker.turn_state, tracker.current_combatant), (TurnState::DeclarePhase, 1));

    end_turn(&mut tracker, false, false, &vec![finished(2), finished(1)], &mut timer, 700);
    assert_eq!((tracker.turn_state, tracker.current_combatant), (TurnState::DeclarePhase, 0));

    end_turn(&mut tracker, false, false, &vec![finished(2), finished(1)], &mut timer, 700);
    assert_eq!((tracker.turn_state, tracker.current_combatant), (TurnState::ResolvePhase, 0));
    assert_eq!(timer.elapsed_ms, 0);
}

#[test]
fn timed_phases_step_once_per_full_delay() {
    let mut tracker = tracker_with(&[(1, 3, 0), (2, 9, 0), (3, 5, 0)]);
    tracker.next_turn();
    tracker.next_turn();
    tracker.next_turn();
    tracker.next_turn();
    assert_eq!((tracker.turn_state, tracker.current_combatant), (TurnState::ResolvePhase, 0));
    let mut timer = PhaseTimer { elapsed_ms: 0 };

    end_turn(&mut tracker, false, false, &vec![], &mut timer, 499);
    assert_eq!((tracker.turn_state, tracker.current_combatant), (TurnState::ResolvePhase, 0));
    assert_eq!(timer.elapsed_ms, 499);

    end_turn(&mut tracker, false, false, &vec![], &mut timer, 1);
    assert_eq!((tracker.turn_state, tracker.current_combatant), (TurnState::ResolvePhase, 1));
    assert_eq!(timer.elapsed_ms, 0);

    end_turn(&mut tracker, true, true, &vec![], &mut timer, 1234);
    assert_eq!((tracker.turn_state, tracker.current_combatant), (TurnState::StartOfRound, 2));
    assert_eq!(timer.elapsed_ms, 234);
}

#[test]
fn a_long_frame_catches_up_across_phases() {
    let mut tracker = tracker_with(&[(1, 3, 0), (2, 9, 0)]);
    let mut timer = PhaseTimer { elapsed_ms: 100 };
    end_turn(&mut tracker, false, false, &vec![], &mut timer, 1450);
    assert_eq!((tracker.turn_state, tracker.current_combatant), (TurnState::ResolvePhase, 0));
    assert_eq!(timer.elapsed_ms, 50);
    assert_eq!(tracker.combatants[0].entity, EntityId(2));
}

#[test]
fn pieces_are_found_by_entity() {
    let pieces = vec![piece(4, 0, 0), piece(5, 1, 1), piece(4, 2, 2)];
    assert_eq!(find_piece(&pieces, &EntityId(4)), Some(0));
    assert_eq!(find_piece(&pieces, &EntityId(5)), Some(1));
    assert_eq!(find_piece(&pieces, &EntityId(6)), None);
}

#[test]
fn the_ai_waits_for_its_delay_before_declaring() {
    let mut tracker = tracker_with(&[(1, 3, 0)]);
    tracker.next_turn();
    let grid = BattleGrid::new();
    let pieces = vec![piece(1, 2, 2)];
    let mut timer = PhaseTimer { elapsed_ms: 0 };
    let mut messages = Vec::new();

    declare_ai_action(&tracker, &grid, &pieces, &mut timer, 300, &mut messages);
    assert!(messages.is_empty());
    assert_eq!(timer.elapsed_ms, 300);

    declare_ai_action(&tracker, &grid, &pieces, &mut timer, 200, &mut messages);
    assert_eq!(timer.elapsed_ms, 0);
    assert_eq!(messages.len(), 2);
    assert_eq!(messages[0].source.entity, EntityId(1));
    match &messages[0].content {
        Declaration::Movement(plan) => {
            assert_eq!(plan.dirs.len(), 3);
            assert!(is_walk_legal(Coordinate { x: 2, y: 2 }, &grid, None, &plan.dirs));
        }
        Declaration::Finished(_) => panic!("the walk comes first"),
    }
    assert_eq!(messages[1].source.entity, EntityId(1));
    assert!(matches!(messages[1].content, Declaration::Finished(_)));
    assert!(is_declaration_finished(&messages, &EntityId(1)));
}

#[test]
fn a_combatant_without_a_piece_only_finishes() {
    let mut tracker = tracker_with(&[(1, 3, 0)]);
    tracker.next_turn();
    let grid = BattleGrid::new();
    let mut timer = PhaseTimer { elapsed_ms: 499 };
    let mut messages = vec![finished(8)];
    declare_ai_action(&tracker, &grid, &vec![piece(2, 0, 0)], &mut timer, 1, &mut messages);
    assert_eq!(timer.elapsed_ms, 0);
    assert_eq!(messages.len(), 2);
    assert_eq!(messages[0].source.entity, EntityId(8));
    assert_eq!(messages[1].source.entity, EntityId(1));
    assert!(matches!(messages[1].content, Declaration::Finished(_)));
}

#[test]
fn round_messages_are_all_cleared() {
    let mut messages = vec![finished(1), walk(2, vec![Direction::Left]), finished(2)];
    clear_round_messages(&mut messages);
    assert!(messages.is_empty());
}

#[test]
fn only_the_active_combatants_walk_is_resolved() {
    let mut tracker = tracker_with(&[(1, 3, 0), (2, 9, 0)]);
    for _ in 0..3 {
        tracker.next_turn();
    }
    assert_eq!(tracker.turn_state, TurnState::ResolvePhase);
    assert_eq!(tracker.get_current_combatant().entity, EntityId(2));

    let mut grid = BattleGrid::new();
    let mut pieces = vec![piece(1, 0, 0), piece(2, 4, 4)];
    for p in &pieces {
        update_tile_statuses(&p.coord, &p.status, &mut grid);
    }
    let plan = Move { dirs: vec![Direction::Right, Direction::Down] };

    let waiting = resolve_moves(
        &mut pieces,
        &mut grid,
        &tracker,
        &Source { entity: EntityId(1) },
        &plan,
    );
    assert!(!waiting);
    assert_eq!(pieces, vec![piece(1, 0, 0), piece(2, 4, 4)]);

    let unknown = resolve_moves(
        &mut pieces,
        &mut grid,
        &tracker,
        &Source { entity: EntityId(3) },
        &plan,
    );
    assert!(!unknown);

    let back = Move { dirs: vec![Direction::Left, Direction::Up, Direction::Up] };
    let resolved = resolve_moves(
        &mut pieces,
        &mut grid,
        &tracker,
        &Source { entity: EntityId(2) },
        &back,
    );
    assert!(resolved);
    assert_eq!(pieces, vec![piece(1, 0, 0), piece(2, 3, 2)]);
    assert_eq!(grid.get_status_at_coord(&Coordinate { x: 4, y: 4 }), TileStatus::Empty);
    assert_eq!(grid.get_status_at_coord(&Coordinate { x: 3, y: 2 }), TileStatus::Occupied);
    assert_eq!(grid.get_status_at_coord(&Coordinate { x: 0, y: 0 }), TileStatus::Occupied);
}

#[test]
fn a_blocked_walk_is_still_resolved() {
    let mut tracker = tracker_with(&[(1, 3, 0)]);
    tracker.next_turn();
    tracker.next_turn();
    let mut grid = BattleGrid::new();
    let mut pieces = vec![piece(1, 0, 0), piece(2, 1, 0)];
    for p in &pieces {
        update_tile_statuses(&p.coord, &p.status, &mut grid);
    }
    let plan = Move { dirs: vec![Direction::Right] };
    let resolved = resolve_moves(
        &mut pieces,
        &mut grid,
        &tracker,
        &Source { entity: EntityId(1) },
        &plan,
    );
    assert!(resolved);
    assert_eq!(pieces, vec![piece(1, 0, 0), piece(2, 1, 0)]);
    assert_eq!(grid.get_status_at_coord(&Coordinate { x: 0, y: 0 }), TileStatus::Occupied);
}

#[test]
fn occupancy_refresh_marks_each_piece() {
    let mut grid = BattleGrid::new();
    update_tile_statuses(&Coordinate { x: 1, y: 2 }, &TileStatus::Occupied, &mut grid);
    update_tile_statuses(&Coordinate { x: 3, y: 0 }, &TileStatus::Occupied, &mut grid);
    update_tile_statuses(&Coordinate { x: 1, y: 2 }, &TileStatus::Empty, &mut grid);
    assert_eq!(grid.get_status_at_coord(&Coordinate { x: 1, y: 2 }), TileStatus::Empty);
    assert_eq!(grid.get_status_at_coord(&Coordinate { x: 3, y: 0 }), TileStatus::Occupied);
}

#[test]
fn a_walk_of_an_unknown_source_needs_no_combatants() {
    let tracker = TurnTracker::new();
    let mut grid = BattleGrid::new();
    let mut pieces = vec![piece(1, 0, 0)];
    let plan = Move { dirs: vec![Direction::Right] };
    let resolved = resolve_moves(
        &mut pieces,
        &mut grid,
        &tracker,
        &Source { entity: EntityId(9) },
        &plan,
    );
    assert!(!resolved);
    assert_eq!(pieces, vec![piece(1, 0, 0)]);
}

#[test]
fn only_the_first_piece_of_an_entity_moves() {
    let mut tracker = tracker_with(&[(1, 3, 0)]);
    tracker.next_turn();
    tracker.next_turn();
    let mut grid = BattleGrid::new();
    let mut pieces = vec![piece(2, 4, 4), piece(1, 0, 0), piece(1, 2, 2)];
    for p in &pieces {
        update_tile_statuses(&p.coord, &p.status, &mut grid);
    }
    let plan = Move { dirs: vec![Direction::Down] };
    let resolved = resolve_moves(
        &mut pieces,
        &mut grid,
        &tracker,
        &Source { entity: EntityId(1) },
        &plan,
    );
    assert!(resolved);
    assert_eq!(pieces, vec![piece(2, 4, 4), piece(1, 0, 1), piece(1, 2, 2)]);
}
