use raid_night::components::EntityId;
use raid_night::turn_tracker::{Combatant, TurnState, TurnTracker};
use std::cmp::Ordering;

fn combatant(id: u64, init: i32, priority: i32) -> Combatant {
    Combatant { init, priority, entity: EntityId(id) }
}

fn tracker_with(rolls: &[(u64, i32, i32)]) -> TurnTracker {
    let mut tracker = TurnTracker::new();
    for (id, init, priority) in rolls {
        tracker.register_combatant(&EntityId(*id), *init, *priority);
    }
    tracker
}

fn entities(tracker: &TurnTracker) -> Vec<u64> {
    tracker.combatants.iter().map(|c| c.entity.0).collect()
}

#[test]
fn new_tracker_is_empty_at_start_of_round() {
    let tracker = TurnTracker::new();
    assert_eq!(tracker.turn_state, TurnState::StartOfRound);
    assert_eq!(tracker.current_combatant, 0);
    assert!(tracker.combatants.is_empty());
}

#[test]
fn compare_init_orders_by_initiative_then_priority() {
    let a = combatant(1, 7, 0);
    assert_eq!(a.compare_init(&combatant(2, 3, 100)), Ordering::Less);
    assert_eq!(a.compare_init(&combatant(2, 9, -5)), Ordering::Greater);
    assert_eq!(a.compare_init(&combatant(2, 7, -1)), Ordering::Less);
    assert_eq!(a.compare_init(&combatant(2, 7, 1)), Ordering::Greater);
    assert_eq!(a.compare_init(&combatant(2, 7, 0)), Ordering::Equal);
    assert!(a.precedes(&combatant(2, 6, 0)));
    assert!(!a.precedes(&combatant(2, 7, 0)));
    assert!(!a.precedes(&combatant(2, 8, 0)));
}

#[test]
fn registration_at_start_of_round_keeps_arrival_order() {
    let tracker = tracker_with(&[(1, 3, 0), (2, 9, 0), (3, 5, 0)]);
    assert_eq!(entities(&tracker), vec![1, 2, 3]);
    assert_eq!(tracker.current_combatant, 0);
    assert_eq!(tracker.turn_state, TurnState::StartOfRound);
}

#[test]
fn registration_overwrites_the_record_of_a_known_entity() {
    let mut tracker = tracker_with(&[(1, 3, 0), (2, 9, 0), (3, 5, 0)]);
    tracker.register_combatant(&EntityId(2), 1, 4);
    assert_eq!(
        tracker.combatants,
        vec![combatant(1, 3, 0), combatant(2, 1, 4), combatant(3, 5, 0)]
    );
}

#[test]
fn start_of_round_sorts_descending_and_points_at_the_last() {
    let mut tracker = tracker_with(&[(1, 3, 0), (2, 9, 0), (3, 5, 1), (4, 5, 7), (5, 10, 0)]);
    tracker.next_turn();
    assert_eq!(tracker.turn_state, TurnState::DeclarePhase);
    assert_eq!(entities(&tracker), vec![5, 2, 4, 3, 1]);
    assert_eq!(tracker.current_combatant, 4);
    assert_eq!(tracker.get_current_combatant(), combatant(1, 3, 0));
    for pair in tracker.combatants.windows(2) {
        assert!(pair[0].precedes(&pair[1]));
    }
}

#[test]
fn equal_ranks_keep_their_registration_order() {
    let mut tracker = tracker_with(&[(1, 5, 0), (2, 5, 0), (3, 8, 0), (4, 5, 0), (5, 8, 0)]);
    tracker.next_turn();
    assert_eq!(entities(&tracker), vec![3, 5, 1, 2, 4]);
}

#[test]
fn sorting_agrees_with_the_standard_stable_sort() {
    let mut seed: u64 = 0x2545_f491_4f6c_dd1d;
    for round in 0..50 {
        let mut tracker = TurnTracker::new();
        let count = 1 + (round % 9);
        for id in 0..count {
            seed ^= seed << 13;
            seed ^= seed >> 7;
            seed ^= seed << 17;
            let init = (seed % 5) as i32 - 2;
            let priority = ((seed >> 8) % 3) as i32;
            tracker.register_combatant(&EntityId(id), init, priority);
        }
        let mut expected = tracker.combatants.clone();
        expected.sort_by(|a, b| a.compare_init(b));
        tracker.next_turn();
        assert_eq!(tracker.combatants, expected);
    }
}

#[test]
fn a_round_takes_one_step_to_open_and_n_steps_per_phase() {
    for n in 1..6u64 {
        let rolls: Vec<(u64, i32, i32)> = (0..n).map(|id| (id, id as i32, 0)).collect();
        let mut tracker = tracker_with(&rolls);
        let last = (n - 1) as usize;

        tracker.next_turn();
        assert_eq!(tracker.turn_state, TurnState::DeclarePhase);
        assert_eq!(tracker.current_combatant, last);

        for k in 1..n as usize {
            tracker.next_turn();
            assert_eq!(tracker.turn_state, TurnState::DeclarePhase);
            assert_eq!(tracker.current_combatant, last - k);
        }
        tracker.next_turn();
        assert_eq!(tracker.turn_state, TurnState::ResolvePhase);
        assert_eq!(tracker.current_combatant, 0);

        for k in 1..n as usize {
            tracker.next_turn();
            assert_eq!(tracker.turn_state, TurnState::ResolvePhase);
            assert_eq!(tracker.current_combatant, k);
        }
        tracker.next_turn();
        assert_eq!(tracker.turn_state, TurnState::StartOfRound);
        assert_eq!(tracker.current_combatant, last);
    }
}

#[test]
fn cursor_stays_in_bounds_over_many_rounds() {
    let mut tracker = tracker_with(&[(1, 3, 0), (2, 9, 0), (3, 5, 0)]);
    for step in 0..100 {
        tracker.next_turn();
        assert!(tracker.current_combatant < tracker.combatants.len());
        if step % 7 == 0 {
            tracker.register_combatant(&EntityId(100 + step), step as i32 % 11, 0);
            assert!(tracker.current_combatant < tracker.combatants.len());
        }
    }
}

#[test]
fn a_lone_combatant_declares_and_resolves_in_one_step_each() {
    let mut tracker = tracker_with(&[(1, 3, 0)]);
    tracker.next_turn();
    assert_eq!((tracker.turn_state, tracker.current_combatant), (TurnState::DeclarePhase, 0));
    tracker.next_turn();
    assert_eq!((tracker.turn_state, tracker.current_combatant), (TurnState::ResolvePhase, 0));
    tracker.next_turn();
    assert_eq!((tracker.turn_state, tracker.current_combatant), (TurnState::StartOfRound, 0));
}

#[test]
fn registration_outside_start_of_round_resorts_at_once() {
    let mut tracker = tracker_with(&[(1, 3, 0), (2, 9, 0), (3, 5, 0)]);
    tracker.next_turn();
    assert_eq!(entities(&tracker), vec![2, 3, 1]);
    assert_eq!(tracker.get_current_combatant().entity, EntityId(1));

    tracker.register_combatant(&EntityId(4), 1, 0);
    assert_eq!(entities(&tracker), vec![2, 3, 1, 4]);
    assert_eq!(tracker.current_combatant, 2);

    tracker.register_combatant(&EntityId(1), 20, 0);
    assert_eq!(entities(&tracker), vec![1, 2, 3, 4]);
    assert_eq!(tracker.current_combatant, 2);
    assert_eq!(tracker.get_current_combatant().entity, EntityId(3));
}

#[test]
fn re_registration_in_the_next_round_reorders_the_list() {
    let mut tracker = tracker_with(&[(1, 3, 0), (2, 9, 0)]);
    for _ in 0..5 {
        tracker.next_turn();
    }
    assert_eq!(tracker.turn_state, TurnState::StartOfRound);
    assert_eq!(entities(&tracker), vec![2, 1]);
    tracker.register_combatant(&EntityId(1), 10, 0);
    tracker.register_combatant(&EntityId(2), 2, 0);
    assert_eq!(entities(&tracker), vec![2, 1]);
    tracker.next_turn();
    assert_eq!(entities(&tracker), vec![1, 2]);
    assert_eq!(tracker.combatants.len(), 2);
}
