use crate::battle_grid::{BattleGrid, TileStatus};
use crate::components::{
    ActionDeclarationFinished, Declaration, EntityId, Initiative, Message, Move, Piece, Round,
    Source,
};
use crate::coordinate::Coordinate;
use crate::game_state::GameState;
use crate::move_action::{ends_stuck, generate_random_walk, is_legal_walk};
use crate::movement::{resolve_move, resolves_to};
use crate::random::random_in_range;
use crate::turn_tracker::{
    Combatant, TrackerEvent, TurnState, TurnTracker, after_event, registered, step, steps,
};
use vstd::prelude::*;

verus! {

/// Milliseconds that a step takes where no player input is waited for.
pub const STEP_DELAY_MS: u64 = 500;

/// Lowest face of the initiative die.
pub const DIE_LOW: i32 = 1;

/// Highest face of the initiative die.
pub const DIE_HIGH: i32 = 10;

/// Number of the first step of a planned walk.
pub const WALK_FIRST_STEP: i32 = 1;

/// Number of the last step of a planned walk.
pub const WALK_LAST_STEP: i32 = 3;

/// Time that has passed since the last timed step, in milliseconds.
#[derive(Clone, Copy, PartialEq, Eq, Structural, Debug)]
pub struct PhaseTimer {
    pub elapsed_ms: u64,
}

/// One unit of work of a tick.
#[derive(Clone, Copy, PartialEq, Eq, Structural, Debug)]
pub enum System {
    ClearBg,
    DrawGrid,
    DrawTurnTracker,
    DrawGridPieces,
    DrawDeclaredMoves,
    RollInitiative,
    ClearRoundMessages,
    UpdateTileStatuses,
    DeclareAiAction,
    ResolveMoves,
    EndTurn,
}

/// One entry of a schedule: a system that runs on the main thread, a
/// system that may run anywhere, or the point at which records made and
/// removed so far take effect.
#[derive(Clone, Copy, PartialEq, Eq, Structural, Debug)]
pub enum Stage {
    ThreadLocal(System),
    Parallel(System),
    Flush,
}

/// The work of one tick, in the order in which it is done.
#[derive(Debug)]
pub struct Schedule {
    pub stages: Vec<Stage>,
}

/// The stages every tick starts with: the drawing systems.
pub open spec fn drawing_stages() -> Seq<Stage> {
    seq![
        Stage::ThreadLocal(System::ClearBg),
        Stage::ThreadLocal(System::DrawGrid),
        Stage::ThreadLocal(System::DrawTurnTracker),
        Stage::ThreadLocal(System::DrawGridPieces),
        Stage::ThreadLocal(System::DrawDeclaredMoves),
        Stage::Flush,
    ]
}

/// The stages every tick ends with: the step check, once the records of
/// the phase's own systems have taken effect.
pub open spec fn closing_stages() -> Seq<Stage> {
    seq![Stage::Flush, Stage::Parallel(System::EndTurn)]
}

/// The systems that are phase `state`'s own: rolling initiative and
/// dropping last round's declarations at the start of a round, declaring
/// in the declare phase, resolving in the resolve phase.
pub open spec fn phase_stages(state: TurnState) -> Seq<Stage> {
    match state {
        TurnState::StartOfRound => seq![
            Stage::Parallel(System::RollInitiative),
            Stage::Parallel(System::ClearRoundMessages),
        ],
        TurnState::DeclarePhase => seq![Stage::Parallel(System::DeclareAiAction)],
        TurnState::ResolvePhase => seq![Stage::Parallel(System::ResolveMoves)],
    }
}

/// The schedule of phase `state`: drawing, then bringing the board up to
/// date with the pieces, then the phase's own systems, then the step
/// check.
pub open spec fn schedule_of(state: TurnState) -> Seq<Stage> {
    drawing_stages() + seq![Stage::Parallel(System::UpdateTileStatuses)] + phase_stages(state)
        + closing_stages()
}

/// A schedule that so far holds what every phase begins with: drawing,
/// and bringing the board up to date.
fn begin_schedule() -> (stages: Vec<Stage>)
    ensures
        stages@ == drawing_stages() + seq![Stage::Parallel(System::UpdateTileStatuses)],
{
    let mut stages: Vec<Stage> = Vec::new();
    stages.push(Stage::ThreadLocal(System::ClearBg));
    stages.push(Stage::ThreadLocal(System::DrawGrid));
    stages.push(Stage::ThreadLocal(System::DrawTurnTracker));
    stages.push(Stage::ThreadLocal(System::DrawGridPieces));
    stages.push(Stage::ThreadLocal(System::DrawDeclaredMoves));
    stages.push(Stage::Flush);
    assert(stages@ =~= drawing_stages());
    stages.push(Stage::Parallel(System::UpdateTileStatuses));
    stages
}

/// The schedule of a tick at the start of a round.
pub fn build_start_of_round_schedule() -> (schedule: Schedule)
    ensures
        schedule.stages@ == schedule_of(TurnState::StartOfRound),
{
    let mut stages = begin_schedule();
    stages.push(Stage::Parallel(System::RollInitiative));
    stages.push(Stage::Parallel(System::ClearRoundMessages));
    stages.push(Stage::Flush);
    stages.push(Stage::Parallel(System::EndTurn));
    assert(stages@ =~= schedule_of(TurnState::StartOfRound));
    Schedule { stages }
}

/// The schedule of a tick of the declare phase.
pub fn build_declare_phase_schedule() -> (schedule: Schedule)
    ensures
        schedule.stages@ == schedule_of(TurnState::DeclarePhase),
{
    let mut stages = begin_schedule();
    stages.push(Stage::Parallel(System::DeclareAiAction));
    stages.push(Stage::Flush);
    stages.push(Stage::Parallel(System::EndTurn));
    assert(stages@ =~= schedule_of(TurnState::DeclarePhase));
    Schedule { stages }
}

/// The schedule of a tick of the resolve phase.
pub fn build_resolve_phase_schedule() -> (schedule: Schedule)
    ensures
        schedule.stages@ == schedule_of(TurnState::ResolvePhase),
{
    let mut stages = begin_schedule();
    stages.push(Stage::Parallel(System::ResolveMoves));
    stages.push(Stage::Flush);
    stages.push(Stage::Parallel(System::EndTurn));
    assert(stages@ =~= schedule_of(TurnState::ResolvePhase));
    Schedule { stages }
}

/// The one schedule that a tick runs, chosen by the phase the tracker is
/// in.
pub fn schedule_for(turn_state: TurnState) -> (schedule: Schedule)
    ensures
        schedule.stages@ == schedule_of(turn_state),
{
    match turn_state {
        TurnState::StartOfRound => build_start_of_round_schedule(),
        TurnState::DeclarePhase => build_declare_phase_schedule(),
        TurnState::ResolvePhase => build_resolve_phase_schedule(),
    }
}

/// Opens the encounter: the game is in combat, and the tracker is at the
/// start of a round.
pub fn begin_combat(gstate: &mut GameState, turn_tracker: &mut TurnTracker)
    ensures
        *final(gstate) == GameState::Combat,
        final(turn_tracker)@ == after_event(old(turn_tracker)@, TrackerEvent::Restarted),
        final(turn_tracker).turn_state == TurnState::StartOfRound,
        final(turn_tracker).current_combatant == old(turn_tracker).current_combatant,
        final(turn_tracker).combatants == old(turn_tracker).combatants,
        old(turn_tracker).wf() ==> final(turn_tracker).wf(),
{
    *gstate = GameState::Combat;
    turn_tracker.turn_state = TurnState::StartOfRound;
}

/// The record that `entity` gets for the die roll `roll`.
pub open spec fn rolled(entity: EntityId, init: Initiative, roll: int) -> Combatant {
    Combatant { init: (roll + init.init_mod) as i32, priority: init.priority, entity }
}

/// Registers `entity` with the initiative that the die roll `roll` gives
/// it: the roll plus the entity's modifier.
pub fn register_roll(
    entity: &EntityId,
    init: &Initiative,
    roll: i32,
    turn_tracker: &mut TurnTracker,
)
    requires
        old(turn_tracker).wf(),
        i32::MIN <= roll + init.init_mod <= i32::MAX,
    ensures
        final(turn_tracker).wf(),
        final(turn_tracker).turn_state == old(turn_tracker).turn_state,
        final(turn_tracker).current_combatant == old(turn_tracker).current_combatant,
        final(turn_tracker).combatants@ == registered(
            old(turn_tracker).turn_state,
            old(turn_tracker).combatants@,
            rolled(*entity, *init, roll as int),
        ),
{
    let init_roll = roll + init.init_mod;
    turn_tracker.register_combatant(entity, init_roll, init.priority);
}

/// Rolls the initiative die for `entity` and registers the result.
/// Whatever the die shows, the entity is registered with a face of the
/// die plus its modifier.
pub fn roll_initiative(entity: &EntityId, init: &Initiative, turn_tracker: &mut TurnTracker)
    requires
        old(turn_tracker).wf(),
        i32::MIN <= DIE_LOW + init.init_mod,
        DIE_HIGH + init.init_mod <= i32::MAX,
    ensures
        final(turn_tracker).wf(),
        final(turn_tracker).turn_state == old(turn_tracker).turn_state,
        final(turn_tracker).current_combatant == old(turn_tracker).current_combatant,
        exists|roll: int|
            DIE_LOW <= roll <= DIE_HIGH && final(turn_tracker).combatants@ == registered(
                old(turn_tracker).turn_state,
                old(turn_tracker).combatants@,
                #[trigger] rolled(*entity, *init, roll),
            ),
{
    let roll = random_in_range(DIE_LOW, DIE_HIGH);
    register_roll(entity, init, roll, turn_tracker);
    assert(turn_tracker.combatants@ == registered(
        old(turn_tracker).turn_state,
        old(turn_tracker).combatants@,
        rolled(*entity, *init, roll as int),
    ));
}

/// Some message of `messages` closes the declarations of `entity`.
pub open spec fn has_finished(messages: Seq<Message>, entity: EntityId) -> bool {
    exists|i: int| 0 <= i < messages.len() && #[trigger] messages[i].finishes(entity)
}

/// Whether some message of `messages` closes the declarations of `entity`.
pub fn is_declaration_finished(messages: &Vec<Message>, entity: &EntityId) -> (finished: bool)
    ensures
        finished == has_finished(messages@, *entity),
{
    let n = messages.len();
    let mut i: usize = 0;
    while i < n
        invariant
            i <= n,
            n == messages@.len(),
            forall|k: int| 0 <= k < i ==> !(#[trigger] messages@[k].finishes(*entity)),
        decreases n - i,
    {
        let closes = match &messages[i].content {
            Declaration::Finished(_) => true,
            Declaration::Movement(_) => false,
        };
        if closes && messages[i].source.entity == *entity {
            assert(messages@[i as int].finishes(*entity));
            return true;
        }
        i += 1;
    }
    false
}

/// The active combatant is done declaring: a player has confirmed, any
/// other combatant has closed its declarations.
pub open spec fn declaration_complete(
    active: EntityId,
    active_is_player: bool,
    confirm_pressed: bool,
    messages: Seq<Message>,
) -> bool {
    if active_is_player {
        confirm_pressed
    } else {
        has_finished(messages, active)
    }
}

/// The step check that ends every tick. In the declare phase the tracker
/// takes one step once the active combatant is done declaring, and none
/// before. In the other phases the frame's time is added to the timer, and
/// the tracker takes one step for every full delay that the timer then
/// holds; what is left of a delay stays on the timer.
pub fn end_turn(
    turn_tracker: &mut TurnTracker,
    active_is_player: bool,
    confirm_pressed: bool,
    messages: &Vec<Message>,
    timer: &mut PhaseTimer,
    frame_ms: u64,
)
    requires
        old(turn_tracker).wf(),
        old(turn_tracker).combatants@.len() > 0,
        old(timer).elapsed_ms + frame_ms <= u64::MAX,
    ensures
        final(turn_tracker).wf(),
        final(turn_tracker).combatants@.len() == old(turn_tracker).combatants@.len(),
        old(turn_tracker).turn_state == TurnState::DeclarePhase ==> ({
            &&& *final(timer) == *old(timer)
            &&& final(turn_tracker)@ == if declaration_complete(
                old(turn_tracker).combatants@[old(turn_tracker).current_combatant as int].entity,
                active_is_player,
                confirm_pressed,
                messages@,
            ) {
                step(old(turn_tracker)@)
            } else {
                old(turn_tracker)@
            }
        }),
        old(turn_tracker).turn_state != TurnState::DeclarePhase ==> ({
            &&& final(timer).elapsed_ms == (old(timer).elapsed_ms + frame_ms) % (
            STEP_DELAY_MS as int)
            &&& final(turn_tracker)@ == steps(
                old(turn_tracker)@,
                ((old(timer).elapsed_ms + frame_ms) / (STEP_DELAY_MS as int)) as nat,
            )
        }),
{
    let active = turn_tracker.get_current_combatant().entity;
    match turn_tracker.turn_state {
        TurnState::DeclarePhase => {
            if active_is_player {
                if confirm_pressed {
                    turn_tracker.next_turn();
                }
            } else {
                if is_declaration_finished(messages, &active) {
                    turn_tracker.next_turn();
                }
            }
        },
        _ => {
            timer.elapsed_ms = timer.elapsed_ms + frame_ms;
            let ghost total = timer.elapsed_ms as int;
            let ghost taken: nat = 0;
            while timer.elapsed_ms >= STEP_DELAY_MS
                invariant
                    turn_tracker.wf(),
                    turn_tracker.combatants@.len() == old(turn_tracker).combatants@.len(),
                    turn_tracker.combatants@.len() > 0,
                    turn_tracker@ == steps(old(turn_tracker)@, taken),
                    total == timer.elapsed_ms + taken * STEP_DELAY_MS,
                decreases timer.elapsed_ms,
            {
                timer.elapsed_ms = timer.elapsed_ms - STEP_DELAY_MS;
                turn_tracker.next_turn();
                proof {
                    taken = taken + 1;
                }
            }
            proof {
                vstd::arithmetic::div_mod::lemma_fundamental_div_mod_converse(
                    total,
                    STEP_DELAY_MS as int,
                    taken as int,
                    timer.elapsed_ms as int,
                );
            }
        },
    }
}

/// `i` is the position of the first piece of `pieces` that belongs to
/// `entity`.
pub open spec fn is_first_piece(pieces: Seq<Piece>, entity: EntityId, i: int) -> bool {
    &&& 0 <= i < pieces.len()
    &&& pieces[i].entity == entity
    &&& forall|k: int| 0 <= k < i ==> #[trigger] pieces[k].entity != entity
}

/// Some piece of `pieces` belongs to `entity`.
pub open spec fn has_piece(pieces: Seq<Piece>, entity: EntityId) -> bool {
    exists|i: int| 0 <= i < pieces.len() && #[trigger] pieces[i].entity == entity
}

/// `entity` is the combatant whose turn it is.
pub open spec fn is_active(turn_tracker: &TurnTracker, entity: EntityId) -> bool {
    &&& turn_tracker.current_combatant < turn_tracker.combatants@.len()
    &&& turn_tracker.combatants@[turn_tracker.current_combatant as int].entity == entity
}

/// Every piece stands on a cell of the board.
pub open spec fn pieces_on_board(grid: &BattleGrid, pieces: Seq<Piece>) -> bool {
    forall|i: int| 0 <= i < pieces.len() ==> grid.in_bounds(#[trigger] pieces[i].coord)
}

/// The position of the first piece that belongs to `entity`, if it has
/// one.
pub fn find_piece(pieces: &Vec<Piece>, entity: &EntityId) -> (found: Option<usize>)
    ensures
        found is Some <==> has_piece(pieces@, *entity),
        found matches Some(i) ==> is_first_piece(pieces@, *entity, i as int),
{
    let n = pieces.len();
    let mut i: usize = 0;
    while i < n
        invariant
            i <= n,
            n == pieces@.len(),
            forall|k: int| 0 <= k < i ==> #[trigger] pieces@[k].entity != *entity,
        decreases n - i,
    {
        if pieces[i].entity == *entity {
            return Some(i);
        }
        i += 1;
    }
    None
}

/// A message by which `entity` declares a walk from `pos` that the board
/// allows: at most as many steps as a planned walk has, each legal where it
/// is taken, and fewer only where the walk got stuck.
pub open spec fn is_walk_message(
    message: Message,
    entity: EntityId,
    grid: &BattleGrid,
    pos: Coordinate,
) -> bool {
    &&& message.source.entity == entity
    &&& message.content matches Declaration::Movement(plan) && {
        &&& is_legal_walk(grid, pos, None, plan.dirs@)
        &&& plan.dirs@.len() <= WALK_LAST_STEP - WALK_FIRST_STEP + 1
        &&& plan.dirs@.len() < WALK_LAST_STEP - WALK_FIRST_STEP + 1 ==> ends_stuck(
            grid,
            pos,
            None,
            plan.dirs@,
        )
    }
}

/// Lets the active combatant decide for itself. The frame's time is added
/// to the timer; once the timer holds a full delay it is set back to zero
/// and the combatant declares: a random walk from its cell, where it has a
/// piece on the board, and then the end of its declarations.
pub fn declare_ai_action(
    turn_tracker: &TurnTracker,
    grid: &BattleGrid,
    pieces: &Vec<Piece>,
    timer: &mut PhaseTimer,
    frame_ms: u64,
    messages: &mut Vec<Message>,
)
    requires
        turn_tracker.current_combatant < turn_tracker.combatants@.len(),
        old(timer).elapsed_ms + frame_ms <= u64::MAX,
    ensures
        ({
            let active = turn_tracker.combatants@[turn_tracker.current_combatant as int].entity;
            let total = old(timer).elapsed_ms + frame_ms;
            let before = old(messages)@.len() as int;
            &&& total < STEP_DELAY_MS ==> final(timer).elapsed_ms == total && final(messages)@
                == old(messages)@
            &&& total >= STEP_DELAY_MS ==> final(timer).elapsed_ms == 0
            &&& total >= STEP_DELAY_MS && !has_piece(pieces@, active) ==> {
                &&& final(messages)@.len() == before + 1
                &&& final(messages)@.take(before) == old(messages)@
                &&& final(messages)@[before].finishes(active)
            }
            &&& total >= STEP_DELAY_MS && has_piece(pieces@, active) ==> {
                &&& final(messages)@.len() == before + 2
                &&& final(messages)@.take(before) == old(messages)@
                &&& exists|i: int|
                    is_first_piece(pieces@, active, i) && is_walk_message(
                        final(messages)@[before],
                        active,
                        grid,
                        #[trigger] pieces@[i].coord,
                    )
                &&& final(messages)@[before + 1].finishes(active)
            }
        }),
{
    let active = turn_tracker.get_current_combatant().entity;
    let ghost before = messages@;
    timer.elapsed_ms = timer.elapsed_ms + frame_ms;
    if timer.elapsed_ms >= STEP_DELAY_MS {
        timer.elapsed_ms = 0;
        match find_piece(pieces, &active) {
            Some(i) => {
                let pos = pieces[i].coord;
                let rand_walk = generate_random_walk(
                    pos,
                    grid,
                    WALK_FIRST_STEP,
                    WALK_LAST_STEP,
                    None,
                );
                messages.push(
                    Message {
                        source: Source { entity: active },
                        content: Declaration::Movement(Move { dirs: rand_walk }),
                        scope: Round,
                    },
                );
                assert(is_walk_message(
                    messages@[before.len() as int],
                    active,
                    grid,
                    pieces@[i as int].coord,
                ));
            },
            None => {},
        }
        let ghost declared = messages@;
        messages.push(
            Message {
                source: Source { entity: active },
                content: Declaration::Finished(ActionDeclarationFinished),
                scope: Round,
            },
        );
        proof {
            assert(messages@.take(before.len() as int) =~= before);
            if has_piece(pieces@, active) {
                assert(messages@[before.len() as int] == declared[before.len() as int]);
            }
        }
    }
}

/// Ends the round for the declarations: every message is scoped to the
/// round it was made in, so none is kept.
pub fn clear_round_messages(messages: &mut Vec<Message>)
    ensures
        final(messages)@ == Seq::<Message>::empty(),
{
    messages.clear();
}

/// Resolves the walk `mv` that `src` declared. The walk is resolved only
/// while `src` has a piece on the board and is the active combatant; its
/// first piece is then moved as `resolve_move` says. Returns whether the
/// walk was resolved, after which its message is of no further use.
pub fn resolve_moves(
    pieces: &mut Vec<Piece>,
    grid: &mut BattleGrid,
    turn_tracker: &TurnTracker,
    src: &Source,
    mv: &Move,
) -> (resolved: bool)
    requires
        old(grid).wf(),
        has_piece(old(pieces)@, src.entity) ==> turn_tracker.current_combatant
            < turn_tracker.combatants@.len(),
        forall|i: int|
            is_first_piece(old(pieces)@, src.entity, i) && is_active(turn_tracker, src.entity)
                ==> old(grid).in_bounds(#[trigger] old(pieces)@[i].coord),
    ensures
        resolved == (has_piece(old(pieces)@, src.entity) && is_active(turn_tracker, src.entity)),
        final(grid).wf(),
        final(grid).same_shape(old(grid)),
        final(pieces)@.len() == old(pieces)@.len(),
        pieces_on_board(old(grid), old(pieces)@) ==> pieces_on_board(final(grid), final(pieces)@),
        !resolved ==> final(pieces)@ == old(pieces)@ && final(grid).tile_statuses@ == old(grid).tile_statuses@,
        resolved ==> (exists|i: int, taken: int|
            {
                &&& is_first_piece(old(pieces)@, src.entity, i)
                &&& final(pieces)@ == old(pieces)@.update(i, final(pieces)@[i])
                &&& #[trigger] resolves_to(
                    old(grid),
                    old(pieces)@[i],
                    mv.dirs@,
                    taken,
                    final(grid),
                    final(pieces)@[i],
                )
            }),
{
    match find_piece(pieces, &src.entity) {
        Some(i) => {
            if turn_tracker.get_current_combatant().entity != src.entity {
                return false;
            }
            let mut piece = pieces[i];
            let taken = resolve_move(grid, &mut piece, &mv.dirs);
            pieces.set(i, piece);
            proof {
                assert(pieces@ =~= old(pieces)@.update(i as int, pieces@[i as int]));
                assert(resolves_to(
                    old(grid),
                    old(pieces)@[i as int],
                    mv.dirs@,
                    taken as int,
                    grid,
                    pieces@[i as int],
                ));
            }
            true
        },
        None => false,
    }
}

/// Brings the board up to date with one piece: its cell takes its status.
pub fn update_tile_statuses(coord: &Coordinate, t_status: &TileStatus, grid: &mut BattleGrid)
    requires
        old(grid).wf(),
        old(grid).in_bounds(*coord),
    ensures
        final(grid).wf(),
        final(grid).same_shape(old(grid)),
        final(grid).tile_statuses@ == old(grid).tile_statuses@.update(
            old(grid).index_of(*coord),
            *t_status,
        ),
        final(grid).status(*coord) == *t_status,
        forall|other: Coordinate|
            old(grid).in_bounds(other) && other != *coord ==> #[trigger] final(grid).status(other)
                == old(grid).status(other),
{
    grid.set_status_at_coord(coord, *t_status);
}

} // verus!
