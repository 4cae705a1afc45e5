use crate::battle_grid::BattleGrid;
use crate::coordinate::Coordinate;
use crate::direction::{Direction, lemma_all_is_complete};
use crate::movement::on_board;
use crate::random::choose_direction;
use vstd::prelude::*;

verus! {

/// The position one step in `dir` from `pos`.
pub open spec fn stepped(pos: Coordinate, dir: Direction) -> (int, int) {
    (pos.x + dir.dx(), pos.y + dir.dy())
}

/// The cell one step in `dir` from `pos`, where that position is a cell of
/// a board.
pub open spec fn moved(pos: Coordinate, dir: Direction) -> Coordinate {
    Coordinate { x: (pos.x + dir.dx()) as i32, y: (pos.y + dir.dy()) as i32 }
}

/// A walker at `pos` whose previous step was `last_dir` may step in `dir`:
/// the step does not undo the previous one, and it ends on the board.
/// Whether the cell it ends on is occupied plays no part.
pub open spec fn is_legal_step(
    grid: &BattleGrid,
    pos: Coordinate,
    last_dir: Option<Direction>,
    dir: Direction,
) -> bool {
    &&& last_dir matches Some(last) ==> last.reverse_spec() != dir
    &&& on_board(grid, stepped(pos, dir))
}

/// The legal steps at `pos` after `last_dir`, as a predicate on directions.
pub open spec fn legal_at(grid: &BattleGrid, pos: Coordinate, last_dir: Option<Direction>)
    -> spec_fn(Direction) -> bool {
    |dir: Direction| is_legal_step(grid, pos, last_dir, dir)
}

/// Every step of `walk`, taken from `pos` after `last_dir`, is legal where
/// it is taken.
pub open spec fn is_legal_walk(
    grid: &BattleGrid,
    pos: Coordinate,
    last_dir: Option<Direction>,
    walk: Seq<Direction>,
) -> bool
    decreases walk.len(),
{
    walk.len() == 0 || (is_legal_step(grid, pos, last_dir, walk[0]) && is_legal_walk(
        grid,
        moved(pos, walk[0]),
        Some(walk[0]),
        walk.skip(1),
    ))
}

/// Where `walk` ends, after starting from `pos` after `last_dir`, no step
/// is legal.
pub open spec fn ends_stuck(
    grid: &BattleGrid,
    pos: Coordinate,
    last_dir: Option<Direction>,
    walk: Seq<Direction>,
) -> bool
    decreases walk.len(),
{
    if walk.len() == 0 {
        forall|dir: Direction| !is_legal_step(grid, pos, last_dir, dir)
    } else {
        ends_stuck(grid, moved(pos, walk[0]), Some(walk[0]), walk.skip(1))
    }
}

/// Whether the position `(x, y)` is a cell of the board.
fn is_on_board(grid: &BattleGrid, x: i64, y: i64) -> (inside: bool)
    ensures
        inside == on_board(grid, (x as int, y as int)),
{
    0 <= x && x < grid.width as i64 && 0 <= y && y < grid.height as i64
}

/// Whether a walker at `pos` whose previous step was `last_dir` may step in
/// `dir`.
pub fn is_step_legal(
    grid: &BattleGrid,
    pos: Coordinate,
    last_dir: Option<Direction>,
    dir: Direction,
) -> (legal: bool)
    ensures
        legal == is_legal_step(grid, pos, last_dir, dir),
{
    let turns_back = match last_dir {
        Some(last) => last.reverse() == dir,
        None => false,
    };
    let unit = Coordinate::from(dir);
    !turns_back && is_on_board(grid, pos.x as i64 + unit.x as i64, pos.y as i64 + unit.y as i64)
}

/// The directions a walker at `pos` may step in after `last_dir`, in the
/// order of `Direction::all`.
pub fn legal_directions(pos: Coordinate, grid: &BattleGrid, last_dir: Option<Direction>) -> (dirs:
    Vec<Direction>)
    ensures
        dirs@ == Direction::all_spec().filter(legal_at(grid, pos, last_dir)),
        forall|dir: Direction| dirs@.contains(dir) <==> is_legal_step(grid, pos, last_dir, dir),
{
    let all_dirs = Direction::all();
    let ghost legal = legal_at(grid, pos, last_dir);
    let mut dirs: Vec<Direction> = Vec::new();
    let mut i: usize = 0;
    proof {
        assert(all_dirs@.take(0) =~= Seq::<Direction>::empty());
        assert(all_dirs@.take(0).filter(legal) =~= Seq::<Direction>::empty()) by {
            all_dirs@.take(0).lemma_filter_len(legal);
        }
    }
    while i < 4
        invariant
            i <= 4,
            all_dirs@ == Direction::all_spec(),
            legal == legal_at(grid, pos, last_dir),
            dirs@ == all_dirs@.take(i as int).filter(legal),
        decreases 4 - i,
    {
        let dir = all_dirs[i];
        proof {
            assert(all_dirs@.take(i + 1) =~= all_dirs@.take(i as int).push(dir));
            all_dirs@.take(i as int).lemma_filter_push(dir, legal);
        }
        if is_step_legal(grid, pos, last_dir, dir) {
            dirs.push(dir);
        }
        i += 1;
    }
    proof {
        assert(all_dirs@.take(4) =~= all_dirs@);
        let all = Direction::all_spec();
        assert forall|dir: Direction| dirs@.contains(dir) <==> is_legal_step(
            grid,
            pos,
            last_dir,
            dir,
        ) by {
            lemma_all_is_complete(dir);
            if dirs@.contains(dir) {
                let k = choose|k: int| 0 <= k < dirs@.len() && dirs@[k] == dir;
                all.lemma_filter_pred(legal, k);
            }
            if is_legal_step(grid, pos, last_dir, dir) {
                let k = choose|k: int| 0 <= k < all.len() && all[k] == dir;
                all.lemma_filter_contains(legal, k);
            }
        }
    }
    dirs
}

/// Whether every step of `walk`, taken from `pos` after `last_dir`, is
/// legal where it is taken.
pub fn is_walk_legal(
    pos: Coordinate,
    grid: &BattleGrid,
    last_dir: Option<Direction>,
    walk: &Vec<Direction>,
) -> (legal: bool)
    ensures
        legal == is_legal_walk(grid, pos, last_dir, walk@),
{
    let n = walk.len();
    let mut at = pos;
    let mut last = last_dir;
    let mut i: usize = 0;
    proof {
        assert(walk@.skip(0) =~= walk@);
    }
    while i < n
        invariant
            i <= n,
            n == walk@.len(),
            is_legal_walk(grid, pos, last_dir, walk@) == is_legal_walk(
                grid,
                at,
                last,
                walk@.skip(i as int),
            ),
        decreases n - i,
    {
        let dir = walk[i];
        proof {
            assert(walk@.skip(i as int)[0] == dir);
            assert(walk@.skip(i as int).skip(1) =~= walk@.skip(i + 1));
        }
        if !is_step_legal(grid, at, last, dir) {
            return false;
        }
        let unit = Coordinate::from(dir);
        at = Coordinate { x: at.x + unit.x, y: at.y + unit.y };
        last = Some(dir);
        i += 1;
    }
    true
}

/// Plans a walk for a combatant that decides for itself. Starting at `pos`
/// as step number `depth`, each step up to number `max_depth` goes in a
/// direction picked at random among the legal ones; the walk ends early
/// where no step is legal. The plan looks at the board's bounds only:
/// whether its cells are occupied is left to resolution.
pub fn generate_random_walk(
    pos: Coordinate,
    grid: &BattleGrid,
    depth: i32,
    max_depth: i32,
    last_dir: Option<Direction>,
) -> (walk: Vec<Direction>)
    requires
        depth <= max_depth,
    ensures
        is_legal_walk(grid, pos, last_dir, walk@),
        walk@.len() <= max_depth - depth + 1,
        walk@.len() < max_depth - depth + 1 ==> ends_stuck(grid, pos, last_dir, walk@),
    decreases max_depth - depth,
{
    let candidates = legal_directions(pos, grid, last_dir);
    match choose_direction(&candidates) {
        Some(chosen_dir) => {
            assert(is_legal_step(grid, pos, last_dir, chosen_dir));
            let mut this_step: Vec<Direction> = Vec::new();
            this_step.push(chosen_dir);
            if depth == max_depth {
                proof {
                    assert(this_step@[0] == chosen_dir);
                    assert(this_step@.skip(1) =~= Seq::<Direction>::empty());
                    assert(is_legal_walk(
                        grid,
                        moved(pos, chosen_dir),
                        Some(chosen_dir),
                        this_step@.skip(1),
                    ));
                }
                this_step
            } else {
                let unit = Coordinate::from(chosen_dir);
                let next = Coordinate { x: pos.x + unit.x, y: pos.y + unit.y };
                let mut other_steps = generate_random_walk(
                    next,
                    grid,
                    depth + 1,
                    max_depth,
                    Some(chosen_dir),
                );
                let ghost rest = other_steps@;
                this_step.append(&mut other_steps);
                proof {
                    assert(next == moved(pos, chosen_dir));
                    assert(this_step@[0] == chosen_dir);
                    assert(this_step@.skip(1) =~= rest);
                }
                this_step
            }
        },
        None => {
            proof {
                assert(candidates@.len() == 0);
                assert forall|dir: Direction| !is_legal_step(grid, pos, last_dir, dir) by {
                    if is_legal_step(grid, pos, last_dir, dir) {
                        assert(candidates@.contains(dir));
                    }
                }
            }
            Vec::new()
        },
    }
}

} // verus!
