use crate::battle_grid::{BattleGrid, TileStatus, lemma_index_in_range};
use crate::components::Piece;
use crate::coordinate::Coordinate;
use crate::direction::Direction;
use vstd::prelude::*;

verus! {

/// Sum of the unit steps of `dirs`.
pub open spec fn displacement(dirs: Seq<Direction>) -> (int, int)
    decreases dirs.len(),
{
    if dirs.len() == 0 {
        (0, 0)
    } else {
        let before = displacement(dirs.drop_last());
        (before.0 + dirs.last().dx(), before.1 + dirs.last().dy())
    }
}

/// The position reached from `start` by taking every step of `dirs`.
pub open spec fn end_of(start: Coordinate, dirs: Seq<Direction>) -> (int, int) {
    (start.x + displacement(dirs).0, start.y + displacement(dirs).1)
}

/// The position `p` is a cell of the board.
pub open spec fn on_board(grid: &BattleGrid, p: (int, int)) -> bool {
    0 <= p.0 < grid.width && 0 <= p.1 < grid.height
}

/// The position `p` is a cell of the board that is recorded as empty.
pub open spec fn free_at(grid: &BattleGrid, p: (int, int)) -> bool {
    on_board(grid, p) && grid.tile_statuses@[p.0 + p.1 * grid.width] == TileStatus::Empty
}

/// `taken` is the number of steps that resolution takes of the plan
/// `dirs`: the length of the longest prefix, of at least one step, that
/// ends on a free cell of the board, and zero where no such prefix exists.
/// Cells passed on the way are not looked at.
pub open spec fn is_resolved_length(
    grid: &BattleGrid,
    start: Coordinate,
    dirs: Seq<Direction>,
    taken: int,
) -> bool {
    &&& 0 <= taken <= dirs.len()
    &&& taken > 0 ==> free_at(grid, end_of(start, dirs.take(taken)))
    &&& forall|m: int| taken < m <= dirs.len() ==> !free_at(grid, end_of(start, #[trigger] dirs.take(m)))
}

/// The occupancy map after a piece of status `status` has left `origin`
/// for `target`.
pub open spec fn after_move(
    grid: &BattleGrid,
    origin: Coordinate,
    target: Coordinate,
    status: TileStatus,
) -> Seq<TileStatus> {
    grid.tile_statuses@.update(grid.index_of(origin), TileStatus::Empty).update(
        grid.index_of(target),
        status,
    )
}

/// Resolving the plan `dirs` for the piece `before` on the board
/// `grid_before` takes `taken` steps and leaves the piece `after` on the
/// board `grid_after`: the piece stands at the end of the steps taken, and
/// where it took any, its old cell is recorded as empty and its new cell
/// has taken its status.
pub open spec fn resolves_to(
    grid_before: &BattleGrid,
    before: Piece,
    dirs: Seq<Direction>,
    taken: int,
    grid_after: &BattleGrid,
    after: Piece,
) -> bool {
    &&& is_resolved_length(grid_before, before.coord, dirs, taken)
    &&& after.entity == before.entity
    &&& after.status == before.status
    &&& (after.coord.x as int, after.coord.y as int) == end_of(before.coord, dirs.take(taken))
    &&& grid_after.same_shape(grid_before)
    &&& grid_after.tile_statuses@ == if taken > 0 {
        after_move(grid_before, before.coord, after.coord, before.status)
    } else {
        grid_before.tile_statuses@
    }
}

/// Resolves the plan `dirs` for `piece` against the board. The piece goes
/// to the end of the longest prefix of the plan, of at least one step, that
/// ends on a free cell; its old cell is recorded as empty and its new cell
/// takes the piece's status. Where no such prefix exists, nothing changes.
/// Returns the number of steps taken.
pub fn resolve_move(grid: &mut BattleGrid, piece: &mut Piece, dirs: &Vec<Direction>) -> (taken:
    usize)
    requires
        old(grid).wf(),
        old(grid).in_bounds(old(piece).coord),
    ensures
        resolves_to(old(grid), *old(piece), dirs@, taken as int, final(grid), *final(piece)),
        final(grid).wf(),
        final(grid).in_bounds(final(piece).coord),
        taken == 0 ==> *final(piece) == *old(piece),
        taken > 0 ==> final(grid).status(final(piece).coord) == old(piece).status,
        taken > 0 && final(piece).coord != old(piece).coord ==> final(grid).status(
            old(piece).coord,
        ) == TileStatus::Empty,
        taken > 0 && old(grid).status(old(piece).coord) == TileStatus::Occupied ==> final(piece).coord != old(piece).coord,
        forall|other: Coordinate|
            old(grid).in_bounds(other) && other != old(piece).coord && other != final(piece).coord
                ==> #[trigger] final(grid).status(other) == old(grid).status(other),
{
    let start = piece.coord;
    let n = dirs.len();
    let mut x: i128 = start.x as i128;
    let mut y: i128 = start.y as i128;
    let mut i: usize = 0;
    proof {
        assert(dirs@.take(0) =~= Seq::<Direction>::empty());
    }
    while i < n
        invariant
            i <= n,
            n == dirs@.len(),
            (x as int, y as int) == end_of(start, dirs@.take(i as int)),
            start.x - i <= x <= start.x + i,
            start.y - i <= y <= start.y + i,
        decreases n - i,
    {
        proof {
            assert(dirs@.take(i + 1).drop_last() =~= dirs@.take(i as int));
        }
        let (dx, dy) = unit_step(dirs[i]);
        x = x + dx;
        y = y + dy;
        i += 1;
    }
    let mut k: usize = n;
    let mut found = false;
    while k > 0 && !found
        invariant
            k <= n,
            n == dirs@.len(),
            grid.wf(),
            (x as int, y as int) == end_of(start, dirs@.take(k as int)),
            found ==> k > 0 && free_at(grid, (x as int, y as int)),
            forall|m: int| k < m <= n ==> !free_at(grid, end_of(start, #[trigger] dirs@.take(m))),
        decreases (k as int) + (if found { 0int } else { 1int }),
    {
        if is_free_at(grid, x, y) {
            found = true;
        } else {
            proof {
                assert(dirs@.take(k as int).drop_last() =~= dirs@.take(k - 1));
                lemma_displacement_bound(dirs@.take(k as int));
            }
            let (dx, dy) = unit_step(dirs[k - 1]);
            x = x - dx;
            y = y - dy;
            k -= 1;
        }
    }
    if found {
        let target = Coordinate { x: x as i32, y: y as i32 };
        proof {
            lemma_index_in_range(grid, start);
            lemma_index_in_range(grid, target);
            if grid.status(start) == TileStatus::Occupied {
                assert(target != start);
            }
        }
        let ghost before = *grid;
        grid.set_status_at_coord(&start, TileStatus::Empty);
        let ghost between = *grid;
        piece.coord = target;
        grid.set_status_at_coord(&target, piece.status);
        proof {
            assert forall|other: Coordinate|
                before.in_bounds(other) && other != start && other != target implies #[trigger] grid.status(
                other,
            ) == before.status(other) by {
                assert(between.in_bounds(other));
                assert(between.status(other) == before.status(other));
            }
            if target != start {
                assert(between.in_bounds(start));
                assert(grid.status(start) == between.status(start));
            }
        }
        k
    } else {
        proof {
            assert(dirs@.take(0) =~= Seq::<Direction>::empty());
        }
        0
    }
}

/// The unit step of `dir` as a pair of offsets.
fn unit_step(dir: Direction) -> (step: (i128, i128))
    ensures
        step.0 == dir.dx(),
        step.1 == dir.dy(),
{
    let unit = Coordinate::from(dir);
    (unit.x as i128, unit.y as i128)
}

/// Whether the position `(x, y)` is a free cell of the board.
fn is_free_at(grid: &BattleGrid, x: i128, y: i128) -> (free: bool)
    requires
        grid.wf(),
    ensures
        free == free_at(grid, (x as int, y as int)),
{
    if 0 <= x && x < grid.width as i128 && 0 <= y && y < grid.height as i128 {
        let cell = Coordinate { x: x as i32, y: y as i32 };
        grid.is_cell_in_bounds(cell) && grid.get_status_at_coord(&cell) == TileStatus::Empty
    } else {
        false
    }
}

/// A walk of `n` steps ends no further than `n` from where it began, on
/// either axis.
pub proof fn lemma_displacement_bound(dirs: Seq<Direction>)
    ensures
        -dirs.len() <= displacement(dirs).0 <= dirs.len(),
        -dirs.len() <= displacement(dirs).1 <= dirs.len(),
    decreases dirs.len(),
{
    if dirs.len() > 0 {
        lemma_displacement_bound(dirs.drop_last());
    }
}

/// The number of steps that resolution takes is determined by the board,
/// the start and the plan.
pub proof fn lemma_resolved_length_unique(
    grid: &BattleGrid,
    start: Coordinate,
    dirs: Seq<Direction>,
    a: int,
    b: int,
)
    requires
        is_resolved_length(grid, start, dirs, a),
        is_resolved_length(grid, start, dirs, b),
    ensures
        a == b,
{
    if a < b {
        assert(!free_at(grid, end_of(start, dirs.take(b))));
    } else if b < a {
        assert(!free_at(grid, end_of(start, dirs.take(a))));
    }
}

/// An empty plan resolves to no movement.
pub proof fn lemma_empty_plan_stays(grid: &BattleGrid, start: Coordinate)
    ensures
        is_resolved_length(grid, start, Seq::<Direction>::empty(), 0),
{
}

/// On a board without occupied cells, resolution takes the plan up to the
/// last step that ends on the board.
pub proof fn lemma_resolution_on_empty_board(
    grid: &BattleGrid,
    start: Coordinate,
    dirs: Seq<Direction>,
    taken: int,
)
    requires
        grid.wf(),
        forall|i: int| 0 <= i < grid.tile_statuses@.len() ==> grid.tile_statuses@[i] == TileStatus::Empty,
        0 <= taken <= dirs.len(),
        taken > 0 ==> on_board(grid, end_of(start, dirs.take(taken))),
        forall|m: int| taken < m <= dirs.len() ==> !on_board(grid, end_of(start, #[trigger] dirs.take(m))),
    ensures
        is_resolved_length(grid, start, dirs, taken),
{
    if taken > 0 {
        let p = end_of(start, dirs.take(taken));
        let cell = Coordinate { x: p.0 as i32, y: p.1 as i32 };
        lemma_index_in_range(grid, cell);
    }
}

} // verus!
