use vstd::prelude::*;

verus! {

/// One of the four compass directions a combatant can step in.
#[derive(Clone, Copy, PartialEq, Eq, Structural, Debug)]
pub enum Direction {
    Up,
    Right,
    Down,
    Left,
}

impl Direction {
    /// The four directions in clockwise order, starting with `Up`.
    pub open spec fn all_spec() -> Seq<Direction> {
        seq![Direction::Up, Direction::Right, Direction::Down, Direction::Left]
    }

    /// The direction that undoes a step in this one.
    pub open spec fn reverse_spec(self) -> Direction {
        match self {
            Direction::Up => Direction::Down,
            Direction::Right => Direction::Left,
            Direction::Down => Direction::Up,
            Direction::Left => Direction::Right,
        }
    }

    /// Horizontal component of the unit step: `-1`, `0` or `1`.
    pub open spec fn dx(self) -> int {
        match self {
            Direction::Up => 0,
            Direction::Right => 1,
            Direction::Down => 0,
            Direction::Left => -1,
        }
    }

    /// Vertical component of the unit step; the y axis grows downwards.
    pub open spec fn dy(self) -> int {
        match self {
            Direction::Up => -1,
            Direction::Right => 0,
            Direction::Down => 1,
            Direction::Left => 0,
        }
    }

    /// The four directions, clockwise from `Up`.
    pub fn all() -> (dirs: [Direction; 4])
        ensures
            dirs@ == Self::all_spec(),
    {
        let dirs = [Direction::Up, Direction::Right, Direction::Down, Direction::Left];
        assert(dirs@ =~= Self::all_spec());
        dirs
    }

    /// The direction that undoes a step in this one.
    #[verifier::when_used_as_spec(reverse_spec)]
    pub fn reverse(self) -> (r: Direction)
        ensures
            r == self.reverse_spec(),
    {
        match self {
            Direction::Up => Direction::Down,
            Direction::Right => Direction::Left,
            Direction::Down => Direction::Up,
            Direction::Left => Direction::Right,
        }
    }
}

/// Reversing twice gives the direction back, and a direction never equals
/// its own reverse.
pub proof fn lemma_reverse_involution(d: Direction)
    ensures
        d.reverse_spec().reverse_spec() == d,
        d.reverse_spec() != d,
        d.reverse_spec().dx() == -d.dx(),
        d.reverse_spec().dy() == -d.dy(),
{
}

/// Every direction occurs in `Direction::all_spec()`.
pub proof fn lemma_all_is_complete(d: Direction)
    ensures
        Direction::all_spec().contains(d),
        Direction::all_spec().len() == 4,
        Direction::all_spec().no_duplicates(),
{
    let s = Direction::all_spec();
    match d {
        Direction::Up => assert(s[0] == d),
        Direction::Right => assert(s[1] == d),
        Direction::Down => assert(s[2] == d),
        Direction::Left => assert(s[3] == d),
    }
}

} // verus!
