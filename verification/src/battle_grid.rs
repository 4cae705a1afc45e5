use crate::coordinate::Coordinate;
use vstd::prelude::*;
use vstd::string::*;

verus! {

/// Whether a cell currently hosts a combatant.
#[derive(Clone, Copy, PartialEq, Eq, Structural, Debug)]
pub enum TileStatus {
    Empty,
    Occupied,
}

/// A position on screen, in whole pixels.
#[derive(Clone, Copy, PartialEq, Eq, Structural, Debug)]
pub struct ScreenPoint {
    pub x: i32,
    pub y: i32,
}

/// A `width` by `height` board. Each cell is a square of `grid_size` pixels;
/// neighbouring cells are separated by a border of `line_width` pixels that
/// belongs to no cell. Occupancy is stored row by row.
pub struct BattleGrid {
    pub screen_pos: ScreenPoint,
    pub width: i32,
    pub height: i32,
    pub grid_size: i32,
    pub line_width: i32,
    pub tile_statuses: Vec<TileStatus>,
}

/// The word that a listing shows for `status`.
pub open spec fn status_name(status: TileStatus) -> Seq<char> {
    match status {
        TileStatus::Empty => "Empty"@,
        TileStatus::Occupied => "Occupied"@,
    }
}

/// What a listing shows behind entry number `idx` of a board `width` cells
/// wide: a line break behind every entry but the first whose number is a
/// multiple of the width, a comma elsewhere.
pub open spec fn separator_after(idx: int, width: int) -> Seq<char> {
    if idx > 0 && idx % width == 0 {
        "\n"@
    } else {
        ", "@
    }
}

/// The listing of the entries `tiles` of a board `width` cells wide: each
/// entry's word and what is shown behind it, in order.
pub open spec fn listing(tiles: Seq<TileStatus>, width: int) -> Seq<char>
    decreases tiles.len(),
{
    if tiles.len() == 0 {
        Seq::empty()
    } else {
        listing(tiles.drop_last(), width) + status_name(tiles.last()) + separator_after(
            tiles.len() - 1,
            width,
        )
    }
}

impl BattleGrid {
    /// The occupancy map has exactly one entry per cell.
    pub open spec fn wf(&self) -> bool {
        &&& 0 <= self.width
        &&& 0 <= self.height
        &&& self.tile_statuses@.len() == self.width * self.height
    }

    /// Cells have a positive size, borders are not negative, and the board's
    /// bounding rectangle lies within the range of pixel positions.
    pub open spec fn layout_wf(&self) -> bool {
        &&& 0 <= self.width
        &&& 0 <= self.height
        &&& 0 < self.grid_size
        &&& 0 <= self.line_width
        &&& self.screen_pos.x + self.width * self.pitch() <= i32::MAX
        &&& self.screen_pos.y + self.height * self.pitch() <= i32::MAX
    }

    /// Distance in pixels from one cell's left edge to the next cell's.
    pub open spec fn pitch(&self) -> int {
        self.grid_size + self.line_width
    }

    /// `coord` is a cell of the board.
    pub open spec fn in_bounds(&self, coord: Coordinate) -> bool {
        0 <= coord.x < self.width && 0 <= coord.y < self.height
    }

    /// Position of `coord`'s entry in the row-major occupancy map.
    pub open spec fn index_of(&self, coord: Coordinate) -> int {
        coord.x + coord.y * self.width
    }

    /// The status recorded for `coord`.
    pub open spec fn status(&self, coord: Coordinate) -> TileStatus
        recommends
            self.wf(),
            self.in_bounds(coord),
    {
        self.tile_statuses@[self.index_of(coord)]
    }

    /// Same board and layout as `other`; only the occupancy may differ.
    pub open spec fn same_shape(&self, other: &BattleGrid) -> bool {
        &&& self.screen_pos == other.screen_pos
        &&& self.width == other.width
        &&& self.height == other.height
        &&& self.grid_size == other.grid_size
        &&& self.line_width == other.line_width
    }

    /// Top-left pixel of the cell in column `x`, row `y`.
    pub open spec fn cell_tl(&self, x: int, y: int) -> (int, int) {
        (self.screen_pos.x + x * self.pitch(), self.screen_pos.y + y * self.pitch())
    }

    /// The cell whose square contains `p`, if there is one: `p` must lie at
    /// or below and right of the board's origin, fall into a column and row
    /// that exist, and be no further than `grid_size` from that cell's
    /// top-left pixel on either axis.
    pub open spec fn cell_at(&self, p: ScreenPoint) -> Option<Coordinate> {
        let off_x = p.x - self.screen_pos.x;
        let off_y = p.y - self.screen_pos.y;
        let col = off_x / self.pitch();
        let row = off_y / self.pitch();
        if off_x >= 0 && off_y >= 0 && col < self.width && row < self.height
            && off_x - col * self.pitch() <= self.grid_size
            && off_y - row * self.pitch() <= self.grid_size {
            Some(Coordinate { x: col as i32, y: row as i32 })
        } else {
            None
        }
    }

    /// A five by five board of empty cells.
    pub fn new() -> (grid: BattleGrid)
        ensures
            grid.wf(),
            grid.layout_wf(),
            grid.width == 5,
            grid.height == 5,
            grid.screen_pos == (ScreenPoint { x: 100, y: 100 }),
            grid.grid_size == 96,
            grid.line_width == 4,
            grid.tile_statuses@ == Seq::new(25, |i: int| TileStatus::Empty),
            forall|cell: Coordinate|
                grid.in_bounds(cell) ==> #[trigger] grid.status(cell) == TileStatus::Empty,
    {
        let mut t_statuses: Vec<TileStatus> = Vec::new();
        let mut i: usize = 0;
        while i < 25
            invariant
                i <= 25,
                t_statuses@ == Seq::new(i as nat, |k: int| TileStatus::Empty),
            decreases 25 - i,
        {
            t_statuses.push(TileStatus::Empty);
            i += 1;
            assert(t_statuses@ =~= Seq::new(i as nat, |k: int| TileStatus::Empty));
        }
        let grid = BattleGrid {
            screen_pos: ScreenPoint { x: 100, y: 100 },
            width: 5,
            height: 5,
            grid_size: 96,
            line_width: 4,
            tile_statuses: t_statuses,
        };
        proof {
            assert forall|cell: Coordinate| grid.in_bounds(cell) implies #[trigger] grid.status(
                cell,
            ) == TileStatus::Empty by {
                lemma_index_in_range(&grid, cell);
            }
        }
        grid
    }

    /// The occupancy map as text: the listing of its entries, closed by a
    /// line break.
    pub fn pretty_statuses(&self) -> (text: String)
        requires
            self.wf(),
        ensures
            text@ == listing(self.tile_statuses@, self.width as int) + "\n"@,
    {
        let n = self.tile_statuses.len();
        let mut text = String::new();
        let mut idx: usize = 0;
        proof {
            assert(self.tile_statuses@.take(0) =~= Seq::<TileStatus>::empty());
        }
        while idx < n
            invariant
                idx <= n,
                n == self.tile_statuses@.len(),
                self.wf(),
                text@ == listing(self.tile_statuses@.take(idx as int), self.width as int),
            decreases n - idx,
        {
            proof {
                assert(self.tile_statuses@.take(idx + 1).drop_last() =~= self.tile_statuses@.take(
                    idx as int,
                ));
                assert(self.width > 0) by (nonlinear_arith)
                    requires
                        0 <= self.width,
                        self.width * self.height > 0,
                ;
            }
            match self.tile_statuses[idx] {
                TileStatus::Empty => text.append("Empty"),
                TileStatus::Occupied => text.append("Occupied"),
            }
            if idx > 0 && idx % (self.width as usize) == 0 {
                text.append("\n");
            } else {
                text.append(", ");
            }
            idx += 1;
        }
        proof {
            assert(self.tile_statuses@.take(n as int) =~= self.tile_statuses@);
        }
        text.append("\n");
        text
    }

    /// Whether `coord` is a cell of the board.
    pub fn is_cell_in_bounds(&self, coord: Coordinate) -> (inside: bool)
        ensures
            inside == self.in_bounds(coord),
    {
        coord.x >= 0 && coord.x < self.width && coord.y >= 0 && coord.y < self.height
    }

    /// Records `status` for `coord` and leaves every other cell as it was.
    pub fn set_status_at_coord(&mut self, coord: &Coordinate, status: TileStatus)
        requires
            old(self).wf(),
            old(self).in_bounds(*coord),
        ensures
            final(self).wf(),
            final(self).same_shape(old(self)),
            final(self).tile_statuses@ == old(self).tile_statuses@.update(
                old(self).index_of(*coord),
                status,
            ),
            final(self).status(*coord) == status,
            forall|other: Coordinate|
                old(self).in_bounds(other) && other != *coord ==> #[trigger] final(self).status(
                    other,
                ) == old(self).status(other),
    {
        proof {
            lemma_index_in_range(self, *coord);
            assert forall|other: Coordinate|
                self.in_bounds(other) && other != *coord implies self.index_of(other)
                != self.index_of(*coord) && 0 <= #[trigger] self.index_of(other)
                < self.tile_statuses@.len() by {
                lemma_index_in_range(self, other);
                if self.index_of(other) == self.index_of(*coord) {
                    lemma_index_injective(self, other, *coord);
                }
            }
            assert(self.tile_statuses@.len() == self.tile_statuses.len());
        }
        let idx = coord.x as usize + coord.y as usize * self.width as usize;
        self.tile_statuses.set(idx, status);
    }

    /// The status recorded for `coord`.
    pub fn get_status_at_coord(&self, coord: &Coordinate) -> (status: TileStatus)
        requires
            self.wf(),
            self.in_bounds(*coord),
        ensures
            status == self.status(*coord),
    {
        proof {
            lemma_index_in_range(self, *coord);
            assert(self.tile_statuses@.len() == self.tile_statuses.len());
        }
        let idx = coord.x as usize + coord.y as usize * self.width as usize;
        self.tile_statuses[idx]
    }

    /// Top-left pixel of the cell in column `x`, row `y`.
    pub fn get_cell_tl(&self, x: i32, y: i32) -> (tl: ScreenPoint)
        requires
            i32::MIN <= self.cell_tl(x as int, y as int).0 <= i32::MAX,
            i32::MIN <= self.cell_tl(x as int, y as int).1 <= i32::MAX,
        ensures
            (tl.x as int, tl.y as int) == self.cell_tl(x as int, y as int),
    {
        let pitch: i128 = self.grid_size as i128 + self.line_width as i128;
        assert(-0x8000_0000_0000_0000 <= (x as int) * (pitch as int) <= 0x8000_0000_0000_0000
            && -0x8000_0000_0000_0000 <= (y as int) * (pitch as int) <= 0x8000_0000_0000_0000)
            by (nonlinear_arith)
            requires
                -0x8000_0000 <= x <= 0x8000_0000,
                -0x8000_0000 <= y <= 0x8000_0000,
                -0x1_0000_0000 <= pitch <= 0x1_0000_0000,
        ;
        let px: i128 = self.screen_pos.x as i128 + x as i128 * pitch;
        let py: i128 = self.screen_pos.y as i128 + y as i128 * pitch;
        ScreenPoint { x: px as i32, y: py as i32 }
    }

    /// Pixel at the middle of the cell in column `x`, row `y`, rounded
    /// towards the cell's top-left corner.
    pub fn get_cell_center(&self, x: i32, y: i32) -> (center: ScreenPoint)
        requires
            0 <= self.grid_size,
            i32::MIN <= self.cell_tl(x as int, y as int).0,
            self.cell_tl(x as int, y as int).0 + self.grid_size / 2 <= i32::MAX,
            i32::MIN <= self.cell_tl(x as int, y as int).1,
            self.cell_tl(x as int, y as int).1 + self.grid_size / 2 <= i32::MAX,
        ensures
            center.x == self.cell_tl(x as int, y as int).0 + self.grid_size / 2,
            center.y == self.cell_tl(x as int, y as int).1 + self.grid_size / 2,
    {
        let tl = self.get_cell_tl(x, y);
        let half = self.grid_size / 2;
        ScreenPoint { x: tl.x + half, y: tl.y + half }
    }

    /// The cell under the pixel `screen_pos`; `None` for a pixel on a border
    /// or outside the board.
    pub fn get_cell_at_screen_pos(&self, screen_pos: ScreenPoint) -> (cell: Option<Coordinate>)
        requires
            self.layout_wf(),
        ensures
            cell == self.cell_at(screen_pos),
            cell matches Some(c) ==> self.in_bounds(c),
    {
        let off_x: i64 = screen_pos.x as i64 - self.screen_pos.x as i64;
        let off_y: i64 = screen_pos.y as i64 - self.screen_pos.y as i64;
        if off_x >= 0 && off_y >= 0 {
            let pitch: i64 = self.grid_size as i64 + self.line_width as i64;
            let col: i64 = off_x / pitch;
            let row: i64 = off_y / pitch;
            proof {
                lemma_quotient_bounds(off_x as int, pitch as int);
                lemma_quotient_bounds(off_y as int, pitch as int);
            }
            if col < self.width as i64 && row < self.height as i64 {
                let cell_off_x: i64 = off_x - col * pitch;
                let cell_off_y: i64 = off_y - row * pitch;
                if cell_off_x <= self.grid_size as i64 && cell_off_y <= self.grid_size as i64 {
                    let coord = Coordinate { x: col as i32, y: row as i32 };
                    if self.is_cell_in_bounds(coord) {
                        return Some(coord);
                    }
                }
            }
        }
        None
    }
}

/// The pixel reached from the top-left pixel of column `col`, row `row` by
/// going `dx` right and `dy` down.
pub open spec fn pixel_in_cell(grid: &BattleGrid, col: int, row: int, dx: int, dy: int) -> (int, int) {
    (grid.cell_tl(col, row).0 + dx, grid.cell_tl(col, row).1 + dy)
}

/// A pixel inside the square of an in-bounds cell maps back to that cell:
/// going `dx` right and `dy` down from the cell's top-left pixel, by no more
/// than the cell size and without reaching the next cell, stays in the cell.
pub proof fn lemma_pixel_of_cell_maps_back(grid: &BattleGrid, cell: Coordinate, dx: int, dy: int)
    requires
        grid.layout_wf(),
        grid.in_bounds(cell),
        0 <= dx <= grid.grid_size,
        0 <= dy <= grid.grid_size,
        dx < grid.pitch(),
        dy < grid.pitch(),
    ensures
        ({
            let p = pixel_in_cell(grid, cell.x as int, cell.y as int, dx, dy);
            &&& i32::MIN <= p.0 <= i32::MAX
            &&& i32::MIN <= p.1 <= i32::MAX
            &&& grid.cell_at(ScreenPoint { x: p.0 as i32, y: p.1 as i32 }) == Some(cell)
        }),
{
    let pitch = grid.pitch();
    let (col, row) = (cell.x as int, cell.y as int);
    lemma_offset_in_pitch(col, grid.width as int, pitch, dx);
    lemma_offset_in_pitch(row, grid.height as int, pitch, dy);
}

/// The pixel one to the right of and one below the top-left pixel of an
/// in-bounds cell maps back to that cell, on every board where that pixel
/// is not already the next cell's top-left pixel.
pub proof fn lemma_screen_round_trip(grid: &BattleGrid, cell: Coordinate)
    requires
        grid.layout_wf(),
        grid.in_bounds(cell),
        grid.pitch() > 1,
    ensures
        ({
            let tl = grid.cell_tl(cell.x as int, cell.y as int);
            &&& i32::MIN <= tl.0 && tl.0 + 1 <= i32::MAX
            &&& i32::MIN <= tl.1 && tl.1 + 1 <= i32::MAX
            &&& grid.cell_at(ScreenPoint { x: (tl.0 + 1) as i32, y: (tl.1 + 1) as i32 }) == Some(
                cell,
            )
        }),
{
    lemma_pixel_of_cell_maps_back(grid, cell, 1, 1);
}

/// A pixel on the border right of or below a cell's square belongs to no
/// cell: going from a cell's top-left pixel further than the cell size, but
/// not as far as the next cell, ends on no cell.
pub proof fn lemma_border_has_no_cell(grid: &BattleGrid, col: int, row: int, dx: int, dy: int)
    requires
        grid.layout_wf(),
        0 <= col,
        0 <= row,
        0 <= dx < grid.pitch(),
        0 <= dy < grid.pitch(),
        dx > grid.grid_size || dy > grid.grid_size,
        i32::MIN <= pixel_in_cell(grid, col, row, dx, dy).0 <= i32::MAX,
        i32::MIN <= pixel_in_cell(grid, col, row, dx, dy).1 <= i32::MAX,
    ensures
        ({
            let p = pixel_in_cell(grid, col, row, dx, dy);
            grid.cell_at(ScreenPoint { x: p.0 as i32, y: p.1 as i32 }) is None
        }),
{
    let pitch = grid.pitch();
    vstd::arithmetic::div_mod::lemma_fundamental_div_mod_converse(col * pitch + dx, pitch, col, dx);
    vstd::arithmetic::div_mod::lemma_fundamental_div_mod_converse(row * pitch + dy, pitch, row, dy);
}

/// A pixel left of or above the board's origin belongs to no cell.
pub proof fn lemma_outside_origin_has_no_cell(grid: &BattleGrid, p: ScreenPoint)
    requires
        p.x < grid.screen_pos.x || p.y < grid.screen_pos.y,
    ensures
        grid.cell_at(p) is None,
{
}

/// Column `col` of `count` columns, each `pitch` wide: an offset `d` within
/// the column divides back to `col`, and lies short of the far edge.
proof fn lemma_offset_in_pitch(col: int, count: int, pitch: int, d: int)
    requires
        0 <= col < count,
        0 <= d < pitch,
    ensures
        0 <= col * pitch,
        col * pitch + d < count * pitch,
        (col * pitch + d) / pitch == col,
        col * pitch + d - ((col * pitch + d) / pitch) * pitch == d,
{
    vstd::arithmetic::div_mod::lemma_fundamental_div_mod_converse(col * pitch + d, pitch, col, d);
    assert(0 <= col * pitch && col * pitch + d < count * pitch) by (nonlinear_arith)
        requires
            0 <= col < count,
            0 <= d < pitch,
    ;
}

/// For a dividend that is not negative and a positive divisor, the quotient
/// is not negative, does not exceed the dividend, and its multiple is the
/// greatest multiple of the divisor that does not exceed the dividend.
proof fn lemma_quotient_bounds(a: int, d: int)
    requires
        0 <= a,
        0 < d,
    ensures
        0 <= a / d <= a,
        0 <= (a / d) * d <= a,
        a - (a / d) * d == a % d,
        0 <= a % d < d,
{
    vstd::arithmetic::div_mod::lemma_fundamental_div_mod(a, d);
    vstd::arithmetic::div_mod::lemma_mod_bound(a, d);
    vstd::arithmetic::div_mod::lemma_div_pos_is_pos(a, d);
    assert((a / d) * d == d * (a / d)) by (nonlinear_arith);
    assert(a / d <= a) by (nonlinear_arith)
        requires
            0 <= a / d,
            0 < d,
            (a / d) * d <= a,
    ;
}

/// An in-bounds cell has an entry in the occupancy map.
pub proof fn lemma_index_in_range(grid: &BattleGrid, coord: Coordinate)
    requires
        grid.wf(),
        grid.in_bounds(coord),
    ensures
        0 <= grid.index_of(coord) < grid.tile_statuses@.len(),
        0 <= coord.y * grid.width <= grid.index_of(coord),
        grid.index_of(coord) < grid.width * grid.height,
{
    let (x, y, w, h) = (coord.x as int, coord.y as int, grid.width as int, grid.height as int);
    assert(0 <= y * w && x + y * w < w * h) by (nonlinear_arith)
        requires
            0 <= x < w,
            0 <= y < h,
    ;
}

/// Two different in-bounds cells have different entries in the occupancy
/// map.
pub proof fn lemma_index_injective(grid: &BattleGrid, a: Coordinate, b: Coordinate)
    requires
        grid.in_bounds(a),
        grid.in_bounds(b),
        grid.index_of(a) == grid.index_of(b),
    ensures
        a == b,
{
    let (ax, ay, bx, by, w) = (
        a.x as int,
        a.y as int,
        b.x as int,
        b.y as int,
        grid.width as int,
    );
    assert(ay == by) by (nonlinear_arith)
        requires
            0 <= ax < w,
            0 <= bx < w,
            ax + ay * w == bx + by * w,
    ;
}

} // verus!
