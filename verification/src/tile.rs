//! The data a host reports about one cell of the world, as plain values.

use vstd::prelude::*;

verus! {

/// The terrain of a tile.
#[derive(Clone, Copy, Debug, PartialEq, Eq, Structural, Hash)]
pub enum TileType {
    DeepWater,
    ShallowWater,
    Sand,
    Grass,
    Street,
    Hill,
    Mountain,
    Snow,
    Lava,
    /// A teleport pad; the flag tells whether it has been activated.
    Teleport(bool),
    Wall,
}

/// What lies on a tile. A number is a quantity; `Bin`, `Crate` and `Bank`
/// carry the two ends of a half-open capacity range.
#[derive(Clone, Copy, Debug, PartialEq, Eq, Structural, Hash)]
pub enum Content {
    Rock(usize),
    Tree(usize),
    Garbage(usize),
    Fire,
    Coin(usize),
    Bin(usize, usize),
    Crate(usize, usize),
    Bank(usize, usize),
    Water(usize),
    Market(usize),
    Fish(usize),
    Building,
    Bush(usize),
    JollyBlock(usize),
    Scarecrow,
    /// Nothing lies on the tile.
    Empty,
}

/// One observed cell: terrain, content and elevation. A tile is never edited
/// in place; a new observation replaces it whole.
#[derive(Clone, Copy, Debug, PartialEq, Eq, Structural, Hash)]
pub struct Tile {
    pub tile_type: TileType,
    pub content: Content,
    pub elevation: usize,
}

/// The four unit moves on the grid. `Up` lowers the row, `Down` raises it,
/// `Left` lowers the column and `Right` raises it.
#[derive(Clone, Copy, Debug, PartialEq, Eq, Structural, Hash)]
pub enum Direction {
    Up,
    Down,
    Left,
    Right,
}

/// The tiles of a grid as a sequence of rows; `None` marks a cell that was
/// never observed.
pub open spec fn grid_view(map: &Vec<Vec<Option<Tile>>>) -> Seq<Seq<Option<Tile>>> {
    Seq::new(map@.len(), |i: int| map@[i]@)
}

/// Whether `(row, col)` names a cell of the grid.
pub open spec fn in_grid(grid: Seq<Seq<Option<Tile>>>, row: int, col: int) -> bool {
    0 <= row < grid.len() && 0 <= col < grid[row].len()
}

/// Looks up the tile at `(row, col)`, if the cell exists and was observed.
pub fn tile_at(map: &Vec<Vec<Option<Tile>>>, row: usize, col: usize) -> (r: Option<Tile>)
    ensures
        r == if in_grid(grid_view(map), row as int, col as int) {
            grid_view(map)[row as int][col as int]
        } else {
            None
        },
{
    if row < map.len() {
        let line: &Vec<Option<Tile>> = &map[row];
        if col < line.len() {
            return line[col];
        }
    }
    None
}

/// The cell next to `(row, col)` in direction `dir`.
pub open spec fn neighbor(row: int, col: int, dir: Direction) -> (int, int) {
    match dir {
        Direction::Up => (row - 1, col),
        Direction::Down => (row + 1, col),
        Direction::Left => (row, col - 1),
        Direction::Right => (row, col + 1),
    }
}

/// Computes the cell next to `(row, col)` in direction `dir`, or `None` where
/// that cell would have a coordinate below zero or beyond what the machine
/// can count.
pub fn neighbor_of(row: usize, col: usize, dir: Direction) -> (r: Option<(usize, usize)>)
    ensures
        match r {
            Some((r2, c2)) => neighbor(row as int, col as int, dir) == (r2 as int, c2 as int),
            None => {
                let (r2, c2) = neighbor(row as int, col as int, dir);
                r2 < 0 || c2 < 0 || r2 > usize::MAX || c2 > usize::MAX
            },
        },
{
    match dir {
        Direction::Up => if row == 0 {
            None
        } else {
            Some((row - 1, col))
        },
        Direction::Down => if row == usize::MAX {
            None
        } else {
            Some((row + 1, col))
        },
        Direction::Left => if col == 0 {
            None
        } else {
            Some((row, col - 1))
        },
        Direction::Right => if col == usize::MAX {
            None
        } else {
            Some((row, col + 1))
        },
    }
}

/// The direction that undoes `dir`.
pub open spec fn opposite(dir: Direction) -> Direction {
    match dir {
        Direction::Up => Direction::Down,
        Direction::Down => Direction::Up,
        Direction::Left => Direction::Right,
        Direction::Right => Direction::Left,
    }
}

/// Returns the direction that undoes `dir`.
pub fn opposite_direction(dir: Direction) -> (r: Direction)
    ensures
        r == opposite(dir),
{
    match dir {
        Direction::Up => Direction::Down,
        Direction::Down => Direction::Up,
        Direction::Left => Direction::Right,
        Direction::Right => Direction::Left,
    }
}

/// A number that tells the variants of [`Content`] apart and ignores what
/// they carry.
pub open spec fn content_kind(c: Content) -> nat {
    match c {
        Content::Rock(_) => 0,
        Content::Tree(_) => 1,
        Content::Garbage(_) => 2,
        Content::Fire => 3,
        Content::Coin(_) => 4,
        Content::Bin(_, _) => 5,
        Content::Crate(_, _) => 6,
        Content::Bank(_, _) => 7,
        Content::Water(_) => 8,
        Content::Market(_) => 9,
        Content::Fish(_) => 10,
        Content::Building => 11,
        Content::Bush(_) => 12,
        Content::JollyBlock(_) => 13,
        Content::Scarecrow => 14,
        Content::Empty => 15,
    }
}

/// Whether both sides are present and are the same variant of [`Content`].
pub open spec fn same_content_kind(lhs: Option<Content>, rhs: Option<Content>) -> bool {
    match (lhs, rhs) {
        (Some(l), Some(r)) => content_kind(l) == content_kind(r),
        _ => false,
    }
}

fn kind_of(c: Content) -> (k: u8)
    ensures
        k == content_kind(c),
{
    match c {
        Content::Rock(_) => 0,
        Content::Tree(_) => 1,
        Content::Garbage(_) => 2,
        Content::Fire => 3,
        Content::Coin(_) => 4,
        Content::Bin(_, _) => 5,
        Content::Crate(_, _) => 6,
        Content::Bank(_, _) => 7,
        Content::Water(_) => 8,
        Content::Market(_) => 9,
        Content::Fish(_) => 10,
        Content::Building => 11,
        Content::Bush(_) => 12,
        Content::JollyBlock(_) => 13,
        Content::Scarecrow => 14,
        Content::Empty => 15,
    }
}

/// Tells whether two optional contents are the same variant, whatever
/// quantity each carries. An absent side never matches.
pub fn match_content_type_variant(lhs: Option<Content>, rhs: Option<Content>) -> (r: bool)
    ensures
        r == same_content_kind(lhs, rhs),
{
    match (lhs, rhs) {
        (Some(l), Some(r)) => kind_of(l) == kind_of(r),
        _ => false,
    }
}

} // verus!
