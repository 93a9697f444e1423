//! Turning what the host shows, a window round the agent or a band of tiles
//! in one direction, into observations at absolute positions.

use vstd::prelude::*;
use crate::enhanced_map::{observe, observe_all, BobMap};
use crate::tile::{grid_view, in_grid, neighbor, neighbor_of, tile_at, Direction, Tile};

verus! {

/// By how much the first line of a view is set off from the agent.
#[derive(Clone, Copy, Debug, PartialEq, Eq, Structural)]
pub enum Shift {
    /// One before the agent.
    Back,
    /// Level with the agent.
    Stay,
    /// One after the agent.
    Ahead,
}

/// How the indices of a view run along one axis of the grid: index 0 stands
/// at `base` moved by `shift`, and later indices follow towards higher
/// positions, or towards lower ones when `flipped`.
#[derive(Clone, Copy, Debug, PartialEq, Eq, Structural)]
pub struct Axis {
    pub base: usize,
    pub shift: Shift,
    pub flipped: bool,
}

/// Where a view lies on the grid: one axis for its rows and one for its
/// columns.
#[derive(Clone, Copy, Debug, PartialEq, Eq, Structural)]
pub struct Frame {
    pub rows: Axis,
    pub cols: Axis,
}

/// The position nearest to `v` that an index can hold.
pub open spec fn nearest_index(v: int) -> usize {
    if v < 0 {
        0
    } else if v > usize::MAX {
        usize::MAX
    } else {
        v as usize
    }
}

impl Axis {
    /// The position of index 0.
    pub open spec fn origin(self) -> int {
        self.base + match self.shift {
            Shift::Back => -1int,
            Shift::Stay => 0int,
            Shift::Ahead => 1int,
        }
    }

    /// The position of `index`.
    pub open spec fn at(self, index: int) -> int {
        if self.flipped {
            self.origin() - index
        } else {
            self.origin() + index
        }
    }

    /// The index that stands at `position`.
    pub open spec fn index_at(self, position: int) -> int {
        if self.flipped {
            self.origin() - position
        } else {
            position - self.origin()
        }
    }

    /// Computes the position of `index`, which may lie below zero.
    fn position(&self, index: usize) -> (r: i128)
        ensures
            r == self.at(index as int),
    {
        let origin: i128 = self.base as i128 + match self.shift {
            Shift::Back => -1i128,
            Shift::Stay => 0i128,
            Shift::Ahead => 1i128,
        };
        if self.flipped {
            origin - index as i128
        } else {
            origin + index as i128
        }
    }

    /// Computes the position of `index`, or `None` where it falls below zero
    /// or beyond what an index can hold.
    pub fn place(&self, index: usize) -> (r: Option<usize>)
        ensures
            match r {
                Some(v) => self.at(index as int) == v,
                None => self.at(index as int) < 0 || self.at(index as int) > usize::MAX,
            },
    {
        let position: i128 = self.position(index);
        if position < 0 || position > usize::MAX as i128 {
            None
        } else {
            Some(position as usize)
        }
    }

    /// Computes the position nearest to that of `index` that an index can
    /// hold.
    pub fn nearest(&self, index: usize) -> (r: usize)
        ensures
            r == nearest_index(self.at(index as int)),
    {
        let position: i128 = self.position(index);
        if position < 0 {
            0
        } else if position > usize::MAX as i128 {
            usize::MAX
        } else {
            position as usize
        }
    }
}

/// The frame of the window that the host shows round an agent at
/// `(row, col)`: it starts one row above and one column left of the agent.
pub open spec fn window_frame(row: usize, col: usize) -> Frame {
    Frame {
        rows: Axis { base: row, shift: Shift::Back, flipped: false },
        cols: Axis { base: col, shift: Shift::Back, flipped: false },
    }
}

/// The start of the three-wide band round `center`, which the host clips at
/// the edge of the world.
pub open spec fn band_start(center: usize) -> Axis {
    Axis {
        base: center,
        shift: if center == 0 {
            Shift::Stay
        } else {
            Shift::Back
        },
        flipped: false,
    }
}

/// The frame of the band that the host shows in direction `direction` from
/// an agent at `(row, col)`. Upwards and downwards the lines of the view are
/// rows that lead away from the agent; leftwards and rightwards the entries of
/// each line lead away from it.
pub open spec fn direction_frame(row: usize, col: usize, direction: Direction) -> Frame {
    match direction {
        Direction::Up => Frame {
            rows: Axis { base: row, shift: Shift::Back, flipped: true },
            cols: band_start(col),
        },
        Direction::Down => Frame {
            rows: Axis { base: row, shift: Shift::Ahead, flipped: false },
            cols: band_start(col),
        },
        Direction::Left => Frame {
            rows: band_start(row),
            cols: Axis { base: col, shift: Shift::Back, flipped: true },
        },
        Direction::Right => Frame {
            rows: band_start(row),
            cols: Axis { base: col, shift: Shift::Ahead, flipped: false },
        },
    }
}

/// The tiles once a view is laid over them: a cell takes the tile that the
/// view shows at its position and keeps its own where the view shows none.
pub open spec fn framed(
    tiles: Seq<Seq<Option<Tile>>>,
    window: Seq<Seq<Option<Tile>>>,
    frame: Frame,
) -> Seq<Seq<Option<Tile>>> {
    Seq::new(
        tiles.len(),
        |a: int|
            Seq::new(
                tiles[a].len(),
                |b: int|
                    {
                        let i = frame.rows.index_at(a);
                        let j = frame.cols.index_at(b);
                        if in_grid(window, i, j) && window[i][j] is Some {
                            window[i][j]
                        } else {
                            tiles[a][b]
                        }
                    },
            ),
    )
}

/// The entry that a view cell gives back: its tile with the position nearest
/// to where it lies.
pub open spec fn entry_at(frame: Frame, i: int, j: int, tile: Option<Tile>) -> (
    Option<Tile>,
    usize,
    usize,
) {
    (tile, nearest_index(frame.rows.at(i)), nearest_index(frame.cols.at(j)))
}

/// Taking in one more record changes the one cell it names.
proof fn lemma_observe_one_more(
    tiles: Seq<Seq<Option<Tile>>>,
    records: Seq<(usize, usize, Tile)>,
    record: (usize, usize, Tile),
)
    ensures
        observe_all(tiles, records.push(record)) == observe(observe_all(tiles, records), record),
{
    assert(records.push(record).drop_last() =~= records);
}

/// Lays `view` over the map within `frame` and gives each view cell back
/// with its position.
fn ingest(view: &Vec<Vec<Option<Tile>>>, frame: &Frame, map: &mut BobMap) -> (ret: Vec<
    Vec<(Option<Tile>, usize, usize)>,
>)
    requires
        old(map).wf(),
    ensures
        final(map).wf(),
        final(map).rows() == old(map).rows(),
        final(map).cols() == old(map).cols(),
        final(map).pins() == old(map).pins(),
        final(map).located() == old(map).located(),
        final(map).tiles() == framed(old(map).tiles(), grid_view(view), *frame),
        ret@.len() == view@.len(),
        forall|i: int| 0 <= i < view@.len() ==> (#[trigger] ret@[i])@.len() == view@[i]@.len(),
        forall|i: int, j: int|
            0 <= i < view@.len() && 0 <= j < view@[i]@.len() ==> (#[trigger] ret@[i]@[j])
                == entry_at(*frame, i, j, view@[i]@[j]),
{
    let ghost tiles = map.tiles();
    let ghost window = grid_view(view);
    proof {
        map.lemma_shape();
    }
    let mut records: Vec<(usize, usize, Tile)> = Vec::new();
    let mut ret: Vec<Vec<(Option<Tile>, usize, usize)>> = Vec::new();
    let mut i: usize = 0;
    while i < view.len()
        invariant
            i <= view@.len(),
            window == grid_view(view),
            tiles.len() <= usize::MAX,
            forall|a: int| 0 <= a < tiles.len() ==> (#[trigger] tiles[a]).len() <= usize::MAX,
            ret@.len() == i,
            forall|k: int| 0 <= k < i ==> (#[trigger] ret@[k])@.len() == view@[k]@.len(),
            forall|k: int, l: int|
                0 <= k < i && 0 <= l < view@[k]@.len() ==> (#[trigger] ret@[k]@[l]) == entry_at(
                    *frame,
                    k,
                    l,
                    view@[k]@[l],
                ),
            observe_all(tiles, records@).len() == tiles.len(),
            forall|a: int|
                0 <= a < tiles.len() ==> (#[trigger] observe_all(tiles, records@)[a]).len()
                    == tiles[a].len(),
            forall|a: int, b: int|
                0 <= a < tiles.len() && 0 <= b < tiles[a].len() ==> (#[trigger] observe_all(
                    tiles,
                    records@,
                )[a][b]) == if in_grid(window, frame.rows.index_at(a), frame.cols.index_at(b))
                    && frame.rows.index_at(a) < i
                    && window[frame.rows.index_at(a)][frame.cols.index_at(b)] is Some {
                    window[frame.rows.index_at(a)][frame.cols.index_at(b)]
                } else {
                    tiles[a][b]
                },
        decreases view@.len() - i,
    {
        let line: &Vec<Option<Tile>> = &view[i];
        let x: Option<usize> = frame.rows.place(i);
        let mut row: Vec<(Option<Tile>, usize, usize)> = Vec::new();
        let mut j: usize = 0;
        while j < line.len()
            invariant
                i < view@.len(),
                j <= line@.len(),
                line@ == view@[i as int]@,
                window == grid_view(view),
                tiles.len() <= usize::MAX,
                forall|a: int| 0 <= a < tiles.len() ==> (#[trigger] tiles[a]).len() <= usize::MAX,
                match x {
                    Some(v) => frame.rows.at(i as int) == v,
                    None => frame.rows.at(i as int) < 0 || frame.rows.at(i as int) > usize::MAX,
                },
                row@.len() == j,
                forall|l: int|
                    0 <= l < j ==> (#[trigger] row@[l]) == entry_at(*frame, i as int, l, line@[l]),
                observe_all(tiles, records@).len() == tiles.len(),
                forall|a: int|
                    0 <= a < tiles.len() ==> (#[trigger] observe_all(tiles, records@)[a]).len()
                        == tiles[a].len(),
                forall|a: int, b: int|
                    0 <= a < tiles.len() && 0 <= b < tiles[a].len() ==> (#[trigger] observe_all(
                        tiles,
                        records@,
                    )[a][b]) == if in_grid(window, frame.rows.index_at(a), frame.cols.index_at(b))
                        && (frame.rows.index_at(a) < i || (frame.rows.index_at(a) == i
                        && frame.cols.index_at(b) < j))
                        && window[frame.rows.index_at(a)][frame.cols.index_at(b)] is Some {
                        window[frame.rows.index_at(a)][frame.cols.index_at(b)]
                    } else {
                        tiles[a][b]
                    },
            decreases line@.len() - j,
        {
            let tile: Option<Tile> = line[j];
            let y: Option<usize> = frame.cols.place(j);
            row.push((tile, frame.rows.nearest(i), frame.cols.nearest(j)));
            if let (Some(t), Some(px), Some(py)) = (tile, x, y) {
                proof {
                    lemma_observe_one_more(tiles, records@, (px, py, t));
                }
                records.push((px, py, t));
            }
            j = j + 1;
        }
        ret.push(row);
        i = i + 1;
    }
    map.update(records);
    proof {
        assert(map.tiles() =~~= framed(tiles, window, *frame));
    }
    ret
}

/// Takes in the window that the host shows round an agent at `(row, col)`.
///
/// Every tile that the window shows replaces what the map held at its
/// position; a cell that the window leaves empty, and a position outside the
/// map, change nothing. The window comes back with each cell's position, the
/// nearest one an index can hold where the cell lies before row or column 0.
pub fn bob_view(row: usize, col: usize, view: &Vec<Vec<Option<Tile>>>, map: &mut BobMap) -> (ret:
    Vec<Vec<(Option<Tile>, usize, usize)>>)
    requires
        old(map).wf(),
    ensures
        final(map).wf(),
        final(map).rows() == old(map).rows(),
        final(map).cols() == old(map).cols(),
        final(map).pins() == old(map).pins(),
        final(map).located() == old(map).located(),
        final(map).tiles() == framed(old(map).tiles(), grid_view(view), window_frame(row, col)),
        ret@.len() == view@.len(),
        forall|i: int| 0 <= i < view@.len() ==> (#[trigger] ret@[i])@.len() == view@[i]@.len(),
        forall|i: int, j: int|
            0 <= i < view@.len() && 0 <= j < view@[i]@.len() ==> (#[trigger] ret@[i]@[j])
                == entry_at(window_frame(row, col), i, j, view@[i]@[j]),
{
    let frame = Frame {
        rows: Axis { base: row, shift: Shift::Back, flipped: false },
        cols: Axis { base: col, shift: Shift::Back, flipped: false },
    };
    ingest(view, &frame, map)
}

/// A view of tiles that are all present, as a view in which some could be
/// missing.
pub open spec fn all_observed(view: &Vec<Vec<Tile>>) -> Seq<Seq<Option<Tile>>> {
    Seq::new(view@.len(), |i: int| Seq::new(view@[i]@.len(), |j: int| Some(view@[i]@[j])))
}

/// Computes the frame of the band shown in direction `direction` from an
/// agent at `(row, col)`.
pub fn frame_toward(row: usize, col: usize, direction: Direction) -> (r: Frame)
    ensures
        r == direction_frame(row, col, direction),
{
    let beside_col = Axis {
        base: col,
        shift: if col == 0 {
            Shift::Stay
        } else {
            Shift::Back
        },
        flipped: false,
    };
    let beside_row = Axis {
        base: row,
        shift: if row == 0 {
            Shift::Stay
        } else {
            Shift::Back
        },
        flipped: false,
    };
    match direction {
        Direction::Up => Frame {
            rows: Axis { base: row, shift: Shift::Back, flipped: true },
            cols: beside_col,
        },
        Direction::Down => Frame {
            rows: Axis { base: row, shift: Shift::Ahead, flipped: false },
            cols: beside_col,
        },
        Direction::Left => Frame {
            rows: beside_row,
            cols: Axis { base: col, shift: Shift::Back, flipped: true },
        },
        Direction::Right => Frame {
            rows: beside_row,
            cols: Axis { base: col, shift: Shift::Ahead, flipped: false },
        },
    }
}

/// Takes in the band of tiles that the host shows in direction `direction`
/// from an agent at `(row, col)`.
///
/// Every tile of the band replaces what the map held at its position; a
/// position outside the map changes nothing. The band comes back with each
/// tile's position, the nearest one an index can hold where the tile would
/// lie beyond the ends of what an index can count.
pub fn bob_one_direction_view(
    row: usize,
    col: usize,
    direction: Direction,
    long_view: &Vec<Vec<Tile>>,
    map: &mut BobMap,
) -> (ret: Vec<Vec<(Tile, usize, usize)>>)
    requires
        old(map).wf(),
    ensures
        final(map).wf(),
        final(map).rows() == old(map).rows(),
        final(map).cols() == old(map).cols(),
        final(map).pins() == old(map).pins(),
        final(map).located() == old(map).located(),
        final(map).tiles() == framed(
            old(map).tiles(),
            all_observed(long_view),
            direction_frame(row, col, direction),
        ),
        ret@.len() == long_view@.len(),
        forall|i: int|
            0 <= i < long_view@.len() ==> (#[trigger] ret@[i])@.len() == long_view@[i]@.len(),
        forall|i: int, j: int|
            0 <= i < long_view@.len() && 0 <= j < long_view@[i]@.len() ==> (
            #[trigger] ret@[i]@[j]) == (
                long_view@[i]@[j],
                nearest_index(direction_frame(row, col, direction).rows.at(i)),
                nearest_index(direction_frame(row, col, direction).cols.at(j)),
            ),
{
    let frame: Frame = frame_toward(row, col, direction);
    let mut view: Vec<Vec<Option<Tile>>> = Vec::new();
    let mut i: usize = 0;
    while i < long_view.len()
        invariant
            i <= long_view@.len(),
            view@.len() == i,
            forall|k: int| 0 <= k < i ==> (#[trigger] view@[k])@.len() == long_view@[k]@.len(),
            forall|k: int, l: int|
                0 <= k < i && 0 <= l < long_view@[k]@.len() ==> (#[trigger] view@[k]@[l]) == Some(
                    long_view@[k]@[l],
                ),
        decreases long_view@.len() - i,
    {
        let line: &Vec<Tile> = &long_view[i];
        let mut lifted: Vec<Option<Tile>> = Vec::new();
        let mut j: usize = 0;
        while j < line.len()
            invariant
                j <= line@.len(),
                lifted@.len() == j,
                forall|l: int| 0 <= l < j ==> (#[trigger] lifted@[l]) == Some(line@[l]),
            decreases line@.len() - j,
        {
            lifted.push(Some(line[j]));
            j = j + 1;
        }
        view.push(lifted);
        i = i + 1;
    }
    assert(grid_view(&view) =~~= all_observed(long_view));
    let placed: Vec<Vec<(Option<Tile>, usize, usize)>> = ingest(&view, &frame, map);
    let mut ret: Vec<Vec<(Tile, usize, usize)>> = Vec::new();
    let mut i: usize = 0;
    while i < placed.len()
        invariant
            i <= placed@.len(),
            placed@.len() == long_view@.len(),
            view@.len() == long_view@.len(),
            forall|k: int|
                0 <= k < long_view@.len() ==> (#[trigger] view@[k])@.len() == long_view@[k]@.len(),
            forall|k: int, l: int|
                0 <= k < long_view@.len() && 0 <= l < long_view@[k]@.len() ==> (
                #[trigger] view@[k]@[l]) == Some(long_view@[k]@[l]),
            forall|k: int|
                0 <= k < long_view@.len() ==> (#[trigger] placed@[k])@.len() == view@[k]@.len(),
            forall|k: int, l: int|
                0 <= k < view@.len() && 0 <= l < view@[k]@.len() ==> (#[trigger] placed@[k]@[l])
                    == entry_at(frame, k, l, view@[k]@[l]),
            ret@.len() == i,
            forall|k: int| 0 <= k < i ==> (#[trigger] ret@[k])@.len() == long_view@[k]@.len(),
            forall|k: int, l: int|
                0 <= k < i && 0 <= l < long_view@[k]@.len() ==> (#[trigger] ret@[k]@[l]) == (
                    long_view@[k]@[l],
                    nearest_index(frame.rows.at(k)),
                    nearest_index(frame.cols.at(l)),
                ),
        decreases placed@.len() - i,
    {
        let line: &Vec<(Option<Tile>, usize, usize)> = &placed[i];
        let mut lowered: Vec<(Tile, usize, usize)> = Vec::new();
        let mut j: usize = 0;
        while j < line.len()
            invariant
                i < long_view@.len(),
                j <= line@.len(),
                line@.len() == long_view@[i as int]@.len(),
                forall|l: int|
                    0 <= l < line@.len() ==> (#[trigger] line@[l]) == entry_at(
                        frame,
                        i as int,
                        l,
                        Some(long_view@[i as int]@[l]),
                    ),
                lowered@.len() == j,
                forall|l: int|
                    0 <= l < j ==> (#[trigger] lowered@[l]) == (
                        long_view@[i as int]@[l],
                        nearest_index(frame.rows.at(i as int)),
                        nearest_index(frame.cols.at(l)),
                    ),
            decreases line@.len() - j,
        {
            let entry: (Option<Tile>, usize, usize) = line[j];
            if let Some(tile) = entry.0 {
                lowered.push((tile, entry.1, entry.2));
            }
            j = j + 1;
        }
        ret.push(lowered);
        i = i + 1;
    }
    ret
}

/// Takes in a band of tiles as [`bob_one_direction_view`] does and hands the
/// band back as it came, without positions.
pub fn bob_long_view(
    row: usize,
    col: usize,
    direction: Direction,
    long_view: Vec<Vec<Tile>>,
    map: &mut BobMap,
) -> (ret: Vec<Vec<Tile>>)
    requires
        old(map).wf(),
    ensures
        ret == long_view,
        final(map).wf(),
        final(map).rows() == old(map).rows(),
        final(map).cols() == old(map).cols(),
        final(map).pins() == old(map).pins(),
        final(map).located() == old(map).located(),
        final(map).tiles() == framed(
            old(map).tiles(),
            all_observed(&long_view),
            direction_frame(row, col, direction),
        ),
{
    let _ = bob_one_direction_view(row, col, direction, &long_view, map);
    long_view
}

/// The observations among what a discovery gave back: one record for each
/// position that came with a tile, in the order given.
pub open spec fn discovered_records(found: Seq<((usize, usize), Option<Tile>)>) -> Seq<
    (usize, usize, Tile),
>
    decreases found.len(),
{
    if found.len() == 0 {
        Seq::empty()
    } else {
        let earlier = discovered_records(found.drop_last());
        match found.last().1 {
            Some(tile) => earlier.push((found.last().0.0, found.last().0.1, tile)),
            None => earlier,
        }
    }
}

/// Takes in what a discovery of chosen cells gave back: each position with
/// the tile found there, if any. Every tile replaces what the map held at its
/// position; a position without a tile, and one outside the map, change
/// nothing.
pub fn bob_discover_tiles(found: &Vec<((usize, usize), Option<Tile>)>, map: &mut BobMap)
    requires
        old(map).wf(),
    ensures
        final(map).wf(),
        final(map).rows() == old(map).rows(),
        final(map).cols() == old(map).cols(),
        final(map).pins() == old(map).pins(),
        final(map).located() == old(map).located(),
        final(map).tiles() == observe_all(old(map).tiles(), discovered_records(found@)),
{
    let mut records: Vec<(usize, usize, Tile)> = Vec::new();
    let mut k: usize = 0;
    while k < found.len()
        invariant
            k <= found@.len(),
            records@ == discovered_records(found@.take(k as int)),
        decreases found@.len() - k,
    {
        proof {
            assert(found@.take(k as int + 1).drop_last() =~= found@.take(k as int));
        }
        let entry: ((usize, usize), Option<Tile>) = found[k];
        if let Some(tile) = entry.1 {
            records.push((entry.0.0, entry.0.1, tile));
        }
        k = k + 1;
    }
    assert(found@.take(found@.len() as int) =~= found@);
    map.update(records);
}

/// The tile next to the middle of `view` in direction `direction`: `None`
/// where the view is empty, where that cell lies outside the view, and where
/// nothing was observed there.
pub open spec fn tile_beside_center(view: Seq<Seq<Option<Tile>>>, direction: Direction) -> Option<
    Tile,
> {
    if view.len() == 0 {
        None
    } else {
        let (row, col) = neighbor(
            (view.len() / 2) as int,
            (view[0].len() / 2) as int,
            direction,
        );
        if in_grid(view, row, col) {
            view[row][col]
        } else {
            None
        }
    }
}

/// Picks from the window round an agent the tile that lies next to the agent
/// in direction `direction`. The agent stands in the middle of the window.
pub fn get_tile_in_direction(view: &Vec<Vec<Option<Tile>>>, direction: &Direction) -> (r: Option<
    Tile,
>)
    ensures
        r == tile_beside_center(grid_view(view), *direction),
{
    if view.len() == 0 {
        return None;
    }
    let center_row: usize = view.len() / 2;
    let center_col: usize = view[0].len() / 2;
    match neighbor_of(center_row, center_col, *direction) {
        Some((row, col)) => tile_at(view, row, col),
        None => None,
    }
}

} // verus!
