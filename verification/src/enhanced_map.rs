//! The agent's memory of the world: every tile it has observed, at most one
//! pin per cell, and for each pin the cells that carry it.

use std::rc::Rc;
use vstd::prelude::*;
use crate::pins::{BobPinTypes, PinKey};
use crate::tile::{grid_view, in_grid, tile_at, Tile};

verus! {

/// Tells [`BobMap::get_map`] whether tiles may have changed behind the map's
/// back, in which case it refreshes every cell first.
#[derive(Clone, Copy, Debug, PartialEq, Eq, Structural)]
pub enum BobMapFlag {
    NoTileUpdated,
    TilesUpdated,
}

/// What can go wrong with a pin.
#[derive(Clone, Copy, Debug, PartialEq, Eq, Structural)]
pub enum BobErr {
    /// The cell already carries a pin.
    PinAlreadySet,
    /// No cell carries the pin that was searched.
    PinNotFound,
    /// The cell carries no pin.
    EmptyTile,
}

/// One cell of the map: the tile last observed there, if any, and the pin
/// set on it, if any.
pub type Cell = (Option<Tile>, Option<Rc<BobPinTypes>>);

/// The map: a grid of cells and, for every pin in use, the cells that carry
/// it in the order in which they were pinned.
pub struct BobMap {
    map: Vec<Vec<Cell>>,
    pins_location: Vec<(Rc<BobPinTypes>, Vec<(usize, usize)>)>,
    width: usize,
}

/// The pin of a cell as a plain value.
pub open spec fn pin_of(cell: Cell) -> Option<BobPinTypes> {
    match cell.1 {
        Some(pin) => Some(*pin),
        None => None,
    }
}

/// What a pin is as far as equality goes, for a cell that may have none.
pub open spec fn key_of(pin: Option<BobPinTypes>) -> Option<PinKey> {
    match pin {
        Some(p) => Some(p@),
        None => None,
    }
}

/// The cells listed under `key`, none where the key is not in use.
pub open spec fn listed(index: Map<PinKey, Seq<(usize, usize)>>, key: PinKey) -> Seq<
    (usize, usize),
> {
    if index.dom().contains(key) {
        index[key]
    } else {
        Seq::empty()
    }
}

/// The index once cell `at` is no longer listed under `key`: the other cells
/// keep their order, and a key with no cell left is dropped.
pub open spec fn unlisted(
    index: Map<PinKey, Seq<(usize, usize)>>,
    key: PinKey,
    at: (usize, usize),
) -> Map<PinKey, Seq<(usize, usize)>> {
    let cells = listed(index, key);
    let rest = cells.remove(cells.index_of(at));
    if rest.len() == 0 {
        index.remove(key)
    } else {
        index.insert(key, rest)
    }
}

/// The tiles of a grid of cells.
pub open spec fn cell_tiles(cells: &Vec<Vec<Cell>>) -> Seq<Seq<Option<Tile>>> {
    Seq::new(cells@.len(), |i: int| Seq::new(cells@[i]@.len(), |j: int| cells@[i]@[j].0))
}

/// The pins of a grid of cells.
pub open spec fn cell_pins(cells: &Vec<Vec<Cell>>) -> Seq<Seq<Option<BobPinTypes>>> {
    Seq::new(cells@.len(), |i: int| Seq::new(cells@[i]@.len(), |j: int| pin_of(cells@[i]@[j])))
}

/// The tiles once `record`, a row, a column and the tile observed there, is
/// taken in. A record that names no cell of the grid changes nothing.
pub open spec fn observe(tiles: Seq<Seq<Option<Tile>>>, record: (usize, usize, Tile)) -> Seq<
    Seq<Option<Tile>>,
> {
    if record.0 < tiles.len() && record.1 < tiles[record.0 as int].len() {
        tiles.update(
            record.0 as int,
            tiles[record.0 as int].update(record.1 as int, Some(record.2)),
        )
    } else {
        tiles
    }
}

/// The tiles once every record is taken in, first to last: where two records
/// name one cell the later one stays.
pub open spec fn observe_all(
    tiles: Seq<Seq<Option<Tile>>>,
    records: Seq<(usize, usize, Tile)>,
) -> Seq<Seq<Option<Tile>>>
    decreases records.len(),
{
    if records.len() == 0 {
        tiles
    } else {
        observe(observe_all(tiles, records.drop_last()), records.last())
    }
}

/// One row after a refresh from the row that the truth holds for it: a cell
/// takes the tile of the truth and keeps its own where the truth holds none.
pub open spec fn resynced_row(row: Seq<Option<Tile>>, truth: Seq<Option<Tile>>) -> Seq<
    Option<Tile>,
> {
    Seq::new(
        row.len(),
        |j: int|
            if j < truth.len() && truth[j] is Some {
                truth[j]
            } else {
                row[j]
            },
    )
}

/// The tiles after a refresh from `truth`, row by row: no row depends on
/// another, so that the rows can be refreshed in any order or side by side.
/// A row that `truth` does not reach stays as it is.
pub open spec fn resynced(tiles: Seq<Seq<Option<Tile>>>, truth: Seq<Seq<Option<Tile>>>) -> Seq<
    Seq<Option<Tile>>,
> {
    Seq::new(
        tiles.len(),
        |i: int|
            resynced_row(
                tiles[i],
                if i < truth.len() {
                    truth[i]
                } else {
                    Seq::empty()
                },
            ),
    )
}

/// A refresh never forgets a tile: a cell that was observed before is
/// observed after.
pub proof fn lemma_resync_keeps_observed(
    tiles: Seq<Seq<Option<Tile>>>,
    truth: Seq<Seq<Option<Tile>>>,
    i: int,
    j: int,
)
    requires
        0 <= i < tiles.len(),
        0 <= j < tiles[i].len(),
        tiles[i][j] is Some,
    ensures
        resynced(tiles, truth)[i][j] is Some,
{
}

/// A second refresh from the same truth changes nothing.
pub proof fn lemma_resync_idempotent(tiles: Seq<Seq<Option<Tile>>>, truth: Seq<Seq<Option<Tile>>>)
    ensures
        resynced(resynced(tiles, truth), truth) == resynced(tiles, truth),
{
    assert(resynced(resynced(tiles, truth), truth) =~~= resynced(tiles, truth));
}

/// The pins once cell `at`, given as `(row, column)`, carries `value`.
pub open spec fn with_pin(
    pins: Seq<Seq<Option<BobPinTypes>>>,
    at: (usize, usize),
    value: Option<BobPinTypes>,
) -> Seq<Seq<Option<BobPinTypes>>> {
    pins.update(at.0 as int, pins[at.0 as int].update(at.1 as int, value))
}

/// Setting a pin and reading the cell gives that pin; clearing the cell and
/// reading it gives none; no other cell is touched either way.
pub proof fn lemma_pin_round_trip(
    pins: Seq<Seq<Option<BobPinTypes>>>,
    at: (usize, usize),
    pin: BobPinTypes,
)
    requires
        at.0 < pins.len(),
        at.1 < pins[at.0 as int].len(),
    ensures
        with_pin(pins, at, Some(pin))[at.0 as int][at.1 as int] == Some(pin),
        with_pin(pins, at, None)[at.0 as int][at.1 as int] is None,
        forall|a: int, b: int|
            0 <= a < pins.len() && 0 <= b < pins[a].len() && (a != at.0 || b != at.1) ==> {
                &&& with_pin(pins, at, Some(pin))[a][b] == pins[a][b]
                &&& with_pin(pins, at, None)[a][b] == pins[a][b]
            },
{
}

/// A grid of `rows` by `cols` cells that all hold `value`.
pub open spec fn uniform_grid<T>(rows: nat, cols: nat, value: T) -> Seq<Seq<T>> {
    Seq::new(rows, |i: int| Seq::new(cols, |j: int| value))
}

/// Another handle on the same pin, made with [`Rc`]'s `clone`.
#[verifier::external_body]
fn share(pin: &Rc<BobPinTypes>) -> (r: Rc<BobPinTypes>)
    ensures
        r == *pin,
{
    Rc::clone(pin)
}

impl BobMap {
    /// The number of rows.
    pub closed spec fn rows(&self) -> nat {
        self.map@.len()
    }

    /// The number of columns.
    pub closed spec fn cols(&self) -> nat {
        self.width as nat
    }

    /// The tile last observed in each cell.
    pub closed spec fn tiles(&self) -> Seq<Seq<Option<Tile>>> {
        cell_tiles(&self.map)
    }

    /// The pin set on each cell.
    pub closed spec fn pins(&self) -> Seq<Seq<Option<BobPinTypes>>> {
        cell_pins(&self.map)
    }

    /// The pin set on cell `at`, given as `(row, column)`.
    pub open spec fn pin_at(&self, at: (usize, usize)) -> Option<BobPinTypes> {
        self.pins()[at.0 as int][at.1 as int]
    }

    /// Whether entry `e` of the reverse index is the one for `key`.
    spec fn entry_for(&self, e: int, key: PinKey) -> bool {
        0 <= e < self.pins_location@.len() && self.pins_location@[e].0@ == key
    }

    /// For every pin in use, the cells that carry it, oldest first.
    pub closed spec fn located(&self) -> Map<PinKey, Seq<(usize, usize)>> {
        Map::new(
            |key: PinKey| exists|e: int| self.entry_for(e, key),
            |key: PinKey| self.pins_location@[choose|e: int| self.entry_for(e, key)].1@,
        )
    }

    /// Every row has the map's width.
    spec fn rectangular(&self) -> bool {
        forall|i: int| 0 <= i < self.map@.len() ==> (#[trigger] self.map@[i])@.len() == self.width
    }

    /// No pin has two entries, and no entry is empty or names a cell twice.
    spec fn index_tidy(&self) -> bool {
        &&& forall|e: int, f: int|
            0 <= e < f < self.pins_location@.len() ==> (#[trigger] self.pins_location@[e]).0@ != (
            #[trigger] self.pins_location@[f]).0@
        &&& forall|e: int|
            0 <= e < self.pins_location@.len() ==> (#[trigger] self.pins_location@[e]).1@.len() > 0
                && self.pins_location@[e].1@.no_duplicates()
    }

    /// Whether cell `(x, y)` exists and carries a pin that is `key`.
    spec fn holds(&self, x: int, y: int, key: PinKey) -> bool {
        &&& 0 <= x < self.map@.len()
        &&& 0 <= y < self.map@[x]@.len()
        &&& key_of(pin_of(self.map@[x]@[y])) == Some(key)
    }

    /// Every cell named by an entry carries that entry's pin.
    spec fn index_sound(&self) -> bool {
        forall|e: int, i: int|
            0 <= e < self.pins_location@.len() && 0 <= i < self.pins_location@[e].1@.len()
                ==> self.holds(
                (#[trigger] self.pins_location@[e].1@[i]).0 as int,
                self.pins_location@[e].1@[i].1 as int,
                self.pins_location@[e].0@,
            )
    }

    /// Every cell that carries a pin is named by that pin's entry.
    spec fn index_complete(&self) -> bool {
        forall|x: int, y: int|
            0 <= x < self.map@.len() && 0 <= y < self.map@[x]@.len() && (
            #[trigger] self.map@[x]@[y]).1 is Some ==> exists|e: int|
                self.entry_for(e, pin_of(self.map@[x]@[y])->0@)
                    && self.pins_location@[e].1@.contains((x as usize, y as usize))
    }

    /// The invariant of the map: the grid is rectangular and the reverse
    /// index names exactly the cells that carry each pin.
    pub closed spec fn wf(&self) -> bool {
        &&& self.rectangular()
        &&& self.index_tidy()
        &&& self.index_sound()
        &&& self.index_complete()
    }

    /// The entry of a key is found under that key, with its cells.
    proof fn lemma_located_entry(&self, e: int)
        requires
            self.index_tidy(),
            0 <= e < self.pins_location@.len(),
        ensures
            self.located().dom().contains(self.pins_location@[e].0@),
            self.located()[self.pins_location@[e].0@] == self.pins_location@[e].1@,
    {
        let key = self.pins_location@[e].0@;
        assert(self.entry_for(e, key));
        let c = choose|c: int| self.entry_for(c, key);
        assert(self.entry_for(c, key));
        // No two entries share a key, so that the chosen entry is this one.
        if c < e {
            assert(self.pins_location@[c].0@ != self.pins_location@[e].0@);
        }
        if e < c {
            assert(self.pins_location@[e].0@ != self.pins_location@[c].0@);
        }
    }

    /// Two maps with the same reverse index list the same cells.
    proof fn lemma_located_same(&self, other: BobMap)
        requires
            self.index_tidy(),
            self.pins_location@ == other.pins_location@,
        ensures
            self.located() == other.located(),
    {
        assert forall|key: PinKey| #[trigger]
            self.located().dom().contains(key) == other.located().dom().contains(key) && (
            self.located().dom().contains(key) ==> self.located()[key] == other.located()[key]) by {
            if self.located().dom().contains(key) {
                let e = choose|e: int| self.entry_for(e, key);
                self.lemma_located_entry(e);
                other.lemma_located_entry(e);
            }
            if other.located().dom().contains(key) {
                let e = choose|e: int| other.entry_for(e, key);
                assert(self.entry_for(e, key));
            }
        }
        assert(self.located() =~= other.located());
    }

    /// Finds the entry of the reverse index that belongs to `pin`.
    fn find_entry(&self, pin: &BobPinTypes) -> (r: Option<usize>)
        ensures
            match r {
                Some(e) => self.entry_for(e as int, pin@),
                None => forall|e: int| !self.entry_for(e, pin@),
            },
    {
        let mut e: usize = 0;
        while e < self.pins_location.len()
            invariant
                e <= self.pins_location@.len(),
                forall|f: int| 0 <= f < e ==> !self.entry_for(f, pin@),
            decreases self.pins_location@.len() - e,
        {
            let same: bool = *self.pins_location[e].0 == *pin;
            if same {
                return Some(e);
            }
            e = e + 1;
        }
        None
    }

    /// Creates a map of `rows` by `cols` cells in which no cell has been
    /// observed and no cell carries a pin.
    pub fn init(rows: usize, cols: usize) -> (r: BobMap)
        ensures
            r.wf(),
            r.rows() == rows,
            r.cols() == cols,
            r.tiles() == uniform_grid::<Option<Tile>>(rows as nat, cols as nat, None),
            r.pins() == uniform_grid::<Option<BobPinTypes>>(rows as nat, cols as nat, None),
            r.located() == Map::<PinKey, Seq<(usize, usize)>>::empty(),
    {
        let mut map: Vec<Vec<Cell>> = Vec::new();
        let mut i: usize = 0;
        while i < rows
            invariant
                i <= rows,
                map@.len() == i,
                forall|a: int| 0 <= a < i ==> (#[trigger] map@[a])@.len() == cols,
                forall|a: int, b: int|
                    0 <= a < i && 0 <= b < cols ==> (#[trigger] map@[a]@[b]) == (
                        None::<Tile>,
                        None::<Rc<BobPinTypes>>,
                    ),
            decreases rows - i,
        {
            let mut row: Vec<Cell> = Vec::new();
            let mut j: usize = 0;
            while j < cols
                invariant
                    j <= cols,
                    row@.len() == j,
                    forall|b: int|
                        0 <= b < j ==> (#[trigger] row@[b]) == (
                            None::<Tile>,
                            None::<Rc<BobPinTypes>>,
                        ),
                decreases cols - j,
            {
                row.push((None, None));
                j = j + 1;
            }
            map.push(row);
            i = i + 1;
        }
        let r = BobMap { map, pins_location: Vec::new(), width: cols };
        proof {
            assert(r.tiles() =~~= uniform_grid::<Option<Tile>>(rows as nat, cols as nat, None));
            assert(r.pins() =~~= uniform_grid::<Option<BobPinTypes>>(
                rows as nat,
                cols as nat,
                None,
            ));
            assert(r.located() =~= Map::<PinKey, Seq<(usize, usize)>>::empty());
        }
        r
    }

    /// Returns the pin of cell `at`, given as `(row, column)`, or `None` where
    /// the cell has none.
    pub fn get_pin(&self, at: (usize, usize)) -> (r: Option<Rc<BobPinTypes>>)
        requires
            self.wf(),
            at.0 < self.rows(),
            at.1 < self.cols(),
        ensures
            match r {
                Some(pin) => self.pin_at(at) == Some(*pin),
                None => self.pin_at(at) is None,
            },
    {
        match &self.map[at.0][at.1].1 {
            Some(pin) => Some(share(pin)),
            None => None,
        }
    }

    /// Sets `pin` on cell `at`, given as `(row, column)`.
    ///
    /// A cell carries at most one pin: on a cell that has one already the
    /// call fails with [`BobErr::PinAlreadySet`] and changes nothing.
    /// Otherwise the cell carries `pin` afterwards and comes last among the
    /// cells listed for it.
    pub fn add_pin(&mut self, pin: BobPinTypes, at: (usize, usize)) -> (r: Result<(), BobErr>)
        requires
            old(self).wf(),
            at.0 < old(self).rows(),
            at.1 < old(self).cols(),
        ensures
            final(self).wf(),
            final(self).rows() == old(self).rows(),
            final(self).cols() == old(self).cols(),
            final(self).tiles() == old(self).tiles(),
            match old(self).pin_at(at) {
                Some(_) => {
                    &&& r == Err::<(), BobErr>(BobErr::PinAlreadySet)
                    &&& final(self).pins() == old(self).pins()
                    &&& final(self).located() == old(self).located()
                },
                None => {
                    &&& r == Ok::<(), BobErr>(())
                    &&& final(self).pins() == with_pin(old(self).pins(), at, Some(pin))
                    &&& final(self).located() == old(self).located().insert(
                        pin@,
                        listed(old(self).located(), pin@).push(at),
                    )
                },
            },
    {
        let x: usize = at.0;
        let y: usize = at.1;
        if self.map[x][y].1.is_some() {
            return Err(BobErr::PinAlreadySet);
        }
        let ghost before = *self;
        let shared: Rc<BobPinTypes> = Rc::new(pin);
        let found: Option<usize> = self.find_entry(&shared);
        match found {
            Some(e) => {
                self.pins_location[e].1.push((x, y));
            },
            None => {
                let mut cells: Vec<(usize, usize)> = Vec::new();
                cells.push((x, y));
                self.pins_location.push((share(&shared), cells));
            },
        }
        self.map[x][y].1 = Some(shared);
        proof {
            before.lemma_after_add(*self, pin, x, y, found);
        }
        Ok(())
    }

    /// What `add_pin` leaves behind on a cell without a pin.
    proof fn lemma_after_add(
        &self,
        after: BobMap,
        pin: BobPinTypes,
        x: usize,
        y: usize,
        found: Option<usize>,
    )
        requires
            self.wf(),
            x < self.map@.len(),
            y < self.width,
            self.map@[x as int]@[y as int].1 is None,
            match found {
                Some(e) => self.entry_for(e as int, pin@),
                None => forall|e: int| !self.entry_for(e, pin@),
            },
            after.width == self.width,
            after.map@.len() == self.map@.len(),
            forall|i: int| 0 <= i < self.map@.len() && i != x ==> after.map@[i] == self.map@[i],
            after.map@[x as int]@.len() == self.map@[x as int]@.len(),
            forall|j: int|
                0 <= j < self.map@[x as int]@.len() && j != y ==> after.map@[x as int]@[j]
                    == self.map@[x as int]@[j],
            after.map@[x as int]@[y as int].0 == self.map@[x as int]@[y as int].0,
            pin_of(after.map@[x as int]@[y as int]) == Some(pin),
            match found {
                Some(e) => {
                    &&& after.pins_location@.len() == self.pins_location@.len()
                    &&& forall|f: int|
                        0 <= f < self.pins_location@.len() && f != e ==> after.pins_location@[f]
                            == self.pins_location@[f]
                    &&& after.pins_location@[e as int].0 == self.pins_location@[e as int].0
                    &&& after.pins_location@[e as int].1@ == self.pins_location@[e as int].1@.push(
                        (x, y),
                    )
                },
                None => {
                    &&& after.pins_location@.len() == self.pins_location@.len() + 1
                    &&& forall|f: int|
                        0 <= f < self.pins_location@.len() ==> after.pins_location@[f]
                            == self.pins_location@[f]
                    &&& after.pins_location@[self.pins_location@.len() as int].0@ == pin@
                    &&& after.pins_location@[self.pins_location@.len() as int].1@ == seq![
                        (x, y),
                    ]
                },
            },
        ensures
            after.wf(),
            after.tiles() == self.tiles(),
            after.pins() == self.pins().update(
                x as int,
                self.pins()[x as int].update(y as int, Some(pin)),
            ),
            after.located() == self.located().insert(
                pin@,
                listed(self.located(), pin@).push((x, y)),
            ),
    {
        let at = (x, y);
        let n = self.pins_location@.len() as int;
        let slot: int = match found {
            Some(e) => e as int,
            None => n,
        };
        assert(after.index_tidy()) by {
            assert forall|e: int, f: int| 0 <= e < f < after.pins_location@.len() implies (
            #[trigger] after.pins_location@[e]).0@ != (#[trigger] after.pins_location@[f]).0@ by {
                if f >= n {
                    assert(!self.entry_for(e, pin@));
                }
            }
            assert forall|e: int| 0 <= e < after.pins_location@.len() implies (
            #[trigger] after.pins_location@[e]).1@.len() > 0
                && after.pins_location@[e].1@.no_duplicates() by {
                if e < n {
                    assert(self.pins_location@[e].1@.len() > 0);
                    if e == slot {
                        let old_cells = self.pins_location@[e].1@;
                        let new_cells = after.pins_location@[e].1@;
                        assert forall|i: int, j: int|
                            0 <= i < new_cells.len() && 0 <= j < new_cells.len() && i
                                != j implies new_cells[i] != new_cells[j] by {
                            // The cell carried no pin, so that no entry named it.
                            if i < old_cells.len() {
                                assert(old_cells[i] != at);
                            }
                            if j < old_cells.len() {
                                assert(old_cells[j] != at);
                            }
                        }
                    }
                }
            }
        }
        assert(after.index_sound()) by {
            assert forall|e: int, i: int|
                0 <= e < after.pins_location@.len() && 0 <= i < after.pins_location@[e].1@.len()
                    implies after.holds(
                (#[trigger] after.pins_location@[e].1@[i]).0 as int,
                after.pins_location@[e].1@[i].1 as int,
                after.pins_location@[e].0@,
            ) by {
                let cell = after.pins_location@[e].1@[i];
                if e < n && i < self.pins_location@[e].1@.len() {
                    assert(cell != at);
                    if cell.0 as int != x {
                        assert(after.map@[cell.0 as int] == self.map@[cell.0 as int]);
                    }
                } else {
                    assert(cell == at);
                }
            }
        }
        assert(after.index_complete()) by {
            assert forall|a: int, b: int|
                0 <= a < after.map@.len() && 0 <= b < after.map@[a]@.len() && (
                #[trigger] after.map@[a]@[b]).1 is Some implies exists|e: int|
                after.entry_for(e, pin_of(after.map@[a]@[b])->0@)
                    && after.pins_location@[e].1@.contains((a as usize, b as usize)) by {
                if a == x && b == y {
                    assert(after.entry_for(slot, pin@));
                    let last = after.pins_location@[slot].1@.len() - 1;
                    assert(after.pins_location@[slot].1@[last] == at);
                } else {
                    let key = pin_of(self.map@[a]@[b])->0@;
                    let e = choose|e: int|
                        self.entry_for(e, key) && self.pins_location@[e].1@.contains(
                            (a as usize, b as usize),
                        );
                    let i = choose|i: int|
                        0 <= i < self.pins_location@[e].1@.len()
                            && self.pins_location@[e].1@[i] == (a as usize, b as usize);
                    assert(after.pins_location@[e].1@[i] == (a as usize, b as usize));
                    assert(after.entry_for(e, key));
                }
            }
        }
        assert(after.tiles() =~~= self.tiles());
        assert(after.pins() =~~= self.pins().update(
            x as int,
            self.pins()[x as int].update(y as int, Some(pin)),
        ));
        let expected = self.located().insert(pin@, listed(self.located(), pin@).push(at));
        assert forall|key: PinKey| #[trigger]
            after.located().dom().contains(key) == expected.dom().contains(key) && (
            after.located().dom().contains(key) ==> after.located()[key] == expected[key]) by {
            if key == pin@ {
                after.lemma_located_entry(slot);
                if found is Some {
                    self.lemma_located_entry(slot);
                } else {
                    assert(after.pins_location@[slot].1@ =~= Seq::<(usize, usize)>::empty().push(
                        at,
                    ));
                }
            } else {
                if self.located().dom().contains(key) {
                    let e = choose|e: int| self.entry_for(e, key);
                    self.lemma_located_entry(e);
                    assert(after.pins_location@[e] == self.pins_location@[e]);
                    after.lemma_located_entry(e);
                }
                if after.located().dom().contains(key) {
                    let e = choose|e: int| after.entry_for(e, key);
                    assert(self.entry_for(e, key));
                }
            }
        }
    }

    /// Finds where `at` stands in a list of cells.
    fn find_cell(cells: &Vec<(usize, usize)>, at: (usize, usize)) -> (r: Option<usize>)
        ensures
            match r {
                Some(i) => i < cells@.len() && cells@[i as int] == at,
                None => !cells@.contains(at),
            },
    {
        let mut i: usize = 0;
        while i < cells.len()
            invariant
                i <= cells@.len(),
                forall|j: int| 0 <= j < i ==> cells@[j] != at,
            decreases cells@.len() - i,
        {
            if cells[i].0 == at.0 && cells[i].1 == at.1 {
                return Some(i);
            }
            i = i + 1;
        }
        None
    }

    /// Removes the pin of cell `at`, given as `(row, column)`.
    ///
    /// On a cell without a pin the call fails with [`BobErr::EmptyTile`] and
    /// changes nothing. Otherwise the cell carries no pin afterwards and is no
    /// longer listed for the pin it carried; a pin that no cell carries any
    /// more can no longer be found.
    pub fn delete_pin(&mut self, at: (usize, usize)) -> (r: Result<(), BobErr>)
        requires
            old(self).wf(),
            at.0 < old(self).rows(),
            at.1 < old(self).cols(),
        ensures
            final(self).wf(),
            final(self).rows() == old(self).rows(),
            final(self).cols() == old(self).cols(),
            final(self).tiles() == old(self).tiles(),
            match old(self).pin_at(at) {
                Some(pin) => {
                    &&& r == Ok::<(), BobErr>(())
                    &&& final(self).pins() == with_pin(old(self).pins(), at, None)
                    &&& final(self).located() == unlisted(old(self).located(), pin@, at)
                },
                None => {
                    &&& r == Err::<(), BobErr>(BobErr::EmptyTile)
                    &&& final(self).pins() == old(self).pins()
                    &&& final(self).located() == old(self).located()
                },
            },
    {
        let x: usize = at.0;
        let y: usize = at.1;
        if self.map[x][y].1.is_none() {
            return Err(BobErr::EmptyTile);
        }
        let ghost before = *self;
        let found: Option<usize> = match &self.map[x][y].1 {
            Some(pin) => self.find_entry(pin),
            None => None,
        };
        proof {
            before.lemma_pinned_cell_is_listed(x, y);
        }
        if let Some(e) = found {
            proof {
                before.lemma_located_entry(e as int);
            }
            if let Some(i) = Self::find_cell(&self.pins_location[e].1, at) {
                self.pins_location[e].1.remove(i);
                if self.pins_location[e].1.len() == 0 {
                    self.pins_location.remove(e);
                }
                self.map[x][y].1 = None;
                proof {
                    if before.pins_location@[e as int].1@.len() == 1 {
                        assert(self.pins_location@ =~= before.pins_location@.remove(e as int));
                    }
                    before.lemma_after_delete(*self, x, y, e as int, i as int);
                }
            }
        }
        Ok(())
    }

    /// A cell that carries a pin is listed under that pin.
    proof fn lemma_pinned_cell_is_listed(&self, x: usize, y: usize)
        requires
            self.wf(),
            x < self.map@.len(),
            y < self.map@[x as int]@.len(),
            self.map@[x as int]@[y as int].1 is Some,
        ensures
            self.located().dom().contains(pin_of(self.map@[x as int]@[y as int])->0@),
            self.located()[pin_of(self.map@[x as int]@[y as int])->0@].contains((x, y)),
            exists|e: int| self.entry_for(e, pin_of(self.map@[x as int]@[y as int])->0@),
    {
        let key = pin_of(self.map@[x as int]@[y as int])->0@;
        let e = choose|e: int|
            self.entry_for(e, key) && self.pins_location@[e].1@.contains((x, y));
        self.lemma_located_entry(e);
    }

    /// What `delete_pin` leaves behind on a cell with a pin.
    proof fn lemma_after_delete(&self, after: BobMap, x: usize, y: usize, e: int, i: int)
        requires
            self.wf(),
            x < self.map@.len(),
            y < self.width,
            self.map@[x as int]@[y as int].1 is Some,
            self.entry_for(e, pin_of(self.map@[x as int]@[y as int])->0@),
            0 <= i < self.pins_location@[e].1@.len(),
            self.pins_location@[e].1@[i] == (x, y),
            after.width == self.width,
            after.map@.len() == self.map@.len(),
            forall|a: int| 0 <= a < self.map@.len() && a != x ==> after.map@[a] == self.map@[a],
            after.map@[x as int]@.len() == self.map@[x as int]@.len(),
            forall|b: int|
                0 <= b < self.map@[x as int]@.len() && b != y ==> after.map@[x as int]@[b]
                    == self.map@[x as int]@[b],
            after.map@[x as int]@[y as int].0 == self.map@[x as int]@[y as int].0,
            after.map@[x as int]@[y as int].1 is None,
            if self.pins_location@[e].1@.len() == 1 {
                after.pins_location@ == self.pins_location@.remove(e)
            } else {
                &&& after.pins_location@.len() == self.pins_location@.len()
                &&& forall|f: int|
                    0 <= f < self.pins_location@.len() && f != e ==> after.pins_location@[f]
                        == self.pins_location@[f]
                &&& after.pins_location@[e].0 == self.pins_location@[e].0
                &&& after.pins_location@[e].1@ == self.pins_location@[e].1@.remove(i)
            },
        ensures
            after.wf(),
            after.tiles() == self.tiles(),
            after.pins() == self.pins().update(
                x as int,
                self.pins()[x as int].update(y as int, None),
            ),
            after.located() == unlisted(
                self.located(),
                pin_of(self.map@[x as int]@[y as int])->0@,
                (x, y),
            ),
    {
        let at = (x, y);
        let n = self.pins_location@.len() as int;
        let pinned = pin_of(self.map@[x as int]@[y as int])->0@;
        let cells = self.pins_location@[e].1@;
        let dropped = cells.len() == 1;
        let rest = cells.remove(i);
        // Where an entry of the new index stood in the old one.
        let origin = |f: int| if dropped && f >= e { f + 1 } else { f };
        assert(cells.no_duplicates());
        assert forall|f: int| 0 <= f < after.pins_location@.len() implies 0 <= origin(f) < n
            && after.pins_location@[f].0 == self.pins_location@[origin(f)].0 && (origin(f) != e
            ==> after.pins_location@[f] == self.pins_location@[origin(f)]) && (origin(f) == e
            ==> after.pins_location@[f].1@ == rest) by {}
        // What stays listed under the pin, none of it the cell itself.
        assert forall|j: int| 0 <= j < rest.len() implies rest[j] == cells[if j < i {
            j
        } else {
            j + 1
        }] && rest[j] != at by {}
        assert(after.index_sound());
        assert(after.index_complete()) by {
            vstd::std_specs::vec::axiom_spec_len(&self.map);
            assert forall|a: int, b: int|
                0 <= a < after.map@.len() && 0 <= b < after.map@[a]@.len() && (
                #[trigger] after.map@[a]@[b]).1 is Some implies exists|f: int|
                after.entry_for(f, pin_of(after.map@[a]@[b])->0@)
                    && after.pins_location@[f].1@.contains((a as usize, b as usize)) by {
                assert(after.map@[a]@[b] == self.map@[a]@[b]);
                let key = pin_of(self.map@[a]@[b])->0@;
                let cell = (a as usize, b as usize);
                let o = choose|o: int|
                    self.entry_for(o, key) && self.pins_location@[o].1@.contains(cell);
                let k = choose|k: int|
                    0 <= k < self.pins_location@[o].1@.len() && self.pins_location@[o].1@[k]
                        == cell;
                let f = if dropped && o > e {
                    o - 1
                } else {
                    o
                };
                let j = if o == e && k > i {
                    k - 1
                } else {
                    k
                };
                assert(after.pins_location@[f].1@[j] == cell);
                assert(after.entry_for(f, key));
            }
        }
        assert(after.tiles() =~~= self.tiles()) by {
            assert forall|a: int| 0 <= a < self.map@.len() implies #[trigger] after.tiles()[a]
                =~= self.tiles()[a] by {}
        }
        assert(after.pins() =~~= self.pins().update(
            x as int,
            self.pins()[x as int].update(y as int, None),
        )) by {
            assert forall|a: int| 0 <= a < self.map@.len() implies #[trigger] after.pins()[a]
                =~= with_pin(self.pins(), at, None)[a] by {
                if a != x {
                    assert(after.map@[a] == self.map@[a]);
                }
            }
        }
        self.lemma_located_entry(e);
        assert(listed(self.located(), pinned) == cells);
        let expected = unlisted(self.located(), pinned, at);
        assert forall|key: PinKey| #[trigger]
            after.located().dom().contains(key) == expected.dom().contains(key) && (
            after.located().dom().contains(key) ==> after.located()[key] == expected[key]) by {
            if after.located().dom().contains(key) {
                let f = choose|f: int| after.entry_for(f, key);
                after.lemma_located_entry(f);
                self.lemma_located_entry(origin(f));
            }
            if expected.dom().contains(key) {
                let o = choose|o: int| self.entry_for(o, key);
                self.lemma_located_entry(o);
                let f = if dropped && o > e {
                    o - 1
                } else {
                    o
                };
                assert(origin(f) == o);
                after.lemma_located_entry(f);
            }
        }
        assert(after.located() =~= expected);
    }

    /// Lists the cells that carry `pin`, in the order in which they were
    /// pinned, or fails with [`BobErr::PinNotFound`] where no cell carries it.
    pub fn search_pin(&self, pin: BobPinTypes) -> (r: Result<Vec<(usize, usize)>, BobErr>)
        requires
            self.wf(),
        ensures
            match r {
                Ok(cells) => self.located().dom().contains(pin@) && cells@ == self.located()[pin@],
                Err(e) => e == BobErr::PinNotFound && !self.located().dom().contains(pin@),
            },
            r matches Ok(cells) ==> cells@.len() > 0 && cells@.no_duplicates(),
            forall|x: usize, y: usize|
                (r matches Ok(cells) && cells@.contains((x, y))) <==> (x < self.rows() && y
                    < self.cols() && key_of(#[trigger] self.pin_at((x, y))) == Some(pin@)),
    {
        proof {
            assert forall|x: usize, y: usize|
                (self.located().dom().contains(pin@) && self.located()[pin@].contains((x, y)))
                    <==> (x < self.rows() && y < self.cols() && key_of(
                    #[trigger] self.pin_at((x, y)),
                ) == Some(pin@)) by {
                self.lemma_located_exact(pin@, (x, y));
            }
            if self.located().dom().contains(pin@) {
                self.lemma_located_exact(pin@, (0, 0));
            }
        }
        match self.find_entry(&pin) {
            Some(e) => {
                proof {
                    self.lemma_located_entry(e as int);
                }
                let listed: &Vec<(usize, usize)> = &self.pins_location[e].1;
                let mut cells: Vec<(usize, usize)> = Vec::new();
                let mut i: usize = 0;
                while i < listed.len()
                    invariant
                        i <= listed@.len(),
                        cells@ == listed@.take(i as int),
                    decreases listed@.len() - i,
                {
                    cells.push(listed[i]);
                    assert(listed@.take(i as int).push(listed@[i as int]) =~= listed@.take(
                        i as int + 1,
                    ));
                    i = i + 1;
                }
                assert(listed@.take(listed@.len() as int) =~= listed@);
                Ok(cells)
            },
            None => Err(BobErr::PinNotFound),
        }
    }

    /// A map's grids have its dimensions, which an index can count.
    pub proof fn lemma_shape(&self)
        requires
            self.wf(),
        ensures
            self.rows() <= usize::MAX,
            self.cols() <= usize::MAX,
            self.tiles().len() == self.rows(),
            self.pins().len() == self.rows(),
            forall|i: int|
                0 <= i < self.rows() ==> (#[trigger] self.tiles()[i]).len() == self.cols(),
            forall|i: int|
                0 <= i < self.rows() ==> (#[trigger] self.pins()[i]).len() == self.cols(),
    {
        vstd::std_specs::vec::axiom_spec_len(&self.map);
    }

    /// The reverse index and the grid agree: a cell is listed under a pin
    /// exactly when it carries that pin, no cell is listed twice, and no pin is
    /// listed without a cell.
    pub proof fn lemma_located_exact(&self, key: PinKey, at: (usize, usize))
        requires
            self.wf(),
        ensures
            (self.located().dom().contains(key) && self.located()[key].contains(at)) <==> (at.0
                < self.rows() && at.1 < self.cols() && key_of(self.pin_at(at)) == Some(key)),
            self.located().dom().contains(key) ==> self.located()[key].len() > 0
                && self.located()[key].no_duplicates(),
    {
        if self.located().dom().contains(key) {
            let e = choose|e: int| self.entry_for(e, key);
            self.lemma_located_entry(e);
        }
        if at.0 < self.rows() && at.1 < self.cols() && key_of(self.pin_at(at)) == Some(key) {
            self.lemma_pinned_cell_is_listed(at.0, at.1);
        }
    }

    /// Records `tile` as the last observation of cell `(x, y)`.
    fn set_tile(&mut self, x: usize, y: usize, tile: Tile)
        requires
            old(self).wf(),
            x < old(self).rows(),
            y < old(self).cols(),
        ensures
            final(self).wf(),
            final(self).rows() == old(self).rows(),
            final(self).cols() == old(self).cols(),
            final(self).tiles() == old(self).tiles().update(
                x as int,
                old(self).tiles()[x as int].update(y as int, Some(tile)),
            ),
            final(self).pins() == old(self).pins(),
            final(self).located() == old(self).located(),
    {
        let ghost before = *self;
        self.map[x][y].0 = Some(tile);
        proof {
            let after = *self;
            assert(after.index_complete()) by {
                assert forall|a: int, b: int|
                    0 <= a < after.map@.len() && 0 <= b < after.map@[a]@.len() && (
                    #[trigger] after.map@[a]@[b]).1 is Some implies exists|e: int|
                    after.entry_for(e, pin_of(after.map@[a]@[b])->0@)
                        && after.pins_location@[e].1@.contains((a as usize, b as usize)) by {
                    let e = choose|e: int|
                        before.entry_for(e, pin_of(before.map@[a]@[b])->0@)
                            && before.pins_location@[e].1@.contains((a as usize, b as usize));
                    assert(after.entry_for(e, pin_of(after.map@[a]@[b])->0@));
                }
            }
            assert(after.tiles() =~~= before.tiles().update(
                x as int,
                before.tiles()[x as int].update(y as int, Some(tile)),
            ));
            assert(after.pins() =~~= before.pins());
            after.lemma_located_same(before);
        }
    }

    /// Takes in a batch of observations, each a row, a column and the tile
    /// seen there, in order: the tile replaces whatever the cell held. A
    /// record that names no cell of the map is passed over, so that nothing
    /// is ever written outside the grid. Pins are not touched.
    pub fn update(&mut self, coordinates: Vec<(usize, usize, Tile)>)
        requires
            old(self).wf(),
        ensures
            final(self).wf(),
            final(self).rows() == old(self).rows(),
            final(self).cols() == old(self).cols(),
            final(self).tiles() == observe_all(old(self).tiles(), coordinates@),
            final(self).pins() == old(self).pins(),
            final(self).located() == old(self).located(),
    {
        let ghost before = *self;
        let rows: usize = self.map.len();
        let mut k: usize = 0;
        while k < coordinates.len()
            invariant
                k <= coordinates@.len(),
                self.wf(),
                rows == self.rows(),
                self.rows() == before.rows(),
                self.cols() == before.cols(),
                self.tiles() == observe_all(before.tiles(), coordinates@.take(k as int)),
                self.pins() == before.pins(),
                self.located() == before.located(),
            decreases coordinates@.len() - k,
        {
            let record: (usize, usize, Tile) = coordinates[k];
            proof {
                self.lemma_shape();
                assert(coordinates@.take(k as int + 1).drop_last() =~= coordinates@.take(k as int));
            }
            if record.0 < rows && record.1 < self.width {
                self.set_tile(record.0, record.1, record.2);
            }
            k = k + 1;
        }
        assert(coordinates@.take(coordinates@.len() as int) =~= coordinates@);
    }

    /// Refreshes every cell from `truth`, the host's own record of what has
    /// been discovered: a cell takes the tile that `truth` holds for it and
    /// keeps its own where `truth` holds none or does not reach. This is the
    /// slow path; pins are not touched.
    pub fn auto_update(&mut self, truth: &Vec<Vec<Option<Tile>>>)
        requires
            old(self).wf(),
        ensures
            final(self).wf(),
            final(self).rows() == old(self).rows(),
            final(self).cols() == old(self).cols(),
            final(self).tiles() == resynced(old(self).tiles(), grid_view(truth)),
            final(self).pins() == old(self).pins(),
            final(self).located() == old(self).located(),
    {
        let ghost before = *self;
        let ghost goal = resynced(before.tiles(), grid_view(truth));
        let rows: usize = self.map.len();
        let cols: usize = self.width;
        let mut i: usize = 0;
        while i < rows
            invariant
                i <= rows,
                self.wf(),
                rows == self.rows(),
                cols == self.cols(),
                self.rows() == before.rows(),
                self.cols() == before.cols(),
                self.pins() == before.pins(),
                self.located() == before.located(),
                goal == resynced(before.tiles(), grid_view(truth)),
                before.tiles().len() == rows,
                self.tiles().len() == rows,
                forall|a: int| 0 <= a < rows ==> (#[trigger] before.tiles()[a]).len() == cols,
                forall|a: int| 0 <= a < rows ==> (#[trigger] self.tiles()[a]).len() == cols,
                forall|a: int, b: int|
                    0 <= a < rows && 0 <= b < cols ==> (#[trigger] self.tiles()[a][b]) == if a < i {
                        goal[a][b]
                    } else {
                        before.tiles()[a][b]
                    },
            decreases rows - i,
        {
            let mut j: usize = 0;
            while j < cols
                invariant
                    i < rows,
                    j <= cols,
                    self.wf(),
                    rows == self.rows(),
                    cols == self.cols(),
                    self.rows() == before.rows(),
                    self.cols() == before.cols(),
                    self.pins() == before.pins(),
                    self.located() == before.located(),
                    goal == resynced(before.tiles(), grid_view(truth)),
                    before.tiles().len() == rows,
                    self.tiles().len() == rows,
                    forall|a: int| 0 <= a < rows ==> (#[trigger] before.tiles()[a]).len() == cols,
                    forall|a: int| 0 <= a < rows ==> (#[trigger] self.tiles()[a]).len() == cols,
                    forall|a: int, b: int|
                        0 <= a < rows && 0 <= b < cols ==> (#[trigger] self.tiles()[a][b]) == if a
                            < i || (a == i && b < j) {
                            goal[a][b]
                        } else {
                            before.tiles()[a][b]
                        },
                decreases cols - j,
            {
                if let Some(tile) = tile_at(truth, i, j) {
                    self.set_tile(i, j, tile);
                }
                j = j + 1;
            }
            i = i + 1;
        }
        assert(self.tiles() =~~= goal);
    }

    /// Hands out the grid of cells, tiles and pins together. With
    /// [`BobMapFlag::TilesUpdated`] every cell is refreshed from `truth`
    /// first, as [`BobMap::auto_update`] does; with
    /// [`BobMapFlag::NoTileUpdated`] nothing changes.
    pub fn get_map(&mut self, truth: &Vec<Vec<Option<Tile>>>, flag: BobMapFlag) -> (r: &Vec<
        Vec<Cell>,
    >)
        requires
            old(self).wf(),
        ensures
            final(self).wf(),
            final(self).rows() == old(self).rows(),
            final(self).cols() == old(self).cols(),
            final(self).tiles() == if flag == BobMapFlag::TilesUpdated {
                resynced(old(self).tiles(), grid_view(truth))
            } else {
                old(self).tiles()
            },
            final(self).pins() == old(self).pins(),
            final(self).located() == old(self).located(),
            cell_tiles(r) == final(self).tiles(),
            cell_pins(r) == final(self).pins(),
    {
        if flag == BobMapFlag::TilesUpdated {
            self.auto_update(truth);
        }
        &self.map
    }

    /// Copies out the tiles, for a planner to read.
    pub fn known_tiles(&self) -> (r: Vec<Vec<Option<Tile>>>)
        ensures
            grid_view(&r) == self.tiles(),
    {
        let mut out: Vec<Vec<Option<Tile>>> = Vec::new();
        let mut i: usize = 0;
        while i < self.map.len()
            invariant
                i <= self.map@.len(),
                out@.len() == i,
                forall|a: int|
                    0 <= a < i ==> (#[trigger] out@[a])@ == Seq::new(
                        self.map@[a]@.len(),
                        |j: int| self.map@[a]@[j].0,
                    ),
            decreases self.map@.len() - i,
        {
            let line: &Vec<Cell> = &self.map[i];
            let mut row: Vec<Option<Tile>> = Vec::new();
            let mut j: usize = 0;
            while j < line.len()
                invariant
                    j <= line@.len(),
                    row@.len() == j,
                    forall|b: int| 0 <= b < j ==> (#[trigger] row@[b]) == line@[b].0,
                decreases line@.len() - j,
            {
                row.push(line[j].0);
                j = j + 1;
            }
            out.push(row);
            i = i + 1;
        }
        out
    }
}

} // verus!
