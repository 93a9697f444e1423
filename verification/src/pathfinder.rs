//! Route planning over the remembered tiles under two budgets that deplete
//! together: energy and carried material.

use vstd::prelude::*;
use crate::cost::{
    edge_cost, energy_term, energy_weight, get_edge_cost, material_term, material_weight, Ratio,
    WEIGHT_MAX,
};
use crate::tile::{grid_view, in_grid, neighbor, neighbor_of, tile_at, Direction, Tile};

verus! {

/// Which resource a plan tries hardest to spare.
#[derive(Clone, Copy, Debug, PartialEq, Eq, Structural, Hash)]
pub enum BobMode {
    /// Weigh a step by the energy it spends.
    EnergySave,
    /// Weigh a step by the material it consumes.
    MaterialSave,
    /// Weigh a step by both.
    AllOut,
}

/// How steps are weighed and how much material can be carried. The relation
/// is fixed when the plan is made and stays the same along every route.
#[derive(Clone, Copy, Debug, PartialEq, Eq, Structural)]
pub struct Policy {
    pub mode: BobMode,
    pub relation: Ratio,
    pub material_cap: usize,
}

/// A search state: a cell together with what is left of both budgets on
/// arrival there.
#[derive(Clone, Copy, Debug, PartialEq, Eq, Structural, Hash)]
pub struct Node {
    pub row: usize,
    pub col: usize,
    pub energy: usize,
    pub rocks: usize,
}

/// The price of stepping onto `(row, col)`: `None` outside the grid, on a cell
/// not yet observed and on terrain that cannot be entered.
pub open spec fn cell_cost(grid: Seq<Seq<Option<Tile>>>, row: int, col: int) -> Option<(int, int)> {
    if in_grid(grid, row, col) {
        match grid[row][col] {
            Some(tile) => edge_cost(tile.tile_type),
            None => None,
        }
    } else {
        None
    }
}

/// The weight of a step that costs `energy` and changes the carried material
/// by `material`. Each part is rounded and cannot fall below zero; the sum of
/// both saturates at [`WEIGHT_MAX`].
pub open spec fn step_weight(policy: Policy, energy: int, material: int) -> nat {
    match policy.mode {
        BobMode::EnergySave => energy_term(energy, policy.relation),
        BobMode::MaterialSave => material_term(material, policy.relation),
        BobMode::AllOut => {
            let sum = energy_term(energy, policy.relation) + material_term(
                material,
                policy.relation,
            );
            if sum > WEIGHT_MAX {
                WEIGHT_MAX as nat
            } else {
                sum
            }
        },
    }
}

/// The material carried after a step that changes it by `material`, never
/// more than the cap.
pub open spec fn rocks_after(rocks: int, material: int, cap: int) -> int {
    if rocks - material > cap {
        cap
    } else {
        rocks - material
    }
}

/// The state reached from `from` by one step in direction `dir`, with the
/// weight of that step. There is no such step when the neighbour cannot be
/// entered, when the energy left does not pay for it, when it would take
/// more material than is carried, or when no index could name the neighbour.
pub open spec fn step(
    grid: Seq<Seq<Option<Tile>>>,
    policy: Policy,
    from: Node,
    dir: Direction,
) -> Option<(Node, u128)> {
    let (row, col) = neighbor(from.row as int, from.col as int, dir);
    match cell_cost(grid, row, col) {
        Some((energy, material)) => {
            if from.energy >= energy && from.rocks >= material && row <= usize::MAX && col
                <= usize::MAX {
                Some(
                    (
                        Node {
                            row: row as usize,
                            col: col as usize,
                            energy: (from.energy - energy) as usize,
                            rocks: rocks_after(
                                from.rocks as int,
                                material,
                                policy.material_cap as int,
                            ) as usize,
                        },
                        step_weight(policy, energy, material) as u128,
                    ),
                )
            } else {
                None
            }
        },
        None => None,
    }
}

/// The step in direction `dir` as a sequence of at most one entry.
pub open spec fn steps_toward(
    grid: Seq<Seq<Option<Tile>>>,
    policy: Policy,
    from: Node,
    dir: Direction,
) -> Seq<(Node, u128)> {
    match step(grid, policy, from, dir) {
        Some(entry) => seq![entry],
        None => Seq::empty(),
    }
}

/// Every step that leaves `from`, in the fixed order up, down, left, right.
pub open spec fn successors_of(grid: Seq<Seq<Option<Tile>>>, policy: Policy, from: Node) -> Seq<
    (Node, u128),
> {
    steps_toward(grid, policy, from, Direction::Up) + steps_toward(
        grid,
        policy,
        from,
        Direction::Down,
    ) + steps_toward(grid, policy, from, Direction::Left) + steps_toward(
        grid,
        policy,
        from,
        Direction::Right,
    )
}

/// Computes the weight of a step from its two costs.
pub fn weigh_step(policy: &Policy, energy: isize, material: isize) -> (w: u64)
    ensures
        w == step_weight(*policy, energy as int, material as int),
{
    match policy.mode {
        BobMode::EnergySave => energy_weight(energy, &policy.relation),
        BobMode::MaterialSave => material_weight(material, &policy.relation),
        BobMode::AllOut => {
            let e: u64 = energy_weight(energy, &policy.relation);
            let m: u64 = material_weight(material, &policy.relation);
            match e.checked_add(m) {
                Some(sum) => sum,
                None => WEIGHT_MAX,
            }
        },
    }
}

impl Node {
    /// Whether this state stands on the cell `(row, col)`.
    pub fn is_at(&self, row: usize, col: usize) -> (r: bool)
        ensures
            r == (self.row == row && self.col == col),
    {
        self.row == row && self.col == col
    }

    /// Computes the step that leaves this state in direction `dir`, if there
    /// is one.
    pub fn successor_toward(
        &self,
        map: &Vec<Vec<Option<Tile>>>,
        policy: &Policy,
        dir: Direction,
    ) -> (r: Option<(Node, u128)>)
        ensures
            r == step(grid_view(map), *policy, *self, dir),
    {
        let (row, col): (usize, usize) = match neighbor_of(self.row, self.col, dir) {
            Some(cell) => cell,
            None => {
                return None;
            },
        };
        let tile: Tile = match tile_at(map, row, col) {
            Some(tile) => tile,
            None => {
                return None;
            },
        };
        let (energy, material): (isize, isize) = match get_edge_cost(tile.tile_type) {
            Some(cost) => cost,
            None => {
                return None;
            },
        };
        if energy < 0 || self.energy < energy as usize {
            return None;
        }
        let rocks: usize = if material >= 0 {
            if self.rocks < material as usize {
                return None;
            }
            let left: usize = self.rocks - material as usize;
            if left > policy.material_cap {
                policy.material_cap
            } else {
                left
            }
        } else {
            let gain: usize = (-material) as usize;
            if self.rocks >= policy.material_cap || gain >= policy.material_cap - self.rocks {
                policy.material_cap
            } else {
                self.rocks + gain
            }
        };
        Some(
            (
                Node { row, col, energy: self.energy - energy as usize, rocks },
                weigh_step(policy, energy, material) as u128,
            ),
        )
    }

    /// Lists every step that leaves this state, each with its weight, in the
    /// fixed order up, down, left, right.
    ///
    /// A neighbour is left out, not reported as an error, when it lies outside
    /// the grid, was never observed, cannot be entered, costs more energy than
    /// is left, or would take more material than is carried.
    pub fn successors(&self, map: &Vec<Vec<Option<Tile>>>, policy: &Policy) -> (res: Vec<
        (Node, u128),
    >)
        ensures
            res@ == successors_of(grid_view(map), *policy, *self),
    {
        let mut res: Vec<(Node, u128)> = Vec::new();
        if let Some(entry) = self.successor_toward(map, policy, Direction::Up) {
            res.push(entry);
        }
        if let Some(entry) = self.successor_toward(map, policy, Direction::Down) {
            res.push(entry);
        }
        if let Some(entry) = self.successor_toward(map, policy, Direction::Left) {
            res.push(entry);
        }
        if let Some(entry) = self.successor_toward(map, policy, Direction::Right) {
            res.push(entry);
        }
        res
    }
}

} // verus!
