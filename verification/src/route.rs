//! Planning a route: from a request to the cheapest sequence of unit steps,
//! or to the reason why there is none.

use pathfinding::prelude::dijkstra;
use vstd::prelude::*;
use crate::cost::{costs_relation, get_edge_cost, weight_ratio, Ratio};
use crate::pathfinder::{cell_cost, step, step_weight, BobMode, Node, Policy};
use crate::tile::{grid_view, tile_at, Direction, Tile};

verus! {

/// What a plan is asked for: where from, where to, what the agent has of both
/// resources, how much material it can carry, which resource to spare and how
/// heavily material counts.
#[derive(Clone, Copy, Debug, PartialEq, Eq)]
pub struct PathRequest {
    pub start: (usize, usize),
    pub target: (usize, usize),
    pub start_energy: usize,
    pub start_material: usize,
    pub material_cap: usize,
    pub mode: BobMode,
    pub weight_divider: usize,
}

/// Why no route was planned.
#[derive(Clone, Copy, Debug, PartialEq, Eq, Structural)]
pub enum PathError {
    /// No sequence of steps leads from the start to the target.
    Unreachable,
    /// The start energy cannot pay for as many steps as lie between start
    /// and target.
    InsufficientEnergy,
    /// Entering the target takes more material than is carried and than can
    /// ever be carried.
    InsufficientMaterial,
}

/// A planned route: the unit steps in order, their total weight, and what is
/// left of both resources on arrival.
#[derive(Debug, PartialEq, Eq)]
pub struct RouteResult {
    pub steps: Vec<Direction>,
    pub weight: u128,
    pub energy: usize,
    pub material: usize,
}

/// A planned route as plain values.
pub struct Plan {
    pub steps: Seq<Direction>,
    pub weight: u128,
    pub energy: usize,
    pub material: usize,
}

impl View for RouteResult {
    type V = Plan;

    open spec fn view(&self) -> Plan {
        Plan {
            steps: self.steps@,
            weight: self.weight,
            energy: self.energy,
            material: self.material,
        }
    }
}

impl Clone for RouteResult {
    /// The copy is the same plan.
    fn clone(&self) -> (r: Self)
        ensures
            r@ == self@,
    {
        let mut steps: Vec<Direction> = Vec::new();
        let mut k: usize = 0;
        while k < self.steps.len()
            invariant
                k <= self.steps@.len(),
                steps@ == self.steps@.take(k as int),
            decreases self.steps@.len() - k,
        {
            steps.push(self.steps[k]);
            assert(self.steps@.take(k as int).push(self.steps@[k as int]) =~= self.steps@.take(
                k as int + 1,
            ));
            k = k + 1;
        }
        assert(self.steps@.take(self.steps@.len() as int) =~= self.steps@);
        RouteResult { steps, weight: self.weight, energy: self.energy, material: self.material }
    }
}

/// The outcome of a plan as plain values.
pub open spec fn outcome_view(r: Result<RouteResult, PathError>) -> Result<Plan, PathError> {
    match r {
        Ok(route) => Ok(route@),
        Err(e) => Err(e),
    }
}

/// What a search gave back, as plain values.
pub open spec fn search_view(found: Option<(Vec<Node>, u128)>) -> Option<(Seq<Node>, u128)> {
    match found {
        Some((path, cost)) => Some((path@, cost)),
        None => None,
    }
}

/// The relation of a request, fixed from the budgets at the start.
pub open spec fn relation_of(request: PathRequest) -> Ratio {
    let parts = weight_ratio(
        request.start_energy as nat,
        request.start_material as nat,
        request.weight_divider as nat,
    );
    Ratio { num: parts.0 as u128, den: parts.1 as u64 }
}

/// How a request weighs steps.
pub open spec fn policy_of(request: PathRequest) -> Policy {
    Policy {
        mode: request.mode,
        relation: relation_of(request),
        material_cap: request.material_cap,
    }
}

/// The state in which a request starts.
pub open spec fn start_of(request: PathRequest) -> Node {
    Node {
        row: request.start.0,
        col: request.start.1,
        energy: request.start_energy,
        rocks: request.start_material,
    }
}

/// Whether one step leads from `from` to `to`.
pub open spec fn is_step(
    grid: Seq<Seq<Option<Tile>>>,
    policy: Policy,
    from: Node,
    to: Node,
) -> bool {
    exists|dir: Direction|
        (#[trigger] step(grid, policy, from, dir)) matches Some((next, _)) && next == to
}

/// The weight of the step that arrives at `to`.
pub open spec fn arrival_weight(grid: Seq<Seq<Option<Tile>>>, policy: Policy, to: Node) -> nat {
    match cell_cost(grid, to.row as int, to.col as int) {
        Some((energy, material)) => step_weight(policy, energy, material),
        None => 0,
    }
}

/// Whether `path` is a walk: at least one state, each reached from the one
/// before it by one step.
pub open spec fn is_route(grid: Seq<Seq<Option<Tile>>>, policy: Policy, path: Seq<Node>) -> bool {
    &&& path.len() > 0
    &&& forall|k: int|
        0 <= k < path.len() - 1 ==> is_step(grid, policy, #[trigger] path[k], path[k + 1])
}

/// The total weight of the steps of `path`.
pub open spec fn route_weight(grid: Seq<Seq<Option<Tile>>>, policy: Policy, path: Seq<Node>) -> nat
    decreases path.len(),
{
    if path.len() <= 1 {
        0
    } else {
        route_weight(grid, policy, path.drop_last()) + arrival_weight(grid, policy, path.last())
    }
}

/// Whether `path` is a walk from `start` that ends on the cell `target`.
pub open spec fn connects(
    grid: Seq<Seq<Option<Tile>>>,
    policy: Policy,
    start: Node,
    target: (usize, usize),
    path: Seq<Node>,
) -> bool {
    &&& is_route(grid, policy, path)
    &&& path[0] == start
    &&& path.last().row == target.0
    &&& path.last().col == target.1
}

/// The direction of the unit step from the cell of `from` to the cell of
/// `to`.
pub open spec fn direction_between(from: Node, to: Node) -> Direction {
    if to.row + 1 == from.row {
        Direction::Up
    } else if to.row == from.row + 1 {
        Direction::Down
    } else if to.col + 1 == from.col {
        Direction::Left
    } else {
        Direction::Right
    }
}

/// The unit steps that lead along `path`.
pub open spec fn directions_of(path: Seq<Node>) -> Seq<Direction> {
    Seq::new(
        if path.len() > 0 {
            (path.len() - 1) as nat
        } else {
            0
        },
        |k: int| direction_between(path[k], path[k + 1]),
    )
}

/// The number of unit steps between two cells when nothing is in the way.
pub open spec fn distance(from: (usize, usize), to: (usize, usize)) -> int {
    (if from.0 <= to.0 {
        to.0 - from.0
    } else {
        from.0 - to.0
    }) + (if from.1 <= to.1 {
        to.1 - from.1
    } else {
        from.1 - to.1
    })
}

/// Whether the start energy cannot pay for a route: every step costs at least
/// one energy, and there are at least as many steps as the two cells are
/// apart.
pub open spec fn insufficient_energy(request: PathRequest) -> bool {
    request.start_energy < distance(request.start, request.target)
}

/// Whether material rules a route out from the outset: start and target
/// differ, and entering the target takes more material than is carried at the
/// start and more than the cap lets anyone carry.
pub open spec fn insufficient_material(grid: Seq<Seq<Option<Tile>>>, request: PathRequest) -> bool {
    &&& request.start != request.target
    &&& cell_cost(grid, request.target.0 as int, request.target.1 as int) matches Some(
        (_, material),
    )
    &&& material > request.start_material
    &&& material > request.material_cap
}

/// The route that the search of [`dijkstra`] gives for a grid, a policy, a
/// start and a target cell.
pub uninterp spec fn dijkstra_route(
    grid: Seq<Seq<Option<Tile>>>,
    policy: Policy,
    start: Node,
    target: (usize, usize),
) -> Option<(Seq<Node>, u128)>;

/// Runs [`dijkstra`] from `start` over the steps that [`Node::successors`]
/// lists, until a state on the cell `target` is taken from the frontier.
///
/// The contract states what the search documents. A result is a walk from
/// `start` that ends on `target`, with the sum of the weights of its steps,
/// and no other such walk weighs less. Where there is no result, no walk from
/// `start` ends on `target`. The same arguments always give the same result:
/// the search keeps its frontier in a binary heap and the states it has met
/// in the order in which it met them, and draws on nothing else.
///
/// The search ends and its sums fit: every step spends energy, so that no
/// walk has more steps than `start` has energy, and a step weighs at most
/// [`crate::cost::WEIGHT_MAX`].
#[verifier::external_body]
fn search(
    start: &Node,
    map: &Vec<Vec<Option<Tile>>>,
    policy: &Policy,
    target: (usize, usize),
) -> (r: Option<(Vec<Node>, u128)>)
    ensures
        search_view(r) == dijkstra_route(grid_view(map), *policy, *start, target),
        r matches Some((path, cost)) ==> connects(grid_view(map), *policy, *start, target, path@)
            && cost == route_weight(grid_view(map), *policy, path@),
        r matches Some((_, cost)) ==> forall|other: Seq<Node>|
            #[trigger] connects(grid_view(map), *policy, *start, target, other) ==> cost
                <= route_weight(grid_view(map), *policy, other),
        r is None ==> forall|other: Seq<Node>|
            !#[trigger] connects(grid_view(map), *policy, *start, target, other),
{
    dijkstra(start, |n: &Node| n.successors(map, policy), |n: &Node| n.is_at(target.0, target.1))
}

/// What is made of a search result: a walk from the start of `request` to
/// its target becomes a plan with the steps along it and the levels of its
/// last state; anything else means that the target cannot be reached.
pub open spec fn outcome(
    grid: Seq<Seq<Option<Tile>>>,
    request: PathRequest,
    found: Option<(Seq<Node>, u128)>,
) -> Result<Plan, PathError> {
    match found {
        Some((path, cost)) => if connects(
            grid,
            policy_of(request),
            start_of(request),
            request.target,
            path,
        ) {
            Ok(
                Plan {
                    steps: directions_of(path),
                    weight: cost,
                    energy: path.last().energy,
                    material: path.last().rocks,
                },
            )
        } else {
            Err(PathError::Unreachable)
        },
        None => Err(PathError::Unreachable),
    }
}

/// A step in direction `dir` leads to a cell that lies in that direction.
pub proof fn lemma_step_direction(
    grid: Seq<Seq<Option<Tile>>>,
    policy: Policy,
    from: Node,
    dir: Direction,
)
    ensures
        step(grid, policy, from, dir) matches Some((next, _)) ==> direction_between(from, next)
            == dir,
{
}

/// The state reached from `from` by taking `steps` one after the other, or
/// `None` where one of them cannot be taken.
pub open spec fn walk(
    grid: Seq<Seq<Option<Tile>>>,
    policy: Policy,
    from: Node,
    steps: Seq<Direction>,
) -> Option<Node>
    decreases steps.len(),
{
    if steps.len() == 0 {
        Some(from)
    } else {
        match walk(grid, policy, from, steps.drop_last()) {
            Some(before) => match step(grid, policy, before, steps.last()) {
                Some((next, _)) => Some(next),
                None => None,
            },
            None => None,
        }
    }
}

/// The steps along a walk can be taken one after the other: from each state
/// of the walk, the step in the direction listed for it leads to the next.
pub proof fn lemma_steps_follow_route(
    grid: Seq<Seq<Option<Tile>>>,
    policy: Policy,
    path: Seq<Node>,
    k: int,
)
    requires
        is_route(grid, policy, path),
        0 <= k < path.len() - 1,
    ensures
        directions_of(path).len() == path.len() - 1,
        step(grid, policy, path[k], directions_of(path)[k]) matches Some((next, _)) && next
            == path[k + 1],
{
    assert(is_step(grid, policy, path[k], path[k + 1]));
    let dir = choose|dir: Direction|
        (#[trigger] step(grid, policy, path[k], dir)) matches Some((next, _)) && next == path[k
            + 1];
    lemma_step_direction(grid, policy, path[k], dir);
}

/// Taking the steps along a walk from its first state ends in its last.
pub proof fn lemma_walk_along_route(
    grid: Seq<Seq<Option<Tile>>>,
    policy: Policy,
    path: Seq<Node>,
)
    requires
        is_route(grid, policy, path),
    ensures
        walk(grid, policy, path[0], directions_of(path)) == Some(path.last()),
    decreases path.len(),
{
    if path.len() > 1 {
        let shorter = path.drop_last();
        assert forall|k: int| 0 <= k < shorter.len() - 1 implies is_step(
            grid,
            policy,
            #[trigger] shorter[k],
            shorter[k + 1],
        ) by {
            assert(is_step(grid, policy, path[k], path[k + 1]));
        }
        lemma_walk_along_route(grid, policy, shorter);
        lemma_steps_follow_route(grid, policy, path, path.len() - 2);
        assert(directions_of(path).drop_last() =~= directions_of(shorter));
    }
}

impl PathRequest {
    /// Computes how this request weighs steps.
    pub fn policy(&self) -> (r: Policy)
        ensures
            r == policy_of(*self),
    {
        Policy {
            mode: self.mode,
            relation: costs_relation(self.start_energy, self.start_material, self.weight_divider),
            material_cap: self.material_cap,
        }
    }

    /// Computes the state in which this request starts.
    pub fn start_node(&self) -> (r: Node)
        ensures
            r == start_of(*self),
    {
        Node {
            row: self.start.0,
            col: self.start.1,
            energy: self.start_energy,
            rocks: self.start_material,
        }
    }
}

/// Computes the direction of the unit step from the cell of `from` to the
/// cell of `to`.
pub fn direction_from(from: &Node, to: &Node) -> (r: Direction)
    ensures
        r == direction_between(*from, *to),
{
    if to.row < from.row && from.row - to.row == 1 {
        Direction::Up
    } else if to.row > from.row && to.row - from.row == 1 {
        Direction::Down
    } else if to.col < from.col && from.col - to.col == 1 {
        Direction::Left
    } else {
        Direction::Right
    }
}

/// Turns what a search found into the outcome of the plan.
///
/// A path is taken for a route only after every one of its steps has been
/// checked against the grid: it must start in the state of `request`, each
/// state must follow from the one before it by one step, and the last must
/// stand on the target.
pub fn route_from_search(
    map: &Vec<Vec<Option<Tile>>>,
    request: &PathRequest,
    found: Option<(Vec<Node>, u128)>,
) -> (r: Result<RouteResult, PathError>)
    ensures
        outcome_view(r) == outcome(grid_view(map), *request, search_view(found)),
{
    let (path, cost): (Vec<Node>, u128) = match found {
        Some(pair) => pair,
        None => {
            return Err(PathError::Unreachable);
        },
    };
    let policy: Policy = request.policy();
    let start: Node = request.start_node();
    let ghost grid = grid_view(map);
    if path.len() == 0 || path[0] != start {
        return Err(PathError::Unreachable);
    }
    let last: Node = path[path.len() - 1];
    if !last.is_at(request.target.0, request.target.1) {
        return Err(PathError::Unreachable);
    }
    let mut steps: Vec<Direction> = Vec::new();
    let mut k: usize = 0;
    while k + 1 < path.len()
        invariant
            path@.len() > 0,
            k < path@.len(),
            grid == grid_view(map),
            policy == policy_of(*request),
            search_view(found) == Some((path@, cost)),
            steps@.len() == k,
            forall|q: int| 0 <= q < k ==> is_step(grid, policy, #[trigger] path@[q], path@[q + 1]),
            forall|q: int|
                0 <= q < k ==> (#[trigger] steps@[q]) == direction_between(path@[q], path@[q + 1]),
        decreases path@.len() - k,
    {
        let from: Node = path[k];
        let to: Node = path[k + 1];
        let dir: Direction = direction_from(&from, &to);
        let arrives: bool = match from.successor_toward(map, &policy, dir) {
            Some((next, _)) => next == to,
            None => false,
        };
        if !arrives {
            proof {
                assert(!is_step(grid, policy, from, to)) by {
                    assert forall|d: Direction|
                        !((#[trigger] step(grid, policy, from, d)) matches Some((next, _)) && next
                            == to) by {
                        lemma_step_direction(grid, policy, from, d);
                    }
                }
                assert(!is_route(grid, policy, path@)) by {
                    assert(path@[k as int] == from);
                }
            }
            return Err(PathError::Unreachable);
        }
        assert(is_step(grid, policy, from, to)) by {
            assert(step(grid, policy, from, dir) matches Some((next, _)) && next == to);
        }
        steps.push(dir);
        k = k + 1;
    }
    assert(steps@ =~= directions_of(path@));
    Ok(RouteResult { steps, weight: cost, energy: last.energy, material: last.rocks })
}

/// Whether some walk leads from the start of `request` to its target.
pub open spec fn reachable(grid: Seq<Seq<Option<Tile>>>, request: PathRequest) -> bool {
    exists|path: Seq<Node>| #[trigger]
        connects(grid, policy_of(request), start_of(request), request.target, path)
}

/// The outcome of a plan: the two early refusals first, then whatever the
/// search finds.
pub open spec fn planned(grid: Seq<Seq<Option<Tile>>>, request: PathRequest) -> Result<
    Plan,
    PathError,
> {
    if insufficient_energy(request) {
        Err(PathError::InsufficientEnergy)
    } else if insufficient_material(grid, request) {
        Err(PathError::InsufficientMaterial)
    } else {
        outcome(
            grid,
            request,
            dijkstra_route(grid, policy_of(request), start_of(request), request.target),
        )
    }
}

/// Along a walk the energy falls by at least one with every step, and the
/// walk ends no further from where it began than it has steps.
pub proof fn lemma_route_spends_energy(
    grid: Seq<Seq<Option<Tile>>>,
    policy: Policy,
    path: Seq<Node>,
)
    requires
        is_route(grid, policy, path),
    ensures
        path[0].energy >= path.last().energy + (path.len() - 1),
        distance((path[0].row, path[0].col), (path.last().row, path.last().col)) <= path.len() - 1,
    decreases path.len(),
{
    if path.len() > 1 {
        let shorter = path.drop_last();
        assert forall|k: int| 0 <= k < shorter.len() - 1 implies is_step(
            grid,
            policy,
            #[trigger] shorter[k],
            shorter[k + 1],
        ) by {
            assert(is_step(grid, policy, path[k], path[k + 1]));
        }
        lemma_route_spends_energy(grid, policy, shorter);
        let before = path[path.len() - 2];
        assert(is_step(grid, policy, before, path[path.len() - 2 + 1]));
        let dir = choose|dir: Direction|
            (#[trigger] step(grid, policy, before, dir)) matches Some((next, _)) && next
                == path.last();
        crate::cost::lemma_edge_cost_bounds(
            grid[path.last().row as int][path.last().col as int]->0.tile_type,
        );
    }
}

/// A request whose start energy is below the distance to its target has no
/// route.
pub proof fn lemma_insufficient_energy_is_final(grid: Seq<Seq<Option<Tile>>>, request: PathRequest)
    requires
        insufficient_energy(request),
    ensures
        !reachable(grid, request),
{
    assert forall|path: Seq<Node>| !#[trigger] connects(
        grid,
        policy_of(request),
        start_of(request),
        request.target,
        path,
    ) by {
        if connects(grid, policy_of(request), start_of(request), request.target, path) {
            lemma_route_spends_energy(grid, policy_of(request), path);
        }
    }
}

/// A request whose target takes more material than it starts with and than
/// its cap allows has no route.
pub proof fn lemma_insufficient_material_is_final(
    grid: Seq<Seq<Option<Tile>>>,
    request: PathRequest,
)
    requires
        insufficient_material(grid, request),
    ensures
        !reachable(grid, request),
{
    let policy = policy_of(request);
    assert forall|path: Seq<Node>| !#[trigger] connects(
        grid,
        policy,
        start_of(request),
        request.target,
        path,
    ) by {
        if connects(grid, policy, start_of(request), request.target, path) {
            let n = path.len() as int;
            assert(n >= 2);
            let before = path[n - 2];
            assert(is_step(grid, policy, before, path[n - 2 + 1]));
            let dir = choose|dir: Direction|
                (#[trigger] step(grid, policy, before, dir)) matches Some((next, _)) && next
                    == path.last();
            if n >= 3 {
                let earlier = path[n - 3];
                assert(is_step(grid, policy, earlier, path[n - 3 + 1]));
                let way = choose|way: Direction|
                    (#[trigger] step(grid, policy, earlier, way)) matches Some((next, _)) && next
                        == before;
            }
        }
    }
}

/// Computes the number of unit steps between two cells.
pub fn steps_between(from: (usize, usize), to: (usize, usize)) -> (r: u128)
    ensures
        r == distance(from, to),
{
    let rows: usize = if from.0 <= to.0 {
        to.0 - from.0
    } else {
        from.0 - to.0
    };
    let cols: usize = if from.1 <= to.1 {
        to.1 - from.1
    } else {
        from.1 - to.1
    };
    rows as u128 + cols as u128
}

/// Plans the cheapest route for `request` over the tiles of `map`.
///
/// A plan's steps can be taken one after the other from the start: they end
/// on the target with the energy and the material that the plan reports.
///
/// The plan is refused at once with [`PathError::InsufficientEnergy`] where
/// the start energy is below the distance to the target, and otherwise with
/// [`PathError::InsufficientMaterial`] where entering the target takes more
/// material than is carried and than the cap allows; neither request has a
/// route. Otherwise the search runs: where a walk leads from the start to
/// the target, the plan is the one the search finds, and no walk weighs less;
/// where none does, the plan fails with [`PathError::Unreachable`].
///
/// The outcome depends on the tiles and the request alone: the same request
/// over the same tiles gives the same outcome.
pub fn find_route(map: &Vec<Vec<Option<Tile>>>, request: &PathRequest) -> (r: Result<
    RouteResult,
    PathError,
>)
    ensures
        outcome_view(r) == planned(grid_view(map), *request),
        r is Ok <==> reachable(grid_view(map), *request),
        r matches Ok(route) ==> exists|path: Seq<Node>| #[trigger]
            connects(
                grid_view(map),
                policy_of(*request),
                start_of(*request),
                request.target,
                path,
            ) && route.steps@ == directions_of(path) && route.weight == route_weight(
                grid_view(map),
                policy_of(*request),
                path,
            ) && route.energy == path.last().energy && route.material == path.last().rocks,
        r matches Ok(route) ==> walk(
            grid_view(map),
            policy_of(*request),
            start_of(*request),
            route.steps@,
        ) == Some(
            Node {
                row: request.target.0,
                col: request.target.1,
                energy: route.energy,
                rocks: route.material,
            },
        ),
        r matches Ok(route) ==> forall|other: Seq<Node>| #[trigger]
            connects(
                grid_view(map),
                policy_of(*request),
                start_of(*request),
                request.target,
                other,
            ) ==> route.weight <= route_weight(grid_view(map), policy_of(*request), other),
        r matches Err(e) ==> (e == PathError::InsufficientEnergy <==> insufficient_energy(
            *request,
        )) && (e == PathError::InsufficientMaterial <==> !insufficient_energy(*request)
            && insufficient_material(grid_view(map), *request)),
{
    let ghost grid = grid_view(map);
    if (request.start_energy as u128) < steps_between(request.start, request.target) {
        proof {
            lemma_insufficient_energy_is_final(grid, *request);
        }
        return Err(PathError::InsufficientEnergy);
    }
    let apart: bool = request.start.0 != request.target.0 || request.start.1 != request.target.1;
    if apart {
        if let Some(tile) = tile_at(map, request.target.0, request.target.1) {
            if let Some((_, material)) = get_edge_cost(tile.tile_type) {
                if material > 0 && material as usize > request.start_material && material as usize
                    > request.material_cap {
                    proof {
                        lemma_insufficient_material_is_final(grid, *request);
                    }
                    return Err(PathError::InsufficientMaterial);
                }
            }
        }
    }
    let policy: Policy = request.policy();
    let start: Node = request.start_node();
    let found: Option<(Vec<Node>, u128)> = search(&start, map, &policy, request.target);
    proof {
        if found is Some {
            let pair = found->0;
            assert(connects(grid, policy, start, request.target, pair.0@));
            lemma_walk_along_route(grid, policy, pair.0@);
        }
    }
    route_from_search(map, request, found)
}

} // verus!
