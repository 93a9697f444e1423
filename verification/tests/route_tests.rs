use bob_lib::cost::costs_relation;
use bob_lib::pathfinder::{BobMode, Node, Policy};
use bob_lib::route::{
    direction_from, find_route, route_from_search, steps_between, PathError, PathRequest,
};
use bob_lib::tile::{neighbor_of, tile_at, Content, Direction, Tile, TileType};

fn of(tile_type: TileType) -> Option<Tile> {
    Some(Tile { tile_type, content: Content::Empty, elevation: 0 })
}

fn flat(rows: usize, cols: usize) -> Vec<Vec<Option<Tile>>> {
    vec![vec![of(TileType::Grass); cols]; rows]
}

fn request(start: (usize, usize), target: (usize, usize), energy: usize, material: usize) -> PathRequest {
    PathRequest {
        start,
        target,
        start_energy: energy,
        start_material: material,
        material_cap: 20,
        mode: BobMode::AllOut,
        weight_divider: 1,
    }
}

fn policy(mode: BobMode) -> Policy {
    Policy { mode, relation: costs_relation(10, 10, 1), material_cap: 20 }
}

#[test]
fn two_by_two_balanced_route_goes_down_then_right() {
    let map = flat(2, 2);
    let route = find_route(&map, &request((0, 0), (1, 1), 10, 10)).unwrap();
    assert_eq!(route.steps, vec![Direction::Down, Direction::Right]);
    assert_eq!(route.energy, 8);
    assert_eq!(route.material, 8);
    assert_eq!(route.weight, 4);
}

#[test]
fn two_by_two_energy_route_weighs_two() {
    let map = flat(2, 2);
    let mut req = request((0, 0), (1, 1), 10, 10);
    req.mode = BobMode::EnergySave;
    let route = find_route(&map, &req).unwrap();
    assert_eq!(route.steps.len(), 2);
    assert_eq!(route.weight, 2);
    req.mode = BobMode::MaterialSave;
    let route = find_route(&map, &req).unwrap();
    assert_eq!(route.steps.len(), 2);
    assert_eq!(route.weight, 2);
}

#[test]
fn no_energy_fails_at_once() {
    let map = flat(2, 2);
    let mut req = request((0, 0), (1, 1), 0, 10);
    req.mode = BobMode::EnergySave;
    assert_eq!(find_route(&map, &req).unwrap_err(), PathError::InsufficientEnergy);
}

#[test]
fn energy_below_the_distance_fails_at_once() {
    let map = flat(4, 4);
    assert_eq!(
        find_route(&map, &request((0, 0), (3, 3), 5, 10)).unwrap_err(),
        PathError::InsufficientEnergy
    );
    assert!(find_route(&map, &request((0, 0), (3, 3), 6, 10)).is_ok());
    assert_eq!(
        find_route(&map, &request((3, 0), (0, 3), 5, 10)).unwrap_err(),
        PathError::InsufficientEnergy
    );
}

#[test]
fn target_that_takes_more_material_than_can_be_carried_fails_at_once() {
    let map = flat(2, 2);
    let mut req = request((0, 0), (0, 1), 10, 0);
    req.material_cap = 0;
    assert_eq!(find_route(&map, &req).unwrap_err(), PathError::InsufficientMaterial);
    let deep = vec![vec![of(TileType::Grass), of(TileType::DeepWater)]];
    let mut req = request((0, 0), (0, 1), 10, 2);
    req.material_cap = 2;
    assert_eq!(find_route(&deep, &req).unwrap_err(), PathError::InsufficientMaterial);
}

#[test]
fn energy_is_judged_before_material() {
    let map = flat(2, 2);
    let mut req = request((0, 0), (1, 1), 1, 0);
    req.material_cap = 0;
    assert_eq!(find_route(&map, &req).unwrap_err(), PathError::InsufficientEnergy);
}

#[test]
fn material_that_runs_out_on_the_way_makes_the_target_unreachable() {
    let map = flat(1, 3);
    assert_eq!(
        find_route(&map, &request((0, 0), (0, 2), 10, 1)).unwrap_err(),
        PathError::Unreachable
    );
    assert!(find_route(&map, &request((0, 0), (0, 2), 10, 2)).is_ok());
}

#[test]
fn energy_that_runs_out_on_the_way_makes_the_target_unreachable() {
    let map = vec![vec![of(TileType::Grass), of(TileType::Lava), of(TileType::Grass)]];
    assert_eq!(
        find_route(&map, &request((0, 0), (0, 2), 9, 10)).unwrap_err(),
        PathError::Unreachable
    );
    let route = find_route(&map, &request((0, 0), (0, 2), 10, 10)).unwrap();
    assert_eq!(route.steps, vec![Direction::Right, Direction::Right]);
    assert_eq!(route.energy, 0);
    assert_eq!(route.material, 6);
}

#[test]
fn wall_and_unseen_cells_cannot_be_entered() {
    let map = vec![
        vec![of(TileType::Grass), of(TileType::Wall), of(TileType::Grass)],
        vec![of(TileType::Grass), None, of(TileType::Grass)],
        vec![of(TileType::Grass), of(TileType::Street), of(TileType::Grass)],
    ];
    assert_eq!(
        find_route(&map, &request((0, 0), (0, 2), 100, 20)).unwrap_err(),
        PathError::Unreachable
    );
}

#[test]
fn target_outside_the_grid_or_unseen_is_unreachable() {
    let mut map = flat(2, 2);
    assert_eq!(
        find_route(&map, &request((0, 0), (0, 5), 100, 20)).unwrap_err(),
        PathError::Unreachable
    );
    map[1][1] = None;
    assert_eq!(
        find_route(&map, &request((0, 0), (1, 1), 100, 20)).unwrap_err(),
        PathError::Unreachable
    );
}

#[test]
fn start_on_the_target_needs_no_step() {
    let map = flat(2, 2);
    let route = find_route(&map, &request((1, 0), (1, 0), 0, 0)).unwrap();
    assert!(route.steps.is_empty());
    assert_eq!(route.weight, 0);
    assert_eq!(route.energy, 0);
    assert_eq!(route.material, 0);
    let off = find_route(&map, &request((7, 7), (7, 7), 3, 4)).unwrap();
    assert!(off.steps.is_empty());
    assert_eq!(off.energy, 3);
    assert_eq!(off.material, 4);
}

#[test]
fn same_request_gives_the_same_route() {
    let map = vec![
        vec![of(TileType::Grass), of(TileType::Hill), of(TileType::Sand), of(TileType::Grass)],
        vec![of(TileType::Snow), of(TileType::ShallowWater), of(TileType::Grass), of(TileType::Lava)],
        vec![of(TileType::Grass), of(TileType::Grass), of(TileType::DeepWater), of(TileType::Grass)],
    ];
    let req = request((0, 0), (2, 3), 30, 15);
    let first = find_route(&map, &req).unwrap();
    for _ in 0..5 {
        let again = find_route(&map, &req).unwrap();
        assert_eq!(again, first);
        assert_eq!(find_route(&map.clone(), &req.clone()), Ok(first.clone()));
    }
}

#[test]
fn mode_decides_between_the_mountain_and_the_way_round() {
    let map = vec![
        vec![of(TileType::Grass), of(TileType::Mountain), of(TileType::Grass)],
        vec![of(TileType::Grass), of(TileType::Grass), of(TileType::Grass)],
    ];
    let mut req = request((0, 0), (0, 2), 20, 20);
    req.mode = BobMode::EnergySave;
    let round = find_route(&map, &req).unwrap();
    assert_eq!(
        round.steps,
        vec![Direction::Down, Direction::Right, Direction::Right, Direction::Up]
    );
    assert_eq!(round.weight, 4);
    assert_eq!(round.energy, 16);
    assert_eq!(round.material, 16);
    req.mode = BobMode::MaterialSave;
    let over = find_route(&map, &req).unwrap();
    assert_eq!(over.steps, vec![Direction::Right, Direction::Right]);
    assert_eq!(over.weight, 1);
    assert_eq!(over.energy, 3);
    assert_eq!(over.material, 19);
    req.mode = BobMode::AllOut;
    let both = find_route(&map, &req).unwrap();
    assert_eq!(both.steps.len(), 4);
    assert_eq!(both.weight, 8);
}

#[test]
fn mountain_yields_material_for_the_next_step() {
    let map = vec![vec![of(TileType::Grass), of(TileType::Mountain), of(TileType::Grass)]];
    let mut req = request((0, 0), (0, 2), 40, 0);
    req.mode = BobMode::EnergySave;
    let route = find_route(&map, &req).unwrap();
    assert_eq!(route.steps, vec![Direction::Right, Direction::Right]);
    assert_eq!(route.energy, 23);
    assert_eq!(route.material, 3);
    assert_eq!(route.weight, 0);
}

#[test]
fn material_never_exceeds_the_cap() {
    let map = vec![vec![of(TileType::Grass), of(TileType::Mountain)]];
    let mut req = request((0, 0), (0, 1), 40, 18);
    let route = find_route(&map, &req).unwrap();
    assert_eq!(route.material, 20);
    req.start_material = 9;
    req.material_cap = 3;
    let flat_map = flat(1, 2);
    let clamped = find_route(&flat_map, &req).unwrap();
    assert_eq!(clamped.material, 3);
}

#[test]
fn route_is_the_cheapest_not_the_shortest() {
    let map = vec![
        vec![of(TileType::Grass), of(TileType::Lava), of(TileType::Grass)],
        vec![of(TileType::Grass), of(TileType::Grass), of(TileType::Grass)],
    ];
    let mut req = request((0, 0), (0, 2), 20, 20);
    req.mode = BobMode::EnergySave;
    let route = find_route(&map, &req).unwrap();
    assert_eq!(route.steps.len(), 4);
    assert_eq!(route.weight, 4);
    assert_eq!(route.energy, 16);
}

#[test]
fn search_result_is_turned_into_steps() {
    let map = flat(2, 2);
    let req = request((0, 0), (1, 1), 10, 10);
    let path = vec![
        Node { row: 0, col: 0, energy: 10, rocks: 10 },
        Node { row: 0, col: 1, energy: 9, rocks: 9 },
        Node { row: 1, col: 1, energy: 8, rocks: 8 },
    ];
    let route = route_from_search(&map, &req, Some((path, 4))).unwrap();
    assert_eq!(route.steps, vec![Direction::Right, Direction::Down]);
    assert_eq!(route.weight, 4);
    assert_eq!(route.energy, 8);
    assert_eq!(route.material, 8);
}

#[test]
fn search_without_result_means_unreachable() {
    let map = flat(2, 2);
    let req = request((0, 0), (1, 1), 10, 10);
    assert_eq!(route_from_search(&map, &req, None).unwrap_err(), PathError::Unreachable);
}

#[test]
fn path_that_is_no_walk_is_refused() {
    let map = flat(2, 2);
    let req = request((0, 0), (1, 1), 10, 10);
    let jump = vec![
        Node { row: 0, col: 0, energy: 10, rocks: 10 },
        Node { row: 1, col: 1, energy: 9, rocks: 9 },
    ];
    assert_eq!(route_from_search(&map, &req, Some((jump, 2))).unwrap_err(), PathError::Unreachable);
    let free_ride = vec![
        Node { row: 0, col: 0, energy: 10, rocks: 10 },
        Node { row: 0, col: 1, energy: 10, rocks: 10 },
        Node { row: 1, col: 1, energy: 10, rocks: 10 },
    ];
    assert_eq!(
        route_from_search(&map, &req, Some((free_ride, 0))).unwrap_err(),
        PathError::Unreachable
    );
    let wrong_start = vec![
        Node { row: 0, col: 0, energy: 11, rocks: 10 },
        Node { row: 0, col: 1, energy: 10, rocks: 9 },
        Node { row: 1, col: 1, energy: 9, rocks: 8 },
    ];
    assert_eq!(
        route_from_search(&map, &req, Some((wrong_start, 4))).unwrap_err(),
        PathError::Unreachable
    );
    let short = vec![
        Node { row: 0, col: 0, energy: 10, rocks: 10 },
        Node { row: 0, col: 1, energy: 9, rocks: 9 },
    ];
    assert_eq!(route_from_search(&map, &req, Some((short, 2))).unwrap_err(), PathError::Unreachable);
    assert_eq!(route_from_search(&map, &req, Some((vec![], 0))).unwrap_err(), PathError::Unreachable);
}

#[test]
fn successors_come_up_down_left_right() {
    let map = flat(3, 3);
    let from = Node { row: 1, col: 1, energy: 5, rocks: 5 };
    let next = from.successors(&map, &policy(BobMode::AllOut));
    assert_eq!(
        next,
        vec![
            (Node { row: 0, col: 1, energy: 4, rocks: 4 }, 2),
            (Node { row: 2, col: 1, energy: 4, rocks: 4 }, 2),
            (Node { row: 1, col: 0, energy: 4, rocks: 4 }, 2),
            (Node { row: 1, col: 2, energy: 4, rocks: 4 }, 2),
        ]
    );
}

#[test]
fn successors_leave_out_what_cannot_be_entered() {
    let map = vec![
        vec![None, of(TileType::Wall), None],
        vec![of(TileType::Lava), of(TileType::Grass), of(TileType::DeepWater)],
    ];
    let from = Node { row: 1, col: 1, energy: 8, rocks: 2 };
    let next = from.successors(&map, &policy(BobMode::EnergySave));
    assert!(next.is_empty());
    let richer = Node { row: 1, col: 1, energy: 9, rocks: 3 };
    let next = richer.successors(&map, &policy(BobMode::EnergySave));
    assert_eq!(
        next,
        vec![
            (Node { row: 1, col: 0, energy: 0, rocks: 0 }, 9),
            (Node { row: 1, col: 2, energy: 3, rocks: 0 }, 6),
        ]
    );
}

#[test]
fn successors_at_the_corner() {
    let map = flat(2, 2);
    let from = Node { row: 0, col: 0, energy: 5, rocks: 5 };
    let next = from.successors(&map, &policy(BobMode::MaterialSave));
    assert_eq!(
        next,
        vec![
            (Node { row: 1, col: 0, energy: 4, rocks: 4 }, 1),
            (Node { row: 0, col: 1, energy: 4, rocks: 4 }, 1),
        ]
    );
    let outside = Node { row: usize::MAX, col: usize::MAX, energy: 5, rocks: 5 };
    assert!(outside.successors(&map, &policy(BobMode::AllOut)).is_empty());
}

#[test]
fn successor_onto_a_mountain_gains_material_up_to_the_cap() {
    let map = vec![vec![of(TileType::Grass), of(TileType::Mountain)]];
    let p = policy(BobMode::AllOut);
    let from = Node { row: 0, col: 0, energy: 16, rocks: 0 };
    assert_eq!(
        from.successor_toward(&map, &p, Direction::Right),
        Some((Node { row: 0, col: 1, energy: 0, rocks: 4 }, 16))
    );
    let full = Node { row: 0, col: 0, energy: 20, rocks: 18 };
    assert_eq!(
        full.successor_toward(&map, &p, Direction::Right),
        Some((Node { row: 0, col: 1, energy: 4, rocks: 20 }, 16))
    );
    let over = Node { row: 0, col: 0, energy: 20, rocks: usize::MAX };
    assert_eq!(
        over.successor_toward(&map, &p, Direction::Right),
        Some((Node { row: 0, col: 1, energy: 4, rocks: 20 }, 16))
    );
    let tired = Node { row: 0, col: 0, energy: 15, rocks: 18 };
    assert_eq!(tired.successor_toward(&map, &p, Direction::Right), None);
    assert_eq!(full.successor_toward(&map, &p, Direction::Left), None);
}

#[test]
fn request_gives_its_policy_and_start() {
    let req = PathRequest {
        start: (2, 3),
        target: (0, 0),
        start_energy: 20,
        start_material: 10,
        material_cap: 7,
        mode: BobMode::MaterialSave,
        weight_divider: 2,
    };
    let p = req.policy();
    assert_eq!(p.mode, BobMode::MaterialSave);
    assert_eq!(p.material_cap, 7);
    assert!(p.relation.is_whole(4));
    assert_eq!(req.start_node(), Node { row: 2, col: 3, energy: 20, rocks: 10 });
    assert!(req.start_node().is_at(2, 3));
    assert!(!req.start_node().is_at(3, 2));
}

#[test]
fn distance_counts_rows_and_columns() {
    assert_eq!(steps_between((0, 0), (0, 0)), 0);
    assert_eq!(steps_between((0, 0), (3, 4)), 7);
    assert_eq!(steps_between((3, 4), (0, 0)), 7);
    assert_eq!(steps_between((5, 1), (2, 6)), 8);
    assert_eq!(steps_between((0, 0), (usize::MAX, usize::MAX)), 2 * (usize::MAX as u128));
}

#[test]
fn direction_between_neighbours() {
    let at = |row: usize, col: usize| Node { row, col, energy: 0, rocks: 0 };
    assert_eq!(direction_from(&at(1, 1), &at(0, 1)), Direction::Up);
    assert_eq!(direction_from(&at(1, 1), &at(2, 1)), Direction::Down);
    assert_eq!(direction_from(&at(1, 1), &at(1, 0)), Direction::Left);
    assert_eq!(direction_from(&at(1, 1), &at(1, 2)), Direction::Right);
}

#[test]
fn neighbours_of_a_cell() {
    assert_eq!(neighbor_of(1, 1, Direction::Up), Some((0, 1)));
    assert_eq!(neighbor_of(1, 1, Direction::Down), Some((2, 1)));
    assert_eq!(neighbor_of(1, 1, Direction::Left), Some((1, 0)));
    assert_eq!(neighbor_of(1, 1, Direction::Right), Some((1, 2)));
    assert_eq!(neighbor_of(0, 0, Direction::Up), None);
    assert_eq!(neighbor_of(0, 0, Direction::Left), None);
    assert_eq!(neighbor_of(usize::MAX, 0, Direction::Down), None);
    assert_eq!(neighbor_of(0, usize::MAX, Direction::Right), None);
}

#[test]
fn tile_lookup_in_a_ragged_grid() {
    let map = vec![vec![of(TileType::Grass), None], vec![of(TileType::Lava)]];
    assert_eq!(tile_at(&map, 0, 0), of(TileType::Grass));
    assert_eq!(tile_at(&map, 0, 1), None);
    assert_eq!(tile_at(&map, 1, 0), of(TileType::Lava));
    assert_eq!(tile_at(&map, 1, 1), None);
    assert_eq!(tile_at(&map, 2, 0), None);
}
