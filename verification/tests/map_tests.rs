use bob_lib::enhanced_map::{BobErr, BobMap, BobMapFlag};
use bob_lib::pins::{bob_type_check, type_check_outcome, BobPinTypes, Payload, PinTokens};
use bob_lib::tile::{Content, Tile, TileType};
use std::rc::Rc;

fn grass() -> Tile {
    Tile { tile_type: TileType::Grass, content: Content::Empty, elevation: 0 }
}

fn lava() -> Tile {
    Tile { tile_type: TileType::Lava, content: Content::Fire, elevation: 3 }
}

fn scan(map: &mut BobMap, rows: usize, cols: usize, pin: &BobPinTypes) -> Vec<(usize, usize)> {
    let mut out = vec![];
    for x in 0..rows {
        for y in 0..cols {
            if let Some(p) = map.get_pin((x, y)) {
                if *p == *pin {
                    out.push((x, y));
                }
            }
        }
    }
    out
}

#[test]
fn new_map_is_blank() {
    let map = BobMap::init(3, 4);
    let tiles = map.known_tiles();
    assert_eq!(tiles.len(), 3);
    for row in &tiles {
        assert_eq!(row.len(), 4);
        for cell in row {
            assert_eq!(*cell, None);
        }
    }
    for x in 0..3 {
        for y in 0..4 {
            assert!(map.get_pin((x, y)).is_none());
        }
    }
    assert_eq!(map.search_pin(BobPinTypes::City), Err(BobErr::PinNotFound));
}

#[test]
fn empty_map_has_no_cells() {
    let map = BobMap::init(0, 5);
    assert_eq!(map.known_tiles().len(), 0);
    let flat = BobMap::init(2, 0);
    assert_eq!(flat.known_tiles(), vec![vec![], vec![]]);
}

#[test]
fn add_then_get_gives_the_pin() {
    let mut map = BobMap::init(4, 4);
    assert_eq!(map.add_pin(BobPinTypes::I32(5), (1, 3)), Ok(()));
    let pin = map.get_pin((1, 3)).unwrap();
    assert_eq!(*pin, BobPinTypes::I32(5));
    assert!(map.get_pin((3, 1)).is_none());
}

#[test]
fn delete_then_get_gives_nothing() {
    let mut map = BobMap::init(4, 4);
    assert_eq!(map.add_pin(BobPinTypes::Market, (2, 2)), Ok(()));
    assert_eq!(map.delete_pin((2, 2)), Ok(()));
    assert!(map.get_pin((2, 2)).is_none());
}

#[test]
fn add_on_an_occupied_cell_fails_and_keeps_the_pin() {
    let mut map = BobMap::init(2, 2);
    assert_eq!(map.add_pin(BobPinTypes::City, (0, 1)), Ok(()));
    assert_eq!(map.add_pin(BobPinTypes::Market, (0, 1)), Err(BobErr::PinAlreadySet));
    assert_eq!(*map.get_pin((0, 1)).unwrap(), BobPinTypes::City);
    assert_eq!(map.search_pin(BobPinTypes::City), Ok(vec![(0, 1)]));
    assert_eq!(map.search_pin(BobPinTypes::Market), Err(BobErr::PinNotFound));
}

#[test]
fn add_of_the_same_pin_on_an_occupied_cell_fails_too() {
    let mut map = BobMap::init(2, 2);
    assert_eq!(map.add_pin(BobPinTypes::City, (0, 1)), Ok(()));
    assert_eq!(map.add_pin(BobPinTypes::City, (0, 1)), Err(BobErr::PinAlreadySet));
    assert_eq!(map.search_pin(BobPinTypes::City), Ok(vec![(0, 1)]));
}

#[test]
fn delete_on_a_cell_without_pin_fails() {
    let mut map = BobMap::init(2, 2);
    assert_eq!(map.delete_pin((1, 1)), Err(BobErr::EmptyTile));
    assert_eq!(map.add_pin(BobPinTypes::City, (1, 1)), Ok(()));
    assert_eq!(map.delete_pin((1, 1)), Ok(()));
    assert_eq!(map.delete_pin((1, 1)), Err(BobErr::EmptyTile));
}

#[test]
fn search_of_a_pin_never_set_fails() {
    let mut map = BobMap::init(2, 2);
    assert_eq!(map.add_pin(BobPinTypes::I32(5), (0, 0)), Ok(()));
    assert_eq!(map.search_pin(BobPinTypes::I32(12)), Err(BobErr::PinNotFound));
}

#[test]
fn search_lists_cells_in_the_order_pinned() {
    let mut map = BobMap::init(3, 3);
    assert_eq!(map.add_pin(BobPinTypes::City, (2, 2)), Ok(()));
    assert_eq!(map.add_pin(BobPinTypes::City, (0, 1)), Ok(()));
    assert_eq!(map.add_pin(BobPinTypes::Market, (1, 1)), Ok(()));
    assert_eq!(map.add_pin(BobPinTypes::City, (1, 0)), Ok(()));
    assert_eq!(map.search_pin(BobPinTypes::City), Ok(vec![(2, 2), (0, 1), (1, 0)]));
    assert_eq!(map.search_pin(BobPinTypes::Market), Ok(vec![(1, 1)]));
}

#[test]
fn delete_keeps_the_order_of_the_others() {
    let mut map = BobMap::init(3, 3);
    assert_eq!(map.add_pin(BobPinTypes::City, (2, 2)), Ok(()));
    assert_eq!(map.add_pin(BobPinTypes::City, (0, 1)), Ok(()));
    assert_eq!(map.add_pin(BobPinTypes::City, (1, 0)), Ok(()));
    assert_eq!(map.delete_pin((0, 1)), Ok(()));
    assert_eq!(map.search_pin(BobPinTypes::City), Ok(vec![(2, 2), (1, 0)]));
    assert_eq!(map.delete_pin((2, 2)), Ok(()));
    assert_eq!(map.search_pin(BobPinTypes::City), Ok(vec![(1, 0)]));
}

#[test]
fn pin_without_cells_is_dropped() {
    let mut map = BobMap::init(3, 3);
    assert_eq!(map.add_pin(BobPinTypes::Bank(7), (2, 2)), Ok(()));
    assert_eq!(map.add_pin(BobPinTypes::Bank(8), (2, 1)), Ok(()));
    assert_eq!(map.delete_pin((2, 2)), Ok(()));
    assert_eq!(map.search_pin(BobPinTypes::Bank(7)), Err(BobErr::PinNotFound));
    assert_eq!(map.search_pin(BobPinTypes::Bank(8)), Ok(vec![(2, 1)]));
    assert_eq!(map.add_pin(BobPinTypes::Bank(7), (0, 0)), Ok(()));
    assert_eq!(map.search_pin(BobPinTypes::Bank(7)), Ok(vec![(0, 0)]));
}

#[test]
fn search_agrees_with_a_scan_of_the_grid() {
    let mut map = BobMap::init(4, 5);
    let pins = vec![
        BobPinTypes::City,
        BobPinTypes::Market,
        BobPinTypes::I32(1),
        BobPinTypes::I32(2),
        BobPinTypes::String("home".to_string()),
        BobPinTypes::TileType(TileType::Lava),
        BobPinTypes::Contents(Content::Fish(5)),
        BobPinTypes::Bank(3),
    ];
    let mut step: usize = 0;
    for round in 0..6 {
        for x in 0..4 {
            for y in 0..5 {
                step = (step * 7 + 3) % 101;
                if step % 3 == 0 {
                    let _ = map.add_pin(pins[(step + round) % pins.len()].clone(), (x, y));
                } else if step % 3 == 1 {
                    let _ = map.delete_pin((x, y));
                }
            }
        }
        for pin in &pins {
            let mut scanned = scan(&mut map, 4, 5, pin);
            match map.search_pin(pin.clone()) {
                Ok(mut cells) => {
                    assert!(!cells.is_empty());
                    cells.sort();
                    scanned.sort();
                    assert_eq!(cells, scanned);
                },
                Err(e) => {
                    assert_eq!(e, BobErr::PinNotFound);
                    assert!(scanned.is_empty());
                },
            }
        }
    }
}

#[test]
fn pins_compare_by_kind_and_value() {
    assert!(BobPinTypes::City == BobPinTypes::City);
    assert!(BobPinTypes::Market == BobPinTypes::Market);
    assert!(BobPinTypes::City != BobPinTypes::Market);
    assert!(BobPinTypes::I32(5) == BobPinTypes::I32(5));
    assert!(BobPinTypes::I32(5) != BobPinTypes::I32(12));
    assert!(BobPinTypes::I32(5) != BobPinTypes::Bank(5));
    assert!(BobPinTypes::Bank(5) == BobPinTypes::Bank(5));
    assert!(BobPinTypes::String("a".to_string()) == BobPinTypes::String("a".to_string()));
    assert!(BobPinTypes::String("a".to_string()) != BobPinTypes::String("b".to_string()));
    assert!(BobPinTypes::TileType(TileType::Teleport(true)) == BobPinTypes::TileType(TileType::Teleport(true)));
    assert!(BobPinTypes::TileType(TileType::Teleport(true)) != BobPinTypes::TileType(TileType::Teleport(false)));
    assert!(BobPinTypes::Contents(Content::Fish(5)) == BobPinTypes::Contents(Content::Fish(5)));
    assert!(BobPinTypes::Contents(Content::Fish(5)) != BobPinTypes::Contents(Content::Fish(6)));
    assert!(BobPinTypes::City == BobPinTypes::City);
    assert!(BobPinTypes::City != BobPinTypes::Market);
}

#[test]
fn custom_pins_of_equal_content_are_different_pins() {
    let mut tokens = PinTokens::new();
    let a = tokens.custom(Payload::new(vec![5u8, 6u8])).unwrap();
    let b = tokens.custom(Payload::new(vec![5u8, 6u8])).unwrap();
    assert!(a != b);
    assert!(b != a);
}

#[test]
fn custom_pins_of_one_payload_are_different_pins() {
    let mut tokens = PinTokens::new();
    let payload = Payload::new(7i32);
    let a = tokens.custom(payload.clone()).unwrap();
    let b = tokens.custom(payload).unwrap();
    assert!(a != b);
}

#[test]
fn custom_pin_and_its_copy_are_the_same_pin() {
    let mut tokens = PinTokens::new();
    let a = tokens.custom(Payload::new("note".to_string())).unwrap();
    let b = a.clone();
    assert!(a == b);
    assert!(b == a);
    assert!(a == a);
}

#[test]
fn custom_pin_is_found_by_its_copy_only() {
    let mut tokens = PinTokens::new();
    let a = tokens.custom(Payload::new(1u8)).unwrap();
    let b = tokens.custom(Payload::new(1u8)).unwrap();
    let mut map = BobMap::init(2, 2);
    assert_eq!(map.add_pin(a.clone(), (0, 1)), Ok(()));
    assert_eq!(map.search_pin(a.clone()), Ok(vec![(0, 1)]));
    assert_eq!(map.search_pin(b.clone()), Err(BobErr::PinNotFound));
    assert_eq!(map.add_pin(b.clone(), (1, 1)), Ok(()));
    assert_eq!(map.add_pin(a.clone(), (1, 0)), Ok(()));
    assert_eq!(map.search_pin(a), Ok(vec![(0, 1), (1, 0)]));
    assert_eq!(map.search_pin(b), Ok(vec![(1, 1)]));
}

#[test]
fn tokens_count_up() {
    let mut tokens = PinTokens::new();
    for expected in 0..5u64 {
        match tokens.custom(Payload::new(())).unwrap() {
            BobPinTypes::Custom(pin) => assert_eq!(pin.token(), expected),
            _ => panic!("not a custom pin"),
        }
    }
}

#[test]
fn payload_comes_back_as_its_type() {
    let mut tokens = PinTokens::new();
    let pin = tokens.custom(Payload::new(vec![5i64, 6i64])).unwrap();
    let mut map = BobMap::init(1, 2);
    assert_eq!(map.add_pin(pin, (0, 1)), Ok(()));
    let got: Rc<BobPinTypes> = map.get_pin((0, 1)).unwrap();
    match &*got {
        BobPinTypes::Custom(custom) => {
            let as_vec = bob_type_check::<Vec<i64>>(custom.payload());
            assert_eq!(*as_vec.unwrap(), vec![5i64, 6i64]);
            assert!(bob_type_check::<i32>(custom.payload()).is_err());
            assert!(bob_type_check::<Vec<i32>>(custom.payload()).is_err());
        },
        _ => panic!("not a custom pin"),
    }
}

#[test]
fn type_check_answer_follows_the_downcast() {
    let held = Rc::new(5i32);
    let answer = type_check_outcome(Some(Rc::clone(&held))).unwrap();
    assert!(Rc::ptr_eq(&answer, &held));
    assert_eq!(type_check_outcome::<i32>(None), Err(()));
}

#[test]
fn payload_copies_share_one_value() {
    let payload = Payload::new(String::from("shared"));
    let copy = payload.clone();
    let a = bob_type_check::<String>(payload).unwrap();
    let b = bob_type_check::<String>(copy).unwrap();
    assert!(Rc::ptr_eq(&a, &b));
    assert_eq!(*a, "shared");
}

#[test]
fn get_pin_hands_out_the_stored_pin() {
    let mut map = BobMap::init(1, 1);
    assert_eq!(map.add_pin(BobPinTypes::String("x".to_string()), (0, 0)), Ok(()));
    let first = map.get_pin((0, 0)).unwrap();
    let second = map.get_pin((0, 0)).unwrap();
    assert!(Rc::ptr_eq(&first, &second));
    assert_eq!(*first, BobPinTypes::String("x".to_string()));
}

#[test]
fn update_replaces_tiles_and_keeps_pins() {
    let mut map = BobMap::init(2, 3);
    assert_eq!(map.add_pin(BobPinTypes::City, (1, 2)), Ok(()));
    map.update(vec![(1, 2, grass()), (0, 0, lava())]);
    let tiles = map.known_tiles();
    assert_eq!(tiles[1][2], Some(grass()));
    assert_eq!(tiles[0][0], Some(lava()));
    assert_eq!(tiles[0][1], None);
    assert_eq!(*map.get_pin((1, 2)).unwrap(), BobPinTypes::City);
    assert_eq!(map.search_pin(BobPinTypes::City), Ok(vec![(1, 2)]));
}

#[test]
fn update_lets_the_later_record_win() {
    let mut map = BobMap::init(2, 2);
    map.update(vec![(1, 1, grass()), (1, 1, lava())]);
    assert_eq!(map.known_tiles()[1][1], Some(lava()));
}

#[test]
fn update_passes_over_records_outside_the_grid() {
    let mut map = BobMap::init(2, 3);
    map.update(vec![(2, 0, grass()), (0, 3, grass()), (usize::MAX, usize::MAX, grass())]);
    assert_eq!(map.known_tiles(), vec![vec![None; 3]; 2]);
    map.update(vec![(5, 5, lava()), (1, 0, grass())]);
    let tiles = map.known_tiles();
    assert_eq!(tiles[1][0], Some(grass()));
    assert_eq!(tiles[0], vec![None; 3]);
    assert_eq!(tiles[1][1], None);
}

#[test]
fn resync_takes_what_the_truth_holds() {
    let mut map = BobMap::init(2, 2);
    map.update(vec![(0, 0, grass()), (1, 1, grass())]);
    let truth = vec![vec![Some(lava()), None], vec![None, None]];
    map.auto_update(&truth);
    let tiles = map.known_tiles();
    assert_eq!(tiles[0][0], Some(lava()));
    assert_eq!(tiles[0][1], None);
    assert_eq!(tiles[1][0], None);
    assert_eq!(tiles[1][1], Some(grass()));
}

#[test]
fn resync_never_forgets_a_tile() {
    let mut map = BobMap::init(3, 3);
    map.update(vec![(0, 0, grass()), (1, 1, lava()), (2, 2, grass())]);
    let blank: Vec<Vec<Option<Tile>>> = vec![vec![None; 3]; 3];
    map.auto_update(&blank);
    let tiles = map.known_tiles();
    assert_eq!(tiles[0][0], Some(grass()));
    assert_eq!(tiles[1][1], Some(lava()));
    assert_eq!(tiles[2][2], Some(grass()));
}

#[test]
fn resync_twice_is_resync_once() {
    let mut map = BobMap::init(3, 3);
    map.update(vec![(0, 0, grass()), (1, 1, lava())]);
    let truth = vec![
        vec![Some(lava()), Some(grass()), None],
        vec![None, None, Some(grass())],
        vec![None, None, None],
    ];
    map.auto_update(&truth);
    let once = map.known_tiles();
    map.auto_update(&truth);
    assert_eq!(map.known_tiles(), once);
}

#[test]
fn resync_with_a_smaller_or_larger_truth() {
    let mut map = BobMap::init(2, 2);
    map.update(vec![(1, 1, grass())]);
    let small = vec![vec![Some(lava())]];
    map.auto_update(&small);
    assert_eq!(map.known_tiles(), vec![vec![Some(lava()), None], vec![None, Some(grass())]]);
    let large = vec![vec![None, Some(grass()), Some(lava())], vec![], vec![Some(lava())]];
    map.auto_update(&large);
    assert_eq!(
        map.known_tiles(),
        vec![vec![Some(lava()), Some(grass())], vec![None, Some(grass())]]
    );
}

#[test]
fn resync_of_a_large_grid() {
    let size = 200;
    let mut map = BobMap::init(size, size);
    let street = Tile { tile_type: TileType::Street, content: Content::Empty, elevation: 0 };
    let mut records = vec![];
    for x in 0..size {
        for y in 0..size {
            records.push((x, y, street));
        }
    }
    map.update(records);
    let truth = vec![vec![Some(grass()); size]; size];
    map.auto_update(&truth);
    let tiles = map.known_tiles();
    assert_eq!(tiles[0][0], truth[0][0]);
    assert_eq!(tiles, truth);
}

#[test]
fn resync_keeps_pins() {
    let mut map = BobMap::init(2, 2);
    assert_eq!(map.add_pin(BobPinTypes::City, (0, 0)), Ok(()));
    let truth = vec![vec![Some(lava()), Some(lava())], vec![Some(lava()), Some(lava())]];
    map.auto_update(&truth);
    assert_eq!(*map.get_pin((0, 0)).unwrap(), BobPinTypes::City);
    assert_eq!(map.search_pin(BobPinTypes::City), Ok(vec![(0, 0)]));
}

#[test]
fn get_map_refreshes_only_when_told() {
    let mut map = BobMap::init(1, 2);
    assert_eq!(map.add_pin(BobPinTypes::Market, (0, 1)), Ok(()));
    let truth = vec![vec![Some(grass()), Some(lava())]];
    {
        let cells = map.get_map(&truth, BobMapFlag::NoTileUpdated);
        assert_eq!(cells.len(), 1);
        assert_eq!(cells[0].len(), 2);
        assert_eq!(cells[0][0].0, None);
        assert!(cells[0][0].1.is_none());
        assert_eq!(**cells[0][1].1.as_ref().unwrap(), BobPinTypes::Market);
    }
    {
        let cells = map.get_map(&truth, BobMapFlag::TilesUpdated);
        assert_eq!(cells[0][0].0, Some(grass()));
        assert_eq!(cells[0][1].0, Some(lava()));
        assert_eq!(**cells[0][1].1.as_ref().unwrap(), BobPinTypes::Market);
    }
}
