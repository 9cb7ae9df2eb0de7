use minigame::hex::{cube_direction, get_neighbours, hex_distance, CubeVec, HexMapPosition};
use minigame::partition::{Entity, EntityType, EntityWithCoord, HexGridConfig, SpatialPartition};

fn small_map() -> SpatialPartition {
    SpatialPartition::new(HexGridConfig::new(10, 10))
}

#[test]
fn hex_grid_test_spatial_partition() {
    let config = HexGridConfig { width: 10, height: 10 };
    let mut partition = SpatialPartition::new(config);
    let entity = Entity::from_raw(0);

    partition.insert_cache_entity(entity, &HexMapPosition::new(5, 5), EntityType::Rabbit);
    let results = partition.query(HexMapPosition::new(5, 5), 2);

    assert!(results.contains(&entity));
}

#[test]
fn hex_grid_test_hex_distance() {
    let a = HexMapPosition::new(0, 0);
    let b = HexMapPosition::new(3, 2);
    // The expected value is 4, not 3: (3, 2) is the cube cell (2, 2, -4),
    // and a hex distance is half the cube Manhattan distance, (2 + 2 + 4) / 2.
    // A shortest walk is (0,0) (0,1) (1,2) (2,2) (3,2); no cell within three
    // steps of the origin is (3, 2).
    assert_eq!(hex_distance(&a, &b), 4);
}

#[test]
fn offset_round_trips_through_cube() {
    for (x, y) in [(0, 0), (3, 2), (5, 5), (-4, 7), (7, -3), (-1, -1)] {
        let p = HexMapPosition::new(x, y);
        assert_eq!(p.q + p.r + p.s, 0);
        let mut copy = p;
        let back = copy.add_cube_coord(&CubeVec { q: 0, r: 0, s: 0 });
        assert_eq!((back.x, back.y), (x, y));
        assert_eq!(back, p);
    }
}

#[test]
fn odd_rows_shift_cube_coordinates() {
    let p = HexMapPosition::new(5, 5);
    assert_eq!((p.q, p.r, p.s), (3, 5, -8));
    let n = HexMapPosition::new(-1, -1);
    assert_eq!((n.q, n.r, n.s), (0, -1, 1));
}

#[test]
fn distance_is_zero_on_self_and_symmetric() {
    let a = HexMapPosition::new(0, 0);
    let b = HexMapPosition::new(3, 2);
    assert_eq!(hex_distance(&a, &a), 0);
    assert_eq!(hex_distance(&b, &b), 0);
    assert_eq!(hex_distance(&a, &b), hex_distance(&b, &a));
}

#[test]
fn distance_counts_cube_steps() {
    let a = HexMapPosition::new(0, 0);
    let b = HexMapPosition::new(3, 2);
    assert_eq!(hex_distance(&a, &b), 4);
    assert_eq!(hex_distance(&HexMapPosition::new(5, 5), &HexMapPosition::new(5, 6)), 1);
    assert_eq!(hex_distance(&HexMapPosition::new(0, 0), &HexMapPosition::new(0, 4)), 4);
    assert_eq!(hex_distance(&HexMapPosition::new(0, 0), &HexMapPosition::new(4, 0)), 4);
}

#[test]
fn six_neighbours_at_distance_one() {
    for (x, y) in [(0, 0), (5, 5), (2, 7), (-3, -2)] {
        let p = HexMapPosition::new(x, y);
        let ns = get_neighbours(&p);
        assert_eq!(ns.len(), 6);
        for n in ns.iter() {
            assert_eq!(hex_distance(&p, n), 1);
            assert_ne!(*n, p);
        }
        for i in 0..6 {
            for j in 0..6 {
                if i != j {
                    assert_ne!(ns[i], ns[j]);
                }
            }
        }
    }
}

#[test]
fn neighbour_order_is_stable() {
    let p = HexMapPosition::new(5, 5);
    let a = get_neighbours(&p);
    let b = get_neighbours(&p);
    assert_eq!(a, b);
    let d = cube_direction(0);
    assert_eq!(d, CubeVec { q: 1, r: -1, s: 0 });
    assert_eq!((a[0].x, a[0].y), (6, 4));
}

#[test]
fn valid_neighbours_drop_cells_off_the_map() {
    let partition = small_map();
    let corner = partition.get_valid_neighbours(&HexMapPosition::new(0, 0));
    assert_eq!(corner.len(), 2);
    for n in corner.iter() {
        assert!(partition.is_valid_position(n));
    }
    let inner = partition.get_valid_neighbours(&HexMapPosition::new(5, 5));
    assert_eq!(inner.len(), 6);
}

#[test]
fn bounds_and_obstacles() {
    let partition = small_map();
    assert!(partition.is_valid_position(&HexMapPosition::new(0, 0)));
    assert!(partition.is_valid_position(&HexMapPosition::new(9, 9)));
    assert!(!partition.is_valid_position(&HexMapPosition::new(10, 3)));
    assert!(!partition.is_valid_position(&HexMapPosition::new(3, -1)));
    assert!(!partition.is_obstacle(&HexMapPosition::new(3, 3)));
}

#[test]
fn insert_then_query_then_remove() {
    let mut partition = small_map();
    let e = Entity::from_raw(7);
    let p = HexMapPosition::new(4, 3);
    partition.insert_cache_entity(e, &p, EntityType::Grass);
    assert!(partition.entities_by_type(&EntityType::Grass).contains(&EntityWithCoord { entity: e, pos: p }));
    assert!(partition.entities_at(&p).contains(&e));
    assert!(partition.contains_entity(e));
    partition.remove_entity(e, &p, EntityType::Grass);
    assert!(partition.entities_by_type(&EntityType::Grass).is_empty());
    assert!(!partition.entities_at(&p).contains(&e));
    assert!(!partition.contains_entity(e));
}

#[test]
fn remove_with_wrong_coordinates_changes_nothing() {
    let mut partition = small_map();
    let e = Entity::from_raw(3);
    let p = HexMapPosition::new(2, 2);
    partition.insert_cache_entity(e, &p, EntityType::Fox);
    partition.remove_entity(e, &HexMapPosition::new(2, 3), EntityType::Fox);
    partition.remove_entity(e, &p, EntityType::Rabbit);
    assert_eq!(partition.entities_by_type(&EntityType::Fox).len(), 1);
    assert_eq!(partition.entities_at(&p), vec![e]);
}

#[test]
fn ground_and_other_slots_are_separate() {
    let mut partition = small_map();
    let p = HexMapPosition::new(1, 1);
    assert!(partition.check_entity_conflict_by_pos(EntityType::Grass, &p));
    assert!(partition.check_entity_conflict_by_pos(EntityType::Rabbit, &p));
    assert!(!partition.check_entity_conflict_by_pos(EntityType::Cell, &p));
    partition.insert_cache_entity(Entity::from_raw(1), &p, EntityType::Grass);
    assert!(!partition.check_entity_conflict_by_pos(EntityType::Grass, &p));
    assert!(partition.check_entity_conflict_by_pos(EntityType::Rabbit, &p));
    partition.insert_cache_entity(Entity::from_raw(2), &p, EntityType::Rabbit);
    assert_eq!(partition.entities_at(&p), vec![Entity::from_raw(1), Entity::from_raw(2)]);
}

#[test]
fn terrain_slot_and_empty_queries() {
    let mut partition = small_map();
    let p = HexMapPosition::new(3, 4);
    assert_eq!(partition.get_cell_by_pos(&p), Entity::placeholder());
    partition.insert_cache_entity(Entity::from_raw(99), &p, EntityType::Cell);
    assert_eq!(partition.get_cell_by_pos(&p), Entity::from_raw(99));
    assert!(partition.entities_by_type(&EntityType::Cell).is_empty());
    assert!(partition.entities_by_type(&EntityType::Rabbit).is_empty());
    assert!(partition.entities_at(&p).is_empty());
}

#[test]
fn query_keeps_to_radius_and_skips_ground() {
    let mut partition = small_map();
    partition.insert_cache_entity(Entity::from_raw(1), &HexMapPosition::new(5, 5), EntityType::Rabbit);
    partition.insert_cache_entity(Entity::from_raw(2), &HexMapPosition::new(8, 5), EntityType::Fox);
    partition.insert_cache_entity(Entity::from_raw(3), &HexMapPosition::new(5, 6), EntityType::Grass);
    let near = partition.query(HexMapPosition::new(5, 5), 2);
    assert_eq!(near, vec![Entity::from_raw(1)]);
    let far = partition.query(HexMapPosition::new(5, 5), 3);
    assert!(far.contains(&Entity::from_raw(2)));
    assert!(!far.contains(&Entity::from_raw(3)));
}

#[test]
fn labels_name_each_type() {
    assert_eq!(EntityType::Cell.label(), "Map_cell");
    assert_eq!(EntityType::Grass.label(), "Grass_normal");
    assert_eq!(EntityType::Rabbit.label(), "Rabbit");
    assert_eq!(EntityType::Fox.label(), "Fox");
}
