use minigame::behave_tree::{
    actor_tick, dynamic_obstacle_risk, forage_action_system, get_ai_behave_tree, idle_action_system,
    move_chance_percent, neighbour_weight, score_neighbours, total_weight, weighted_random_choice,
    ActorState, AnimalActorBoard, EdibleEntity, ForageAction, ForageOutcome, IdleAction,
    IdleOutcome, MoveCooldown, TickOutcome, FOOD_SATIETY,
};
use minigame::hex::{cube_direction, HexMapPosition};
use minigame::partition::{Entity, EntityType, EntityWithCoord, HexGridConfig, SpatialPartition};
use minigame::simulation::Simulation;

const GRASS: ForageAction = ForageAction { food_entity_type: EntityType::Grass };

fn world_with_grass(cells: &[(u64, i32, i32)]) -> Simulation {
    let mut sim = Simulation::new(HexGridConfig::new(10, 10));
    for &(id, x, y) in cells {
        assert!(sim.add_food(Entity::from_raw(id), &HexMapPosition::new(x, y), EntityType::Grass));
    }
    sim
}

fn ready_board(x: i32, y: i32, satiety: i32) -> AnimalActorBoard {
    let mut board = AnimalActorBoard::new(HexMapPosition::new(x, y), EntityType::Rabbit);
    board.satiety = satiety;
    board.move_cd_timer = MoveCooldown::new(1000, 0);
    board
}

fn reservation(sim: &Simulation, id: u64) -> Option<Option<Entity>> {
    sim.edibles.iter().find(|r| r.entity == Entity::from_raw(id)).map(|r| r.reserved_by)
}

#[test]
fn hungry_agent_next_to_grass_reserves_paths_and_eats() {
    let mut sim = world_with_grass(&[(100, 5, 6)]);
    let mut board = ready_board(5, 5, 4500);
    let mut idle = IdleAction::new();
    let me = Entity::from_raw(1);
    let r = actor_tick(&mut board, &mut idle, me, Some(GRASS), &mut sim.edibles, &mut sim.partition, 1000);
    let grass = EntityWithCoord { entity: Entity::from_raw(100), pos: HexMapPosition::new(5, 6) };
    assert_eq!(r, TickOutcome::Forage(ForageOutcome::Ate(grass)));
    assert_eq!(board.current_pos, HexMapPosition::new(5, 6));
    assert_eq!(board.satiety, 4500 + FOOD_SATIETY);
    assert_eq!(board.state, ActorState::Foraging);
    assert_eq!(board.forage_target, None);
    assert!(sim.partition.entities_by_type(&EntityType::Grass).is_empty());
    assert!(sim.partition.entities_at(&HexMapPosition::new(5, 6)).is_empty());
    assert!(sim.edibles.is_empty());
}

#[test]
fn hungry_agent_reserves_and_steps_toward_distant_grass() {
    let mut sim = world_with_grass(&[(100, 5, 8)]);
    let mut board = ready_board(5, 5, 4500);
    let mut idle = IdleAction::new();
    let me = Entity::from_raw(1);
    let r = actor_tick(&mut board, &mut idle, me, Some(GRASS), &mut sim.edibles, &mut sim.partition, 1000);
    let target = HexMapPosition::new(5, 8);
    match r {
        TickOutcome::Forage(ForageOutcome::Moved(n)) => {
            assert_eq!(board.current_pos, n);
            assert_eq!(minigame::hex::hex_distance(&n, &target), 2);
            assert_eq!(minigame::hex::hex_distance(&HexMapPosition::new(5, 5), &n), 1);
        }
        other => panic!("unexpected outcome {:?}", other),
    }
    assert_eq!(board.forage_target, Some(Entity::from_raw(100)));
    assert_eq!(board.move_target, Some(target));
    assert_eq!(reservation(&sim, 100), Some(Some(me)));
    assert_eq!(board.satiety, 4500);
}

#[test]
fn nearest_unreserved_food_is_chosen() {
    let mut sim = world_with_grass(&[(100, 9, 9), (101, 5, 8), (102, 0, 0)]);
    let mut board = ready_board(5, 5, 4500);
    let mut idle = IdleAction::new();
    let me = Entity::from_raw(1);
    actor_tick(&mut board, &mut idle, me, Some(GRASS), &mut sim.edibles, &mut sim.partition, 1000);
    assert_eq!(board.forage_target, Some(Entity::from_raw(101)));
    assert_eq!(reservation(&sim, 100), Some(None));
    assert_eq!(reservation(&sim, 101), Some(Some(me)));
}

#[test]
fn a_reserved_food_is_not_taken_by_a_second_agent() {
    let mut sim = world_with_grass(&[(100, 5, 8)]);
    let a = Entity::from_raw(1);
    let b = Entity::from_raw(2);
    let mut board_a = ready_board(5, 5, 4500);
    let mut board_b = ready_board(3, 8, 4500);
    let mut idle_a = IdleAction::new();
    let mut idle_b = IdleAction::new();
    actor_tick(&mut board_a, &mut idle_a, a, Some(GRASS), &mut sim.edibles, &mut sim.partition, 1000);
    assert_eq!(reservation(&sim, 100), Some(Some(a)));
    let r = actor_tick(&mut board_b, &mut idle_b, b, Some(GRASS), &mut sim.edibles, &mut sim.partition, 1000);
    assert_eq!(r, TickOutcome::Forage(ForageOutcome::NoFood));
    assert_eq!(board_b.forage_target, None);
    assert_eq!(reservation(&sim, 100), Some(Some(a)));
}

#[test]
fn stale_target_is_dropped_without_crashing() {
    let mut sim = world_with_grass(&[(100, 5, 8)]);
    let me = Entity::from_raw(1);
    let mut board = ready_board(5, 5, 4500);
    let mut idle = IdleAction::new();
    actor_tick(&mut board, &mut idle, me, Some(GRASS), &mut sim.edibles, &mut sim.partition, 1000);
    assert_eq!(board.forage_target, Some(Entity::from_raw(100)));
    // another process removes the grass between ticks
    sim.partition.remove_entity(Entity::from_raw(100), &HexMapPosition::new(5, 8), EntityType::Grass);
    sim.edibles.clear();
    let r = actor_tick(&mut board, &mut idle, me, Some(GRASS), &mut sim.edibles, &mut sim.partition, 1000);
    assert_eq!(r, TickOutcome::Forage(ForageOutcome::NoFood));
    assert_eq!(board.forage_target, None);
    assert_eq!(board.move_target, None);
}

#[test]
fn target_reserved_by_someone_else_is_dropped_and_replaced() {
    let mut sim = world_with_grass(&[(100, 5, 8), (101, 9, 9)]);
    let me = Entity::from_raw(1);
    let mut board = ready_board(5, 5, 4500);
    board.forage_target = Some(Entity::from_raw(100));
    board.move_target = Some(HexMapPosition::new(5, 8));
    sim.edibles[0] = EdibleEntity { entity: Entity::from_raw(100), reserved_by: Some(Entity::from_raw(9)) };
    let mut idle = IdleAction::new();
    actor_tick(&mut board, &mut idle, me, Some(GRASS), &mut sim.edibles, &mut sim.partition, 1000);
    assert_eq!(board.forage_target, Some(Entity::from_raw(101)));
    assert_eq!(reservation(&sim, 100), Some(Some(Entity::from_raw(9))));
    assert_eq!(reservation(&sim, 101), Some(Some(me)));
}

#[test]
fn full_agent_releases_its_reservation_and_idles() {
    let mut sim = world_with_grass(&[(100, 5, 8)]);
    let me = Entity::from_raw(1);
    let mut board = ready_board(5, 5, 4500);
    let mut idle = IdleAction::new();
    actor_tick(&mut board, &mut idle, me, Some(GRASS), &mut sim.edibles, &mut sim.partition, 1000);
    assert_eq!(reservation(&sim, 100), Some(Some(me)));
    board.satiety = 8000;
    let r = forage_action_system(&mut board, me, &GRASS, &mut sim.edibles, &mut sim.partition, 0);
    assert_eq!(r, ForageOutcome::CoolingDown);
    assert_eq!(board.state, ActorState::Foraging);
    assert_eq!(board.forage_target, Some(Entity::from_raw(100)));
    assert_eq!(reservation(&sim, 100), Some(Some(me)));
    let r = forage_action_system(&mut board, me, &GRASS, &mut sim.edibles, &mut sim.partition, 1000);
    assert_eq!(r, ForageOutcome::Satisfied);
    assert_eq!(board.state, ActorState::Idle);
    assert_eq!(board.forage_target, None);
    assert_eq!(reservation(&sim, 100), Some(None));
}

#[test]
fn fleeing_agent_does_not_forage() {
    let mut sim = world_with_grass(&[(100, 5, 6)]);
    let me = Entity::from_raw(1);
    let mut board = ready_board(5, 5, 6000);
    board.state = ActorState::Flee;
    let r = forage_action_system(&mut board, me, &GRASS, &mut sim.edibles, &mut sim.partition, 1000);
    assert_eq!(r, ForageOutcome::Fleeing);
    assert_eq!(board.current_pos, HexMapPosition::new(5, 5));
    assert_eq!(reservation(&sim, 100), Some(None));
}

#[test]
fn cooldown_gates_foraging() {
    let mut sim = world_with_grass(&[(100, 5, 6)]);
    let me = Entity::from_raw(1);
    let mut board = ready_board(5, 5, 4500);
    board.move_cd_timer = MoveCooldown::new(1000, 0);
    let mut idle = IdleAction::new();
    let r = actor_tick(&mut board, &mut idle, me, Some(GRASS), &mut sim.edibles, &mut sim.partition, 300);
    assert_eq!(r, TickOutcome::Forage(ForageOutcome::CoolingDown));
    assert_eq!(board.state, ActorState::Idle);
    assert_eq!(board.current_pos, HexMapPosition::new(5, 5));
    assert_eq!(board.move_cd_timer.elapsed_ms, 300);
    assert_eq!(reservation(&sim, 100), Some(None));
}

#[test]
fn no_food_means_no_target() {
    let mut sim = world_with_grass(&[]);
    let me = Entity::from_raw(1);
    let mut board = ready_board(5, 5, 4500);
    let r = forage_action_system(&mut board, me, &GRASS, &mut sim.edibles, &mut sim.partition, 1000);
    assert_eq!(r, ForageOutcome::NoFood);
    assert_eq!(board.current_pos, HexMapPosition::new(5, 5));
}

#[test]
fn move_chance_grows_and_caps() {
    assert_eq!(move_chance_percent(0), 50);
    assert_eq!(move_chance_percent(1), 60);
    assert_eq!(move_chance_percent(3), 80);
    assert_eq!(move_chance_percent(4), 90);
    assert_eq!(move_chance_percent(5), 99);
    assert_eq!(move_chance_percent(10), 99);
    assert_eq!(move_chance_percent(u32::MAX), 99);
    let mut last = 0;
    for k in 0..20 {
        let c = move_chance_percent(k);
        assert!(c >= last && c <= 99);
        last = c;
    }
}

#[test]
fn idle_transitions_happen_at_their_rate() {
    let partition = SpatialPartition::new(HexGridConfig::new(10, 10));
    for streak in [0u32, 3, 5, 10] {
        let mut moved = 0;
        let trials = 2000;
        for _ in 0..trials {
            let mut board = ready_board(5, 5, 6000);
            board.idle_counter = streak;
            let mut idle = IdleAction::new();
            let r = idle_action_system(&mut board, &mut idle, Entity::from_raw(1), &partition, 1000);
            if r != IdleOutcome::StayedIdle {
                moved += 1;
                assert_eq!(board.idle_counter, 0);
                assert_eq!(board.state, ActorState::RandomMove);
            } else {
                assert_eq!(board.idle_counter, streak + 1);
            }
        }
        let expected = move_chance_percent(streak + 1) as f64 / 100.0;
        let rate = moved as f64 / trials as f64;
        assert!((rate - expected).abs() < 0.06, "streak {streak}: rate {rate}, expected {expected}");
    }
}

#[test]
fn hungry_idle_agent_switches_to_foraging() {
    let partition = SpatialPartition::new(HexGridConfig::new(10, 10));
    let mut board = ready_board(5, 5, 5000);
    let mut idle = IdleAction::new();
    let r = idle_action_system(&mut board, &mut idle, Entity::from_raw(1), &partition, 1000);
    assert_eq!(r, IdleOutcome::Hungry);
    assert_eq!(board.state, ActorState::Foraging);
}

#[test]
fn fresh_exploration_moves_to_a_neighbour() {
    let partition = SpatialPartition::new(HexGridConfig::new(10, 10));
    let mut board = ready_board(5, 5, 6000);
    board.state = ActorState::RandomMove;
    let mut idle = IdleAction::new();
    let r = idle_action_system(&mut board, &mut idle, Entity::from_raw(1), &partition, 1000);
    match r {
        IdleOutcome::Moved(n) => {
            assert_eq!(board.current_pos, n);
            assert_eq!(minigame::hex::hex_distance(&HexMapPosition::new(5, 5), &n), 1);
            let d = idle.preference.direction;
            assert_eq!((d.q, d.r, d.s), (n.q - 3, n.r - 5, n.s + 8));
            assert!((3..=5).contains(&idle.exploration.steps_remaining));
            assert_eq!(idle.exploration.base_position, HexMapPosition::new(5, 5));
        }
        other => panic!("unexpected outcome {:?}", other),
    }
}

#[test]
fn exploration_ends_when_steps_run_out() {
    let partition = SpatialPartition::new(HexGridConfig::new(10, 10));
    let mut board = ready_board(5, 5, 6000);
    board.state = ActorState::RandomMove;
    board.idle_counter = 4;
    let mut idle = IdleAction::new();
    idle.preference.direction = cube_direction(1);
    idle.exploration.steps_remaining = 0;
    let r = idle_action_system(&mut board, &mut idle, Entity::from_raw(1), &partition, 1000);
    assert_eq!(r, IdleOutcome::ExplorationDone);
    assert_eq!(board.state, ActorState::Idle);
    assert_eq!(board.idle_counter, 0);
    assert_eq!(board.current_pos, HexMapPosition::new(5, 5));
}

#[test]
fn continued_exploration_steps_to_a_neighbour() {
    let partition = SpatialPartition::new(HexGridConfig::new(10, 10));
    let mut board = ready_board(5, 5, 6000);
    board.state = ActorState::RandomMove;
    let mut idle = IdleAction::new();
    idle.preference.direction = cube_direction(1);
    idle.exploration.steps_remaining = 2;
    let r = idle_action_system(&mut board, &mut idle, Entity::from_raw(1), &partition, 1000);
    assert!(matches!(r, IdleOutcome::Moved(_)));
    assert_eq!(idle.exploration.steps_remaining, 1);
    assert_eq!(minigame::hex::hex_distance(&HexMapPosition::new(5, 5), &board.current_pos), 1);
}

#[test]
fn move_weights_follow_heading_and_risk() {
    assert_eq!(neighbour_weight(2, 70, 0), 340);
    assert_eq!(neighbour_weight(1, 70, 0), 270);
    assert_eq!(neighbour_weight(0, 70, 0), 200);
    assert_eq!(neighbour_weight(-2, 70, 0), 60);
    assert_eq!(neighbour_weight(2, 70, 1), 140);
    assert_eq!(neighbour_weight(0, 70, 3), 2);
    assert_eq!(neighbour_weight(0, 70, 10), 2);
}

#[test]
fn neighbours_are_scored_by_alignment() {
    let partition = SpatialPartition::new(HexGridConfig::new(10, 10));
    let from = HexMapPosition::new(5, 5);
    let mut idle = IdleAction::new();
    idle.preference.direction = cube_direction(1);
    let ns = partition.get_valid_neighbours(&from);
    let scored = score_neighbours(&from, &idle, Entity::from_raw(1), &partition, &ns);
    let weights: Vec<u64> = scored.iter().map(|c| c.1).collect();
    assert_eq!(weights, vec![270, 340, 270, 130, 60, 130]);
    assert_eq!(total_weight(&scored), 1200);
}

#[test]
fn obstacle_risk_counts_neighbours_and_occupants() {
    let mut partition = SpatialPartition::new(HexGridConfig::new(10, 10));
    let me = Entity::from_raw(1);
    let target = HexMapPosition::new(5, 5);
    assert_eq!(dynamic_obstacle_risk(&target, &partition, me), 0);
    partition.insert_cache_entity(me, &target, EntityType::Rabbit);
    assert_eq!(dynamic_obstacle_risk(&target, &partition, me), 0);
    let next = HexMapPosition::new(6, 5);
    partition.insert_cache_entity(Entity::from_raw(2), &next, EntityType::Fox);
    partition.insert_cache_entity(Entity::from_raw(3), &next, EntityType::Grass);
    assert_eq!(dynamic_obstacle_risk(&target, &partition, me), 6);
    partition.insert_cache_entity(Entity::from_raw(4), &target, EntityType::Grass);
    assert_eq!(dynamic_obstacle_risk(&target, &partition, me), 10);
    partition.insert_cache_entity(Entity::from_raw(5), &next, EntityType::Rabbit);
    partition.insert_cache_entity(Entity::from_raw(6), &next, EntityType::Fox);
    assert_eq!(dynamic_obstacle_risk(&target, &partition, me), 12);
}

#[test]
fn obstacle_risk_sums_over_the_neighbourhood() {
    let mut partition = SpatialPartition::new(HexGridConfig::new(10, 10));
    let me = Entity::from_raw(1);
    let target = HexMapPosition::new(5, 5);
    partition.insert_cache_entity(Entity::from_raw(2), &HexMapPosition::new(6, 5), EntityType::Fox);
    partition.insert_cache_entity(Entity::from_raw(3), &HexMapPosition::new(4, 5), EntityType::Rabbit);
    assert_eq!(dynamic_obstacle_risk(&target, &partition, me), 6);
    partition.insert_cache_entity(Entity::from_raw(4), &HexMapPosition::new(5, 4), EntityType::Grass);
    assert_eq!(dynamic_obstacle_risk(&target, &partition, me), 9);
    partition.insert_cache_entity(Entity::from_raw(5), &HexMapPosition::new(5, 6), EntityType::Grass);
    assert_eq!(dynamic_obstacle_risk(&target, &partition, me), 12);
}

#[test]
fn cooling_agent_keeps_everything() {
    let mut sim = world_with_grass(&[(100, 5, 6)]);
    let me = Entity::from_raw(1);
    let mut board = ready_board(5, 5, 9000);
    board.state = ActorState::Foraging;
    let r = forage_action_system(&mut board, me, &GRASS, &mut sim.edibles, &mut sim.partition, 10);
    assert_eq!(r, ForageOutcome::CoolingDown);
    assert_eq!(board.state, ActorState::Foraging);
    assert_eq!(board.move_cd_timer.elapsed_ms, 10);
    let mut idle = IdleAction::new();
    let mut hungry = ready_board(5, 5, 100);
    let partition = SpatialPartition::new(HexGridConfig::new(10, 10));
    let r = idle_action_system(&mut hungry, &mut idle, me, &partition, 10);
    assert_eq!(r, IdleOutcome::CoolingDown);
    assert_eq!(hungry.state, ActorState::Idle);
}

#[test]
fn weighted_choice_walks_cumulative_weights() {
    let p = |x| HexMapPosition::new(x, 0);
    let cands = vec![(p(0), 2u64), (p(1), 5), (p(2), 3)];
    assert_eq!(weighted_random_choice(&cands, 0), Some(p(0)));
    assert_eq!(weighted_random_choice(&cands, 2), Some(p(0)));
    assert_eq!(weighted_random_choice(&cands, 3), Some(p(1)));
    assert_eq!(weighted_random_choice(&cands, 7), Some(p(1)));
    assert_eq!(weighted_random_choice(&cands, 8), Some(p(2)));
    assert_eq!(weighted_random_choice(&cands, 10), Some(p(2)));
    assert_eq!(weighted_random_choice(&cands, 11), Some(p(2)));
    assert_eq!(weighted_random_choice(&vec![], 0), None);
    assert_eq!(total_weight(&cands), 10);
}

#[test]
fn species_forage_for_grass() {
    assert_eq!(get_ai_behave_tree(EntityType::Rabbit), Some(GRASS));
    assert_eq!(get_ai_behave_tree(EntityType::Fox), Some(GRASS));
    assert_eq!(get_ai_behave_tree(EntityType::Grass), None);
    assert_eq!(get_ai_behave_tree(EntityType::Cell), None);
}

#[test]
fn cooldown_restarts_when_done() {
    let mut cd = MoveCooldown::new(1000, 500);
    assert!(!cd.tick(400));
    assert_eq!(cd.elapsed_ms, 900);
    assert!(cd.tick(100));
    assert_eq!(cd.elapsed_ms, 0);
}

#[test]
fn simulation_runs_every_agent() {
    let mut sim = world_with_grass(&[(100, 5, 6)]);
    let rabbit = Entity::from_raw(1);
    let mut board = AnimalActorBoard::new(HexMapPosition::new(5, 5), EntityType::Rabbit);
    board.satiety = 4000;
    assert!(sim.add_agent(rabbit, board, get_ai_behave_tree(EntityType::Rabbit)));
    assert!(!sim.add_agent(rabbit, AnimalActorBoard::new(HexMapPosition::new(1, 1), EntityType::Fox), None));
    assert!(!sim.add_food(Entity::from_raw(100), &HexMapPosition::new(2, 2), EntityType::Grass));
    let outcomes = sim.tick(1000);
    assert_eq!(outcomes.len(), 1);
    assert_eq!(sim.boards[0].satiety, 9000);
    assert!(sim.partition.entities_by_type(&EntityType::Grass).is_empty());
    assert_eq!(sim.partition.entities_by_type(&EntityType::Rabbit).len(), 1);
}
