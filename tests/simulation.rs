use snake_core::entity::{EntityId, EntityManager};
use snake_core::game::Game;
use snake_core::movement::{MovementEvent, MovementSystem};
use snake_core::physics::{Duel, PhysicsEvent, PhysicsSystem};
use snake_core::presence::{PresenceEvent, PresenceSystem};
use snake_core::snake::Snake;
use snake_core::types::{Direction, GridPos};
use snake_core::world::World;
use std::collections::VecDeque;

fn pos(x: u32, y: u32) -> GridPos {
    GridPos { x, y }
}

fn snake(direction: Direction, cells: &[(u32, u32)]) -> Snake {
    let body: VecDeque<GridPos> = cells.iter().map(|&(x, y)| pos(x, y)).collect();
    Snake { direction, body }
}

fn store(snakes: Vec<(EntityId, Snake)>) -> EntityManager {
    let mut m = EntityManager::new();
    for (id, s) in snakes {
        m.entities.insert(id, s);
    }
    m
}

fn presence_for(world: &World, entities: &EntityManager) -> PresenceSystem {
    let mut p = PresenceSystem::new();
    p.add_chunks(world.chunks.len() as u32);
    for (id, s) in entities.entities.iter() {
        p.register_new_entity(*id, s, world);
    }
    p
}

fn sorted(mut v: Vec<EntityId>) -> Vec<EntityId> {
    v.sort();
    v
}

fn listed(p: &PresenceSystem, chunk: u32) -> Vec<EntityId> {
    sorted(p.presence_map[&chunk].clone())
}

fn run_physics(world: &World, entities: &EntityManager) -> (Vec<EntityId>, PresenceSystem) {
    let mut p = presence_for(world, entities);
    let mut events = Vec::new();
    PhysicsSystem::tick(&mut p, entities, world, &mut events);
    let ids = events
        .iter()
        .map(|e| match e {
            PhysicsEvent::EntityDied(id) => *id,
        })
        .collect();
    (ids, p)
}

#[test]
fn new_snake_faces_north_without_body() {
    let s = Snake::new();
    assert_eq!(s.direction, Direction::North);
    assert!(s.body.is_empty());
}

#[test]
fn move_forward_each_direction() {
    for (d, head) in [
        (Direction::North, pos(5, 4)),
        (Direction::South, pos(5, 6)),
        (Direction::East, pos(6, 5)),
        (Direction::West, pos(4, 5)),
    ] {
        let mut s = snake(d, &[(5, 5), (5, 6), (5, 7)]);
        s.move_forward();
        assert_eq!(s.body.len(), 3);
        assert_eq!(s.body[0], head);
        assert_eq!(s.body[1], pos(5, 5));
        assert_eq!(s.body[2], pos(5, 6));
        assert!(!s.body.contains(&pos(5, 7)) || head == pos(5, 7));
    }
}

#[test]
fn move_forward_wraps_at_the_edge() {
    let mut s = snake(Direction::North, &[(3, 0)]);
    s.move_forward();
    assert_eq!(s.body[0], pos(3, u32::MAX));
    let mut w = snake(Direction::West, &[(0, 3)]);
    w.move_forward();
    assert_eq!(w.body[0], pos(u32::MAX, 3));
}

#[test]
fn move_forward_revisits_tail() {
    // A 2x2 loop: the head steps into the cell the tail leaves.
    let mut s = snake(Direction::South, &[(1, 0), (0, 0), (0, 1), (1, 1)]);
    s.move_forward();
    assert_eq!(s.body[0], pos(1, 1));
    assert_eq!(s.body.len(), 4);
}

#[test]
fn entity_add_seeds_body_and_ids_are_listed() {
    let mut m = EntityManager::new();
    let a = m.add(pos(3, 4)).expect("fresh id");
    let b = m.add(pos(7, 8)).expect("fresh id");
    assert_ne!(a, b);
    assert!(a < u64::MAX - 128);
    let s = m.get(&a).unwrap();
    assert_eq!(s.direction, Direction::North);
    assert_eq!(s.body.iter().copied().collect::<Vec<_>>(), vec![pos(3, 4)]);
    assert_eq!(sorted(m.ids()), sorted(vec![a, b]));
}

#[test]
fn entity_spawn_with_live_id_is_refused() {
    let mut m = EntityManager::new();
    assert!(m.spawn_with_id(9, pos(1, 1)));
    assert!(!m.spawn_with_id(9, pos(2, 2)));
    assert_eq!(m.get(&9).unwrap().body[0], pos(1, 1));
}

#[test]
fn entity_remove_and_get() {
    let mut m = EntityManager::new();
    m.spawn_with_id(1, pos(0, 0));
    m.remove(1);
    assert!(m.get(&1).is_none());
    m.remove(1);
    assert!(m.ids().is_empty());
}

#[test]
fn entity_turn() {
    let mut m = EntityManager::new();
    m.spawn_with_id(1, pos(0, 0));
    assert!(m.turn(1, Direction::East));
    assert_eq!(m.get(&1).unwrap().direction, Direction::East);
    assert!(!m.turn(2, Direction::East));
}

#[test]
fn movement_tick_moves_all_and_reports() {
    let mut m = store(vec![
        (1, snake(Direction::East, &[(5, 5), (4, 5)])),
        (2, snake(Direction::South, &[(9, 9)])),
        (3, Snake::new()),
    ]);
    let mut events = Vec::new();
    MovementSystem::tick(&mut m, &mut events);
    assert_eq!(events.len(), 2);
    let mut seen: Vec<MovementEvent> = events.clone();
    seen.sort_by_key(|e| match e {
        MovementEvent::EntityMoved { entity_id, .. } => *entity_id,
    });
    assert_eq!(
        seen[0],
        MovementEvent::EntityMoved { entity_id: 1, new_head: pos(6, 5), removed_tail: pos(4, 5) }
    );
    assert_eq!(
        seen[1],
        MovementEvent::EntityMoved { entity_id: 2, new_head: pos(9, 10), removed_tail: pos(9, 9) }
    );
    assert_eq!(m.get(&1).unwrap().body.iter().copied().collect::<Vec<_>>(), vec![pos(6, 5), pos(5, 5)]);
    assert!(m.get(&3).unwrap().body.is_empty());
}

#[test]
fn presence_register_and_death() {
    let world = World::new(64, 32).unwrap();
    let mut p = PresenceSystem::new();
    p.add_chunks(8);
    let s = snake(Direction::East, &[(16, 0), (15, 0), (14, 0)]);
    p.register_new_entity(7, &s, &world);
    assert_eq!(listed(&p, 0), vec![7]);
    assert_eq!(listed(&p, 1), vec![7]);
    assert!(listed(&p, 2).is_empty());
    p.register_new_entity(7, &s, &world);
    assert_eq!(listed(&p, 0), vec![7]);
    p.handle_entity_death(7, &s, &world);
    assert!(listed(&p, 0).is_empty());
    assert!(listed(&p, 1).is_empty());
}

#[test]
fn presence_add_and_remove_in_unknown_chunk_do_nothing() {
    let mut p = PresenceSystem::new();
    p.add_entity_to_chunk(3, 1);
    p.remove_entity_from_chunk(3, &1);
    assert!(p.presence_map.is_empty());
    p.add_chunks(2);
    p.add_entity_to_chunk(1, 5);
    p.add_entity_to_chunk(1, 6);
    p.add_entity_to_chunk(1, 5);
    assert_eq!(listed(&p, 1), vec![5, 6]);
    p.remove_entity_from_chunk(1, &5);
    assert_eq!(listed(&p, 1), vec![6]);
    assert_eq!(sorted(p.chunk_ids().iter().map(|c| *c as u64).collect()), vec![0, 1]);
}

#[test]
fn presence_tick_follows_head_and_tail() {
    let world = World::new(64, 32).unwrap();
    let mut p = PresenceSystem::new();
    p.add_chunks(8);
    let s = snake(Direction::East, &[(15, 0)]);
    p.register_new_entity(4, &s, &world);
    let moves = vec![
        MovementEvent::EntityMoved { entity_id: 4, new_head: pos(16, 0), removed_tail: pos(15, 0) },
        MovementEvent::EntityMoved { entity_id: 4, new_head: pos(17, 0), removed_tail: pos(16, 0) },
    ];
    let mut events = Vec::new();
    p.tick(&world, &moves, &mut events);
    assert_eq!(
        events,
        vec![
            PresenceEvent::EntityEnteredChunk { entity_id: 4, chunk_id: 1 },
            PresenceEvent::EntityLeftChunk { entity_id: 4, chunk_id: 0 },
        ]
    );
    assert!(listed(&p, 0).is_empty());
    assert_eq!(listed(&p, 1), vec![4]);
}

#[test]
fn self_collision_detected() {
    assert!(PhysicsSystem::check_self_collision(&snake(Direction::North, &[(5, 5), (5, 5)])));
    assert!(PhysicsSystem::check_self_collision(&snake(
        Direction::North,
        &[(5, 5), (5, 6), (6, 6), (6, 5), (5, 5)]
    )));
    assert!(!PhysicsSystem::check_self_collision(&snake(Direction::North, &[(5, 5), (5, 6)])));
    assert!(!PhysicsSystem::check_self_collision(&Snake::new()));
}

#[test]
fn self_collision_yields_one_death() {
    let world = World::new(64, 32).unwrap();
    let entities = store(vec![
        (1, snake(Direction::North, &[(5, 5), (5, 5)])),
        (2, snake(Direction::North, &[(40, 20)])),
    ]);
    let (dead, p) = run_physics(&world, &entities);
    assert_eq!(dead, vec![1]);
    assert!(listed(&p, 0).is_empty());
    assert_eq!(listed(&p, 6), vec![2]);
}

#[test]
fn head_to_head_kills_exactly_one() {
    let world = World::new(64, 32).unwrap();
    for _ in 0..20 {
        let entities = store(vec![
            (1, snake(Direction::East, &[(5, 5), (4, 5)])),
            (2, snake(Direction::West, &[(5, 5), (6, 5)])),
        ]);
        let (dead, p) = run_physics(&world, &entities);
        assert_eq!(dead.len(), 1);
        assert!(dead[0] == 1 || dead[0] == 2);
        let survivor = 3 - dead[0];
        assert_eq!(listed(&p, 0), vec![survivor]);
    }
}

#[test]
fn head_into_body_kills_the_runner() {
    let world = World::new(64, 32).unwrap();
    let entities = store(vec![
        (1, snake(Direction::East, &[(5, 6), (4, 6)])),
        (2, snake(Direction::North, &[(5, 5), (5, 6), (5, 7)])),
    ]);
    let (dead, _) = run_physics(&world, &entities);
    assert_eq!(dead, vec![1]);
}

#[test]
fn mutual_head_into_body_kills_both() {
    let world = World::new(64, 32).unwrap();
    let entities = store(vec![
        (1, snake(Direction::East, &[(5, 5), (6, 5), (6, 6)])),
        (2, snake(Direction::West, &[(6, 5), (5, 5), (5, 6)])),
    ]);
    let (dead, _) = run_physics(&world, &entities);
    assert_eq!(sorted(dead), vec![1, 2]);
}

#[test]
fn several_rules_one_death_event() {
    let world = World::new(64, 32).unwrap();
    // Entity 1 runs into itself and into the body of entity 2, in two chunks it shares with 2.
    let entities = store(vec![
        (1, snake(Direction::East, &[(16, 5), (16, 5), (15, 5)])),
        (2, snake(Direction::South, &[(16, 4), (16, 5), (15, 5), (14, 5)])),
    ]);
    let (dead, _) = run_physics(&world, &entities);
    assert_eq!(dead, vec![1]);
}

#[test]
fn no_collision_across_chunks() {
    let world = World::new(64, 32).unwrap();
    let entities = store(vec![
        (1, snake(Direction::East, &[(1, 1)])),
        (2, snake(Direction::East, &[(40, 1)])),
    ]);
    let (dead, _) = run_physics(&world, &entities);
    assert!(dead.is_empty());
}

#[test]
fn settle_follows_the_coins() {
    let duels = vec![Duel { first: 1, second: 2 }, Duel { first: 3, second: 4 }];
    let mut dead = vec![9];
    PhysicsSystem::settle(&mut dead, &duels, &vec![true, false]);
    assert_eq!(sorted(dead), vec![1, 4, 9]);
    let mut again = vec![1];
    PhysicsSystem::settle(&mut again, &duels, &vec![true, true]);
    assert_eq!(sorted(again), vec![1, 3]);
}

#[test]
fn game_spawn_and_tick() {
    let mut game = Game::new(64, 32);
    assert_eq!(game.presence.presence_map.len(), 8);
    let a = game.spawn(pos(15, 3)).unwrap();
    let b = game.spawn(pos(40, 20)).unwrap();
    assert_eq!(listed(&game.presence, 0), vec![a]);
    game.world.entity_manager.turn(a, Direction::East);
    let events = game.tick();
    assert_eq!(events.movement.len(), 2);
    assert!(events.physics.is_empty());
    assert_eq!(
        events.presence,
        vec![
            PresenceEvent::EntityEnteredChunk { entity_id: a, chunk_id: 1 },
            PresenceEvent::EntityLeftChunk { entity_id: a, chunk_id: 0 },
        ]
    );
    assert_eq!(listed(&game.presence, 1), vec![a]);
    assert_eq!(listed(&game.presence, 6), vec![b]);
    assert_eq!(game.world.entity_manager.get(&a).unwrap().body[0], pos(16, 3));
}

#[test]
fn game_tick_removes_the_dead() {
    let mut game = Game::new(64, 32);
    let a = game.spawn(pos(5, 5)).unwrap();
    let b = game.spawn(pos(5, 3)).unwrap();
    game.world.entity_manager.turn(b, Direction::South);
    // Both heads reach (5, 4): one of the two dies.
    let events = game.tick();
    assert_eq!(events.physics.len(), 1);
    let PhysicsEvent::EntityDied(dead) = events.physics[0];
    assert!(dead == a || dead == b);
    assert!(game.world.entity_manager.get(&dead).is_none());
    assert_eq!(game.world.entity_manager.ids().len(), 1);
    assert_eq!(listed(&game.presence, 0).len(), 1);
    assert!(!listed(&game.presence, 0).contains(&dead));
}

#[test]
fn server_world_starts_empty() {
    let w = snake_core::game::World::new(256, 256);
    assert_eq!(w.world.chunks.len(), 256);
    assert!(w.entity_manager.ids().is_empty());
}

#[test]
fn game_despawn_clears_presence() {
    let mut game = Game::new(64, 32);
    let a = game.spawn(pos(15, 15)).unwrap();
    assert_eq!(listed(&game.presence, 0), vec![a]);
    assert!(game.despawn(a));
    assert!(listed(&game.presence, 0).is_empty());
    assert!(game.world.entity_manager.get(&a).is_none());
    assert!(!game.despawn(a));
}
