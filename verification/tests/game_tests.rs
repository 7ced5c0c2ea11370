use simcore::agent::{Actor, ActorType};
use simcore::game::{Effect, GameArea, GameMessage, GameResponse, Player};
use simcore::terrain::Terrain;
use simcore::vec3::Vec3;
use simcore::world::ObjectType;

fn small_area(size: u32) -> GameArea {
    GameArea::new(Terrain::flat(size, 0), 42)
}

// A player joins, then a second join with the same name is rejected
// with the "name taken" error and issues no world mutation.
#[test]
fn duplicate_name_is_rejected_without_mutation() {
    let mut area = small_area(100);
    let effects = area.handle_message(GameMessage::Hello(1, "alice".to_string()));
    assert_eq!(area.players.len(), 1);
    assert_eq!(area.store.len(), 1);
    assert!(effects.len() >= 4);

    let effects = area.handle_message(GameMessage::Hello(2, "alice".to_string()));
    assert_eq!(effects.len(), 1);
    match &effects[0] {
        Effect::Send(client, GameResponse::Error(code, text)) => {
            assert_eq!(*client, 2);
            assert_eq!(*code, 1);
            assert_eq!(text, "Username already taken");
        },
        other => panic!("expected an error reply, got {:?}", other),
    }
    assert_eq!(area.players.len(), 1);
    assert_eq!(area.store.len(), 1);
}

#[test]
fn duplicate_session_is_rejected() {
    let mut area = small_area(100);
    area.handle_message(GameMessage::Hello(1, "alice".to_string()));
    let effects = area.handle_message(GameMessage::Hello(1, "bob".to_string()));
    assert_eq!(effects.len(), 1);
    match &effects[0] {
        Effect::Send(1, GameResponse::Error(1, text)) => {
            assert_eq!(text, "Incorrect hello");
        },
        other => panic!("expected an error reply, got {:?}", other),
    }
    assert_eq!(area.players.len(), 1);
}

#[test]
fn join_sends_terrain_greeting_and_full_world() {
    let mut area = small_area(100);
    let effects = area.handle_message(GameMessage::Hello(1, "alice".to_string()));
    assert_eq!(effects.len(), 4);
    assert!(matches!(
        &effects[0],
        Effect::Send(1, GameResponse::ElevationMap(100, 100, _))
    ));
    assert!(matches!(
        &effects[1],
        Effect::Send(1, GameResponse::TerrainMap(100, 100, _))
    ));
    match &effects[2] {
        Effect::Send(1, GameResponse::Notice(text)) => assert_eq!(text, "Hello alice"),
        other => panic!("expected the greeting, got {:?}", other),
    }
    match &effects[3] {
        Effect::Send(1, GameResponse::StateUpdate(u)) => {
            assert!(!u.incremental);
            assert_eq!(u.objects.len(), 1);
            assert_eq!(u.area_size, 100);
        },
        other => panic!("expected the full snapshot, got {:?}", other),
    }

    // A second join also notifies the existing session, incrementally.
    let effects = area.handle_message(GameMessage::Hello(2, "bob".to_string()));
    assert_eq!(effects.len(), 5);
    match &effects[4] {
        Effect::Send(1, GameResponse::StateUpdate(u)) => {
            assert!(u.incremental);
            assert_eq!(u.objects.len(), 1);
        },
        other => panic!("expected the broadcast to alice, got {:?}", other),
    }
}

#[test]
fn ping_echoes_for_active_sessions_only() {
    let mut area = small_area(100);
    area.handle_message(GameMessage::Hello(1, "alice".to_string()));
    let effects = area.handle_message(GameMessage::Ping(1, 777));
    assert_eq!(effects.len(), 1);
    assert!(matches!(&effects[0], Effect::Send(1, GameResponse::Pong(777))));
    let effects = area.handle_message(GameMessage::Ping(9, 777));
    assert_eq!(effects.len(), 0);
}

#[test]
fn goodbye_removes_session_and_entity() {
    let mut area = small_area(100);
    area.handle_message(GameMessage::Hello(1, "alice".to_string()));
    area.handle_message(GameMessage::Hello(2, "bob".to_string()));
    let alice_oid = area.players[0].object_id;
    let effects = area.handle_message(GameMessage::Goodbye(1));
    // One last incremental update to bob, then goodbye to alice.
    assert_eq!(effects.len(), 2);
    match &effects[0] {
        Effect::Send(2, GameResponse::StateUpdate(u)) => {
            assert!(u.incremental);
            assert_eq!(u.objects.len(), 1);
            assert!(!u.objects[0].object.alive);
            assert_eq!(u.objects[0].object.object_id, alice_oid);
        },
        other => panic!("expected the death broadcast, got {:?}", other),
    }
    assert!(matches!(&effects[1], Effect::Send(1, GameResponse::Goodbye)));
    assert_eq!(area.players.len(), 1);
    assert!(area.store.get(alice_oid).is_none());
    // Leaving twice is ignored.
    assert_eq!(area.handle_message(GameMessage::Goodbye(1)).len(), 0);
}

#[test]
fn move_intent_sets_clamped_velocity() {
    let mut area = small_area(100);
    area.handle_message(GameMessage::Hello(1, "alice".to_string()));
    let oid = area.players[0].object_id;

    // A small direction scales by ten.
    area.handle_message(GameMessage::Move(1, 1_000, 0, 0));
    assert_eq!(area.store.get(oid).unwrap().velocity, Vec3::new(10_000, 0, 0));

    // A huge direction is clamped to the top speed's magnitude.
    let effects = area.handle_message(GameMessage::Move(1, 9_999_999, 0, 0));
    assert_eq!(
        area.store.get(oid).unwrap().velocity,
        Vec3::new(100_000, 0, 0)
    );
    // The delta is broadcast to every session.
    assert_eq!(effects.len(), 1);
    match &effects[0] {
        Effect::Send(1, GameResponse::StateUpdate(u)) => {
            assert_eq!(u.objects[0].velocity, Vec3::new(100_000, 0, 0));
        },
        other => panic!("expected the move broadcast, got {:?}", other),
    }

    // A move intent from an unknown session does nothing.
    assert_eq!(area.handle_message(GameMessage::Move(9, 1, 1, 1)).len(), 0);
}

#[test]
fn tick_integrates_and_coalesces() {
    let mut area = small_area(100);
    let oid = area.add_actor(10_000, 0, 10_000).unwrap();
    assert_eq!(
        area.store.get(oid).unwrap().velocity,
        Vec3::new(1_000, 0, 1_000)
    );

    area.handle_message(GameMessage::Tick(16));
    let st = area.store.get(oid).unwrap();
    assert_eq!(st.position, Vec3::new(11_000, 0, 11_000));
    assert_eq!(st.object.age, 1);
    assert_eq!(area.ticks, 1);

    // A sub-threshold tick is a no-op.
    area.handle_message(GameMessage::Tick(20));
    assert_eq!(area.store.get(oid).unwrap().position, Vec3::new(11_000, 0, 11_000));
    assert_eq!(area.ticks, 1);

    area.handle_message(GameMessage::Tick(32));
    assert_eq!(area.store.get(oid).unwrap().position, Vec3::new(12_000, 0, 12_000));
    assert_eq!(area.ticks, 2);
}

#[test]
fn tick_clamps_position_at_world_bounds() {
    let mut area = small_area(100);
    let oid = area.add_player(99_950, 0, 0).unwrap();
    // Hand-steer the placed entity to the edge.
    let mut st = area.store.get(oid).unwrap();
    st.velocity = Vec3::new(100_000, 0, -100_000);
    area.store.set(oid, st);
    area.handle_message(GameMessage::Tick(16));
    let st = area.store.get(oid).unwrap();
    assert_eq!(st.position, Vec3::new(100_000, 0, 0));
}

// After a tick moves an agent entity across a cell boundary, the
// spatial index holds its id in exactly the new cell.
#[test]
fn tick_moves_agents_between_index_cells() {
    let mut area = small_area(100);
    let oid = area.add_actor(49_500, 0, 0).unwrap();
    // In cell (0, 0) now: a box over that cell finds it.
    assert_eq!(area.actor_index.get_nearby(25_000, 25_000, 50_000), vec![oid]);

    area.handle_message(GameMessage::Tick(16));
    assert_eq!(
        area.store.get(oid).unwrap().position,
        Vec3::new(50_500, 0, 1_000)
    );
    // Gone from the old cell, present in exactly the new one.
    assert_eq!(
        area.actor_index.get_nearby(25_000, 25_000, 50_000),
        Vec::<u32>::new()
    );
    assert_eq!(
        area.actor_index.get_nearby(75_000, 25_000, 50_000),
        vec![oid]
    );
}

#[test]
fn spawn_actor_registers_and_indexes() {
    let mut area = small_area(100);
    let actor = area.spawn_actor(ActorType::Walker).unwrap();
    assert_eq!(actor.actor_id, 1);
    assert!(matches!(actor.actor_type, ActorType::Walker));
    let st = area.store.get(actor.object_id).unwrap();
    assert!(matches!(st.object.object_type, ObjectType::Actor));
    assert!(st.position.x >= 0 && st.position.x <= 100_000);
    assert!(st.position.z >= 0 && st.position.z <= 100_000);
    assert_eq!(area.actors.get(&actor.actor_id).unwrap().object_id, actor.object_id);
}

#[test]
fn populate_fills_items_and_actors() {
    let mut area = small_area(100);
    let actors = area.populate(3, 2);
    assert_eq!(actors.len(), 2);
    assert_eq!(area.store.len(), 5);
    assert_eq!(actors[0].actor_id, 1);
    assert_eq!(actors[1].actor_id, 2);
}

#[test]
fn scan_reports_nearby_players_and_sorted_agents() {
    let mut area = small_area(300);
    // The scanning agent.
    let me = area.add_actor(40_000, 0, 40_000).unwrap();
    area.actors.insert(1, Actor::new(1, ActorType::Walker, me));
    // Two peers in the same cell, at 4 and 6 units: nearest first.
    let peer_at_4 = area.add_actor(44_000, 0, 40_000).unwrap();
    let peer_at_6 = area.add_actor(46_000, 0, 40_000).unwrap();
    // A peer in a far cell: outside the query box.
    let far = area.add_actor(90_000, 0, 90_000).unwrap();
    // One player within the scan radius, one outside it.
    let p_near = area.add_player(50_000, 0, 40_000).unwrap();
    let p_far = area.add_player(200_000, 0, 200_000).unwrap();
    area.players.push(Player {
        client_id: 1,
        username: "near".to_string(),
        object_id: p_near,
    });
    area.players.push(Player {
        client_id: 2,
        username: "far".to_string(),
        object_id: p_far,
    });

    let effects = area.handle_message(GameMessage::Scan(1));
    assert_eq!(effects.len(), 1);
    match &effects[0] {
        Effect::ScanReply(1, snap) => {
            assert_eq!(snap.actor.actor_id, 1);
            assert_eq!(snap.self_state.object.object_id, me);
            assert_eq!(snap.nearby_players.len(), 1);
            assert_eq!(snap.nearby_players[0].object.object_id, p_near);
            assert_eq!(snap.nearby_agents.len(), 2);
            assert_eq!(snap.nearby_agents[0].object.object_id, peer_at_4);
            assert_eq!(snap.nearby_agents[1].object.object_id, peer_at_6);
            assert!(snap.nearby_agents.iter().all(|o| o.object.object_id != far));
            assert!(snap.nearby_agents.iter().all(|o| o.object.object_id != me));
        },
        other => panic!("expected the scan reply, got {:?}", other),
    }
    // A scan never mutates: the same request yields the same reply.
    let again = area.handle_message(GameMessage::Scan(1));
    assert_eq!(again.len(), 1);
    // An unknown agent's scan is ignored.
    assert_eq!(area.handle_message(GameMessage::Scan(99)).len(), 0);
}

// With more candidates than the cap, a scan reports exactly the
// nearest twenty.
#[test]
fn scan_caps_agents_at_twenty_nearest() {
    let mut area = small_area(100);
    let me = area.add_actor(40_000, 0, 40_000).unwrap();
    area.actors.insert(1, Actor::new(1, ActorType::Walker, me));
    let mut peers = Vec::new();
    for k in 0..25i64 {
        // Distances 30 units down to 6 units, all within cell (0, 0).
        peers.push(area.add_actor(10_000 + 1_000 * k, 0, 40_000).unwrap());
    }
    let effects = area.handle_message(GameMessage::Scan(1));
    match &effects[0] {
        Effect::ScanReply(1, snap) => {
            assert_eq!(snap.nearby_agents.len(), 20);
            // The nearest candidate comes first...
            assert_eq!(snap.nearby_agents[0].object.object_id, peers[24]);
            // ...and the five farthest are cut off.
            for k in 0..5 {
                assert!(snap
                    .nearby_agents
                    .iter()
                    .all(|o| o.object.object_id != peers[k]));
            }
        },
        other => panic!("expected the scan reply, got {:?}", other),
    }
}

// Age saturates instead of wrapping at the top of its range.
#[test]
fn tick_saturates_age() {
    let mut area = small_area(100);
    let oid = area.add_item(10_000, 0, 10_000).unwrap();
    let mut st = area.store.get(oid).unwrap();
    st.object.age = u32::MAX;
    area.store.set(oid, st);
    area.handle_message(GameMessage::Tick(16));
    assert_eq!(area.store.get(oid).unwrap().object.age, u32::MAX);
}

#[test]
fn actor_move_steers_the_agents_entity() {
    let mut area = small_area(100);
    let actor = area.spawn_actor(ActorType::Walker).unwrap();
    area.handle_message(GameMessage::ActorMove(actor.actor_id, -500, 0, 250));
    assert_eq!(
        area.store.get(actor.object_id).unwrap().velocity,
        Vec3::new(-5_000, 0, 2_500)
    );
    // An unknown agent's move intent is ignored.
    assert_eq!(
        area.handle_message(GameMessage::ActorMove(99, 1, 1, 1)).len(),
        0
    );
}

#[test]
fn die_removes_the_agent_and_its_entity() {
    let mut area = small_area(100);
    area.handle_message(GameMessage::Hello(1, "alice".to_string()));
    let actor = area.spawn_actor(ActorType::Walker).unwrap();
    let effects = area.handle_message(GameMessage::Die(actor.actor_id));
    assert_eq!(effects.len(), 1);
    match &effects[0] {
        Effect::Send(1, GameResponse::StateUpdate(u)) => {
            assert!(!u.objects[0].object.alive);
            assert_eq!(u.objects[0].object.object_id, actor.object_id);
        },
        other => panic!("expected the death broadcast, got {:?}", other),
    }
    assert!(area.store.get(actor.object_id).is_none());
    assert!(area.actors.get(&actor.actor_id).is_none());
    // Dying twice is ignored.
    assert_eq!(area.handle_message(GameMessage::Die(actor.actor_id)).len(), 0);
}

#[test]
fn respawn_replaces_the_agent() {
    let mut area = small_area(100);
    let actor = area.spawn_actor(ActorType::Walker).unwrap();
    let effects = area.handle_message(GameMessage::Respawn(actor.actor_id));
    assert!(area.actors.get(&actor.actor_id).is_none());
    let spawned: Vec<&Actor> = effects
        .iter()
        .filter_map(|e| match e {
            Effect::SpawnTask(a) => Some(a),
            _ => None,
        })
        .collect();
    assert_eq!(spawned.len(), 1);
    assert_eq!(spawned[0].actor_id, actor.actor_id + 1);
    assert!(area.store.get(spawned[0].object_id).is_some());
}

#[test]
fn random_seed_constructor_starts_empty() {
    let mut area = GameArea::new_with_random_seed(Terrain::flat(100, 0));
    assert_eq!(area.players.len(), 0);
    assert_eq!(area.store.len(), 0);
    assert_eq!(area.area_size, 100);
    let actor = area.spawn_actor(ActorType::Walker).unwrap();
    let st = area.store.get(actor.object_id).unwrap();
    assert!(st.position.x >= 0 && st.position.x <= 100_000);
}

// Replaying the same messages from the same seed reproduces the same
// world: order is the only source of nondeterminism.
#[test]
fn replay_is_deterministic() {
    let msgs = || {
        vec![
            GameMessage::Hello(1, "alice".to_string()),
            GameMessage::Move(1, 500, 0, 500),
            GameMessage::Tick(16),
            GameMessage::Hello(2, "bob".to_string()),
            GameMessage::Tick(40),
        ]
    };
    let mut a = small_area(100);
    let mut b = small_area(100);
    let ea = a.process_all(msgs());
    let eb = b.process_all(msgs());
    assert_eq!(ea.len(), eb.len());
    assert_eq!(a.players.len(), b.players.len());
    assert_eq!(a.store.len(), b.store.len());
    let oid = a.players[0].object_id;
    assert_eq!(
        a.store.get(oid).unwrap().position,
        b.store.get(oid).unwrap().position
    );
    assert_eq!(a.ticks, b.ticks);
    assert_eq!(a.rng, b.rng);
}
