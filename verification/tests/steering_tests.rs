use simcore::agent::{compute_alignment, compute_attack, compute_cohesion, compute_separation,
    steer, steer_checked, Actor, ActorType};
use simcore::vec3::Vec3;
use simcore::world::{FrozenGameObject, GameObject, ObjectType};

fn frozen_at(id: u32, x: i64, y: i64, z: i64) -> FrozenGameObject {
    FrozenGameObject {
        object: GameObject {
            alive: true,
            age: 0,
            object_id: id,
            object_type: ObjectType::Actor,
            health: 100,
        },
        position: Vec3::new(x, y, z),
        velocity: Vec3::zero(),
        acceleration: Vec3::zero(),
    }
}

// Three agents on a line at 0, 10 and 20 units, all at rest, no players:
// alignment and attack are zero for everyone; cohesion is zero only for
// the middle agent; separation cancels for the middle agent and pushes
// the end agents outward.
#[test]
fn three_agents_on_a_line() {
    let a = frozen_at(1, 0, 0, 0);
    let b = frozen_at(2, 10_000, 0, 0);
    let c = frozen_at(3, 20_000, 0, 0);
    let no_players: Vec<FrozenGameObject> = Vec::new();

    let b_others = vec![a, c];
    assert_eq!(compute_alignment(&b, &b_others), Vec3::zero());
    assert_eq!(compute_cohesion(&b, &b_others), Vec3::zero());
    assert_eq!(compute_attack(&b, &no_players), Vec3::zero());
    assert_eq!(compute_separation(&b, &b_others), Vec3::zero());
    assert_eq!(steer(&b, &no_players, &b_others), Vec3::zero());

    let a_others = vec![b, c];
    assert_eq!(compute_alignment(&a, &a_others), Vec3::zero());
    assert_eq!(compute_attack(&a, &no_players), Vec3::zero());
    // centroid of peers is 15 units; (15000 - 0) / 50 = 300.
    assert_eq!(compute_cohesion(&a, &a_others), Vec3::new(300, 0, 0));
    // pushes: 10000*1000/20000 = 500 and 20000*1000/40000 = 500;
    // (-500 - 500) * 5 / 2 = -2500: outward, away from the peers.
    assert_eq!(compute_separation(&a, &a_others), Vec3::new(-2500, 0, 0));

    let c_others = vec![a, b];
    assert_eq!(compute_cohesion(&c, &c_others), Vec3::new(-300, 0, 0));
    assert_eq!(compute_separation(&c, &c_others), Vec3::new(2500, 0, 0));
}

// A peer at exactly the agent's own position contributes nothing to
// separation: the degenerate distance is skipped, not divided by.
#[test]
fn separation_coincident_positions() {
    let a = frozen_at(1, 5_000, 5_000, 5_000);
    let twin = frozen_at(2, 5_000, 5_000, 5_000);
    let others = vec![twin];
    assert_eq!(compute_separation(&a, &others), Vec3::zero());

    // A coincident peer beside a distant one: only the distant one pushes.
    let far = frozen_at(3, 15_000, 5_000, 5_000);
    let mixed = vec![twin, far];
    let with_far_only = vec![far];
    assert_eq!(
        compute_separation(&a, &mixed),
        compute_separation(&a, &with_far_only)
    );
}

#[test]
fn alignment_follows_average_velocity() {
    let mut me = frozen_at(1, 0, 0, 0);
    me.velocity = Vec3::new(1_000, 0, 0);
    let mut p1 = frozen_at(2, 10_000, 0, 0);
    p1.velocity = Vec3::new(5_000, 0, 0);
    let mut p2 = frozen_at(3, 20_000, 0, 0);
    p2.velocity = Vec3::new(7_000, 0, 0);
    let others = vec![p1, p2];
    // average velocity 6000; (6000 - 1000) * 2 / 5 = 2000.
    assert_eq!(compute_alignment(&me, &others), Vec3::new(2_000, 0, 0));
}

#[test]
fn attack_seeks_players() {
    let me = frozen_at(1, 0, 0, 0);
    let mut player = frozen_at(9, 25_000, 0, 0);
    player.object.object_type = ObjectType::Player;
    player.velocity = Vec3::new(2_000, 0, 0);
    let players = vec![player];
    // ((2000 - 0) + (25000 - 0)) / 25 = 1080.
    assert_eq!(compute_attack(&me, &players), Vec3::new(1_080, 0, 0));
}

#[test]
fn steer_is_sum_of_parts() {
    let a = frozen_at(1, 0, 0, 0);
    let b = frozen_at(2, 10_000, 0, 0);
    let others = vec![b];
    let mut player = frozen_at(9, 25_000, 0, 0);
    player.object.object_type = ObjectType::Player;
    let players = vec![player];
    let total = steer(&a, &players, &others);
    let expect = compute_alignment(&a, &others)
        .add(compute_cohesion(&a, &others))
        .add(compute_separation(&a, &others))
        .add(compute_attack(&a, &players));
    assert_eq!(total, expect);
    assert_eq!(steer_checked(&a, &players, &others), Some(total));
}

#[test]
fn steer_checked_rejects_out_of_range_snapshots() {
    let mut huge = frozen_at(1, 0, 0, 0);
    huge.position = Vec3::new(0x4000_0000, 0, 0);
    let others = vec![frozen_at(2, 10_000, 0, 0)];
    let players: Vec<FrozenGameObject> = Vec::new();
    assert_eq!(steer_checked(&huge, &players, &others), None);
}

#[test]
fn actor_record_keeps_its_fields() {
    let a = Actor::new(7, ActorType::Walker, 42);
    assert_eq!(a.actor_id, 7);
    assert_eq!(a.object_id, 42);
    assert!(matches!(a.actor_type, ActorType::Walker));
}
