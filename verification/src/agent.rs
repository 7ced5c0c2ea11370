//! Autonomous agent records and the flocking steering algorithm.
//!
//! Steering works on frozen snapshots only.  Every sub-behavior is an
//! exact function of the snapshot: sums, truncating divisions by the
//! behavior's scaling constant, and an integer Euclidean distance.
//! Peers at distance zero contribute nothing to separation, so no
//! division by zero can arise on coincident positions.

use vstd::prelude::*;
use crate::fixed::{tdiv, lemma_tdiv_magnitude, lemma_sqrt_floor_exists, lemma_sqrt_floor_unique,
    is_sqrt_floor, SCALE};
use crate::vec3::{Vec3, V3};
use crate::world::FrozenGameObject;

verus! {

/// Which steering policy an agent runs.
#[derive(Clone, Copy, Debug, PartialEq, Eq, Structural)]
pub enum ActorType {
    Walker,
    Bullet,
}

/// The supervisory record tying a behavior task to the entity it controls.
#[derive(Clone, Copy, Debug, PartialEq, Eq, Structural)]
pub struct Actor {
    pub actor_id: u32,
    pub actor_type: ActorType,
    pub object_id: u32,
}

impl Actor {
    pub fn new(actor_id: u32, actor_type: ActorType, object_id: u32) -> (a: Actor)
        ensures
            a.actor_id == actor_id,
            a.actor_type == actor_type,
            a.object_id == object_id,
    {
        Actor { actor_id, actor_type, object_id }
    }
}

/// Magnitude bound on every position and velocity component a steering
/// computation accepts; squared distances then fit a machine word.
pub const KIN_BOUND: i64 = 0x2000_0000;

/// Most snapshot neighbors a steering computation accepts; sums then
/// fit a machine word.
pub const MAX_NEIGHBORS: usize = 100_000;

/// Magnitude bound on one separation push term: twice `KIN_BOUND`
/// times `SCALE`.
pub const SEP_TERM_BOUND: i64 = 1_073_741_824_000;

/// Magnitude bound on each sub-behavior's result.
pub const STEER_PART_BOUND: i64 = 0x1000_0000_0000_0000;

/// The snapshot object's kinematics are small enough to steer from.
pub open spec fn kin_ok(o: FrozenGameObject) -> bool {
    &&& o.position@.within(KIN_BOUND as int)
    &&& o.velocity@.within(KIN_BOUND as int)
}

/// Every object in the sequence satisfies `kin_ok`.
pub open spec fn all_kin_ok(s: Seq<FrozenGameObject>) -> bool {
    forall|j: int| 0 <= j < s.len() ==> kin_ok(#[trigger] s[j])
}

/// Sum of the velocities of a sequence of snapshot objects.
pub open spec fn sum_vel(s: Seq<FrozenGameObject>) -> V3
    decreases s.len(),
{
    if s.len() == 0 {
        V3::zero()
    } else {
        sum_vel(s.drop_last()).add(s.last().velocity@)
    }
}

/// Sum of the positions of a sequence of snapshot objects.
pub open spec fn sum_pos(s: Seq<FrozenGameObject>) -> V3
    decreases s.len(),
{
    if s.len() == 0 {
        V3::zero()
    } else {
        sum_pos(s.drop_last()).add(s.last().position@)
    }
}

/// The separation push away from one peer: the unit-ish direction from
/// the actor to the peer, scaled to milliunits and divided by twice the
/// distance; zero for a peer at the actor's own position.
pub open spec fn sep_term(actor: FrozenGameObject, o: FrozenGameObject) -> V3 {
    let d = actor.position@.dist(o.position@);
    if d == 0 {
        V3::zero()
    } else {
        o.position@.sub(actor.position@).scale(SCALE as int).tdiv_by(2 * d)
    }
}

/// Accumulated separation: each peer's push term subtracted in turn.
pub open spec fn sum_sep(actor: FrozenGameObject, s: Seq<FrozenGameObject>) -> V3
    decreases s.len(),
{
    if s.len() == 0 {
        V3::zero()
    } else {
        sum_sep(actor, s.drop_last()).sub(sep_term(actor, s.last()))
    }
}

/// Steer toward the average velocity of nearby peers, damped.
pub open spec fn spec_alignment(actor: FrozenGameObject, others: Seq<FrozenGameObject>) -> V3 {
    if others.len() == 0 {
        V3::zero()
    } else {
        sum_vel(others).tdiv_by(others.len() as int).sub(actor.velocity@).scale(2).tdiv_by(5)
    }
}

/// Steer toward the centroid of nearby peers, damped.
pub open spec fn spec_cohesion(actor: FrozenGameObject, others: Seq<FrozenGameObject>) -> V3 {
    if others.len() == 0 {
        V3::zero()
    } else {
        sum_pos(others).tdiv_by(others.len() as int).sub(actor.position@).tdiv_by(50)
    }
}

/// Push away from every peer at nonzero distance, scaled up.
pub open spec fn spec_separation(actor: FrozenGameObject, others: Seq<FrozenGameObject>) -> V3 {
    sum_sep(actor, others).scale(5).tdiv_by(2)
}

/// Steer toward the players' average position and velocity, damped;
/// zero when no player is in sight.
pub open spec fn spec_attack(actor: FrozenGameObject, players: Seq<FrozenGameObject>) -> V3 {
    if players.len() == 0 {
        V3::zero()
    } else {
        let n = players.len() as int;
        sum_vel(players).tdiv_by(n).sub(actor.velocity@).add(
            sum_pos(players).tdiv_by(n).sub(actor.position@),
        ).tdiv_by(25)
    }
}

/// The full steering vector: the sum of the four sub-behaviors.
pub open spec fn spec_steer(
    actor: FrozenGameObject,
    players: Seq<FrozenGameObject>,
    others: Seq<FrozenGameObject>,
) -> V3 {
    spec_alignment(actor, others).add(spec_cohesion(actor, others)).add(
        spec_separation(actor, others),
    ).add(spec_attack(actor, players))
}

/// Dividing each component by a positive number keeps a magnitude bound.
proof fn lemma_tdiv_by_within(v: V3, k: int, b: int)
    requires
        k > 0,
        v.within(b),
        b >= 0,
    ensures
        v.tdiv_by(k).within(b),
{
    lemma_tdiv_magnitude(v.x, k);
    lemma_tdiv_magnitude(v.y, k);
    lemma_tdiv_magnitude(v.z, k);
}

/// Between two in-bounds points, the squared distance and the distance
/// itself are nonnegative and fit comfortably in a machine word.
pub proof fn lemma_dist_bound(a: V3, b: V3)
    requires
        a.within(KIN_BOUND as int),
        b.within(KIN_BOUND as int),
    ensures
        0 <= a.dist_sq(b) <= 0x3000_0000_0000_0000,
        0 <= a.dist(b) <= 0x8000_0000,
        is_sqrt_floor(a.dist_sq(b), a.dist(b)),
{
    let dx = a.x - b.x;
    let dy = a.y - b.y;
    let dz = a.z - b.z;
    assert(0 <= dx * dx <= 0x1000_0000_0000_0000) by (nonlinear_arith)
        requires -0x4000_0000 <= dx <= 0x4000_0000;
    assert(0 <= dy * dy <= 0x1000_0000_0000_0000) by (nonlinear_arith)
        requires -0x4000_0000 <= dy <= 0x4000_0000;
    assert(0 <= dz * dz <= 0x1000_0000_0000_0000) by (nonlinear_arith)
        requires -0x4000_0000 <= dz <= 0x4000_0000;
    let dsq = a.dist_sq(b);
    lemma_sqrt_floor_exists(dsq);
    let d = a.dist(b);
    assert(d <= 0x8000_0000) by (nonlinear_arith)
        requires 0 <= d, d * d <= 0x3000_0000_0000_0000;
}

/// One separation term is bounded by `SEP_TERM_BOUND`.
proof fn lemma_sep_term_bound(actor: FrozenGameObject, o: FrozenGameObject)
    requires
        kin_ok(actor),
        kin_ok(o),
    ensures
        sep_term(actor, o).within(SEP_TERM_BOUND as int),
{
    lemma_dist_bound(actor.position@, o.position@);
    let d = actor.position@.dist(o.position@);
    if d != 0 {
        let diff = o.position@.sub(actor.position@);
        assert(diff.scale(SCALE as int).within(SEP_TERM_BOUND as int));
        lemma_tdiv_by_within(diff.scale(SCALE as int), 2 * d, SEP_TERM_BOUND as int);
    }
}

/// A peer standing exactly at the actor's position pushes with the zero
/// vector: coincident positions are skipped, not divided by.
pub proof fn lemma_sep_term_coincident(actor: FrozenGameObject, o: FrozenGameObject)
    requires
        actor.position@ == o.position@,
    ensures
        sep_term(actor, o) == V3::zero(),
{
    assert(actor.position@.dist_sq(o.position@) == 0);
    lemma_sqrt_floor_exists(0);
    assert(is_sqrt_floor(0, 0));
    lemma_sqrt_floor_unique(0, actor.position@.dist(o.position@), 0);
}

/// If every peer stands exactly at the actor's position, the whole
/// separation vector is zero: no degenerate division ever contributes.
pub proof fn lemma_separation_all_coincident(actor: FrozenGameObject, others: Seq<FrozenGameObject>)
    requires
        forall|j: int| 0 <= j < others.len() ==> (#[trigger] others[j]).position@
            == actor.position@,
    ensures
        spec_separation(actor, others) == V3::zero(),
    decreases others.len(),
{
    if others.len() == 0 {
        assert(sum_sep(actor, others) == V3::zero());
    } else {
        lemma_separation_all_coincident(actor, others.drop_last());
        lemma_sep_term_coincident(actor, others.last());
        assert(sum_sep(actor, others) == sum_sep(actor, others.drop_last()).sub(V3::zero()));
        assert(sum_sep(actor, others.drop_last()).scale(5).tdiv_by(2) == V3::zero());
        assert(sum_sep(actor, others) == sum_sep(actor, others.drop_last()));
    }
}

/// Steer toward the average velocity of nearby peer agents, scaled
/// down; zero if there are no peers.
pub fn compute_alignment(actor: &FrozenGameObject, others: &Vec<FrozenGameObject>) -> (r: Vec3)
    requires
        kin_ok(*actor),
        all_kin_ok(others@),
        others@.len() <= MAX_NEIGHBORS,
    ensures
        r@ == spec_alignment(*actor, others@),
        r@.within(STEER_PART_BOUND as int),
{
    let len = others.len();
    if len == 0 {
        return Vec3::zero();
    }
    let mut sum = Vec3::zero();
    let mut i: usize = 0;
    while i < len
        invariant
            len == others@.len(),
            all_kin_ok(others@),
            len <= MAX_NEIGHBORS,
            0 <= i <= len,
            sum@ == sum_vel(others@.take(i as int)),
            sum@.within(i as int * KIN_BOUND),
        decreases len - i,
    {
        proof {
            assert(others@.take(i + 1).drop_last() =~= others@.take(i as int));
            assert(others@.take(i + 1).last() == others@[i as int]);
        }
        sum = sum.add(others[i].velocity);
        i = i + 1;
    }
    proof {
        assert(others@.take(len as int) =~= others@);
    }
    let n = len as i64;
    let avg = sum.div_by(n);
    proof {
        lemma_tdiv_by_within(sum@, n as int, len as int * KIN_BOUND);
    }
    let diff = avg.sub(actor.velocity);
    let r = diff.scale(2).div_by(5);
    proof {
        lemma_tdiv_by_within(diff@.scale(2), 5, 2 * (MAX_NEIGHBORS as int * KIN_BOUND + KIN_BOUND));
    }
    r
}

/// Steer toward the centroid of nearby peer agents' positions, scaled
/// down; zero if there are no peers.
pub fn compute_cohesion(actor: &FrozenGameObject, others: &Vec<FrozenGameObject>) -> (r: Vec3)
    requires
        kin_ok(*actor),
        all_kin_ok(others@),
        others@.len() <= MAX_NEIGHBORS,
    ensures
        r@ == spec_cohesion(*actor, others@),
        r@.within(STEER_PART_BOUND as int),
{
    let len = others.len();
    if len == 0 {
        return Vec3::zero();
    }
    let mut sum = Vec3::zero();
    let mut i: usize = 0;
    while i < len
        invariant
            len == others@.len(),
            all_kin_ok(others@),
            len <= MAX_NEIGHBORS,
            0 <= i <= len,
            sum@ == sum_pos(others@.take(i as int)),
            sum@.within(i as int * KIN_BOUND),
        decreases len - i,
    {
        proof {
            assert(others@.take(i + 1).drop_last() =~= others@.take(i as int));
            assert(others@.take(i + 1).last() == others@[i as int]);
        }
        sum = sum.add(others[i].position);
        i = i + 1;
    }
    proof {
        assert(others@.take(len as int) =~= others@);
    }
    let n = len as i64;
    let avg = sum.div_by(n);
    proof {
        lemma_tdiv_by_within(sum@, n as int, len as int * KIN_BOUND);
    }
    let diff = avg.sub(actor.position);
    let r = diff.div_by(50);
    proof {
        lemma_tdiv_by_within(diff@, 50, MAX_NEIGHBORS as int * KIN_BOUND + KIN_BOUND);
    }
    r
}

/// For each peer agent at nonzero distance, push away proportionally to
/// the inverse of twice the distance, summed and scaled up.  Peers at
/// exactly zero distance are skipped, so no division by zero occurs.
pub fn compute_separation(actor: &FrozenGameObject, others: &Vec<FrozenGameObject>) -> (r: Vec3)
    requires
        kin_ok(*actor),
        all_kin_ok(others@),
        others@.len() <= MAX_NEIGHBORS,
    ensures
        r@ == spec_separation(*actor, others@),
        r@.within(STEER_PART_BOUND as int),
{
    let mut sep = Vec3::zero();
    let len = others.len();
    let mut i: usize = 0;
    while i < len
        invariant
            len == others@.len(),
            kin_ok(*actor),
            all_kin_ok(others@),
            len <= MAX_NEIGHBORS,
            0 <= i <= len,
            sep@ == sum_sep(*actor, others@.take(i as int)),
            sep@.within(i as int * SEP_TERM_BOUND),
        decreases len - i,
    {
        proof {
            assert(others@.take(i + 1).drop_last() =~= others@.take(i as int));
            assert(others@.take(i + 1).last() == others@[i as int]);
            lemma_sep_term_bound(*actor, others@[i as int]);
        }
        let o = others[i];
        proof {
            lemma_dist_bound(actor.position@, o.position@);
        }
        let distance = actor.position.dist(o.position);
        if distance != 0 {
            let diff = o.position.sub(actor.position);
            let term = diff.scale(SCALE).div_by(2 * (distance as i64));
            sep = sep.sub(term);
        } else {
            proof {
                assert(sep_term(*actor, others@[i as int]) == V3::zero());
                assert(sep@.sub(V3::zero()) == sep@);
            }
        }
        i = i + 1;
    }
    proof {
        assert(others@.take(len as int) =~= others@);
    }
    let r = sep.scale(5).div_by(2);
    proof {
        lemma_tdiv_by_within(sep@.scale(5), 2, 5 * (MAX_NEIGHBORS as int * SEP_TERM_BOUND));
    }
    r
}

/// Steer toward the players' average position and velocity; zero when
/// no player is within the snapshot.
pub fn compute_attack(actor: &FrozenGameObject, players: &Vec<FrozenGameObject>) -> (r: Vec3)
    requires
        kin_ok(*actor),
        all_kin_ok(players@),
        players@.len() <= MAX_NEIGHBORS,
    ensures
        r@ == spec_attack(*actor, players@),
        r@.within(STEER_PART_BOUND as int),
{
    let len = players.len();
    if len == 0 {
        return Vec3::zero();
    }
    let mut vsum = Vec3::zero();
    let mut psum = Vec3::zero();
    let mut i: usize = 0;
    while i < len
        invariant
            len == players@.len(),
            all_kin_ok(players@),
            len <= MAX_NEIGHBORS,
            0 <= i <= len,
            vsum@ == sum_vel(players@.take(i as int)),
            psum@ == sum_pos(players@.take(i as int)),
            vsum@.within(i as int * KIN_BOUND),
            psum@.within(i as int * KIN_BOUND),
        decreases len - i,
    {
        proof {
            assert(players@.take(i + 1).drop_last() =~= players@.take(i as int));
            assert(players@.take(i + 1).last() == players@[i as int]);
        }
        vsum = vsum.add(players[i].velocity);
        psum = psum.add(players[i].position);
        i = i + 1;
    }
    proof {
        assert(players@.take(len as int) =~= players@);
    }
    let n = len as i64;
    let vavg = vsum.div_by(n);
    let pavg = psum.div_by(n);
    proof {
        lemma_tdiv_by_within(vsum@, n as int, len as int * KIN_BOUND);
        lemma_tdiv_by_within(psum@, n as int, len as int * KIN_BOUND);
    }
    let joined = vavg.sub(actor.velocity).add(pavg.sub(actor.position));
    let r = joined.div_by(25);
    proof {
        lemma_tdiv_by_within(joined@, 25, 2 * (MAX_NEIGHBORS as int * KIN_BOUND + KIN_BOUND));
    }
    r
}

/// The full steering vector for one snapshot: alignment, cohesion,
/// separation and attack summed.
pub fn steer(
    actor: &FrozenGameObject,
    players: &Vec<FrozenGameObject>,
    others: &Vec<FrozenGameObject>,
) -> (r: Vec3)
    requires
        kin_ok(*actor),
        all_kin_ok(players@),
        all_kin_ok(others@),
        players@.len() <= MAX_NEIGHBORS,
        others@.len() <= MAX_NEIGHBORS,
    ensures
        r@ == spec_steer(*actor, players@, others@),
        r@.within(4 * STEER_PART_BOUND as int),
{
    let alignment = compute_alignment(actor, others);
    let cohesion = compute_cohesion(actor, others);
    let separation = compute_separation(actor, others);
    let attack = compute_attack(actor, players);
    alignment.add(cohesion).add(separation).add(attack)
}

fn kin_ok_exec(o: &FrozenGameObject) -> (r: bool)
    ensures
        r == kin_ok(*o),
{
    -KIN_BOUND <= o.position.x && o.position.x <= KIN_BOUND && -KIN_BOUND <= o.position.y
        && o.position.y <= KIN_BOUND && -KIN_BOUND <= o.position.z && o.position.z <= KIN_BOUND
        && -KIN_BOUND <= o.velocity.x && o.velocity.x <= KIN_BOUND && -KIN_BOUND <= o.velocity.y
        && o.velocity.y <= KIN_BOUND && -KIN_BOUND <= o.velocity.z && o.velocity.z <= KIN_BOUND
}

fn all_kin_ok_exec(s: &Vec<FrozenGameObject>) -> (r: bool)
    ensures
        r == all_kin_ok(s@),
{
    let mut i: usize = 0;
    while i < s.len()
        invariant
            0 <= i <= s@.len(),
            forall|j: int| 0 <= j < i ==> kin_ok(#[trigger] s@[j]),
        decreases s@.len() - i,
    {
        if !kin_ok_exec(&s[i]) {
            return false;
        }
        i = i + 1;
    }
    true
}

/// Steering with the machine limits checked at run time: the steering
/// vector when the snapshot is within bounds, and nothing otherwise.
pub fn steer_checked(
    actor: &FrozenGameObject,
    players: &Vec<FrozenGameObject>,
    others: &Vec<FrozenGameObject>,
) -> (r: Option<Vec3>)
    ensures
        ({
            let ok = kin_ok(*actor) && all_kin_ok(players@) && all_kin_ok(others@)
                && players@.len() <= MAX_NEIGHBORS && others@.len() <= MAX_NEIGHBORS;
            &&& ok <==> r is Some
            &&& ok ==> r->Some_0@ == spec_steer(*actor, players@, others@)
        }),
{
    if kin_ok_exec(actor) && all_kin_ok_exec(players) && all_kin_ok_exec(others)
        && players.len() <= MAX_NEIGHBORS && others.len() <= MAX_NEIGHBORS {
        Some(steer(actor, players, others))
    } else {
        None
    }
}

} // verus!
