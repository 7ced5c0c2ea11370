//! The coordinator: single owner of all mutable world state.
//!
//! Every inbound message is handled to completion, one at a time, by
//! `handle_message`; its whole effect is a pure function of the state
//! and the message, stated by `spec_step`.  Mutations never leave this
//! module: readers get frozen copies, and everything to be sent out is
//! returned as an explicit list of effects for the session layer.

use vstd::prelude::*;
use std::collections::HashMap;
use crate::fixed::{SCALE, tdiv, spec_clamp};
use crate::vec3::{Vec3, V3, lemma_clamp_mag_within};
use crate::world::{WorldStore, EntityState, FrozenGameObject, GameObject, ObjectType};
use crate::spatial::{BinLattice, cell_in_range, CELL_BOUND};
use crate::agent::{Actor, ActorType};
use crate::terrain::{Terrain, MAX_TERRAIN_SIZE};
use crate::rng::{Lcg, spec_lcg_next, fresh_seed};
use vstd::multiset::Multiset;

verus! {

broadcast use vstd::std_specs::hash::group_hash_axioms;

/// Side length of one spatial-index cell, in milliunits.
pub const CELL_FACTOR: i64 = 50_000;

/// Largest accepted world side length, in units.
pub const MAX_AREA_SIZE: u32 = MAX_TERRAIN_SIZE;

/// Top speed an entity can be set to, in milliunits per tick.
pub const MAX_SPEED: i64 = 100_000;

/// Multiplier from a move intent's direction to velocity.
pub const MOVE_FACTOR: i64 = 10;

/// Radius within which a scan reports players, in milliunits.
pub const SCAN_PLAYER_RADIUS: i64 = 100_000;

/// Extent of the bounding box a scan pre-filters agents with, in
/// milliunits.
pub const SCAN_BOX: i64 = 50_000;

/// Most agents one scan reports.
pub const SCAN_AGENT_LIMIT: usize = 20;

/// Minimum interval between effective ticks, in milliseconds.
pub const TICK_INTERVAL_MS: u64 = 16;

/// An opaque handle for one connected session.
#[derive(Clone, Copy, Debug, PartialEq, Eq, Structural)]
pub struct Client {
    pub client_id: u32,
}

/// One active session: its handle, unique display name and entity.
#[derive(Clone, Debug)]
pub struct Player {
    pub client_id: u32,
    pub username: String,
    pub object_id: u32,
}

/// Mathematical image of one session.
#[verifier::ext_equal]
pub ghost struct PlayerView {
    pub client_id: u32,
    pub username: Seq<char>,
    pub object_id: u32,
}

impl View for Player {
    type V = PlayerView;

    open spec fn view(&self) -> PlayerView {
        PlayerView {
            client_id: self.client_id,
            username: self.username@,
            object_id: self.object_id,
        }
    }
}

/// One inbound message for the coordinator.
#[derive(Debug)]
pub enum GameMessage {
    /// A session asks to join under a display name.
    Hello(u32, String),
    /// A session leaves.
    Goodbye(u32),
    /// A liveness probe carrying a nonce to echo.
    Ping(u32, u64),
    /// A player's move intent: a direction in milliunits.
    Move(u32, i64, i64, i64),
    /// The clock advanced to this many milliseconds.
    Tick(u64),
    /// An agent's behavior task terminated for good.
    Die(u32),
    /// An agent died and a replacement should spawn.
    Respawn(u32),
    /// An agent requests a frozen snapshot of its surroundings.
    Scan(u32),
    /// An agent's move intent: a direction in milliunits.
    ActorMove(u32, i64, i64, i64),
}

/// Mathematical image of one message.
#[verifier::ext_equal]
pub ghost enum MessageView {
    Hello(u32, Seq<char>),
    Goodbye(u32),
    Ping(u32, u64),
    Move(u32, i64, i64, i64),
    Tick(u64),
    Die(u32),
    Respawn(u32),
    Scan(u32),
    ActorMove(u32, i64, i64, i64),
}

impl View for GameMessage {
    type V = MessageView;

    open spec fn view(&self) -> MessageView {
        match self {
            GameMessage::Hello(c, name) => MessageView::Hello(*c, name@),
            GameMessage::Goodbye(c) => MessageView::Goodbye(*c),
            GameMessage::Ping(c, ts) => MessageView::Ping(*c, *ts),
            GameMessage::Move(c, x, y, z) => MessageView::Move(*c, *x, *y, *z),
            GameMessage::Tick(now) => MessageView::Tick(*now),
            GameMessage::Die(a) => MessageView::Die(*a),
            GameMessage::Respawn(a) => MessageView::Respawn(*a),
            GameMessage::Scan(a) => MessageView::Scan(*a),
            GameMessage::ActorMove(a, x, y, z) => MessageView::ActorMove(*a, *x, *y, *z),
        }
    }
}

/// One batch of entity records sent to a session.
#[derive(Clone, Debug)]
pub struct StateUpdate {
    pub object_id: u32,
    pub area_size: u32,
    pub incremental: bool,
    pub objects: Vec<FrozenGameObject>,
}

/// Mathematical image of one state update.
#[verifier::ext_equal]
pub ghost struct UpdateView {
    pub object_id: u32,
    pub area_size: u32,
    pub incremental: bool,
    pub objects: Seq<FrozenGameObject>,
}

impl View for StateUpdate {
    type V = UpdateView;

    open spec fn view(&self) -> UpdateView {
        UpdateView {
            object_id: self.object_id,
            area_size: self.area_size,
            incremental: self.incremental,
            objects: self.objects@,
        }
    }
}

/// One outbound reply to a session.
#[derive(Clone, Debug)]
pub enum GameResponse {
    /// An error code and text for the offending session.
    Error(u32, String),
    StateUpdate(StateUpdate),
    Pong(u64),
    Goodbye,
    Notice(String),
    /// The heightmap: side length twice, then one elevation per cell.
    ElevationMap(u32, u32, Vec<i64>),
    /// The biome codes: side length twice, then one code per cell.
    TerrainMap(u32, u32, Vec<u8>),
}

/// Mathematical image of one reply.
#[verifier::ext_equal]
pub ghost enum ResponseView {
    Error(u32, Seq<char>),
    StateUpdate(UpdateView),
    Pong(u64),
    Goodbye,
    Notice(Seq<char>),
    ElevationMap(u32, u32, Seq<i64>),
    TerrainMap(u32, u32, Seq<u8>),
}

impl View for GameResponse {
    type V = ResponseView;

    open spec fn view(&self) -> ResponseView {
        match self {
            GameResponse::Error(code, text) => ResponseView::Error(*code, text@),
            GameResponse::StateUpdate(u) => ResponseView::StateUpdate(u@),
            GameResponse::Pong(ts) => ResponseView::Pong(*ts),
            GameResponse::Goodbye => ResponseView::Goodbye,
            GameResponse::Notice(text) => ResponseView::Notice(text@),
            GameResponse::ElevationMap(w, h, e) => ResponseView::ElevationMap(*w, *h, e@),
            GameResponse::TerrainMap(w, h, t) => ResponseView::TerrainMap(*w, *h, t@),
        }
    }
}

/// The frozen view handed to one agent task: its own state and the
/// nearby players and peer agents, copied at a single instant.
#[derive(Clone, Debug)]
pub struct ScanSnapshot {
    pub actor: Actor,
    pub self_state: FrozenGameObject,
    pub nearby_players: Vec<FrozenGameObject>,
    pub nearby_agents: Vec<FrozenGameObject>,
}

/// Mathematical image of one snapshot.
#[verifier::ext_equal]
pub ghost struct SnapshotView {
    pub actor: Actor,
    pub self_state: FrozenGameObject,
    pub nearby_players: Seq<FrozenGameObject>,
    pub nearby_agents: Seq<FrozenGameObject>,
}

impl View for ScanSnapshot {
    type V = SnapshotView;

    open spec fn view(&self) -> SnapshotView {
        SnapshotView {
            actor: self.actor,
            self_state: self.self_state,
            nearby_players: self.nearby_players@,
            nearby_agents: self.nearby_agents@,
        }
    }
}

/// One externally visible consequence of handling a message.  The
/// session layer performs these in order.
#[derive(Debug)]
pub enum Effect {
    /// Deliver a reply to the session with this client id.
    Send(u32, GameResponse),
    /// Answer this agent's one-shot scan request with the snapshot.
    ScanReply(u32, ScanSnapshot),
    /// Launch a behavior task for this freshly spawned agent.
    SpawnTask(Actor),
}

/// Mathematical image of one effect.
#[verifier::ext_equal]
pub ghost enum EffectView {
    Send(u32, ResponseView),
    ScanReply(u32, SnapshotView),
    SpawnTask(Actor),
}

impl View for Effect {
    type V = EffectView;

    open spec fn view(&self) -> EffectView {
        match self {
            Effect::Send(c, r) => EffectView::Send(*c, r@),
            Effect::ScanReply(a, s) => EffectView::ScanReply(*a, s@),
            Effect::SpawnTask(a) => EffectView::SpawnTask(*a),
        }
    }
}

/// The images of a list of effects.
pub open spec fn effects_view(v: Seq<Effect>) -> Seq<EffectView> {
    v.map_values(|e: Effect| e@)
}

/// Mathematical image of the whole coordinator state.
#[verifier::ext_equal]
pub ghost struct AreaView {
    pub area_size: u32,
    pub store: Seq<Option<EntityState>>,
    pub players: Seq<PlayerView>,
    pub actors: Map<u32, Actor>,
    pub cells: Map<(int, int), Seq<u32>>,
    pub next_actor_id: u32,
    pub rng: u64,
    pub ticks: u32,
    pub last_tick: u64,
    pub terrain_size: u32,
    pub elevations: Seq<i64>,
    pub biomes: Seq<u8>,
}

/// What one step of the coordinator yields: the next state and the
/// effects, in order.
#[verifier::ext_equal]
pub ghost struct StepResult {
    pub state: AreaView,
    pub effects: Seq<EffectView>,
}

/// The whole simulation area.
pub struct GameArea {
    pub area_size: u32,
    pub terrain: Terrain,
    pub store: WorldStore,
    pub players: Vec<Player>,
    pub actors: HashMap<u32, Actor>,
    pub actor_index: BinLattice,
    pub next_actor_id: u32,
    pub rng: Lcg,
    pub ticks: u32,
    pub last_tick: u64,
}

impl View for GameArea {
    type V = AreaView;

    open spec fn view(&self) -> AreaView {
        AreaView {
            area_size: self.area_size,
            store: self.store.slots@,
            players: self.players@.map_values(|p: Player| p@),
            actors: self.actors@,
            cells: Map::new(
                |c: (int, int)| cell_in_range(c.0, c.1),
                |c: (int, int)| self.actor_index.cell(c.0, c.1),
            ),
            next_actor_id: self.next_actor_id,
            rng: self.rng.state,
            ticks: self.ticks,
            last_tick: self.last_tick,
            terrain_size: self.terrain.size,
            elevations: self.terrain.elevation_map@,
            biomes: self.terrain.terrain_map@,
        }
    }
}

/// The record under `id` in a store image, if any.
pub open spec fn store_get(store: Seq<Option<EntityState>>, id: u32) -> Option<EntityState> {
    if id < store.len() {
        store[id as int]
    } else {
        None
    }
}

/// The cell coordinates a milliunit point quantizes to.
pub open spec fn view_cell_of(x: int, z: int) -> (int, int) {
    (tdiv(x, CELL_FACTOR as int), tdiv(z, CELL_FACTOR as int))
}

/// The index of the first player with this client id, scanning from `k`.
pub open spec fn find_player_from(players: Seq<PlayerView>, client_id: u32, k: int) -> Option<int>
    decreases players.len() - k,
{
    if k < 0 || k >= players.len() {
        None
    } else if players[k].client_id == client_id {
        Some(k)
    } else {
        find_player_from(players, client_id, k + 1)
    }
}

/// The index of the first player with this client id.
pub open spec fn find_player(players: Seq<PlayerView>, client_id: u32) -> Option<int> {
    find_player_from(players, client_id, 0)
}

/// Some active session already uses this display name.
pub open spec fn name_taken(players: Seq<PlayerView>, name: Seq<char>) -> bool {
    exists|i: int| 0 <= i < players.len() && players[i].username == name
}

/// The frozen copy of one record.
pub open spec fn spec_freeze(st: EntityState) -> FrozenGameObject {
    FrozenGameObject {
        object: st.object,
        position: st.position,
        velocity: st.velocity,
        acceleration: st.acceleration,
    }
}

/// Frozen copies of every occupied slot, in id order.
pub open spec fn frozen_from(store: Seq<Option<EntityState>>) -> Seq<FrozenGameObject>
    decreases store.len(),
{
    if store.len() == 0 {
        Seq::empty()
    } else {
        frozen_from(store.drop_last()) + match store.last() {
            Some(st) => seq![spec_freeze(st)],
            None => Seq::empty(),
        }
    }
}

/// One incremental (or full) state update to every session in order,
/// each addressed with its own entity id.
pub open spec fn broadcast_updates(
    players: Seq<PlayerView>,
    area_size: u32,
    incremental: bool,
    objects: Seq<FrozenGameObject>,
) -> Seq<EffectView> {
    players.map_values(
        |p: PlayerView| EffectView::Send(
            p.client_id,
            ResponseView::StateUpdate(
                UpdateView { object_id: p.object_id, area_size, incremental, objects },
            ),
        ),
    )
}

impl GameArea {
    /// Every stored entity is within the world: position components in
    /// `[0, area_size * SCALE]`, velocity and acceleration within
    /// `MAX_SPEED`.
    pub open spec fn kin_bounds_ok(&self) -> bool {
        forall|id: u32| #[trigger] self.store.spec_get(id) is Some ==> {
            let st = self.store.spec_get(id)->Some_0;
            &&& 0 <= st.position@.x <= self.area_size * SCALE
            &&& 0 <= st.position@.y <= self.area_size * SCALE
            &&& 0 <= st.position@.z <= self.area_size * SCALE
            &&& st.velocity@.within(MAX_SPEED as int)
            &&& st.acceleration@.within(MAX_SPEED as int)
        }
    }

    /// The spatial index is exactly the quantization of the store: no
    /// cell holds an id twice; every indexed id is a live agent entity
    /// indexed in its position's cell and nowhere else; and every live
    /// agent entity is indexed.
    pub open spec fn index_ok(&self) -> bool {
        &&& forall|cx: int, cy: int| cell_in_range(cx, cy) ==> (
            #[trigger] self.actor_index.cell(cx, cy)).no_duplicates()
        &&& forall|cx: int, cy: int, k: int| cell_in_range(cx, cy) && 0 <= k
            < self.actor_index.cell(cx, cy).len() ==> {
                let id = #[trigger] self.actor_index.cell(cx, cy)[k];
                &&& self.store.spec_get(id) is Some
                &&& self.store.spec_get(id)->Some_0.object.object_type == ObjectType::Actor
                &&& view_cell_of(
                    self.store.spec_get(id)->Some_0.position@.x,
                    self.store.spec_get(id)->Some_0.position@.z,
                ) == (cx, cy)
            }
        &&& forall|id: u32| #[trigger] self.store.spec_get(id) is Some && self.store.spec_get(
            id,
        )->Some_0.object.object_type == ObjectType::Actor ==> {
            let c = view_cell_of(
                self.store.spec_get(id)->Some_0.position@.x,
                self.store.spec_get(id)->Some_0.position@.z,
            );
            self.actor_index.cell(c.0, c.1).contains(id)
        }
    }

    /// Sessions have pairwise distinct client ids and display names.
    pub open spec fn players_ok(&self) -> bool {
        forall|i: int, j: int| 0 <= i < j < self.players@.len() ==> (#[trigger] self.players@[i])@.client_id
            != (#[trigger] self.players@[j])@.client_id && self.players@[i]@.username
            != self.players@[j]@.username
    }

    /// The coordinator's well-formedness: all component invariants.
    pub open spec fn wf(&self) -> bool {
        &&& self.store.wf()
        &&& self.actor_index.wf()
        &&& self.actor_index.factor == CELL_FACTOR
        &&& 1 <= self.area_size <= MAX_AREA_SIZE
        &&& self.terrain.wf()
        &&& self.terrain.size == self.area_size
        &&& self.kin_bounds_ok()
        &&& self.index_ok()
        &&& self.players_ok()
    }

    /// A fresh, empty area over the given terrain, with a seeded
    /// generator for spawn placement.
    pub fn new(terrain: Terrain, seed: u64) -> (r: GameArea)
        requires
            terrain.wf(),
        ensures
            r.wf(),
            r@.area_size == terrain.size,
            r@.store == Seq::<Option<EntityState>>::empty(),
            r@.players == Seq::<PlayerView>::empty(),
            r@.actors == Map::<u32, Actor>::empty(),
            r@.next_actor_id == 1,
            r@.rng == seed,
            r@.ticks == 0,
            r@.last_tick == 0,
            r@.terrain_size == terrain.size,
            r@.elevations == terrain.elevation_map@,
            r@.biomes == terrain.terrain_map@,
            forall|cx: int, cy: int| cell_in_range(cx, cy) ==> r@.cells[((cx, cy))] == Seq::<
                u32,
            >::empty(),
    {
        let area_size = terrain.size;
        let r = GameArea {
            area_size,
            terrain,
            store: WorldStore::new(),
            players: Vec::new(),
            actors: HashMap::new(),
            actor_index: BinLattice::new(CELL_FACTOR),
            next_actor_id: 1,
            rng: Lcg::new(seed),
            ticks: 0,
            last_tick: 0,
        };
        proof {
            assert(r.players@.map_values(|p: Player| p@) =~= Seq::<PlayerView>::empty());
        }
        r
    }

    /// A fresh area seeded from the process's entropy source.
    pub fn new_with_random_seed(terrain: Terrain) -> (r: GameArea)
        requires
            terrain.wf(),
        ensures
            r.wf(),
            r@.area_size == terrain.size,
            r@.store == Seq::<Option<EntityState>>::empty(),
            r@.players == Seq::<PlayerView>::empty(),
            r@.actors == Map::<u32, Actor>::empty(),
    {
        let seed = fresh_seed();
        GameArea::new(terrain, seed)
    }

    /// Some active session already uses this display name.
    pub fn has_username(&self, username: &String) -> (r: bool)
        ensures
            r == name_taken(self@.players, username@),
    {
        let mut i: usize = 0;
        while i < self.players.len()
            invariant
                0 <= i <= self.players@.len(),
                forall|j: int| 0 <= j < i ==> (#[trigger] self.players@[j])@.username
                    != username@,
            decreases self.players@.len() - i,
        {
            if self.players[i].username.eq(username) {
                proof {
                    assert(self@.players[i as int].username == username@);
                }
                return true;
            }
            i = i + 1;
        }
        proof {
            assert forall|j: int| 0 <= j < self@.players.len() implies self@.players[j].username
                != username@ by {
                assert(self@.players[j] == self.players@[j]@);
            }
        }
        false
    }

    /// The index of the player for a client id, if that session is
    /// active.
    fn find_player_index(&self, client_id: u32) -> (r: Option<usize>)
        ensures
            match r {
                Some(i) => find_player(self@.players, client_id) == Some(i as int) && i
                    < self.players@.len() && self@.players[i as int].client_id == client_id,
                None => find_player(self@.players, client_id) is None,
            },
    {
        let mut i: usize = 0;
        while i < self.players.len()
            invariant
                0 <= i <= self.players@.len(),
                forall|j: int| 0 <= j < i ==> (#[trigger] self.players@[j])@.client_id
                    != client_id,
        decreases self.players@.len() - i,
        {
            if self.players[i].client_id == client_id {
                proof {
                    lemma_find_player_skip(self@.players, client_id, i as int);
                }
                return Some(i);
            }
            i = i + 1;
        }
        proof {
            lemma_find_player_skip(self@.players, client_id, self@.players.len() as int);
        }
        None
    }

    /// A liveness probe: echo the nonce back to an active session; a
    /// probe from an unknown session is ignored.
    pub fn handle_ping(&mut self, client_id: u32, timestamp: u64) -> (effects: Vec<Effect>)
        requires
            old(self).wf(),
        ensures
            final(self).wf(),
            final(self)@ == old(self)@,
            ({
                let step = spec_ping(old(self)@, client_id, timestamp);
                effects_view(effects@) == step.effects && final(self)@ == step.state
            }),
    {
        let mut effects: Vec<Effect> = Vec::new();
        match self.find_player_index(client_id) {
            Some(_) => {
                effects.push(Effect::Send(client_id, GameResponse::Pong(timestamp)));
                proof {
                    assert(effects_view(effects@) =~= spec_ping(self@, client_id, timestamp).effects);
                }
            },
            None => {
                proof {
                    assert(effects_view(effects@) =~= spec_ping(self@, client_id, timestamp).effects);
                }
            },
        }
        effects
    }
}

/// What a ping does: an echo to an active session, nothing otherwise;
/// no state changes.
pub open spec fn spec_ping(v: AreaView, client_id: u32, timestamp: u64) -> StepResult {
    StepResult {
        state: v,
        effects: if find_player(v.players, client_id) is Some {
            seq![EffectView::Send(client_id, ResponseView::Pong(timestamp))]
        } else {
            Seq::empty()
        },
    }
}

/// The store image with `id` vacated.
pub open spec fn store_remove(store: Seq<Option<EntityState>>, id: u32) -> Seq<Option<EntityState>> {
    if id < store.len() {
        store.update(id as int, None)
    } else {
        store
    }
}

/// The store image with `id` replaced.
pub open spec fn store_update(
    store: Seq<Option<EntityState>>,
    id: u32,
    st: EntityState,
) -> Seq<Option<EntityState>> {
    store.update(id as int, Some(st))
}

/// A milliunit vector built back from its mathematical image.
pub open spec fn v3_to_vec3(v: V3) -> Vec3 {
    Vec3 { x: v.x as i64, y: v.y as i64, z: v.z as i64 }
}

/// The cells image with `id` added once to cell `c`.
pub open spec fn cells_put(
    cells: Map<(int, int), Seq<u32>>,
    c: (int, int),
    id: u32,
) -> Map<(int, int), Seq<u32>> {
    if cells[c].contains(id) {
        cells
    } else {
        cells.insert(c, cells[c].push(id))
    }
}

/// The cells image with one occurrence of `id` swap-removed from cell
/// `c`.
pub open spec fn cells_remove(
    cells: Map<(int, int), Seq<u32>>,
    c: (int, int),
    id: u32,
) -> Map<(int, int), Seq<u32>> {
    if !cells[c].contains(id) {
        cells
    } else {
        let s = cells[c];
        let i = s.index_of_first(id)->Some_0;
        cells.insert(c, s.update(i, s.last()).drop_last())
    }
}

/// The velocity a move intent sets: the direction, componentwise
/// clamped, scaled by `MOVE_FACTOR`, and clamped to at most `MAX_SPEED`
/// magnitude.
pub open spec fn spec_new_velocity(dx: i64, dy: i64, dz: i64) -> V3 {
    let d = V3 { x: dx as int, y: dy as int, z: dz as int };
    d.clamp_each(-MAX_SPEED as int, MAX_SPEED as int).scale(MOVE_FACTOR as int).clamp_mag(
        MAX_SPEED as int,
    )
}

fn new_velocity(dx: i64, dy: i64, dz: i64) -> (r: Vec3)
    ensures
        r@ == spec_new_velocity(dx, dy, dz),
        r@.within(MAX_SPEED as int),
{
    let d = Vec3::new(dx, dy, dz).clamp_each(-MAX_SPEED, MAX_SPEED);
    let s = d.scale(MOVE_FACTOR);
    proof {
        lemma_clamp_mag_within(s@, MAX_SPEED as int);
    }
    s.clamp_mag(MAX_SPEED)
}

fn copy_vec<T: Copy>(v: &Vec<T>) -> (r: Vec<T>)
    ensures
        r@ == v@,
{
    let mut r: Vec<T> = Vec::new();
    let mut i: usize = 0;
    while i < v.len()
        invariant
            0 <= i <= v@.len(),
            r@ == v@.take(i as int),
        decreases v@.len() - i,
    {
        r.push(v[i]);
        proof {
            assert(v@.take(i + 1) =~= v@.take(i as int).push(v@[i as int]));
        }
        i = i + 1;
    }
    proof {
        assert(v@.take(v@.len() as int) =~= v@);
    }
    r
}

/// Append one state update per session, in session order.
fn broadcast_to_players(
    players: &Vec<Player>,
    area_size: u32,
    incremental: bool,
    objects: &Vec<FrozenGameObject>,
    effects: &mut Vec<Effect>,
)
    ensures
        effects_view(final(effects)@) == effects_view(old(effects)@) + broadcast_updates(
            players@.map_values(|p: Player| p@),
            area_size,
            incremental,
            objects@,
        ),
{
    let ghost pv = players@.map_values(|p: Player| p@);
    let mut i: usize = 0;
    while i < players.len()
        invariant
            0 <= i <= players@.len(),
            pv == players@.map_values(|p: Player| p@),
            effects_view(effects@) == effects_view(old(effects)@) + broadcast_updates(
                pv.take(i as int),
                area_size,
                incremental,
                objects@,
            ),
        decreases players@.len() - i,
    {
        let u = StateUpdate {
            object_id: players[i].object_id,
            area_size,
            incremental,
            objects: copy_vec(objects),
        };
        let ghost prev = effects@;
        let e = Effect::Send(players[i].client_id, GameResponse::StateUpdate(u));
        let ghost ev = e@;
        effects.push(e);
        proof {
            assert(pv.take(i + 1) =~= pv.take(i as int).push(pv[i as int]));
            assert(effects_view(effects@) =~= effects_view(prev).push(ev));
            assert(broadcast_updates(pv.take(i + 1), area_size, incremental, objects@)
                =~= broadcast_updates(pv.take(i as int), area_size, incremental, objects@).push(
                ev,
            ));
            assert(effects_view(prev).push(ev) =~= effects_view(old(effects)@)
                + broadcast_updates(pv.take(i + 1), area_size, incremental, objects@));
        }
        i = i + 1;
    }
    proof {
        assert(pv.take(pv.len() as int) =~= pv);
    }
}

/// Relies on std's `format!` macro: builds the greeting text for a new
/// player.
#[verifier::external_body]
fn greet(name: &String) -> (r: String)
    ensures
        r@ == "Hello "@ + name@,
{
    format!("Hello {}", name)
}

/// A store that grew by one slot holding `st` stands in the push
/// relation as sequences.
proof fn lemma_store_seq_push(pre: WorldStore, post: WorldStore, oid: u32, st: EntityState)
    requires
        pre.wf(),
        post.wf(),
        oid == pre.spec_next_id(),
        post.spec_next_id() == pre.spec_next_id() + 1,
        post.spec_get(oid) == Some(st),
        forall|o: u32| o != oid ==> post.spec_get(o) == pre.spec_get(o),
    ensures
        post.slots@ =~= pre.slots@.push(Some(st)),
{
    assert forall|j: int| 0 <= j < post.slots@.len() implies post.slots@[j] == pre.slots@.push(
        Some(st),
    )[j] by {
        assert(post.spec_get(j as u32) == post.slots@[j]);
        if j < pre.slots@.len() {
            assert(pre.spec_get(j as u32) == pre.slots@[j]);
        }
    }
}

/// After adding an agent entity to the store and its cell, the
/// coordinator invariants still hold.
proof fn lemma_add_object_wf(pre: GameArea, post: GameArea, st: EntityState, oid: u32, c0: (int, int))
    requires
        pre.wf(),
        pre.store.spec_get(oid) is None,
        st.object.object_type == ObjectType::Actor,
        st.object.object_id == oid,
        0 <= st.position@.x <= pre.area_size * SCALE,
        0 <= st.position@.y <= pre.area_size * SCALE,
        0 <= st.position@.z <= pre.area_size * SCALE,
        st.velocity@.within(MAX_SPEED as int),
        st.acceleration@.within(MAX_SPEED as int),
        c0 == view_cell_of(st.position@.x, st.position@.z),
        cell_in_range(c0.0, c0.1),
        post.store.wf(),
        post.actor_index.wf(),
        post.actor_index.factor == pre.actor_index.factor,
        post.area_size == pre.area_size,
        post.terrain == pre.terrain,
        post.players == pre.players,
        forall|id: u32| id != oid ==> post.store.spec_get(id) == pre.store.spec_get(id),
        post.store.spec_get(oid) == Some(st),
        !pre.actor_index.cell(c0.0, c0.1).contains(oid),
        post.actor_index.cell(c0.0, c0.1) == pre.actor_index.cell(c0.0, c0.1).push(oid),
        forall|ox: int, oy: int| cell_in_range(ox, oy) && (ox, oy) != c0
            ==> post.actor_index.cell(ox, oy) == pre.actor_index.cell(ox, oy),
    ensures
        post.wf(),
{
    lemma_cell_push_membership(pre.actor_index.cell(c0.0, c0.1), oid);
    assert(post.kin_bounds_ok()) by {
        assert forall|id: u32| #[trigger] post.store.spec_get(id) is Some implies {
            let s = post.store.spec_get(id)->Some_0;
            &&& 0 <= s.position@.x <= post.area_size * SCALE
            &&& 0 <= s.position@.y <= post.area_size * SCALE
            &&& 0 <= s.position@.z <= post.area_size * SCALE
            &&& s.velocity@.within(MAX_SPEED as int)
            &&& s.acceleration@.within(MAX_SPEED as int)
        } by {
            if id != oid {
                assert(pre.store.spec_get(id) == post.store.spec_get(id));
            }
        }
    }
    assert(post.players_ok());
    assert forall|cx: int, cy: int| cell_in_range(cx, cy) implies (
    #[trigger] post.actor_index.cell(cx, cy)).no_duplicates() by {
        if (cx, cy) != c0 {
            assert(post.actor_index.cell(cx, cy) == pre.actor_index.cell(cx, cy));
        }
    }
    assert forall|cx: int, cy: int, k: int| cell_in_range(cx, cy) && 0 <= k
        < post.actor_index.cell(cx, cy).len() implies {
        let id = #[trigger] post.actor_index.cell(cx, cy)[k];
        &&& post.store.spec_get(id) is Some
        &&& post.store.spec_get(id)->Some_0.object.object_type == ObjectType::Actor
        &&& view_cell_of(
            post.store.spec_get(id)->Some_0.position@.x,
            post.store.spec_get(id)->Some_0.position@.z,
        ) == (cx, cy)
    } by {
        let id = post.actor_index.cell(cx, cy)[k];
        if (cx, cy) == c0 {
            let old_cell = pre.actor_index.cell(c0.0, c0.1);
            if k < old_cell.len() {
                assert(old_cell[k] == id);
                assert(old_cell.contains(id));
                assert(pre.store.spec_get(id) is Some);
                assert(id != oid);
            } else {
                assert(id == oid);
            }
        } else {
            assert(pre.actor_index.cell(cx, cy)[k] == id);
            assert(pre.store.spec_get(id) is Some);
            assert(id != oid);
        }
    }
    assert forall|id: u32| #[trigger] post.store.spec_get(id) is Some && post.store.spec_get(
        id,
    )->Some_0.object.object_type == ObjectType::Actor implies {
        let c = view_cell_of(
            post.store.spec_get(id)->Some_0.position@.x,
            post.store.spec_get(id)->Some_0.position@.z,
        );
        post.actor_index.cell(c.0, c.1).contains(id)
    } by {
        if id == oid {
            assert(post.actor_index.cell(c0.0, c0.1).contains(oid));
        } else {
            assert(pre.store.spec_get(id) == post.store.spec_get(id));
            let pos = post.store.spec_get(id)->Some_0.position@;
            let c = view_cell_of(pos.x, pos.z);
            crate::fixed::lemma_tdiv_magnitude(pos.x, CELL_FACTOR as int);
            crate::fixed::lemma_tdiv_magnitude(pos.z, CELL_FACTOR as int);
            assert(0 <= pos.x <= pre.area_size * SCALE && 0 <= pos.z <= pre.area_size * SCALE);
            assert(cell_in_range(c.0, c.1));
            assert(pre.actor_index.cell(c.0, c.1).contains(id));
            if c == c0 {
                assert(post.actor_index.cell(c.0, c.1).contains(id));
            } else {
                assert(post.actor_index.cell(c.0, c.1) == pre.actor_index.cell(c.0, c.1));
            }
        }
    }
}

/// Appending a session with a fresh client id and an unused display
/// name keeps both pairwise distinct.
proof fn lemma_hello_players_ok(
    pre: GameArea,
    post: GameArea,
    client_id: u32,
    name: Seq<char>,
    oid: u32,
)
    requires
        pre.players_ok(),
        forall|j: int| 0 <= j < pre@.players.len() ==> (#[trigger] pre@.players[j]).client_id
            != client_id,
        !name_taken(pre@.players, name),
        post@.players == pre@.players.push(
            PlayerView { client_id, username: name, object_id: oid },
        ),
    ensures
        post.players_ok(),
{
    assert forall|a: int, b: int| 0 <= a < b < post.players@.len() implies (
    #[trigger] post.players@[a])@.client_id != (#[trigger] post.players@[b])@.client_id
        && post.players@[a]@.username != post.players@[b]@.username by {
        assert(post.players@[a]@ == post@.players[a]);
        assert(post.players@[b]@ == post@.players[b]);
        let pushed = pre@.players.push(PlayerView { client_id, username: name, object_id: oid });
        assert(post@.players[a] == pushed[a]);
        assert(post@.players[b] == pushed[b]);
        if b < pre@.players.len() {
            assert(pushed[a] == pre@.players[a]);
            assert(pushed[b] == pre@.players[b]);
            assert(pre@.players[a] == pre.players@[a]@);
            assert(pre@.players[b] == pre.players@[b]@);
        } else {
            assert(post@.players.len() == post.players@.len());
            assert(pushed.len() == pre@.players.len() + 1);
            assert(b == pre@.players.len());
            assert(pushed[b] == (PlayerView { client_id, username: name, object_id: oid }));
            assert(pushed[a] == pre@.players[a]);
            assert(pre@.players[a].username != name);
        }
    }
}

/// Two stores that agree on every id but `oid`, where the second has
/// vacated `oid`, stand in the `store_remove` relation as sequences.
proof fn lemma_store_seq_remove(pre: WorldStore, post: WorldStore, oid: u32)
    requires
        pre.wf(),
        post.wf(),
        post.spec_next_id() == pre.spec_next_id(),
        post.spec_get(oid) is None,
        forall|o: u32| o != oid ==> post.spec_get(o) == pre.spec_get(o),
    ensures
        post.slots@ =~= store_remove(pre.slots@, oid),
{
    assert forall|j: int| 0 <= j < post.slots@.len() implies post.slots@[j] == store_remove(
        pre.slots@,
        oid,
    )[j] by {
        assert(post.spec_get(j as u32) == post.slots@[j]);
        assert(pre.spec_get(j as u32) == pre.slots@[j]);
    }
}

/// Two stores that agree on every id but `oid`, where the second holds
/// `st` at `oid`, stand in the `store_update` relation as sequences.
proof fn lemma_store_seq_update(pre: WorldStore, post: WorldStore, oid: u32, st: EntityState)
    requires
        pre.wf(),
        post.wf(),
        pre.spec_get(oid) is Some,
        post.spec_next_id() == pre.spec_next_id(),
        post.spec_get(oid) == Some(st),
        forall|o: u32| o != oid ==> post.spec_get(o) == pre.spec_get(o),
    ensures
        post.slots@ =~= store_update(pre.slots@, oid, st),
{
    assert forall|j: int| 0 <= j < post.slots@.len() implies post.slots@[j] == store_update(
        pre.slots@,
        oid,
        st,
    )[j] by {
        assert(post.spec_get(j as u32) == post.slots@[j]);
        assert(pre.spec_get(j as u32) == pre.slots@[j]);
    }
}

/// Cell membership after one swap-remove of `id`: `id` is gone, every
/// other id keeps its membership, and no duplicates appear.
proof fn lemma_cell_remove_membership(old_cell: Seq<u32>, new_cell: Seq<u32>, id: u32)
    requires
        old_cell.no_duplicates(),
        old_cell.contains(id),
        new_cell.to_multiset() == old_cell.to_multiset().remove(id),
    ensures
        new_cell.no_duplicates(),
        !new_cell.contains(id),
        forall|x: u32| x != id ==> (new_cell.contains(x) <==> old_cell.contains(x)),
{
    broadcast use vstd::seq_lib::group_to_multiset_ensures;
    broadcast use vstd::multiset::group_multiset_axioms;

    old_cell.lemma_multiset_has_no_duplicates();
    assert forall|x: u32| new_cell.to_multiset().contains(x) implies new_cell.to_multiset().count(
        x,
    ) == 1 by {
        assert(old_cell.to_multiset().count(x) >= new_cell.to_multiset().count(x));
    }
    new_cell.lemma_multiset_has_no_duplicates_conv();
    assert(old_cell.to_multiset().count(id) == 1);
    assert(new_cell.to_multiset().count(id) == 0);
    assert(!new_cell.contains(id));
    assert forall|x: u32| x != id implies (new_cell.contains(x) <==> old_cell.contains(x)) by {
        assert(new_cell.to_multiset().count(x) == old_cell.to_multiset().count(x));
    }
}

/// Cell membership after one push of a fresh `id`.
proof fn lemma_cell_push_membership(old_cell: Seq<u32>, id: u32)
    requires
        old_cell.no_duplicates(),
        !old_cell.contains(id),
    ensures
        old_cell.push(id).no_duplicates(),
        old_cell.push(id).contains(id),
        forall|x: u32| x != id ==> (old_cell.push(id).contains(x) <==> old_cell.contains(x)),
{
    let n = old_cell.push(id);
    assert(n[n.len() - 1] == id);
    assert forall|x: u32| x != id && n.contains(x) implies old_cell.contains(x) by {
        let k = choose|k: int| 0 <= k < n.len() && n[k] == x;
        assert(old_cell[k] == x);
    }
    assert forall|x: u32| old_cell.contains(x) implies n.contains(x) by {
        let k = choose|k: int| 0 <= k < old_cell.len() && old_cell[k] == x;
        assert(n[k] == x);
    }
}

/// What removing an entity does to the state image: its slot is
/// vacated, and an agent entity leaves the spatial index cell of its
/// position.
pub open spec fn spec_remove_entity(v: AreaView, oid: u32) -> AreaView {
    match store_get(v.store, oid) {
        None => v,
        Some(st) => AreaView {
            store: store_remove(v.store, oid),
            cells: if st.object.object_type == ObjectType::Actor {
                cells_remove(v.cells, view_cell_of(st.position@.x, st.position@.z), oid)
            } else {
                v.cells
            },
            ..v
        },
    }
}

/// What a move intent does to an entity: its velocity becomes the
/// clamped direction, and the new record is broadcast to every session.
pub open spec fn spec_move_entity(v: AreaView, oid: u32, dx: i64, dy: i64, dz: i64) -> StepResult {
    match store_get(v.store, oid) {
        None => StepResult { state: v, effects: Seq::empty() },
        Some(st) => {
            let st2 = EntityState {
                velocity: v3_to_vec3(spec_new_velocity(dx, dy, dz)),
                ..st
            };
            StepResult {
                state: AreaView { store: store_update(v.store, oid, st2), ..v },
                effects: broadcast_updates(v.players, v.area_size, true, seq![spec_freeze(st2)]),
            }
        },
    }
}

/// What a player's move intent does: the controlled entity's velocity
/// is set; an unknown session is ignored.
pub open spec fn spec_move(v: AreaView, client_id: u32, dx: i64, dy: i64, dz: i64) -> StepResult {
    match find_player(v.players, client_id) {
        None => StepResult { state: v, effects: Seq::empty() },
        Some(i) => spec_move_entity(v, v.players[i].object_id, dx, dy, dz),
    }
}

/// What an agent's move intent does: the controlled entity's velocity
/// is set; an unknown agent is ignored.
pub open spec fn spec_actor_move(v: AreaView, actor_id: u32, dx: i64, dy: i64, dz: i64) -> StepResult {
    if v.actors.contains_key(actor_id) {
        spec_move_entity(v, v.actors[actor_id].object_id, dx, dy, dz)
    } else {
        StepResult { state: v, effects: Seq::empty() }
    }
}

/// What a leave does: the session and its entity go away, the remaining
/// sessions see the entity once more with its alive flag cleared, and
/// the leaver is told goodbye.
pub open spec fn spec_goodbye(v: AreaView, client_id: u32) -> StepResult {
    match find_player(v.players, client_id) {
        None => StepResult { state: v, effects: Seq::empty() },
        Some(i) => {
            let p = v.players[i];
            let players2 = v.players.remove(i);
            let v2 = AreaView { players: players2, ..spec_remove_entity(v, p.object_id) };
            let effects = match store_get(v.store, p.object_id) {
                Some(st) => {
                    let dead = FrozenGameObject {
                        object: GameObject { alive: false, ..st.object },
                        position: st.position,
                        velocity: st.velocity,
                        acceleration: st.acceleration,
                    };
                    broadcast_updates(players2, v.area_size, true, seq![dead]).push(
                        EffectView::Send(client_id, ResponseView::Goodbye),
                    )
                },
                None => seq![EffectView::Send(client_id, ResponseView::Goodbye)],
            };
            StepResult { state: v2, effects }
        },
    }
}

/// The elevation the terrain image gives a milliunit point, as the
/// heightmap consumers read it.
pub open spec fn spec_elevation(v: AreaView, x: int, z: int) -> i64 {
    let gx = spec_clamp(tdiv(x, SCALE as int), 0, v.terrain_size - 1);
    let gz = spec_clamp(tdiv(z, SCALE as int), 0, v.terrain_size - 1);
    v.elevations[v.terrain_size * gz + gx]
}

/// What adding an entity does to the state image: a fresh slot, and an
/// agent entity enters the spatial index cell of its position.
pub open spec fn spec_add_object(
    v: AreaView,
    object_type: ObjectType,
    position: Vec3,
    velocity: Vec3,
    acceleration: Vec3,
) -> (AreaView, Option<u32>) {
    if v.store.len() >= u32::MAX {
        (v, None)
    } else {
        let oid = v.store.len() as u32;
        let st = EntityState {
            object: GameObject {
                alive: true,
                age: 0,
                object_id: oid,
                object_type,
                health: 100,
            },
            position,
            velocity,
            acceleration,
        };
        let cells2 = if object_type == ObjectType::Actor {
            cells_put(v.cells, view_cell_of(position@.x, position@.z), oid)
        } else {
            v.cells
        };
        (AreaView { store: v.store.push(Some(st)), cells: cells2, ..v }, Some(oid))
    }
}

/// What spawning an agent does: a fresh agent entity at a
/// generator-chosen position on the terrain, with a new supervisory
/// record; a no-op once ids are exhausted.
pub open spec fn spec_spawn_actor(v: AreaView, actor_type: ActorType) -> (AreaView, Option<
    Actor,
>) {
    if v.next_actor_id == u32::MAX || v.store.len() >= u32::MAX {
        (v, None)
    } else {
        let size_mu = v.area_size * (SCALE as int);
        let r1 = spec_lcg_next(v.rng);
        let x = r1 as int % size_mu;
        let r2 = spec_lcg_next(r1);
        let z = r2 as int % size_mu;
        let y = spec_elevation(v, x, z);
        let pos = v3_to_vec3(V3 { x, y: y as int, z });
        let vel = Vec3 { x: SCALE, y: 0, z: SCALE };
        let acc = Vec3 { x: 0, y: 0, z: 0 };
        let (v2, oid) = spec_add_object(
            AreaView { rng: r2, ..v },
            ObjectType::Actor,
            pos,
            vel,
            acc,
        );
        let actor = Actor {
            actor_id: v.next_actor_id,
            actor_type,
            object_id: oid->Some_0,
        };
        (
            AreaView {
                actors: v2.actors.insert(actor.actor_id, actor),
                next_actor_id: (v.next_actor_id + 1) as u32,
                ..v2
            },
            Some(actor),
        )
    }
}

/// What a join does: a duplicate session or taken name is rejected with
/// an error and no mutation; otherwise a player entity spawns at a
/// generator-chosen spot, the session is registered and told the whole
/// world, and every other session learns of the new entity.
pub open spec fn spec_hello(v: AreaView, client_id: u32, name: Seq<char>) -> StepResult {
    if find_player(v.players, client_id) is Some {
        StepResult {
            state: v,
            effects: seq![
                EffectView::Send(client_id, ResponseView::Error(1, "Incorrect hello"@)),
            ],
        }
    } else if name_taken(v.players, name) {
        StepResult {
            state: v,
            effects: seq![
                EffectView::Send(client_id, ResponseView::Error(1, "Username already taken"@)),
            ],
        }
    } else if v.store.len() >= u32::MAX {
        StepResult { state: v, effects: Seq::empty() }
    } else {
        let size_mu = v.area_size * (SCALE as int);
        let r1 = spec_lcg_next(v.rng);
        let x = r1 as int % size_mu;
        let r2 = spec_lcg_next(r1);
        let z = r2 as int % size_mu;
        let pos = v3_to_vec3(V3 { x, y: 0, z });
        let zero = Vec3 { x: 0, y: 0, z: 0 };
        let (v2, oid) = spec_add_object(
            AreaView { rng: r2, ..v },
            ObjectType::Player,
            pos,
            zero,
            zero,
        );
        let oid = oid->Some_0;
        let st = store_get(v2.store, oid)->Some_0;
        let p = PlayerView { client_id, username: name, object_id: oid };
        let v3 = AreaView { players: v.players.push(p), ..v2 };
        let effects = seq![
            EffectView::Send(
                client_id,
                ResponseView::ElevationMap(v.terrain_size, v.terrain_size, v.elevations),
            ),
            EffectView::Send(
                client_id,
                ResponseView::TerrainMap(v.terrain_size, v.terrain_size, v.biomes),
            ),
            EffectView::Send(client_id, ResponseView::Notice("Hello "@ + name)),
            EffectView::Send(
                client_id,
                ResponseView::StateUpdate(
                    UpdateView {
                        object_id: oid,
                        area_size: v.area_size,
                        incremental: false,
                        objects: frozen_from(v2.store),
                    },
                ),
            ),
        ] + broadcast_updates(v.players, v.area_size, true, seq![spec_freeze(st)]);
        StepResult { state: v3, effects }
    }
}

/// What an agent's death does: its supervisory record and entity go
/// away, and every session sees the entity once more with its alive
/// flag cleared.  An unknown agent is ignored.
pub open spec fn spec_die(v: AreaView, actor_id: u32) -> StepResult {
    if !v.actors.contains_key(actor_id) {
        StepResult { state: v, effects: Seq::empty() }
    } else {
        let actor = v.actors[actor_id];
        let v2 = AreaView {
            actors: v.actors.remove(actor_id),
            ..spec_remove_entity(v, actor.object_id)
        };
        let effects = match store_get(v.store, actor.object_id) {
            Some(st) => {
                let dead = FrozenGameObject {
                    object: GameObject { alive: false, ..st.object },
                    position: st.position,
                    velocity: st.velocity,
                    acceleration: st.acceleration,
                };
                broadcast_updates(v.players, v.area_size, true, seq![dead])
            },
            None => Seq::empty(),
        };
        StepResult { state: v2, effects }
    }
}

/// What an agent's respawn does: the death flow, then a fresh Walker
/// spawns, its task is launched and every session learns of the new
/// entity.
pub open spec fn spec_respawn(v: AreaView, actor_id: u32) -> StepResult {
    let d = spec_die(v, actor_id);
    let (v2, spawned) = spec_spawn_actor(d.state, ActorType::Walker);
    match spawned {
        None => StepResult { state: v2, effects: d.effects },
        Some(actor) => {
            let st = store_get(v2.store, actor.object_id)->Some_0;
            StepResult {
                state: v2,
                effects: d.effects.push(EffectView::SpawnTask(actor)) + broadcast_updates(
                    v2.players,
                    v2.area_size,
                    true,
                    seq![spec_freeze(st)],
                ),
            }
        },
    }
}

/// One scan candidate: an entity and its squared distance from the
/// scanning agent.
#[derive(Clone, Copy, Debug, PartialEq, Eq, Structural)]
pub struct RankedEntity {
    pub dsq: u64,
    pub state: EntityState,
}

/// The column of cells `(cx, y_lo) .. (cx, y_hi)` of a cells image,
/// concatenated.
pub open spec fn cells_col_concat(
    cells: Map<(int, int), Seq<u32>>,
    cx: int,
    y_lo: int,
    y_hi: int,
) -> Seq<u32>
    decreases y_hi - y_lo,
{
    if y_lo >= y_hi {
        Seq::empty()
    } else {
        cells[(cx, y_lo)] + cells_col_concat(cells, cx, y_lo + 1, y_hi)
    }
}

/// The half-open rectangle of cells of a cells image, concatenated
/// column by column.
pub open spec fn cells_rect_concat(
    cells: Map<(int, int), Seq<u32>>,
    x_lo: int,
    x_hi: int,
    y_lo: int,
    y_hi: int,
) -> Seq<u32>
    decreases x_hi - x_lo,
{
    if x_lo >= x_hi {
        Seq::empty()
    } else {
        cells_col_concat(cells, x_lo, y_lo, y_hi) + cells_rect_concat(
            cells,
            x_lo + 1,
            x_hi,
            y_lo,
            y_hi,
        )
    }
}

/// The ids a box query returns: the members of the half-open rectangle
/// of cells its bounding box spans.
pub open spec fn spec_nearby(v: AreaView, x: int, z: int, range: int) -> Seq<u32> {
    let h = range / 2;
    let f = CELL_FACTOR as int;
    cells_rect_concat(v.cells, tdiv(x - h, f), tdiv(x + h, f), tdiv(z - h, f), tdiv(z + h, f))
}

/// The frozen players within scan radius of `pos`, in session order.
pub open spec fn spec_scan_players(
    players: Seq<PlayerView>,
    store: Seq<Option<EntityState>>,
    pos: Vec3,
) -> Seq<FrozenGameObject>
    decreases players.len(),
{
    if players.len() == 0 {
        Seq::empty()
    } else {
        spec_scan_players(players.drop_last(), store, pos) + match store_get(
            store,
            players.last().object_id,
        ) {
            Some(st) => if st.position@.dist(pos@) < SCAN_PLAYER_RADIUS {
                seq![spec_freeze(st)]
            } else {
                Seq::empty()
            },
            None => Seq::empty(),
        }
    }
}

/// The scan candidates ranked by squared distance from `pos`: every id
/// but the scanning agent's own that still names a stored entity.
pub open spec fn spec_rank(
    store: Seq<Option<EntityState>>,
    ids: Seq<u32>,
    self_id: u32,
    pos: Vec3,
) -> Seq<RankedEntity>
    decreases ids.len(),
{
    if ids.len() == 0 {
        Seq::empty()
    } else {
        spec_rank(store, ids.drop_last(), self_id, pos) + (if ids.last() != self_id {
            match store_get(store, ids.last()) {
                Some(st) => seq![
                    RankedEntity { dsq: st.position@.dist_sq(pos@) as u64, state: st },
                ],
                None => Seq::empty(),
            }
        } else {
            Seq::empty()
        })
    }
}

/// One stable insertion into a sequence sorted by squared distance.
pub open spec fn insert_ranked(s: Seq<RankedEntity>, x: RankedEntity) -> Seq<RankedEntity>
    decreases s.len(),
{
    if s.len() == 0 {
        seq![x]
    } else if x.dsq < s.last().dsq {
        insert_ranked(s.drop_last(), x).push(s.last())
    } else {
        s.push(x)
    }
}

/// Stable insertion sort by squared distance.
pub open spec fn sort_ranked(s: Seq<RankedEntity>) -> Seq<RankedEntity>
    decreases s.len(),
{
    if s.len() == 0 {
        Seq::empty()
    } else {
        insert_ranked(sort_ranked(s.drop_last()), s.last())
    }
}

/// Nondecreasing squared distances.
pub open spec fn ranked_sorted(s: Seq<RankedEntity>) -> bool {
    forall|i: int, j: int| 0 <= i <= j < s.len() ==> (#[trigger] s[i]).dsq <= (
    #[trigger] s[j]).dsq
}

/// One stable insertion keeps the order sorted and adds exactly the
/// inserted candidate.
proof fn lemma_insert_ranked_props(s: Seq<RankedEntity>, x: RankedEntity)
    requires
        ranked_sorted(s),
    ensures
        ranked_sorted(insert_ranked(s, x)),
        insert_ranked(s, x).to_multiset() == s.to_multiset().insert(x),
        insert_ranked(s, x).len() == s.len() + 1,
    decreases s.len(),
{
    broadcast use vstd::seq_lib::group_to_multiset_ensures;
    broadcast use vstd::multiset::group_multiset_axioms;

    if s.len() == 0 {
        assert(insert_ranked(s, x) =~= Seq::<RankedEntity>::empty().push(x));
        assert(Seq::<RankedEntity>::empty().to_multiset() =~= Multiset::<RankedEntity>::empty());
    } else if x.dsq < s.last().dsq {
        assert(ranked_sorted(s.drop_last())) by {
            assert forall|i: int, j: int| 0 <= i <= j < s.drop_last().len() implies (
            #[trigger] s.drop_last()[i]).dsq <= (#[trigger] s.drop_last()[j]).dsq by {
                assert(s[i].dsq <= s[j].dsq);
            }
        }
        lemma_insert_ranked_props(s.drop_last(), x);
        let t = insert_ranked(s.drop_last(), x);
        assert forall|i: int, j: int| 0 <= i <= j < t.push(s.last()).len() implies (
        #[trigger] t.push(s.last())[i]).dsq <= (#[trigger] t.push(s.last())[j]).dsq by {
            if j < t.len() {
                assert(t[i].dsq <= t[j].dsq);
            } else if i < t.len() {
                assert(t.to_multiset().contains(t[i]));
                assert(t.to_multiset().count(t[i]) > 0);
                if t[i] == x {
                    assert(t[i].dsq <= s.last().dsq);
                } else {
                    assert(s.drop_last().to_multiset().count(t[i]) > 0);
                    assert(s.drop_last().contains(t[i]));
                    let k = choose|k: int| 0 <= k < s.drop_last().len() && s.drop_last()[k]
                        == t[i];
                    assert(s[k] == t[i]);
                    assert(s[k].dsq <= s[s.len() - 1].dsq);
                }
            }
        }
        assert(s.drop_last().push(s.last()) =~= s);
    } else {
        assert forall|i: int, j: int| 0 <= i <= j < s.push(x).len() implies (
        #[trigger] s.push(x)[i]).dsq <= (#[trigger] s.push(x)[j]).dsq by {
            if j < s.len() {
                assert(s[i].dsq <= s[j].dsq);
            } else if i < s.len() {
                assert(s[i].dsq <= s[s.len() - 1].dsq);
            }
        }
    }
}

/// The scan's ranking law: sorting the candidates yields the same
/// candidates — a permutation, nothing invented and nothing dropped —
/// in nondecreasing order of squared distance, which orders them by
/// Euclidean distance.  The snapshot's agent list is the first
/// `SCAN_AGENT_LIMIT` of them.
pub proof fn lemma_sort_ranked_props(s: Seq<RankedEntity>)
    ensures
        ranked_sorted(sort_ranked(s)),
        sort_ranked(s).to_multiset() == s.to_multiset(),
        sort_ranked(s).len() == s.len(),
    decreases s.len(),
{
    broadcast use vstd::seq_lib::group_to_multiset_ensures;
    broadcast use vstd::multiset::group_multiset_axioms;

    if s.len() == 0 {
    } else {
        lemma_sort_ranked_props(s.drop_last());
        lemma_insert_ranked_props(sort_ranked(s.drop_last()), s.last());
        assert(s.drop_last().push(s.last()) =~= s);
        assert(s.to_multiset() == s.drop_last().to_multiset().insert(s.last()));
    }
}

/// The first `limit` ranked entities, frozen.
pub open spec fn freeze_ranked(s: Seq<RankedEntity>, limit: int) -> Seq<FrozenGameObject> {
    s.take(if limit < s.len() {
        limit
    } else {
        s.len() as int
    }).map_values(|r: RankedEntity| spec_freeze(r.state))
}

/// What a scan does: an unknown agent or entity is ignored; otherwise
/// the agent's one-shot reply carries a snapshot built entirely from
/// the current state: its own frozen record, every player within
/// `SCAN_PLAYER_RADIUS`, and the nearest `SCAN_AGENT_LIMIT` peer
/// entities found through the spatial index.  No state changes.
pub open spec fn spec_scan(v: AreaView, actor_id: u32) -> StepResult {
    if !v.actors.contains_key(actor_id) {
        StepResult { state: v, effects: Seq::empty() }
    } else {
        let actor = v.actors[actor_id];
        match store_get(v.store, actor.object_id) {
            None => StepResult { state: v, effects: Seq::empty() },
            Some(st) => {
                let ids = spec_nearby(v, st.position@.x, st.position@.z, SCAN_BOX as int);
                let snapshot = SnapshotView {
                    actor,
                    self_state: spec_freeze(st),
                    nearby_players: spec_scan_players(v.players, v.store, st.position),
                    nearby_agents: freeze_ranked(
                        sort_ranked(spec_rank(v.store, ids, actor.object_id, st.position)),
                        SCAN_AGENT_LIMIT as int,
                    ),
                };
                StepResult {
                    state: v,
                    effects: seq![EffectView::ScanReply(actor_id, snapshot)],
                }
            },
        }
    }
}

/// One entity's integration step: velocity gains the acceleration and
/// is capped componentwise at `MAX_SPEED`; position gains the velocity
/// and is clamped to the world bounds; age grows by one, saturating.
pub open spec fn spec_tick_entity(st: EntityState, size_mu: int) -> EntityState {
    let vel1 = v3_to_vec3(
        st.velocity@.add(st.acceleration@).clamp_each(-MAX_SPEED as int, MAX_SPEED as int),
    );
    let pos1 = v3_to_vec3(st.position@.add(vel1@).clamp_each(0, size_mu));
    EntityState {
        object: GameObject {
            age: if st.object.age == u32::MAX {
                st.object.age
            } else {
                (st.object.age + 1) as u32
            },
            ..st.object
        },
        position: pos1,
        velocity: vel1,
        acceleration: st.acceleration,
    }
}

/// The whole store after one tick: every occupied slot integrated.
pub open spec fn tick_store(store: Seq<Option<EntityState>>, size_mu: int) -> Seq<
    Option<EntityState>,
> {
    Seq::new(
        store.len(),
        |j: int| match store[j] {
            Some(st) => Some(spec_tick_entity(st, size_mu)),
            None => None,
        },
    )
}

/// The spatial index after the first `i` slots have moved: each agent
/// entity leaves its old cell and enters the cell of its new position.
pub open spec fn tick_cells(
    store: Seq<Option<EntityState>>,
    cells: Map<(int, int), Seq<u32>>,
    size_mu: int,
    i: int,
) -> Map<(int, int), Seq<u32>>
    decreases i,
{
    if i <= 0 {
        cells
    } else {
        let c = tick_cells(store, cells, size_mu, i - 1);
        match store[i - 1] {
            Some(st) => {
                if st.object.object_type == ObjectType::Actor {
                    let old_c = view_cell_of(st.position@.x, st.position@.z);
                    let st2 = spec_tick_entity(st, size_mu);
                    let new_c = view_cell_of(st2.position@.x, st2.position@.z);
                    cells_put(cells_remove(c, old_c, (i - 1) as u32), new_c, (i - 1) as u32)
                } else {
                    c
                }
            },
            None => c,
        }
    }
}

/// What a clock tick does: below the coalescing threshold it is a
/// no-op; otherwise every entity integrates one step, agents move cells
/// in the spatial index, the tick counter grows and the tick time is
/// remembered.  No messages are sent.
pub open spec fn spec_tick(v: AreaView, now: u64) -> StepResult {
    if now as int >= v.last_tick as int + TICK_INTERVAL_MS as int {
        let size_mu = v.area_size * (SCALE as int);
        StepResult {
            state: AreaView {
                store: tick_store(v.store, size_mu),
                cells: tick_cells(v.store, v.cells, size_mu, v.store.len() as int),
                ticks: if v.ticks == u32::MAX {
                    v.ticks
                } else {
                    (v.ticks + 1) as u32
                },
                last_tick: now,
                ..v
            },
            effects: Seq::empty(),
        }
    } else {
        StepResult { state: v, effects: Seq::empty() }
    }
}

/// What one populate item does: a generator-placed item entity at
/// ground level.
pub open spec fn spec_populate_item(v: AreaView) -> AreaView {
    let size_mu = v.area_size * (SCALE as int);
    let r1 = spec_lcg_next(v.rng);
    let x = r1 as int % size_mu;
    let r2 = spec_lcg_next(r1);
    let z = r2 as int % size_mu;
    let zero = Vec3 { x: 0, y: 0, z: 0 };
    spec_add_object(
        AreaView { rng: r2, ..v },
        ObjectType::Item,
        v3_to_vec3(V3 { x, y: 0, z }),
        zero,
        zero,
    ).0
}

/// What populating the world does, and the agents whose tasks the
/// session layer must launch.
#[verifier::ext_equal]
pub ghost struct PopulateResult {
    pub state: AreaView,
    pub actors: Seq<Actor>,
}

/// What populating does: the given number of items placed first, then
/// the given number of Walker agents spawned.
pub open spec fn spec_populate(v: AreaView, num_items: int, num_actors: int) -> PopulateResult
    decreases num_items, num_actors,
{
    if num_items > 0 {
        spec_populate(spec_populate_item(v), num_items - 1, num_actors)
    } else if num_actors > 0 {
        let (v2, spawned) = spec_spawn_actor(v, ActorType::Walker);
        let rest = spec_populate(v2, num_items, num_actors - 1);
        PopulateResult {
            state: rest.state,
            actors: (match spawned {
                Some(a) => seq![a],
                None => Seq::empty(),
            }) + rest.actors,
        }
    } else {
        PopulateResult { state: v, actors: Seq::empty() }
    }
}

/// One step of the coordinator: what any single message does to the
/// state, and the effects it produces, in order.
pub open spec fn spec_step(v: AreaView, m: MessageView) -> StepResult {
    match m {
        MessageView::Hello(c, name) => spec_hello(v, c, name),
        MessageView::Goodbye(c) => spec_goodbye(v, c),
        MessageView::Ping(c, ts) => spec_ping(v, c, ts),
        MessageView::Move(c, x, y, z) => spec_move(v, c, x, y, z),
        MessageView::Tick(now) => spec_tick(v, now),
        MessageView::Die(a) => spec_die(v, a),
        MessageView::Respawn(a) => spec_respawn(v, a),
        MessageView::Scan(a) => spec_scan(v, a),
        MessageView::ActorMove(a, x, y, z) => spec_actor_move(v, a, x, y, z),
    }
}

/// The state after an ordered batch of messages, one step at a time.
pub open spec fn spec_replay(v: AreaView, msgs: Seq<MessageView>) -> AreaView
    decreases msgs.len(),
{
    if msgs.len() == 0 {
        v
    } else {
        spec_replay(spec_step(v, msgs[0]).state, msgs.drop_first())
    }
}

/// The effects of an ordered batch of messages, concatenated in order.
pub open spec fn spec_replay_effects(v: AreaView, msgs: Seq<MessageView>) -> Seq<EffectView>
    decreases msgs.len(),
{
    if msgs.len() == 0 {
        Seq::empty()
    } else {
        spec_step(v, msgs[0]).effects + spec_replay_effects(
            spec_step(v, msgs[0]).state,
            msgs.drop_first(),
        )
    }
}

/// Linearizability of the coordinator: handling one batch of messages
/// and then another leaves exactly the state of handling their
/// concatenation.  The receipt order is the only thing that determines
/// the final world state; `spec_step` is a function, so no other source
/// of nondeterminism exists.
pub proof fn lemma_replay_concat(v: AreaView, a: Seq<MessageView>, b: Seq<MessageView>)
    ensures
        spec_replay(v, a + b) == spec_replay(spec_replay(v, a), b),
    decreases a.len(),
{
    if a.len() == 0 {
        assert(a + b =~= b);
    } else {
        assert((a + b)[0] == a[0]);
        assert((a + b).drop_first() =~= a.drop_first() + b);
        lemma_replay_concat(spec_step(v, a[0]).state, a.drop_first(), b);
    }
}

/// Snapshot freshness: a scan mutates nothing, and its reply is a
/// function of the single state the coordinator held when it handled
/// the request — no torn read across ticks is possible.
pub proof fn lemma_scan_is_pure(v: AreaView, actor_id: u32)
    ensures
        spec_scan(v, actor_id).state == v,
{
}

/// Spatial index consistency: in a well-formed area — which every
/// handler both requires and re-establishes — a live agent entity's id
/// is present in the one cell implied by its current position, absent
/// from every other cell, and no cell holds any id twice.
pub proof fn lemma_spatial_index_consistent(a: &GameArea, id: u32)
    requires
        a.wf(),
        a.store.spec_get(id) is Some,
        a.store.spec_get(id)->Some_0.object.object_type == ObjectType::Actor,
    ensures
        ({
            let c = view_cell_of(
                a.store.spec_get(id)->Some_0.position@.x,
                a.store.spec_get(id)->Some_0.position@.z,
            );
            &&& a.actor_index.cell(c.0, c.1).contains(id)
            &&& forall|cx: int, cy: int| cell_in_range(cx, cy) && (cx, cy) != c ==> !(
                #[trigger] a.actor_index.cell(cx, cy)).contains(id)
            &&& forall|cx: int, cy: int| cell_in_range(cx, cy) ==> (
                #[trigger] a.actor_index.cell(cx, cy)).no_duplicates()
        }),
{
    let c = view_cell_of(
        a.store.spec_get(id)->Some_0.position@.x,
        a.store.spec_get(id)->Some_0.position@.z,
    );
    assert forall|cx: int, cy: int| cell_in_range(cx, cy) && (cx, cy) != c implies !(
    #[trigger] a.actor_index.cell(cx, cy)).contains(id) by {
        if a.actor_index.cell(cx, cy).contains(id) {
            let k = choose|k: int| 0 <= k < a.actor_index.cell(cx, cy).len()
                && a.actor_index.cell(cx, cy)[k] == id;
            assert(a.actor_index.cell(cx, cy)[k] == id);
        }
    }
}

/// Name uniqueness: in a well-formed area — which every handler both
/// requires and re-establishes — no two active sessions share a display
/// name.
pub proof fn lemma_display_names_unique(a: &GameArea, i: int, j: int)
    requires
        a.wf(),
        0 <= i < j < a@.players.len(),
    ensures
        a@.players[i].username != a@.players[j].username,
{
    assert(a@.players[i] == a.players@[i]@);
    assert(a@.players[j] == a.players@[j]@);
}

/// Idempotent removal: removing an entity id that is not in the store
/// changes nothing.
pub proof fn lemma_remove_absent_is_noop(v: AreaView, oid: u32)
    requires
        store_get(v.store, oid) is None,
    ensures
        spec_remove_entity(v, oid) == v,
{
}

/// A `find_player` miss means no session has the client id.
proof fn lemma_find_player_none(players: Seq<PlayerView>, client_id: u32, k: int)
    requires
        0 <= k <= players.len(),
        find_player_from(players, client_id, k) is None,
    ensures
        forall|j: int| k <= j < players.len() ==> (#[trigger] players[j]).client_id != client_id,
    decreases players.len() - k,
{
    if k < players.len() {
        lemma_find_player_none(players, client_id, k + 1);
    }
}

/// The view-level column concatenation agrees with the lattice's.
proof fn lemma_col_concat_view(
    lat: &BinLattice,
    cells: Map<(int, int), Seq<u32>>,
    cx: int,
    y_lo: int,
    y_hi: int,
)
    requires
        forall|ox: int, oy: int| cell_in_range(ox, oy) ==> cells[((ox, oy))] == lat.cell(ox, oy),
        -CELL_BOUND <= cx < CELL_BOUND,
        -CELL_BOUND <= y_lo,
        y_hi <= CELL_BOUND,
    ensures
        cells_col_concat(cells, cx, y_lo, y_hi) == lat.col_concat(cx, y_lo, y_hi),
    decreases y_hi - y_lo,
{
    if y_lo < y_hi {
        lemma_col_concat_view(lat, cells, cx, y_lo + 1, y_hi);
        assert(cell_in_range(cx, y_lo));
    }
}

/// The view-level rectangle concatenation agrees with the lattice's.
proof fn lemma_rect_concat_view(
    lat: &BinLattice,
    cells: Map<(int, int), Seq<u32>>,
    x_lo: int,
    x_hi: int,
    y_lo: int,
    y_hi: int,
)
    requires
        forall|ox: int, oy: int| cell_in_range(ox, oy) ==> cells[((ox, oy))] == lat.cell(ox, oy),
        -CELL_BOUND <= x_lo,
        x_hi <= CELL_BOUND,
        -CELL_BOUND <= y_lo,
        y_hi <= CELL_BOUND,
    ensures
        cells_rect_concat(cells, x_lo, x_hi, y_lo, y_hi) == lat.rect_concat(
            x_lo,
            x_hi,
            y_lo,
            y_hi,
        ),
    decreases x_hi - x_lo,
{
    if x_lo < x_hi {
        lemma_rect_concat_view(lat, cells, x_lo + 1, x_hi, y_lo, y_hi);
        lemma_col_concat_view(lat, cells, x_lo, y_lo, y_hi);
    }
}

/// A stable insertion lands exactly where the scan from the back stops.
proof fn lemma_insert_ranked_shape(s: Seq<RankedEntity>, x: RankedEntity, k: int)
    requires
        0 <= k <= s.len(),
        forall|j: int| k <= j < s.len() ==> x.dsq < (#[trigger] s[j]).dsq,
        k > 0 ==> !(x.dsq < s[k - 1].dsq),
    ensures
        insert_ranked(s, x) == s.take(k).push(x) + s.skip(k),
    decreases s.len(),
{
    if s.len() == 0 {
        assert(insert_ranked(s, x) =~= s.take(k).push(x) + s.skip(k));
    } else if k == s.len() {
        assert(s.take(k) =~= s);
        assert(insert_ranked(s, x) =~= s.take(k).push(x) + s.skip(k));
    } else {
        assert(x.dsq < s[s.len() - 1].dsq);
        lemma_insert_ranked_shape(s.drop_last(), x, k);
        assert(s.drop_last().take(k) =~= s.take(k));
        assert(insert_ranked(s, x) == insert_ranked(s.drop_last(), x).push(s.last()));
        assert((s.take(k).push(x) + s.drop_last().skip(k)).push(s.last()) =~= s.take(k).push(x)
            + s.skip(k));
    }
}

/// Insert one candidate into a distance-sorted vector, keeping earlier
/// equal-distance candidates first.
fn insert_ranked_exec(v: &mut Vec<RankedEntity>, x: RankedEntity)
    ensures
        final(v)@ == insert_ranked(old(v)@, x),
{
    let mut k: usize = v.len();
    while k > 0 && x.dsq < v[k - 1].dsq
        invariant
            0 <= k <= v@.len(),
            v@ == old(v)@,
            forall|j: int| k <= j < v@.len() ==> x.dsq < (#[trigger] v@[j]).dsq,
        decreases k,
    {
        k = k - 1;
    }
    proof {
        lemma_insert_ranked_shape(v@, x, k as int);
    }
    v.insert(k, x);
    proof {
        assert(v@ =~= old(v)@.take(k as int).push(x) + old(v)@.skip(k as int));
    }
}

/// One entity's integration step, executably.
fn tick_entity_exec(st: EntityState, size_mu: i64) -> (r: EntityState)
    requires
        1000 <= size_mu <= 46_340_000,
        0 <= st.position@.x <= size_mu,
        0 <= st.position@.y <= size_mu,
        0 <= st.position@.z <= size_mu,
        st.velocity@.within(MAX_SPEED as int),
        st.acceleration@.within(MAX_SPEED as int),
    ensures
        r == spec_tick_entity(st, size_mu as int),
        r.object.object_id == st.object.object_id,
        r.object.object_type == st.object.object_type,
        0 <= r.position@.x <= size_mu,
        0 <= r.position@.y <= size_mu,
        0 <= r.position@.z <= size_mu,
        r.velocity@.within(MAX_SPEED as int),
        r.acceleration@.within(MAX_SPEED as int),
{
    let vel1 = st.velocity.add(st.acceleration).clamp_each(-MAX_SPEED, MAX_SPEED);
    let pos1 = st.position.add(vel1).clamp_each(0, size_mu);
    let age = if st.object.age == u32::MAX {
        st.object.age
    } else {
        st.object.age + 1
    };
    EntityState {
        object: GameObject {
            alive: st.object.alive,
            age,
            object_id: st.object.object_id,
            object_type: st.object.object_type,
            health: st.object.health,
        },
        position: pos1,
        velocity: vel1,
        acceleration: st.acceleration,
    }
}

/// After one agent entity moved from its old cell to its new one and
/// its slot was replaced by its integrated state, the coordinator
/// invariants still hold.
proof fn lemma_tick_slot_wf(pre: GameArea, post: GameArea, st: EntityState, st2: EntityState, id: u32)
    requires
        pre.wf(),
        pre.store.spec_get(id) == Some(st),
        st.object.object_type == ObjectType::Actor,
        st2.object.object_type == ObjectType::Actor,
        st2.object.object_id == id,
        0 <= st2.position@.x <= pre.area_size * SCALE,
        0 <= st2.position@.y <= pre.area_size * SCALE,
        0 <= st2.position@.z <= pre.area_size * SCALE,
        st2.velocity@.within(MAX_SPEED as int),
        st2.acceleration@.within(MAX_SPEED as int),
        post.store.wf(),
        post.actor_index.wf(),
        post.actor_index.factor == pre.actor_index.factor,
        post.area_size == pre.area_size,
        post.terrain == pre.terrain,
        post.players == pre.players,
        post.store.spec_get(id) == Some(st2),
        forall|o: u32| o != id ==> post.store.spec_get(o) == pre.store.spec_get(o),
        forall|cx: int, cy: int| cell_in_range(cx, cy) ==> (#[trigger] post.actor_index.cell(
            cx,
            cy,
        )).no_duplicates(),
        forall|cx: int, cy: int, x: u32| cell_in_range(cx, cy) ==> ((#[trigger] post.actor_index.cell(
            cx,
            cy,
        ).contains(x)) <==> (if x == id {
            (cx, cy) == view_cell_of(st2.position@.x, st2.position@.z)
        } else {
            pre.actor_index.cell(cx, cy).contains(x)
        })),
    ensures
        post.wf(),
{
    assert(post.kin_bounds_ok()) by {
        assert forall|o: u32| #[trigger] post.store.spec_get(o) is Some implies {
            let s = post.store.spec_get(o)->Some_0;
            &&& 0 <= s.position@.x <= post.area_size * SCALE
            &&& 0 <= s.position@.y <= post.area_size * SCALE
            &&& 0 <= s.position@.z <= post.area_size * SCALE
            &&& s.velocity@.within(MAX_SPEED as int)
            &&& s.acceleration@.within(MAX_SPEED as int)
        } by {
            if o != id {
                assert(pre.store.spec_get(o) == post.store.spec_get(o));
            }
        }
    }
    assert(post.players_ok());
    let new_c = view_cell_of(st2.position@.x, st2.position@.z);
    assert forall|cx: int, cy: int, k: int| cell_in_range(cx, cy) && 0 <= k
        < post.actor_index.cell(cx, cy).len() implies {
        let x = #[trigger] post.actor_index.cell(cx, cy)[k];
        &&& post.store.spec_get(x) is Some
        &&& post.store.spec_get(x)->Some_0.object.object_type == ObjectType::Actor
        &&& view_cell_of(
            post.store.spec_get(x)->Some_0.position@.x,
            post.store.spec_get(x)->Some_0.position@.z,
        ) == (cx, cy)
    } by {
        let x = post.actor_index.cell(cx, cy)[k];
        assert(post.actor_index.cell(cx, cy).contains(x));
        if x == id {
            assert((cx, cy) == new_c);
        } else {
            assert(pre.actor_index.cell(cx, cy).contains(x));
            let j = choose|j: int| 0 <= j < pre.actor_index.cell(cx, cy).len()
                && pre.actor_index.cell(cx, cy)[j] == x;
            assert(pre.actor_index.cell(cx, cy)[j] == x);
            assert(pre.store.spec_get(x) == post.store.spec_get(x));
        }
    }
    assert forall|x: u32| #[trigger] post.store.spec_get(x) is Some && post.store.spec_get(
        x,
    )->Some_0.object.object_type == ObjectType::Actor implies {
        let c = view_cell_of(
            post.store.spec_get(x)->Some_0.position@.x,
            post.store.spec_get(x)->Some_0.position@.z,
        );
        post.actor_index.cell(c.0, c.1).contains(x)
    } by {
        let pos = post.store.spec_get(x)->Some_0.position@;
        let c = view_cell_of(pos.x, pos.z);
        crate::fixed::lemma_tdiv_magnitude(pos.x, CELL_FACTOR as int);
        crate::fixed::lemma_tdiv_magnitude(pos.z, CELL_FACTOR as int);
        if x == id {
            assert(c == new_c);
            assert(cell_in_range(c.0, c.1));
            assert(post.actor_index.cell(c.0, c.1).contains(x));
        } else {
            assert(pre.store.spec_get(x) == post.store.spec_get(x));
            assert(0 <= pos.x <= pre.area_size * SCALE && 0 <= pos.z <= pre.area_size * SCALE);
            assert(cell_in_range(c.0, c.1));
            assert(pre.actor_index.cell(c.0, c.1).contains(x));
        }
    }
}

impl GameArea {
    /// Advance the clock: a tick below the coalescing threshold is a
    /// no-op; otherwise the tick counter grows, the tick time is
    /// remembered, and the simulation integrates one step.
    pub fn handle_tick(&mut self, now: u64) -> (effects: Vec<Effect>)
        requires
            old(self).wf(),
        ensures
            final(self).wf(),
            final(self)@ == spec_tick(old(self)@, now).state,
            effects_view(effects@) == spec_tick(old(self)@, now).effects,
    {
        let ghost pre = *self;
        let effects: Vec<Effect> = Vec::new();
        proof {
            assert(effects_view(effects@) =~= Seq::<EffectView>::empty());
        }
        if !(now >= TICK_INTERVAL_MS && now - TICK_INTERVAL_MS >= self.last_tick) {
            proof {
                assert(self@ =~= spec_tick(pre@, now).state);
            }
            return effects;
        }
        self.ticks = if self.ticks == u32::MAX {
            self.ticks
        } else {
            self.ticks + 1
        };
        self.last_tick = now;
        self.tick();
        proof {
            assert(self@ =~= spec_tick(pre@, now).state);
        }
        effects
    }

    /// Integrate one simulation step: every entity's velocity gains its
    /// acceleration, its position gains the velocity and is clamped to
    /// the world bounds, its age grows; every agent entity moves from
    /// its old spatial-index cell to the cell of its new position.
    pub fn tick(&mut self)
        requires
            old(self).wf(),
        ensures
            final(self).wf(),
            final(self)@ == (AreaView {
                store: tick_store(old(self)@.store, old(self).area_size * (SCALE as int)),
                cells: tick_cells(
                    old(self)@.store,
                    old(self)@.cells,
                    old(self).area_size * (SCALE as int),
                    old(self)@.store.len() as int,
                ),
                ..old(self)@
            }),
    {
        let ghost pre = *self;
        let size_mu: i64 = (self.area_size as i64) * SCALE;
        let n = self.store.len();
        let ghost pre_store = pre.store.slots@;
        let mut i: usize = 0;
        while i < n
            invariant
                self.wf(),
                n == pre_store.len(),
                n <= u32::MAX,
                0 <= i <= n,
                size_mu == self.area_size * SCALE,
                1000 <= size_mu <= 46_340_000,
                self.area_size == pre.area_size,
                self.terrain == pre.terrain,
                self.players == pre.players,
                self.actors == pre.actors,
                self.next_actor_id == pre.next_actor_id,
                self.rng == pre.rng,
                self.ticks == pre.ticks,
                self.last_tick == pre.last_tick,
                self.store.slots@.len() == n,
                forall|j: int| i <= j < n ==> self.store.slots@[j] == pre_store[j],
                forall|j: int| 0 <= j < i ==> self.store.slots@[j] == tick_store(
                    pre_store,
                    size_mu as int,
                )[j],
                self@.cells == tick_cells(pre_store, pre@.cells, size_mu as int, i as int),
            decreases n - i,
        {
            let ghost iter_pre = *self;
            let id = i as u32;
            match self.store.get(id) {
                None => {
                    proof {
                        assert(tick_store(pre_store, size_mu as int)[i as int] is None);
                        assert(self@.cells =~= tick_cells(
                            pre_store,
                            pre@.cells,
                            size_mu as int,
                            i + 1,
                        ));
                    }
                },
                Some(st) => {
                    proof {
                        assert(iter_pre.store.spec_get(id) is Some);
                    }
                    let st2 = tick_entity_exec(st, size_mu);
                    if st.object.object_type == ObjectType::Actor {
                        let ghost old_c = view_cell_of(st.position@.x, st.position@.z);
                        let ghost new_c = view_cell_of(st2.position@.x, st2.position@.z);
                        proof {
                            crate::fixed::lemma_tdiv_magnitude(st.position@.x, CELL_FACTOR as int);
                            crate::fixed::lemma_tdiv_magnitude(st.position@.z, CELL_FACTOR as int);
                            crate::fixed::lemma_tdiv_magnitude(st2.position@.x, CELL_FACTOR as int);
                            crate::fixed::lemma_tdiv_magnitude(st2.position@.z, CELL_FACTOR as int);
                            assert(cell_in_range(old_c.0, old_c.1));
                            assert(cell_in_range(new_c.0, new_c.1));
                            assert(iter_pre.actor_index.cell(old_c.0, old_c.1).contains(id));
                        }
                        self.actor_index.remove(st.position.x, st.position.z, id);
                        let ghost mid = *self;
                        proof {
                            lemma_cell_remove_membership(
                                iter_pre.actor_index.cell(old_c.0, old_c.1),
                                mid.actor_index.cell(old_c.0, old_c.1),
                                id,
                            );
                            if new_c != old_c {
                                if mid.actor_index.cell(new_c.0, new_c.1).contains(id) {
                                    let k = choose|k: int| 0 <= k < iter_pre.actor_index.cell(
                                        new_c.0,
                                        new_c.1,
                                    ).len() && iter_pre.actor_index.cell(new_c.0, new_c.1)[k] == id;
                                    assert(iter_pre.actor_index.cell(new_c.0, new_c.1)[k] == id);
                                    assert(false);
                                }
                            }
                            assert(!mid.actor_index.cell(new_c.0, new_c.1).contains(id));
                        }
                        self.actor_index.put(st2.position.x, st2.position.z, id);
                        proof {
                            lemma_cell_push_membership(
                                mid.actor_index.cell(new_c.0, new_c.1),
                                id,
                            );
                        }
                        self.store.set(id, st2);
                        proof {
                            assert forall|cx: int, cy: int, x: u32| cell_in_range(cx, cy) implies ((
                            #[trigger] self.actor_index.cell(cx, cy).contains(x)) <==> (if x == id {
                                (cx, cy) == new_c
                            } else {
                                iter_pre.actor_index.cell(cx, cy).contains(x)
                            })) by {
                                if (cx, cy) == new_c {
                                } else if (cx, cy) == old_c {
                                    assert(self.actor_index.cell(cx, cy) == mid.actor_index.cell(
                                        cx,
                                        cy,
                                    ));
                                } else {
                                    assert(self.actor_index.cell(cx, cy) == mid.actor_index.cell(
                                        cx,
                                        cy,
                                    ));
                                    assert(mid.actor_index.cell(cx, cy)
                                        == iter_pre.actor_index.cell(cx, cy));
                                    if x == id && self.actor_index.cell(cx, cy).contains(id) {
                                        let k = choose|k: int| 0 <= k < iter_pre.actor_index.cell(
                                            cx,
                                            cy,
                                        ).len() && iter_pre.actor_index.cell(cx, cy)[k] == id;
                                        assert(iter_pre.actor_index.cell(cx, cy)[k] == id);
                                        assert(false);
                                    }
                                }
                            }
                            assert forall|cx: int, cy: int| cell_in_range(cx, cy) implies (
                            #[trigger] self.actor_index.cell(cx, cy)).no_duplicates() by {
                                if (cx, cy) == new_c {
                                } else if (cx, cy) == old_c {
                                    assert(self.actor_index.cell(cx, cy) == mid.actor_index.cell(
                                        cx,
                                        cy,
                                    ));
                                } else {
                                    assert(self.actor_index.cell(cx, cy)
                                        == iter_pre.actor_index.cell(cx, cy));
                                }
                            }
                            lemma_tick_slot_wf(iter_pre, *self, st, st2, id);
                            assert(self@.cells =~= tick_cells(
                                pre_store,
                                pre@.cells,
                                size_mu as int,
                                i + 1,
                            )) by {
                                let c_prev = tick_cells(pre_store, pre@.cells, size_mu as int, i as int);
                                assert(pre_store[i as int] == Some(st));
                                assert forall|c: (int, int)| cell_in_range(c.0, c.1) implies
                                    self@.cells[c] == cells_put(
                                    cells_remove(c_prev, old_c, id),
                                    new_c,
                                    id,
                                )[c] by {
                                    assert(iter_pre@.cells[c] == c_prev[c]);
                                    if c != old_c && c != new_c {
                                        assert(self.actor_index.cell(c.0, c.1)
                                            == iter_pre.actor_index.cell(c.0, c.1));
                                    }
                                }
                            }
                            assert forall|j: int| 0 <= j < n && j != i as int implies
                                self.store.slots@[j] == iter_pre.store.slots@[j] by {
                                assert(self.store.spec_get(j as u32) == iter_pre.store.spec_get(
                                    j as u32,
                                ));
                            }
                            assert(self.store.slots@[i as int] == Some(st2));
                            assert(tick_store(pre_store, size_mu as int)[i as int] == Some(
                                spec_tick_entity(st, size_mu as int),
                            ));
                        }
                    } else {
                        self.store.set(id, st2);
                        proof {
                            assert forall|cx: int, cy: int, k: int| cell_in_range(cx, cy) && 0 <= k
                                < self.actor_index.cell(cx, cy).len() implies {
                                let x = #[trigger] self.actor_index.cell(cx, cy)[k];
                                &&& self.store.spec_get(x) is Some
                                &&& self.store.spec_get(x)->Some_0.object.object_type
                                    == ObjectType::Actor
                                &&& view_cell_of(
                                    self.store.spec_get(x)->Some_0.position@.x,
                                    self.store.spec_get(x)->Some_0.position@.z,
                                ) == (cx, cy)
                            } by {
                                let x = self.actor_index.cell(cx, cy)[k];
                                assert(iter_pre.actor_index.cell(cx, cy)[k] == x);
                                assert(x != id);
                            }
                            assert forall|x: u32| #[trigger] self.store.spec_get(x) is Some
                                && self.store.spec_get(x)->Some_0.object.object_type
                                == ObjectType::Actor implies {
                                let c = view_cell_of(
                                    self.store.spec_get(x)->Some_0.position@.x,
                                    self.store.spec_get(x)->Some_0.position@.z,
                                );
                                self.actor_index.cell(c.0, c.1).contains(x)
                            } by {
                                assert(x != id);
                                assert(iter_pre.store.spec_get(x) == self.store.spec_get(x));
                            }
                            assert(self@.cells =~= tick_cells(
                                pre_store,
                                pre@.cells,
                                size_mu as int,
                                i + 1,
                            )) by {
                                assert(pre_store[i as int] == Some(st));
                                assert forall|c: (int, int)| cell_in_range(c.0, c.1) implies
                                    self@.cells[c] == iter_pre@.cells[c] by {
                                    assert(self.actor_index == iter_pre.actor_index);
                                }
                            }
                            assert forall|j: int| 0 <= j < n && j != i as int implies
                                self.store.slots@[j] == iter_pre.store.slots@[j] by {
                                assert(self.store.spec_get(j as u32) == iter_pre.store.spec_get(
                                    j as u32,
                                ));
                            }
                            assert(self.store.slots@[i as int] == Some(st2));
                            assert(tick_store(pre_store, size_mu as int)[i as int] == Some(
                                spec_tick_entity(st, size_mu as int),
                            ));
                        }
                    }
                },
            }
            i = i + 1;
        }
        proof {
            assert(self@.store =~= tick_store(pre_store, size_mu as int));
            assert(self@ =~= (AreaView {
                store: tick_store(pre@.store, pre.area_size * (SCALE as int)),
                cells: tick_cells(
                    pre@.store,
                    pre@.cells,
                    pre.area_size * (SCALE as int),
                    pre@.store.len() as int,
                ),
                ..pre@
            }));
        }
    }

    /// Create an entity of the given kind at a position inside the
    /// world, and index an agent entity in its position's cell; ids are
    /// handed out monotonically, and exhaustion is a silent no-op.
    pub fn add_object(
        &mut self,
        object_type: ObjectType,
        position: Vec3,
        velocity: Vec3,
        acceleration: Vec3,
    ) -> (r: Option<u32>)
        requires
            old(self).wf(),
            0 <= position@.x <= old(self).area_size * SCALE,
            0 <= position@.y <= old(self).area_size * SCALE,
            0 <= position@.z <= old(self).area_size * SCALE,
            velocity@.within(MAX_SPEED as int),
            acceleration@.within(MAX_SPEED as int),
        ensures
            final(self).wf(),
            (final(self)@, r) == spec_add_object(
                old(self)@,
                object_type,
                position,
                velocity,
                acceleration,
            ),
    {
        let ghost pre = *self;
        if self.store.len() >= u32::MAX as usize {
            proof {
                assert(self@ =~= pre@);
            }
            return None;
        }
        let oid = self.store.add(object_type, position, velocity, acceleration);
        let ghost st = self.store.spec_get(oid)->Some_0;
        proof {
            lemma_store_seq_push(pre.store, self.store, oid, st);
            assert(pre.store.spec_get(oid) is None);
            assert forall|cx: int, cy: int| cell_in_range(cx, cy) implies !(
            #[trigger] pre.actor_index.cell(cx, cy)).contains(oid) by {
                if pre.actor_index.cell(cx, cy).contains(oid) {
                    let k = choose|k: int| 0 <= k < pre.actor_index.cell(cx, cy).len()
                        && pre.actor_index.cell(cx, cy)[k] == oid;
                    assert(pre.actor_index.cell(cx, cy)[k] == oid);
                    assert(pre.store.spec_get(oid) is Some);
                }
            }
        }
        if object_type == ObjectType::Actor {
            let ghost mid = *self;
            let ghost c0 = view_cell_of(position@.x, position@.z);
            proof {
                crate::fixed::lemma_tdiv_magnitude(position@.x, CELL_FACTOR as int);
                crate::fixed::lemma_tdiv_magnitude(position@.z, CELL_FACTOR as int);
                assert(cell_in_range(c0.0, c0.1));
                assert(pre.area_size * SCALE <= 46_340_000);
            }
            self.actor_index.put(position.x, position.z, oid);
            proof {
                let old_cell = pre.actor_index.cell(c0.0, c0.1);
                lemma_cell_push_membership(old_cell, oid);
                assert(self.actor_index.cell(c0.0, c0.1) == old_cell.push(oid));
                lemma_add_object_wf(pre, *self, st, oid, c0);
                assert(self@.cells =~= cells_put(pre@.cells, c0, oid)) by {
                    assert(pre@.cells[c0] == old_cell);
                    assert forall|c: (int, int)| cell_in_range(c.0, c.1) implies self@.cells[c]
                        == cells_put(pre@.cells, c0, oid)[c] by {
                        if c != c0 {
                            assert(self.actor_index.cell(c.0, c.1) == pre.actor_index.cell(
                                c.0,
                                c.1,
                            ));
                        }
                    }
                }
                assert((self@, Some(oid)) =~= spec_add_object(
                    pre@,
                    object_type,
                    position,
                    velocity,
                    acceleration,
                ));
            }
        } else {
            proof {
                assert forall|cx: int, cy: int, k: int| cell_in_range(cx, cy) && 0 <= k
                    < self.actor_index.cell(cx, cy).len() implies {
                    let id = #[trigger] self.actor_index.cell(cx, cy)[k];
                    &&& self.store.spec_get(id) is Some
                    &&& self.store.spec_get(id)->Some_0.object.object_type == ObjectType::Actor
                    &&& view_cell_of(
                        self.store.spec_get(id)->Some_0.position@.x,
                        self.store.spec_get(id)->Some_0.position@.z,
                    ) == (cx, cy)
                } by {
                    let id = self.actor_index.cell(cx, cy)[k];
                    assert(pre.actor_index.cell(cx, cy)[k] == id);
                    assert(id != oid);
                }
                assert forall|id: u32| #[trigger] self.store.spec_get(id) is Some
                    && self.store.spec_get(id)->Some_0.object.object_type
                    == ObjectType::Actor implies {
                    let c = view_cell_of(
                        self.store.spec_get(id)->Some_0.position@.x,
                        self.store.spec_get(id)->Some_0.position@.z,
                    );
                    self.actor_index.cell(c.0, c.1).contains(id)
                } by {
                    assert(id != oid);
                    assert(pre.store.spec_get(id) == self.store.spec_get(id));
                }
                assert(self@.cells =~= pre@.cells) by {
                    assert forall|c: (int, int)| cell_in_range(c.0, c.1) implies self@.cells[c]
                        == pre@.cells[c] by {
                        assert(self.actor_index == pre.actor_index);
                    }
                }
                assert((self@, Some(oid)) =~= spec_add_object(
                    pre@,
                    object_type,
                    position,
                    velocity,
                    acceleration,
                ));
            }
        }
        Some(oid)
    }

    /// Place an item entity at rest at the given spot.
    pub fn add_item(&mut self, x: i64, y: i64, z: i64) -> (r: Option<u32>)
        requires
            old(self).wf(),
            0 <= x <= old(self).area_size * SCALE,
            0 <= y <= old(self).area_size * SCALE,
            0 <= z <= old(self).area_size * SCALE,
        ensures
            final(self).wf(),
            (final(self)@, r) == spec_add_object(
                old(self)@,
                ObjectType::Item,
                (Vec3 { x, y, z }),
                (Vec3 { x: 0, y: 0, z: 0 }),
                (Vec3 { x: 0, y: 0, z: 0 }),
            ),
    {
        self.add_object(
            ObjectType::Item,
            Vec3 { x, y, z },
            Vec3 { x: 0, y: 0, z: 0 },
            Vec3 { x: 0, y: 0, z: 0 },
        )
    }

    /// Create an agent entity walking at unit velocity at the given
    /// spot, indexed in its cell.
    pub fn add_actor(&mut self, x: i64, y: i64, z: i64) -> (r: Option<u32>)
        requires
            old(self).wf(),
            0 <= x <= old(self).area_size * SCALE,
            0 <= y <= old(self).area_size * SCALE,
            0 <= z <= old(self).area_size * SCALE,
        ensures
            final(self).wf(),
            (final(self)@, r) == spec_add_object(
                old(self)@,
                ObjectType::Actor,
                (Vec3 { x, y, z }),
                (Vec3 { x: SCALE, y: 0, z: SCALE }),
                (Vec3 { x: 0, y: 0, z: 0 }),
            ),
    {
        self.add_object(
            ObjectType::Actor,
            Vec3 { x, y, z },
            Vec3 { x: SCALE, y: 0, z: SCALE },
            Vec3 { x: 0, y: 0, z: 0 },
        )
    }

    /// Create a player entity at rest at the given spot.
    pub fn add_player(&mut self, x: i64, y: i64, z: i64) -> (r: Option<u32>)
        requires
            old(self).wf(),
            0 <= x <= old(self).area_size * SCALE,
            0 <= y <= old(self).area_size * SCALE,
            0 <= z <= old(self).area_size * SCALE,
        ensures
            final(self).wf(),
            (final(self)@, r) == spec_add_object(
                old(self)@,
                ObjectType::Player,
                (Vec3 { x, y, z }),
                (Vec3 { x: 0, y: 0, z: 0 }),
                (Vec3 { x: 0, y: 0, z: 0 }),
            ),
    {
        self.add_object(
            ObjectType::Player,
            Vec3 { x, y, z },
            Vec3 { x: 0, y: 0, z: 0 },
            Vec3 { x: 0, y: 0, z: 0 },
        )
    }

    /// Draw a position on the terrain from the generator: coordinates
    /// inside the world, at terrain height.
    fn draw_spawn_position(&mut self) -> (r: Vec3)
        requires
            old(self).wf(),
        ensures
            final(self).wf(),
            ({
                let size_mu = old(self).area_size * (SCALE as int);
                let r1 = spec_lcg_next(old(self)@.rng);
                let x = r1 as int % size_mu;
                let r2 = spec_lcg_next(r1);
                let z = r2 as int % size_mu;
                &&& final(self)@ == (AreaView { rng: r2, ..old(self)@ })
                &&& r@ == (V3 { x, y: spec_elevation(old(self)@, x, z) as int, z })
                &&& 0 <= r@.x <= old(self).area_size * SCALE
                &&& 0 <= r@.y <= old(self).area_size * SCALE
                &&& 0 <= r@.z <= old(self).area_size * SCALE
            }),
    {
        let ghost pre = *self;
        let size_mu: u64 = (self.area_size as u64) * (SCALE as u64);
        let x = self.rng.below(size_mu) as i64;
        let z = self.rng.below(size_mu) as i64;
        proof {
            crate::fixed::lemma_div_below(x as int, SCALE as int, self.area_size as int);
            crate::fixed::lemma_div_below(z as int, SCALE as int, self.area_size as int);
        }
        let gx = (x / SCALE) as u32;
        let gz = (z / SCALE) as u32;
        let y = self.terrain.get_elevation(gx, gz);
        proof {
            assert(SCALE <= pre.area_size * SCALE);
            assert(self@ =~= (AreaView { rng: spec_lcg_next(spec_lcg_next(pre@.rng)), ..pre@ }));
        }
        Vec3 { x, y, z }
    }

    /// Spawn one agent: a fresh entity at a generator-chosen spot on
    /// the terrain, indexed in its cell, under a new supervisory record
    /// whose behavior task the caller must launch.  Exhausted id spaces
    /// make it a silent no-op.
    pub fn spawn_actor(&mut self, actor_type: ActorType) -> (r: Option<Actor>)
        requires
            old(self).wf(),
        ensures
            final(self).wf(),
            (final(self)@, r) == spec_spawn_actor(old(self)@, actor_type),
    {
        let ghost pre = *self;
        if self.next_actor_id == u32::MAX || self.store.len() >= u32::MAX as usize {
            proof {
                assert(self@ =~= pre@);
            }
            return None;
        }
        let pos = self.draw_spawn_position();
        let ghost mid = *self;
        let oid = match self.add_object(
            ObjectType::Actor,
            pos,
            Vec3 { x: SCALE, y: 0, z: SCALE },
            Vec3 { x: 0, y: 0, z: 0 },
        ) {
            Some(oid) => oid,
            None => {
                proof {
                    assert(false);
                }
                0
            },
        };
        let actor = Actor::new(self.next_actor_id, actor_type, oid);
        self.actors.insert(actor.actor_id, actor);
        self.next_actor_id = self.next_actor_id + 1;
        proof {
            assert((self@, Some(actor)) =~= spec_spawn_actor(pre@, actor_type));
        }
        Some(actor)
    }

    /// Frozen copies of every entity, in id order.
    fn freeze_all(&self) -> (r: Vec<FrozenGameObject>)
        requires
            self.store.wf(),
        ensures
            r@ == frozen_from(self@.store),
    {
        let mut r: Vec<FrozenGameObject> = Vec::new();
        let n = self.store.len();
        let mut i: usize = 0;
        while i < n
            invariant
                n == self.store.slots@.len(),
                0 <= i <= n,
                n <= u32::MAX,
                r@ == frozen_from(self.store.slots@.take(i as int)),
            decreases n - i,
        {
            proof {
                assert(self.store.slots@.take(i + 1).drop_last() =~= self.store.slots@.take(
                    i as int,
                ));
                assert(self.store.slots@.take(i + 1).last() == self.store.slots@[i as int]);
            }
            match self.store.get(i as u32) {
                Some(st) => {
                    r.push(st.freeze());
                    proof {
                        assert(r@ =~= frozen_from(self.store.slots@.take(i + 1)));
                    }
                },
                None => {
                    proof {
                        assert(r@ =~= frozen_from(self.store.slots@.take(i + 1)));
                    }
                },
            }
            i = i + 1;
        }
        proof {
            assert(self.store.slots@.take(n as int) =~= self.store.slots@);
        }
        r
    }

    /// A join request: rejected with an error when the session is
    /// already present or the name is taken; otherwise the player
    /// spawns, receives the terrain and the full world, and every other
    /// session learns of the new entity.
    pub fn handle_hello(&mut self, client_id: u32, username: String) -> (effects: Vec<Effect>)
        requires
            old(self).wf(),
        ensures
            final(self).wf(),
            final(self)@ == spec_hello(old(self)@, client_id, username@).state,
            effects_view(effects@) == spec_hello(old(self)@, client_id, username@).effects,
    {
        let ghost pre = *self;
        let mut effects: Vec<Effect> = Vec::new();
        if self.find_player_index(client_id).is_some() {
            let text: String = "Incorrect hello".to_owned();
            effects.push(Effect::Send(client_id, GameResponse::Error(1, text)));
            proof {
                assert(effects_view(effects@) =~= spec_hello(pre@, client_id, username@).effects);
            }
            return effects;
        }
        if self.has_username(&username) {
            let text: String = "Username already taken".to_owned();
            effects.push(Effect::Send(client_id, GameResponse::Error(1, text)));
            proof {
                assert(effects_view(effects@) =~= spec_hello(pre@, client_id, username@).effects);
            }
            return effects;
        }
        if self.store.len() >= u32::MAX as usize {
            proof {
                assert(self@ =~= pre@);
                assert(effects_view(effects@) =~= spec_hello(pre@, client_id, username@).effects);
            }
            return effects;
        }
        let size_mu: u64 = (self.area_size as u64) * (SCALE as u64);
        let x = self.rng.below(size_mu) as i64;
        let z = self.rng.below(size_mu) as i64;
        let ghost mid = *self;
        proof {
            assert(mid@ =~= (AreaView { rng: spec_lcg_next(spec_lcg_next(pre@.rng)), ..pre@ }));
        }
        let oid = match self.add_player(x, 0, z) {
            Some(oid) => oid,
            None => {
                proof {
                    assert(false);
                }
                0
            },
        };
        let ghost st = self.store.spec_get(oid)->Some_0;
        let player = Player { client_id, username: username.clone(), object_id: oid };
        effects.push(
            Effect::Send(
                client_id,
                GameResponse::ElevationMap(
                    self.terrain.size,
                    self.terrain.size,
                    copy_vec(&self.terrain.elevation_map),
                ),
            ),
        );
        effects.push(
            Effect::Send(
                client_id,
                GameResponse::TerrainMap(
                    self.terrain.size,
                    self.terrain.size,
                    copy_vec(&self.terrain.terrain_map),
                ),
            ),
        );
        effects.push(Effect::Send(client_id, GameResponse::Notice(greet(&username))));
        let full = StateUpdate {
            object_id: oid,
            area_size: self.area_size,
            incremental: false,
            objects: self.freeze_all(),
        };
        effects.push(Effect::Send(client_id, GameResponse::StateUpdate(full)));
        let mut one: Vec<FrozenGameObject> = Vec::new();
        match self.store.get(oid) {
            Some(st_now) => {
                one.push(st_now.freeze());
            },
            None => {
                proof {
                    assert(false);
                }
            },
        }
        broadcast_to_players(&self.players, self.area_size, true, &one, &mut effects);
        self.players.push(player);
        proof {
            lemma_find_player_none(pre@.players, client_id, 0);
            assert(self@.players =~= pre@.players.push(
                PlayerView { client_id, username: username@, object_id: oid },
            ));
            lemma_hello_players_ok(pre, *self, client_id, username@, oid);
            assert(self@ =~= spec_hello(pre@, client_id, username@).state);
            assert(one@ =~= seq![spec_freeze(st)]);
            assert(effects_view(effects@) =~= spec_hello(pre@, client_id, username@).effects);
        }
        effects
    }

    /// An agent's death: its record and entity are removed, and every
    /// session sees the entity once more with its alive flag cleared.
    /// An unknown agent is ignored.
    pub fn handle_die(&mut self, actor_id: u32) -> (effects: Vec<Effect>)
        requires
            old(self).wf(),
        ensures
            final(self).wf(),
            final(self)@ == spec_die(old(self)@, actor_id).state,
            effects_view(effects@) == spec_die(old(self)@, actor_id).effects,
    {
        let ghost pre = *self;
        let oa: Option<Actor> = match self.actors.get(&actor_id) {
            Some(a) => Some(*a),
            None => None,
        };
        match oa {
            None => {
                let effects: Vec<Effect> = Vec::new();
                proof {
                    assert(self@ =~= spec_die(pre@, actor_id).state);
                    assert(effects_view(effects@) =~= Seq::<EffectView>::empty());
                }
                effects
            },
            Some(actor) => {
                self.actors.remove(&actor_id);
                let removed = self.remove_entity(actor.object_id);
                let mut effects: Vec<Effect> = Vec::new();
                match removed {
                    Some(st) => {
                        let mut dead = st.freeze();
                        dead.object.alive = false;
                        let mut objs: Vec<FrozenGameObject> = Vec::new();
                        objs.push(dead);
                        broadcast_to_players(
                            &self.players,
                            self.area_size,
                            true,
                            &objs,
                            &mut effects,
                        );
                    },
                    None => {},
                }
                proof {
                    assert(self@ =~= spec_die(pre@, actor_id).state);
                    assert(effects_view(effects@) =~= spec_die(pre@, actor_id).effects);
                }
                effects
            },
        }
    }

    /// An agent's respawn: the death flow, then a fresh Walker whose
    /// task the session layer must launch, announced to every session.
    pub fn handle_respawn(&mut self, actor_id: u32) -> (effects: Vec<Effect>)
        requires
            old(self).wf(),
        ensures
            final(self).wf(),
            final(self)@ == spec_respawn(old(self)@, actor_id).state,
            effects_view(effects@) == spec_respawn(old(self)@, actor_id).effects,
    {
        let ghost pre = *self;
        let mut effects = self.handle_die(actor_id);
        let spawned = self.spawn_actor(ActorType::Walker);
        match spawned {
            None => {
                proof {
                    assert(effects_view(effects@) =~= spec_respawn(pre@, actor_id).effects);
                }
                effects
            },
            Some(actor) => {
                effects.push(Effect::SpawnTask(actor));
                match self.store.get(actor.object_id) {
                    Some(st) => {
                        let mut objs: Vec<FrozenGameObject> = Vec::new();
                        objs.push(st.freeze());
                        broadcast_to_players(
                            &self.players,
                            self.area_size,
                            true,
                            &objs,
                            &mut effects,
                        );
                        proof {
                            assert(effects_view(effects@) =~= spec_respawn(
                                pre@,
                                actor_id,
                            ).effects);
                        }
                    },
                    None => {
                        proof {
                            assert(false);
                        }
                    },
                }
                effects
            },
        }
    }

    /// Fill the world: the given number of items placed on the ground
    /// at generator-chosen spots, then the given number of Walker
    /// agents.  The caller must launch a behavior task for each
    /// returned agent.
    pub fn populate(&mut self, num_items: u32, num_actors: u32) -> (actors: Vec<Actor>)
        requires
            old(self).wf(),
        ensures
            final(self).wf(),
            final(self)@ == spec_populate(old(self)@, num_items as int, num_actors as int).state,
            actors@ == spec_populate(old(self)@, num_items as int, num_actors as int).actors,
    {
        let ghost pre = *self;
        let ghost goal = spec_populate(pre@, num_items as int, num_actors as int);
        let mut i: u32 = 0;
        while i < num_items
            invariant
                self.wf(),
                0 <= i <= num_items,
                goal == spec_populate(pre@, num_items as int, num_actors as int),
                spec_populate(self@, num_items - i, num_actors as int) == goal,
            decreases num_items - i,
        {
            let ghost before = *self;
            let size_mu: u64 = (self.area_size as u64) * (SCALE as u64);
            let x = self.rng.below(size_mu) as i64;
            let z = self.rng.below(size_mu) as i64;
            self.add_item(x, 0, z);
            proof {
                assert(self@ =~= spec_populate_item(before@));
            }
            i = i + 1;
        }
        let mut actors: Vec<Actor> = Vec::new();
        let mut j: u32 = 0;
        while j < num_actors
            invariant
                self.wf(),
                0 <= j <= num_actors,
                goal == spec_populate(pre@, num_items as int, num_actors as int),
                goal.state == spec_populate(self@, 0, num_actors - j).state,
                goal.actors == actors@ + spec_populate(self@, 0, num_actors - j).actors,
            decreases num_actors - j,
        {
            match self.spawn_actor(ActorType::Walker) {
                Some(a) => {
                    actors.push(a);
                    proof {
                        assert(actors@.drop_last() + (seq![a] + spec_populate(
                            self@,
                            0,
                            num_actors - j - 1,
                        ).actors) =~= actors@ + spec_populate(self@, 0, num_actors - j - 1).actors);
                    }
                },
                None => {
                    proof {
                        assert(Seq::<Actor>::empty() + spec_populate(
                            self@,
                            0,
                            num_actors - j - 1,
                        ).actors =~= spec_populate(self@, 0, num_actors - j - 1).actors);
                    }
                },
            }
            j = j + 1;
        }
        proof {
            assert(spec_populate(self@, 0, 0).actors =~= Seq::<Actor>::empty());
            assert(actors@ + Seq::<Actor>::empty() =~= actors@);
        }
        actors
    }

    /// Handle one inbound message to completion: the single entry point
    /// of the coordinator.  The new state and the produced effects are
    /// exactly `spec_step` of the old state and the message.
    pub fn handle_message(&mut self, msg: GameMessage) -> (effects: Vec<Effect>)
        requires
            old(self).wf(),
        ensures
            final(self).wf(),
            final(self)@ == spec_step(old(self)@, msg@).state,
            effects_view(effects@) == spec_step(old(self)@, msg@).effects,
    {
        match msg {
            GameMessage::Hello(client_id, username) => self.handle_hello(client_id, username),
            GameMessage::Goodbye(client_id) => self.handle_goodbye(client_id),
            GameMessage::Ping(client_id, ts) => self.handle_ping(client_id, ts),
            GameMessage::Move(client_id, x, y, z) => self.handle_move(client_id, x, y, z),
            GameMessage::Tick(now) => self.handle_tick(now),
            GameMessage::Die(actor_id) => self.handle_die(actor_id),
            GameMessage::Respawn(actor_id) => self.handle_respawn(actor_id),
            GameMessage::Scan(actor_id) => self.handle_scan(actor_id),
            GameMessage::ActorMove(actor_id, x, y, z) => self.handle_actor_move(
                actor_id,
                x,
                y,
                z,
            ),
        }
    }

    /// Handle an ordered batch of messages, one at a time, collecting
    /// every effect in order: the sequential replay that any
    /// interleaving of senders linearizes to.
    pub fn process_all(&mut self, msgs: Vec<GameMessage>) -> (effects: Vec<Effect>)
        requires
            old(self).wf(),
        ensures
            final(self).wf(),
            final(self)@ == spec_replay(old(self)@, msgs@.map_values(|m: GameMessage| m@)),
            effects_view(effects@) == spec_replay_effects(
                old(self)@,
                msgs@.map_values(|m: GameMessage| m@),
            ),
    {
        let ghost pre = *self;
        let ghost all = msgs@.map_values(|m: GameMessage| m@);
        let mut msgs = msgs;
        let mut effects: Vec<Effect> = Vec::new();
        while msgs.len() > 0
            invariant
                self.wf(),
                spec_replay(self@, msgs@.map_values(|m: GameMessage| m@)) == spec_replay(
                    pre@,
                    all,
                ),
                effects_view(effects@) + spec_replay_effects(
                    self@,
                    msgs@.map_values(|m: GameMessage| m@),
                ) == spec_replay_effects(pre@, all),
            decreases msgs@.len(),
        {
            let ghost rem = msgs@.map_values(|m: GameMessage| m@);
            let m = msgs.remove(0);
            proof {
                assert(msgs@.map_values(|m: GameMessage| m@) =~= rem.drop_first());
                assert(m@ == rem[0]);
            }
            let mut step_effects = self.handle_message(m);
            let ghost ev_before = effects_view(effects@);
            let ghost sv = effects_view(step_effects@);
            while step_effects.len() > 0
                invariant
                    effects_view(effects@) + effects_view(step_effects@) == ev_before + sv,
                decreases step_effects@.len(),
            {
                let ghost fx_pre = effects@;
                let ghost sx_pre = step_effects@;
                let e = step_effects.remove(0);
                effects.push(e);
                proof {
                    assert(effects_view(effects@) =~= effects_view(fx_pre).push(sx_pre[0]@));
                    assert(effects_view(step_effects@) =~= effects_view(sx_pre).drop_first());
                    assert(effects_view(effects@) + effects_view(step_effects@) =~= effects_view(
                        fx_pre,
                    ) + effects_view(sx_pre));
                }
            }
            proof {
                assert(effects_view(step_effects@) =~= Seq::<EffectView>::empty());
                assert(effects_view(effects@) + Seq::<EffectView>::empty() =~= effects_view(
                    effects@,
                ));
                assert(effects_view(effects@) =~= ev_before + sv);
                assert(effects_view(effects@) + spec_replay_effects(
                    self@,
                    rem.drop_first(),
                ) =~= spec_replay_effects(pre@, all));
            }
        }
        proof {
            assert(msgs@.map_values(|m: GameMessage| m@) =~= Seq::<MessageView>::empty());
            assert(effects_view(effects@) + Seq::<EffectView>::empty() =~= effects_view(
                effects@,
            ));
        }
        effects
    }

    /// An agent's scan request: reply with a snapshot built entirely
    /// from the current state, at one instant; unknown agents are
    /// ignored, and nothing mutates.
    pub fn handle_scan(&mut self, actor_id: u32) -> (effects: Vec<Effect>)
        requires
            old(self).wf(),
        ensures
            final(self).wf(),
            final(self)@ == old(self)@,
            final(self)@ == spec_scan(old(self)@, actor_id).state,
            effects_view(effects@) == spec_scan(old(self)@, actor_id).effects,
    {
        let ghost pre = *self;
        let mut effects: Vec<Effect> = Vec::new();
        let oa: Option<Actor> = match self.actors.get(&actor_id) {
            Some(a) => Some(*a),
            None => None,
        };
        let actor = match oa {
            None => {
                proof {
                    assert(effects_view(effects@) =~= Seq::<EffectView>::empty());
                }
                return effects;
            },
            Some(a) => a,
        };
        let st = match self.store.get(actor.object_id) {
            None => {
                proof {
                    assert(effects_view(effects@) =~= Seq::<EffectView>::empty());
                }
                return effects;
            },
            Some(st) => st,
        };
        let pos = st.position;
        let ghost pv = self@.players;
        // Players within the scan radius, in session order.
        let mut nearby_players: Vec<FrozenGameObject> = Vec::new();
        let mut i: usize = 0;
        while i < self.players.len()
            invariant
                self.wf(),
                *self == pre,
                pv == self@.players,
                pos == st.position,
                st.position@.within(0x2000_0000),
                0 <= i <= self.players@.len(),
                nearby_players@ == spec_scan_players(pv.take(i as int), self@.store, pos),
            decreases self.players@.len() - i,
        {
            proof {
                assert(pv.take(i + 1).drop_last() =~= pv.take(i as int));
                assert(pv.take(i + 1).last() == pv[i as int]);
                assert(pv[i as int] == self.players@[i as int]@);
            }
            let oid = self.players[i].object_id;
            match self.store.get(oid) {
                Some(pst) => {
                    let d = pst.position.dist(pos);
                    if d < SCAN_PLAYER_RADIUS as u64 {
                        nearby_players.push(pst.freeze());
                        proof {
                            assert(nearby_players@ =~= spec_scan_players(
                                pv.take(i + 1),
                                self@.store,
                                pos,
                            ));
                        }
                    } else {
                        proof {
                            assert(nearby_players@ =~= spec_scan_players(
                                pv.take(i + 1),
                                self@.store,
                                pos,
                            ));
                        }
                    }
                },
                None => {
                    proof {
                        assert(nearby_players@ =~= spec_scan_players(
                            pv.take(i + 1),
                            self@.store,
                            pos,
                        ));
                    }
                },
            }
            i = i + 1;
        }
        proof {
            assert(pv.take(pv.len() as int) =~= pv);
        }
        // Peer agents: pre-filter with the spatial index, rank by
        // distance, keep the nearest few.
        let ids = self.actor_index.get_nearby(pos.x, pos.z, SCAN_BOX);
        proof {
            let h = (SCAN_BOX as int) / 2;
            crate::fixed::lemma_tdiv_magnitude(pos@.x - h, CELL_FACTOR as int);
            crate::fixed::lemma_tdiv_magnitude(pos@.x + h, CELL_FACTOR as int);
            crate::fixed::lemma_tdiv_magnitude(pos@.z - h, CELL_FACTOR as int);
            crate::fixed::lemma_tdiv_magnitude(pos@.z + h, CELL_FACTOR as int);
            let (x_lo, x_hi, y_lo, y_hi) = self.actor_index.spec_nearby_bounds(
                pos@.x,
                pos@.z,
                SCAN_BOX as int,
            );
            lemma_rect_concat_view(&self.actor_index, self@.cells, x_lo, x_hi, y_lo, y_hi);
            assert(ids@ == spec_nearby(self@, pos@.x, pos@.z, SCAN_BOX as int));
        }
        let mut ranked: Vec<RankedEntity> = Vec::new();
        let mut k: usize = 0;
        while k < ids.len()
            invariant
                self.wf(),
                *self == pre,
                pos == st.position,
                st.position@.within(0x2000_0000),
                0 <= k <= ids@.len(),
                ranked@ == spec_rank(self@.store, ids@.take(k as int), actor.object_id, pos),
            decreases ids@.len() - k,
        {
            proof {
                assert(ids@.take(k + 1).drop_last() =~= ids@.take(k as int));
                assert(ids@.take(k + 1).last() == ids@[k as int]);
            }
            let id = ids[k];
            if id != actor.object_id {
                match self.store.get(id) {
                    Some(ost) => {
                        let dsq = ost.position.dist_sq(pos);
                        ranked.push(RankedEntity { dsq, state: ost });
                        proof {
                            assert(ost.position@.dist_sq(pos@) as u64 == dsq);
                            assert(ranked@ =~= spec_rank(
                                self@.store,
                                ids@.take(k + 1),
                                actor.object_id,
                                pos,
                            ));
                        }
                    },
                    None => {
                        proof {
                            assert(ranked@ =~= spec_rank(
                                self@.store,
                                ids@.take(k + 1),
                                actor.object_id,
                                pos,
                            ));
                        }
                    },
                }
            } else {
                proof {
                    assert(ranked@ =~= spec_rank(
                        self@.store,
                        ids@.take(k + 1),
                        actor.object_id,
                        pos,
                    ));
                }
            }
            k = k + 1;
        }
        proof {
            assert(ids@.take(ids@.len() as int) =~= ids@);
        }
        let mut sorted: Vec<RankedEntity> = Vec::new();
        let mut k2: usize = 0;
        while k2 < ranked.len()
            invariant
                0 <= k2 <= ranked@.len(),
                sorted@ == sort_ranked(ranked@.take(k2 as int)),
            decreases ranked@.len() - k2,
        {
            proof {
                assert(ranked@.take(k2 + 1).drop_last() =~= ranked@.take(k2 as int));
                assert(ranked@.take(k2 + 1).last() == ranked@[k2 as int]);
            }
            insert_ranked_exec(&mut sorted, ranked[k2]);
            k2 = k2 + 1;
        }
        proof {
            assert(ranked@.take(ranked@.len() as int) =~= ranked@);
        }
        let limit = if sorted.len() < SCAN_AGENT_LIMIT {
            sorted.len()
        } else {
            SCAN_AGENT_LIMIT
        };
        let mut nearby_agents: Vec<FrozenGameObject> = Vec::new();
        let mut k3: usize = 0;
        while k3 < limit
            invariant
                0 <= k3 <= limit <= sorted@.len(),
                nearby_agents@ == sorted@.take(k3 as int).map_values(
                    |r: RankedEntity| spec_freeze(r.state),
                ),
            decreases limit - k3,
        {
            nearby_agents.push(sorted[k3].state.freeze());
            proof {
                assert(sorted@.take(k3 + 1) =~= sorted@.take(k3 as int).push(
                    sorted@[k3 as int],
                ));
                assert(nearby_agents@ =~= sorted@.take(k3 + 1).map_values(
                    |r: RankedEntity| spec_freeze(r.state),
                ));
            }
            k3 = k3 + 1;
        }
        let snapshot = ScanSnapshot {
            actor,
            self_state: st.freeze(),
            nearby_players,
            nearby_agents,
        };
        proof {
            assert(snapshot@.nearby_agents =~= freeze_ranked(sorted@, SCAN_AGENT_LIMIT as int));
        }
        effects.push(Effect::ScanReply(actor_id, snapshot));
        proof {
            assert(snapshot@ =~= spec_scan(pre@, actor_id).effects[0]->ScanReply_1);
            assert(effects_view(effects@) =~= spec_scan(pre@, actor_id).effects);
        }
        effects
    }

    /// Set an entity's velocity from a move intent and broadcast the
    /// changed record; an absent entity is a no-op.
    fn move_entity(&mut self, oid: u32, dx: i64, dy: i64, dz: i64) -> (effects: Vec<Effect>)
        requires
            old(self).wf(),
        ensures
            final(self).wf(),
            final(self)@ == spec_move_entity(old(self)@, oid, dx, dy, dz).state,
            effects_view(effects@) == spec_move_entity(old(self)@, oid, dx, dy, dz).effects,
    {
        let ghost pre = *self;
        match self.store.get(oid) {
            None => {
                let effects: Vec<Effect> = Vec::new();
                proof {
                    assert(effects_view(effects@) =~= Seq::<EffectView>::empty());
                }
                effects
            },
            Some(st) => {
                let nv = new_velocity(dx, dy, dz);
                let st2 = EntityState {
                    object: st.object,
                    position: st.position,
                    velocity: nv,
                    acceleration: st.acceleration,
                };
                self.store.set(oid, st2);
                proof {
                    lemma_store_seq_update(pre.store, self.store, oid, st2);
                    assert(st2 == (EntityState {
                        velocity: v3_to_vec3(spec_new_velocity(dx, dy, dz)),
                        ..st
                    }));
                    assert forall|cx: int, cy: int, k: int| cell_in_range(cx, cy) && 0 <= k
                        < self.actor_index.cell(cx, cy).len() implies {
                        let id = #[trigger] self.actor_index.cell(cx, cy)[k];
                        &&& self.store.spec_get(id) is Some
                        &&& self.store.spec_get(id)->Some_0.object.object_type
                            == ObjectType::Actor
                        &&& view_cell_of(
                            self.store.spec_get(id)->Some_0.position@.x,
                            self.store.spec_get(id)->Some_0.position@.z,
                        ) == (cx, cy)
                    } by {
                        let id = self.actor_index.cell(cx, cy)[k];
                        assert(pre.actor_index.cell(cx, cy)[k] == id);
                    }
                    assert forall|id: u32| #[trigger] self.store.spec_get(id) is Some
                        && self.store.spec_get(id)->Some_0.object.object_type
                        == ObjectType::Actor implies {
                        let c = view_cell_of(
                            self.store.spec_get(id)->Some_0.position@.x,
                            self.store.spec_get(id)->Some_0.position@.z,
                        );
                        self.actor_index.cell(c.0, c.1).contains(id)
                    } by {
                        assert(pre.store.spec_get(id) is Some);
                        assert(pre.store.spec_get(id)->Some_0.position
                            == self.store.spec_get(id)->Some_0.position);
                    }
                    assert(self@.cells =~= pre@.cells) by {
                        assert forall|c: (int, int)| cell_in_range(c.0, c.1) implies self@.cells[c]
                            == pre@.cells[c] by {
                            assert(self.actor_index == pre.actor_index);
                        }
                    }
                    assert(self@ =~= spec_move_entity(pre@, oid, dx, dy, dz).state);
                }
                let frozen = st2.freeze();
                let mut objs: Vec<FrozenGameObject> = Vec::new();
                objs.push(frozen);
                let mut effects: Vec<Effect> = Vec::new();
                broadcast_to_players(&self.players, self.area_size, true, &objs, &mut effects);
                proof {
                    assert(objs@ =~= seq![spec_freeze(st2)]);
                    assert(effects_view(effects@) =~= spec_move_entity(
                        pre@,
                        oid,
                        dx,
                        dy,
                        dz,
                    ).effects);
                }
                effects
            },
        }
    }

    /// A player's move intent: sets the controlled entity's velocity to
    /// the clamped direction and broadcasts the delta; an unknown
    /// session or entity is ignored.
    pub fn handle_move(&mut self, client_id: u32, dx: i64, dy: i64, dz: i64) -> (effects: Vec<
        Effect,
    >)
        requires
            old(self).wf(),
        ensures
            final(self).wf(),
            final(self)@ == spec_move(old(self)@, client_id, dx, dy, dz).state,
            effects_view(effects@) == spec_move(old(self)@, client_id, dx, dy, dz).effects,
    {
        match self.find_player_index(client_id) {
            None => {
                let effects: Vec<Effect> = Vec::new();
                proof {
                    assert(effects_view(effects@) =~= Seq::<EffectView>::empty());
                }
                effects
            },
            Some(i) => {
                let oid = self.players[i].object_id;
                proof {
                    assert(self@.players[i as int].object_id == oid);
                }
                self.move_entity(oid, dx, dy, dz)
            },
        }
    }

    /// An agent's move intent: the same effect as a player's, on the
    /// agent-controlled entity; an unknown agent is ignored.
    pub fn handle_actor_move(&mut self, actor_id: u32, dx: i64, dy: i64, dz: i64) -> (effects: Vec<
        Effect,
    >)
        requires
            old(self).wf(),
        ensures
            final(self).wf(),
            final(self)@ == spec_actor_move(old(self)@, actor_id, dx, dy, dz).state,
            effects_view(effects@) == spec_actor_move(old(self)@, actor_id, dx, dy, dz).effects,
    {
        let oa: Option<Actor> = match self.actors.get(&actor_id) {
            Some(a) => Some(*a),
            None => None,
        };
        match oa {
            None => {
                let effects: Vec<Effect> = Vec::new();
                proof {
                    assert(effects_view(effects@) =~= Seq::<EffectView>::empty());
                }
                effects
            },
            Some(a) => self.move_entity(a.object_id, dx, dy, dz),
        }
    }

    /// A session leaves: its player record and entity are removed, the
    /// remaining sessions see the entity once more with its alive flag
    /// cleared, and the leaver is told goodbye.  An unknown session is
    /// ignored.
    pub fn handle_goodbye(&mut self, client_id: u32) -> (effects: Vec<Effect>)
        requires
            old(self).wf(),
        ensures
            final(self).wf(),
            final(self)@ == spec_goodbye(old(self)@, client_id).state,
            effects_view(effects@) == spec_goodbye(old(self)@, client_id).effects,
    {
        let ghost pre = *self;
        match self.find_player_index(client_id) {
            None => {
                let effects: Vec<Effect> = Vec::new();
                proof {
                    assert(effects_view(effects@) =~= Seq::<EffectView>::empty());
                }
                effects
            },
            Some(i) => {
                let player = self.players.remove(i);
                proof {
                    assert(self.players@ =~= pre.players@.remove(i as int));
                    assert(self@.players =~= pre@.players.remove(i as int)) by {
                        assert forall|j: int| 0 <= j < self@.players.len() implies self@.players[j]
                            == pre@.players.remove(i as int)[j] by {
                            if j < i {
                                assert(self.players@[j] == pre.players@[j]);
                            } else {
                                assert(self.players@[j] == pre.players@[j + 1]);
                            }
                        }
                    }
                    lemma_players_remove_ok(pre, *self, i as int);
                }
                let mut effects: Vec<Effect> = Vec::new();
                let removed = self.remove_entity(player.object_id);
                match removed {
                    Some(st) => {
                        let mut dead = st.freeze();
                        dead.object.alive = false;
                        let mut objs: Vec<FrozenGameObject> = Vec::new();
                        objs.push(dead);
                        broadcast_to_players(
                            &self.players,
                            self.area_size,
                            true,
                            &objs,
                            &mut effects,
                        );
                    },
                    None => {},
                }
                effects.push(Effect::Send(client_id, GameResponse::Goodbye));
                proof {
                    assert(self@ =~= spec_goodbye(pre@, client_id).state);
                    assert(effects_view(effects@) =~= spec_goodbye(pre@, client_id).effects);
                }
                effects
            },
        }
    }

    /// Remove the entity under `oid` from the store and, for an agent
    /// entity, from the spatial index; absent ids are a no-op.
    fn remove_entity(&mut self, oid: u32) -> (r: Option<EntityState>)
        requires
            old(self).wf(),
        ensures
            final(self).wf(),
            r == store_get(old(self)@.store, oid),
            final(self)@ == spec_remove_entity(old(self)@, oid),
            final(self).players@ == old(self).players@,
            final(self).actors@ == old(self).actors@,
    {
        let ghost pre = *self;
        let r = self.store.remove(oid);
        match r {
            None => {
                proof {
                    lemma_store_seq_remove(pre.store, self.store, oid);
                    if oid < pre.store.slots@.len() {
                        assert(pre.store.slots@.update(oid as int, None::<EntityState>)
                            =~= pre.store.slots@);
                    }
                    assert(self@ =~= pre@);
                    assert(self@ =~= spec_remove_entity(pre@, oid));
                }
                None
            },
            Some(st) => {
                if st.object.object_type == ObjectType::Actor {
                    proof {
                        assert(pre.store.spec_get(oid) is Some);
                        assert(0 <= st.position@.x <= pre.area_size * SCALE);
                        assert(0 <= st.position@.z <= pre.area_size * SCALE);
                        assert(pre.area_size * SCALE <= 46_340_000);
                    }
                    let ghost c0 = view_cell_of(st.position@.x, st.position@.z);
                    proof {
                        crate::fixed::lemma_tdiv_magnitude(st.position@.x, CELL_FACTOR as int);
                        crate::fixed::lemma_tdiv_magnitude(st.position@.z, CELL_FACTOR as int);
                        assert(cell_in_range(c0.0, c0.1));
                        assert(pre.actor_index.cell(c0.0, c0.1).contains(oid));
                    }
                    self.actor_index.remove(st.position.x, st.position.z, oid);
                    proof {
                        let old_cell = pre.actor_index.cell(c0.0, c0.1);
                        let new_cell = self.actor_index.cell(c0.0, c0.1);
                        lemma_cell_remove_membership(old_cell, new_cell, oid);
                        lemma_remove_entity_wf(pre, *self, st, oid, c0);
                        lemma_store_seq_remove(pre.store, self.store, oid);
                        assert(self@.cells =~= cells_remove(pre@.cells, c0, oid)) by {
                            assert(pre@.cells[c0] == old_cell);
                            assert(old_cell.contains(oid));
                            assert forall|c: (int, int)| cell_in_range(c.0, c.1) implies
                                self@.cells[c] == cells_remove(pre@.cells, c0, oid)[c] by {
                                if c != c0 {
                                    assert(self.actor_index.cell(c.0, c.1)
                                        == pre.actor_index.cell(c.0, c.1));
                                }
                            }
                        }
                        assert(self@ =~= spec_remove_entity(pre@, oid));
                    }
                } else {
                    proof {
                        assert forall|cx: int, cy: int, k: int| cell_in_range(cx, cy) && 0 <= k
                            < self.actor_index.cell(cx, cy).len() implies {
                            let id = #[trigger] self.actor_index.cell(cx, cy)[k];
                            &&& self.store.spec_get(id) is Some
                            &&& self.store.spec_get(id)->Some_0.object.object_type
                                == ObjectType::Actor
                            &&& view_cell_of(
                                self.store.spec_get(id)->Some_0.position@.x,
                                self.store.spec_get(id)->Some_0.position@.z,
                            ) == (cx, cy)
                        } by {
                            let id = self.actor_index.cell(cx, cy)[k];
                            assert(pre.actor_index.cell(cx, cy)[k] == id);
                            assert(id != oid);
                        }
                        lemma_store_seq_remove(pre.store, self.store, oid);
                        assert(self@.cells =~= pre@.cells) by {
                            assert forall|c: (int, int)| cell_in_range(c.0, c.1) implies
                                self@.cells[c] == pre@.cells[c] by {
                                assert(self.actor_index == pre.actor_index);
                            }
                        }
                        assert(self@ =~= spec_remove_entity(pre@, oid));
                    }
                }
                Some(st)
            },
        }
    }
}

/// After removing an agent entity from the store and its cell, the
/// coordinator invariants still hold.
proof fn lemma_remove_entity_wf(
    pre: GameArea,
    post: GameArea,
    st: EntityState,
    oid: u32,
    c0: (int, int),
)
    requires
        pre.wf(),
        store_get(pre@.store, oid) == Some(st),
        st.object.object_type == ObjectType::Actor,
        c0 == view_cell_of(st.position@.x, st.position@.z),
        cell_in_range(c0.0, c0.1),
        post.store.wf(),
        post.actor_index.wf(),
        post.actor_index.factor == pre.actor_index.factor,
        post.area_size == pre.area_size,
        post.terrain == pre.terrain,
        post.players == pre.players,
        post.actors == pre.actors,
        forall|id: u32| id != oid ==> post.store.spec_get(id) == pre.store.spec_get(id),
        post.store.spec_get(oid) is None,
        post.actor_index.cell(c0.0, c0.1).no_duplicates(),
        !post.actor_index.cell(c0.0, c0.1).contains(oid),
        forall|x: u32| x != oid ==> (post.actor_index.cell(c0.0, c0.1).contains(x)
            <==> pre.actor_index.cell(c0.0, c0.1).contains(x)),
        forall|ox: int, oy: int| cell_in_range(ox, oy) && (ox, oy) != c0
            ==> post.actor_index.cell(ox, oy) == pre.actor_index.cell(ox, oy),
    ensures
        post.wf(),
{
    assert(post.kin_bounds_ok());
    assert(post.players_ok());
    assert forall|cx: int, cy: int| cell_in_range(cx, cy) implies (
    #[trigger] post.actor_index.cell(cx, cy)).no_duplicates() by {
        if (cx, cy) != c0 {
            assert(post.actor_index.cell(cx, cy) == pre.actor_index.cell(cx, cy));
        }
    }
    assert forall|cx: int, cy: int, k: int| cell_in_range(cx, cy) && 0 <= k
        < post.actor_index.cell(cx, cy).len() implies {
        let id = #[trigger] post.actor_index.cell(cx, cy)[k];
        &&& post.store.spec_get(id) is Some
        &&& post.store.spec_get(id)->Some_0.object.object_type == ObjectType::Actor
        &&& view_cell_of(
            post.store.spec_get(id)->Some_0.position@.x,
            post.store.spec_get(id)->Some_0.position@.z,
        ) == (cx, cy)
    } by {
        let id = post.actor_index.cell(cx, cy)[k];
        assert(post.actor_index.cell(cx, cy).contains(id));
        if (cx, cy) == c0 {
            assert(id != oid);
            assert(pre.actor_index.cell(cx, cy).contains(id));
            let j = choose|j: int| 0 <= j < pre.actor_index.cell(cx, cy).len()
                && pre.actor_index.cell(cx, cy)[j] == id;
            assert(pre.actor_index.cell(cx, cy)[j] == id);
        } else {
            assert(pre.actor_index.cell(cx, cy)[k] == id);
            if id == oid {
                assert(view_cell_of(st.position@.x, st.position@.z) == (cx, cy));
                assert(false);
            }
        }
    }
    assert forall|id: u32| #[trigger] post.store.spec_get(id) is Some && post.store.spec_get(
        id,
    )->Some_0.object.object_type == ObjectType::Actor implies {
        let c = view_cell_of(
            post.store.spec_get(id)->Some_0.position@.x,
            post.store.spec_get(id)->Some_0.position@.z,
        );
        post.actor_index.cell(c.0, c.1).contains(id)
    } by {
        assert(id != oid);
        assert(pre.store.spec_get(id) == post.store.spec_get(id));
        let pos = post.store.spec_get(id)->Some_0.position@;
        let c = view_cell_of(pos.x, pos.z);
        crate::fixed::lemma_tdiv_magnitude(pos.x, CELL_FACTOR as int);
        crate::fixed::lemma_tdiv_magnitude(pos.z, CELL_FACTOR as int);
        assert(0 <= pos.x <= pre.area_size * SCALE && 0 <= pos.z <= pre.area_size * SCALE);
        assert(cell_in_range(c.0, c.1));
        assert(pre.actor_index.cell(c.0, c.1).contains(id));
        if c == c0 {
            assert(post.actor_index.cell(c.0, c.1).contains(id));
        } else {
            assert(post.actor_index.cell(c.0, c.1) == pre.actor_index.cell(c.0, c.1));
        }
    }
}

/// Removing one session keeps client ids and display names pairwise
/// distinct.
proof fn lemma_players_remove_ok(pre: GameArea, post: GameArea, i: int)
    requires
        pre.players_ok(),
        0 <= i < pre.players@.len(),
        post.players@ == pre.players@.remove(i),
    ensures
        post.players_ok(),
{
    assert forall|a: int, b: int| 0 <= a < b < post.players@.len() implies (
    #[trigger] post.players@[a])@.client_id != (#[trigger] post.players@[b])@.client_id
        && post.players@[a]@.username != post.players@[b]@.username by {
        let a2: int = if a < i {
            a
        } else {
            a + 1
        };
        let b2: int = if b < i {
            b
        } else {
            b + 1
        };
        assert(post.players@[a] == pre.players@[a2]);
        assert(post.players@[b] == pre.players@[b2]);
    }
}

/// If no player before `k` has the client id, the search from the
/// front agrees with the search from `k`.
proof fn lemma_find_player_skip(players: Seq<PlayerView>, client_id: u32, k: int)
    requires
        0 <= k <= players.len(),
        forall|j: int| 0 <= j < k ==> (#[trigger] players[j]).client_id != client_id,
    ensures
        find_player(players, client_id) == find_player_from(players, client_id, k),
    decreases k,
{
    if k > 0 {
        lemma_find_player_skip(players, client_id, k - 1);
    }
}

} // verus!
