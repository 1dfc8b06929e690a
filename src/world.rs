use vstd::prelude::*;
use crate::components::{
    BulletComponent, Identity, ReducerError, MobileLocationComponent, PlayerComponent,
    SpawnableEntityComponent, StdbVector2, Timestamp,
};

verus! {

/// The four component tables and the allocator's counter. Each table holds
/// its rows in order of entity id, one row per id.
pub struct World {
    /// The id the allocator hands out next.
    pub next_entity_id: u64,
    pub entities: Vec<SpawnableEntityComponent>,
    pub players: Vec<PlayerComponent>,
    pub bullets: Vec<BulletComponent>,
    pub mobiles: Vec<MobileLocationComponent>,
}

/// The contents of a `World`, as mathematical sequences.
pub struct WorldView {
    pub next_entity_id: u64,
    pub entities: Seq<SpawnableEntityComponent>,
    pub players: Seq<PlayerComponent>,
    pub bullets: Seq<BulletComponent>,
    pub mobiles: Seq<MobileLocationComponent>,
}

impl View for World {
    type V = WorldView;

    open spec fn view(&self) -> WorldView {
        WorldView {
            next_entity_id: self.next_entity_id,
            entities: self.entities@,
            players: self.players@,
            bullets: self.bullets@,
            mobiles: self.mobiles@,
        }
    }
}

/// Ids strictly increase along the sequence, and all are below `bound`.
pub open spec fn ids_ordered_below(ids: Seq<u64>, bound: u64) -> bool {
    &&& forall|i: int, j: int| 0 <= i < j < ids.len() ==> ids[i] < ids[j]
    &&& forall|i: int| 0 <= i < ids.len() ==> ids[i] < bound
}

pub open spec fn entity_ids(s: Seq<SpawnableEntityComponent>) -> Seq<u64> {
    s.map_values(|e: SpawnableEntityComponent| e.entity_id)
}

pub open spec fn player_ids(s: Seq<PlayerComponent>) -> Seq<u64> {
    s.map_values(|p: PlayerComponent| p.entity_id)
}

pub open spec fn bullet_ids(s: Seq<BulletComponent>) -> Seq<u64> {
    s.map_values(|b: BulletComponent| b.entity_id)
}

pub open spec fn mobile_ids(s: Seq<MobileLocationComponent>) -> Seq<u64> {
    s.map_values(|m: MobileLocationComponent| m.entity_id)
}

/// The row of a new player: logged in, owned by `who`.
pub open spec fn new_player(id: u64, who: Identity, username: String) -> PlayerComponent {
    PlayerComponent { entity_id: id, owner_id: who, username, logged_in: true }
}

/// The location row of a newly spawned entity, not moving by the clock.
pub open spec fn new_mobile(
    id: u64,
    location: StdbVector2,
    direction: StdbVector2,
) -> MobileLocationComponent {
    MobileLocationComponent {
        entity_id: id,
        location,
        direction,
        move_start_timestamp: Timestamp::spec_unix_epoch(),
    }
}

pub open spec fn zero_vector() -> StdbVector2 {
    StdbVector2 { x: 0, z: 0 }
}

impl WorldView {
    /// The tables agree with each other and with the allocator:
    /// - ids are ordered and unique in each table, and below the next id,
    /// - the next id is positive (ids start at one),
    /// - each component row belongs to an entity,
    /// - no two players share an owner,
    /// - each player and each bullet has a location row.
    pub open spec fn wf(self) -> bool {
        &&& 1 <= self.next_entity_id
        &&& ids_ordered_below(entity_ids(self.entities), self.next_entity_id)
        &&& ids_ordered_below(player_ids(self.players), self.next_entity_id)
        &&& ids_ordered_below(bullet_ids(self.bullets), self.next_entity_id)
        &&& ids_ordered_below(mobile_ids(self.mobiles), self.next_entity_id)
        &&& forall|i: int| 0 <= i < self.players.len()
            ==> self.is_entity(#[trigger] self.players[i].entity_id)
        &&& forall|i: int| 0 <= i < self.bullets.len()
            ==> self.is_entity(#[trigger] self.bullets[i].entity_id)
        &&& forall|i: int| 0 <= i < self.mobiles.len()
            ==> self.is_entity(#[trigger] self.mobiles[i].entity_id)
        &&& forall|i: int, j: int|
            0 <= i < self.players.len() && 0 <= j < self.players.len()
                && #[trigger] self.players[i].owner_id == #[trigger] self.players[j].owner_id
                ==> i == j
        &&& forall|i: int| 0 <= i < self.players.len()
            ==> self.has_mobile(#[trigger] self.players[i].entity_id)
        &&& forall|i: int| 0 <= i < self.bullets.len()
            ==> self.has_mobile(#[trigger] self.bullets[i].entity_id)
    }

    pub open spec fn is_entity(self, id: u64) -> bool {
        exists|k: int| 0 <= k < self.entities.len() && (#[trigger] self.entities[k]).entity_id == id
    }

    pub open spec fn has_mobile(self, id: u64) -> bool {
        exists|k: int| 0 <= k < self.mobiles.len() && (#[trigger] self.mobiles[k]).entity_id == id
    }

    /// Some player row is owned by `who`.
    pub open spec fn has_player(self, who: Identity) -> bool {
        exists|i: int| 0 <= i < self.players.len() && (#[trigger] self.players[i]).owner_id == who
    }

    /// The tables after a new entity with a player row and a location row has
    /// been created for `who`.
    pub open spec fn with_new_player(self, who: Identity, username: String) -> WorldView {
        let id = self.next_entity_id;
        WorldView {
            next_entity_id: (id + 1) as u64,
            entities: self.entities.push(SpawnableEntityComponent { entity_id: id }),
            players: self.players.push(new_player(id, who, username)),
            bullets: self.bullets,
            mobiles: self.mobiles.push(new_mobile(id, zero_vector(), zero_vector())),
        }
    }

    /// The tables after a new entity with a bullet row and a location row
    /// has been spawned.
    pub open spec fn with_new_bullet(
        self,
        location: StdbVector2,
        direction: StdbVector2,
    ) -> WorldView {
        let id = self.next_entity_id;
        WorldView {
            next_entity_id: (id + 1) as u64,
            entities: self.entities.push(SpawnableEntityComponent { entity_id: id }),
            players: self.players,
            bullets: self.bullets.push(BulletComponent { entity_id: id, lifetime: BULLET_LIFETIME }),
            mobiles: self.mobiles.push(new_mobile(id, location, direction)),
        }
    }
}

/// A table stays ordered when a row with the next id is appended.
proof fn lemma_push_next_id(ids: Seq<u64>, bound: u64)
    requires
        ids_ordered_below(ids, bound),
        bound < u64::MAX,
    ensures
        ids_ordered_below(ids.push(bound), (bound + 1) as u64),
{
}

impl WorldView {
    /// Creating a player for an identity that has none keeps the tables consistent.
    pub proof fn lemma_new_player_wf(self, who: Identity, username: String)
        requires
            self.wf(),
            !self.has_player(who),
            self.next_entity_id < u64::MAX,
        ensures
            self.with_new_player(who, username).wf(),
    {
        let id = self.next_entity_id;
        let w = self.with_new_player(who, username);
        assert(entity_ids(w.entities) =~= entity_ids(self.entities).push(id));
        assert(player_ids(w.players) =~= player_ids(self.players).push(id));
        assert(mobile_ids(w.mobiles) =~= mobile_ids(self.mobiles).push(id));
        assert(bullet_ids(w.bullets) =~= bullet_ids(self.bullets));
        lemma_push_next_id(entity_ids(self.entities), id);
        lemma_push_next_id(player_ids(self.players), id);
        lemma_push_next_id(mobile_ids(self.mobiles), id);
        assert forall|i: int| 0 <= i < w.players.len() implies w.is_entity(
            #[trigger] w.players[i].entity_id,
        ) && w.has_mobile(w.players[i].entity_id) by {
            if i < self.players.len() {
                assert(self.is_entity(self.players[i].entity_id));
                assert(self.has_mobile(self.players[i].entity_id));
                let k = choose|k: int| 0 <= k < self.entities.len() && (#[trigger] self.entities[k]).entity_id == self.players[i].entity_id;
                assert(w.entities[k] == self.entities[k]);
                let m = choose|k: int| 0 <= k < self.mobiles.len() && (#[trigger] self.mobiles[k]).entity_id == self.players[i].entity_id;
                assert(w.mobiles[m] == self.mobiles[m]);
            } else {
                assert(w.entities[self.entities.len() as int].entity_id == id);
                assert(w.mobiles[self.mobiles.len() as int].entity_id == id);
            }
        }
        assert forall|i: int| 0 <= i < w.bullets.len() implies w.is_entity(
            #[trigger] w.bullets[i].entity_id,
        ) && w.has_mobile(w.bullets[i].entity_id) by {
            assert(self.is_entity(self.bullets[i].entity_id));
            assert(self.has_mobile(self.bullets[i].entity_id));
            let k = choose|k: int| 0 <= k < self.entities.len() && (#[trigger] self.entities[k]).entity_id == self.bullets[i].entity_id;
            assert(w.entities[k] == self.entities[k]);
            let m = choose|k: int| 0 <= k < self.mobiles.len() && (#[trigger] self.mobiles[k]).entity_id == self.bullets[i].entity_id;
            assert(w.mobiles[m] == self.mobiles[m]);
        }
        assert forall|i: int| 0 <= i < w.mobiles.len() implies w.is_entity(
            #[trigger] w.mobiles[i].entity_id,
        ) by {
            if i < self.mobiles.len() {
                assert(self.is_entity(self.mobiles[i].entity_id));
                let k = choose|k: int| 0 <= k < self.entities.len() && (#[trigger] self.entities[k]).entity_id == self.mobiles[i].entity_id;
                assert(w.entities[k] == self.entities[k]);
            } else {
                assert(w.entities[self.entities.len() as int].entity_id == id);
            }
        }
        assert forall|i: int, j: int|
            0 <= i < w.players.len() && 0 <= j < w.players.len()
                && #[trigger] w.players[i].owner_id == #[trigger] w.players[j].owner_id
            implies i == j by {
            if i < self.players.len() && j == self.players.len() {
                assert(self.players[i].owner_id == who);
            }
            if j < self.players.len() && i == self.players.len() {
                assert(self.players[j].owner_id == who);
            }
        }
    }
}

impl WorldView {
    /// Spawning a bullet keeps the tables consistent.
    pub proof fn lemma_new_bullet_wf(self, location: StdbVector2, direction: StdbVector2)
        requires
            self.wf(),
            self.next_entity_id < u64::MAX,
        ensures
            self.with_new_bullet(location, direction).wf(),
    {
        let id = self.next_entity_id;
        let w = self.with_new_bullet(location, direction);
        assert(entity_ids(w.entities) =~= entity_ids(self.entities).push(id));
        assert(bullet_ids(w.bullets) =~= bullet_ids(self.bullets).push(id));
        assert(mobile_ids(w.mobiles) =~= mobile_ids(self.mobiles).push(id));
        assert(player_ids(w.players) =~= player_ids(self.players));
        lemma_push_next_id(entity_ids(self.entities), id);
        lemma_push_next_id(bullet_ids(self.bullets), id);
        lemma_push_next_id(mobile_ids(self.mobiles), id);
        assert forall|i: int| 0 <= i < w.bullets.len() implies w.is_entity(
            #[trigger] w.bullets[i].entity_id,
        ) && w.has_mobile(w.bullets[i].entity_id) by {
            if i < self.bullets.len() {
                assert(self.is_entity(self.bullets[i].entity_id));
                assert(self.has_mobile(self.bullets[i].entity_id));
                let k = choose|k: int| 0 <= k < self.entities.len() && (#[trigger] self.entities[k]).entity_id == self.bullets[i].entity_id;
                assert(w.entities[k] == self.entities[k]);
                let m = choose|k: int| 0 <= k < self.mobiles.len() && (#[trigger] self.mobiles[k]).entity_id == self.bullets[i].entity_id;
                assert(w.mobiles[m] == self.mobiles[m]);
            } else {
                assert(w.entities[self.entities.len() as int].entity_id == id);
                assert(w.mobiles[self.mobiles.len() as int].entity_id == id);
            }
        }
        assert forall|i: int| 0 <= i < w.players.len() implies w.is_entity(
            #[trigger] w.players[i].entity_id,
        ) && w.has_mobile(w.players[i].entity_id) by {
            assert(self.is_entity(self.players[i].entity_id));
            assert(self.has_mobile(self.players[i].entity_id));
            let k = choose|k: int| 0 <= k < self.entities.len() && (#[trigger] self.entities[k]).entity_id == self.players[i].entity_id;
            assert(w.entities[k] == self.entities[k]);
            let m = choose|k: int| 0 <= k < self.mobiles.len() && (#[trigger] self.mobiles[k]).entity_id == self.players[i].entity_id;
            assert(w.mobiles[m] == self.mobiles[m]);
        }
        assert forall|i: int| 0 <= i < w.mobiles.len() implies w.is_entity(
            #[trigger] w.mobiles[i].entity_id,
        ) by {
            if i < self.mobiles.len() {
                assert(self.is_entity(self.mobiles[i].entity_id));
                let k = choose|k: int| 0 <= k < self.entities.len() && (#[trigger] self.entities[k]).entity_id == self.mobiles[i].entity_id;
                assert(w.entities[k] == self.entities[k]);
            } else {
                assert(w.entities[self.entities.len() as int].entity_id == id);
            }
        }
    }
}

impl WorldView {
    /// Player row `i` is owned by `who` and location row `j` belongs to it.
    pub open spec fn locates_player(self, who: Identity, i: int, j: int) -> bool {
        &&& 0 <= i < self.players.len()
        &&& self.players[i].owner_id == who
        &&& 0 <= j < self.mobiles.len()
        &&& self.mobiles[j].entity_id == self.players[i].entity_id
    }

    /// `who` has a player row, and that row has a location row.
    pub open spec fn has_player_location(self, who: Identity) -> bool {
        exists|i: int, j: int| self.locates_player(who, i, j)
    }

    /// The tables with location row `j` replaced by `m`.
    pub open spec fn with_mobile(self, j: int, m: MobileLocationComponent) -> WorldView {
        WorldView {
            next_entity_id: self.next_entity_id,
            entities: self.entities,
            players: self.players,
            bullets: self.bullets,
            mobiles: self.mobiles.update(j, m),
        }
    }

    /// The tables with player row `i` replaced by `p`.
    pub open spec fn with_player(self, i: int, p: PlayerComponent) -> WorldView {
        WorldView {
            next_entity_id: self.next_entity_id,
            entities: self.entities,
            players: self.players.update(i, p),
            bullets: self.bullets,
            mobiles: self.mobiles,
        }
    }

    /// Rewriting a location row under the same entity id keeps the tables consistent.
    pub proof fn lemma_with_mobile_wf(self, j: int, m: MobileLocationComponent)
        requires
            self.wf(),
            0 <= j < self.mobiles.len(),
            m.entity_id == self.mobiles[j].entity_id,
        ensures
            self.with_mobile(j, m).wf(),
    {
        let w = self.with_mobile(j, m);
        assert(mobile_ids(w.mobiles) =~= mobile_ids(self.mobiles));
        assert forall|id: u64| #[trigger] self.has_mobile(id) implies w.has_mobile(id) by {
            let k = choose|k: int| 0 <= k < self.mobiles.len() && (#[trigger] self.mobiles[k]).entity_id == id;
            assert(w.mobiles[k].entity_id == id);
        }
        assert forall|i: int| 0 <= i < w.mobiles.len() implies w.is_entity(
            #[trigger] w.mobiles[i].entity_id,
        ) by {
            assert(w.mobiles[i].entity_id == self.mobiles[i].entity_id);
            assert(self.is_entity(self.mobiles[i].entity_id));
            let k = choose|k: int| 0 <= k < self.entities.len() && (#[trigger] self.entities[k]).entity_id == self.mobiles[i].entity_id;
            assert(w.entities[k] == self.entities[k]);
        }
        assert forall|i: int| 0 <= i < w.players.len() implies w.has_mobile(
            #[trigger] w.players[i].entity_id,
        ) by {
            assert(self.has_mobile(self.players[i].entity_id));
        }
        assert forall|i: int| 0 <= i < w.bullets.len() implies w.has_mobile(
            #[trigger] w.bullets[i].entity_id,
        ) by {
            assert(self.has_mobile(self.bullets[i].entity_id));
        }
    }

    /// Rewriting a player row under the same entity id and owner keeps the
    /// tables consistent.
    pub proof fn lemma_with_player_wf(self, i: int, p: PlayerComponent)
        requires
            self.wf(),
            0 <= i < self.players.len(),
            p.entity_id == self.players[i].entity_id,
            p.owner_id == self.players[i].owner_id,
        ensures
            self.with_player(i, p).wf(),
    {
        let w = self.with_player(i, p);
        assert(player_ids(w.players) =~= player_ids(self.players));
        assert(w.entities == self.entities && w.mobiles == self.mobiles);
        assert forall|x: u64| #[trigger] w.is_entity(x) == self.is_entity(x) && w.has_mobile(x)
            == self.has_mobile(x) by {}
        assert forall|a: int| 0 <= a < w.players.len() implies w.is_entity(
            #[trigger] w.players[a].entity_id,
        ) && w.has_mobile(w.players[a].entity_id) by {
            assert(w.players[a].entity_id == self.players[a].entity_id);
            assert(self.is_entity(self.players[a].entity_id));
            assert(self.has_mobile(self.players[a].entity_id));
            let k = choose|k: int| 0 <= k < self.entities.len() && (#[trigger] self.entities[k]).entity_id == self.players[a].entity_id;
            assert(w.entities[k] == self.entities[k]);
            let m = choose|k: int| 0 <= k < self.mobiles.len() && (#[trigger] self.mobiles[k]).entity_id == self.players[a].entity_id;
            assert(w.mobiles[m] == self.mobiles[m]);
        }
        assert forall|a: int, b: int|
            0 <= a < w.players.len() && 0 <= b < w.players.len()
                && #[trigger] w.players[a].owner_id == #[trigger] w.players[b].owner_id
            implies a == b by {
            assert(self.players[a].owner_id == w.players[a].owner_id);
            assert(self.players[b].owner_id == w.players[b].owner_id);
        }
    }
}

impl WorldView {
    /// What creating the player of `who` yields: the error `AlreadyExists`
    /// with the tables unchanged when `who` has a player, else success and
    /// the tables with the new player.
    pub open spec fn create_player_outcome(self, who: Identity, username: String) -> (
        WorldView,
        Result<(), ReducerError>,
    ) {
        if self.has_player(who) {
            (self, Err(ReducerError::AlreadyExists))
        } else {
            (self.with_new_player(who, username), Ok(()))
        }
    }

    /// Player row `i` is the only one owned by `who`, and its entity has
    /// exactly one entity row and one location row, the last of each table.
    pub open spec fn sole_player(self, who: Identity, i: int) -> bool {
        &&& 0 <= i < self.players.len()
        &&& self.players[i].owner_id == who
        &&& forall|k: int| 0 <= k < self.players.len() && self.players[k].owner_id == who ==> k == i
        &&& forall|k: int| 0 <= k < self.entities.len()
            ==> (self.entities[k].entity_id == self.players[i].entity_id <==> k == self.entities.len() - 1)
        &&& forall|k: int| 0 <= k < self.mobiles.len()
            ==> (self.mobiles[k].entity_id == self.players[i].entity_id <==> k == self.mobiles.len() - 1)
    }

    /// The tables after `n` ticks.
    pub open spec fn after_ticks(self, n: nat) -> WorldView
        decreases n,
    {
        if n == 0 {
            self
        } else {
            self.after_ticks((n - 1) as nat).after_tick()
        }
    }
}

/// Ticks that a new bullet lives.
pub const BULLET_LIFETIME: u32 = 32;

/// Distance a bullet covers per tick, in units of its direction vector.
pub const BULLET_SPEED: i32 = 50;

/// Some row of `s` belongs to entity `id`.
pub open spec fn contains_bullet(s: Seq<BulletComponent>, id: u64) -> bool {
    exists|k: int| 0 <= k < s.len() && (#[trigger] s[k]).entity_id == id
}

/// The bullet rows after one tick: each lifetime drops by one, and a bullet
/// whose lifetime reaches zero is gone. Order is kept.
pub open spec fn surviving(s: Seq<BulletComponent>) -> Seq<BulletComponent>
    decreases s.len(),
{
    if s.len() == 0 {
        Seq::empty()
    } else {
        let rest = surviving(s.drop_last());
        let b = s.last();
        if b.lifetime > 1 {
            rest.push(BulletComponent { entity_id: b.entity_id, lifetime: (b.lifetime - 1) as u32 })
        } else {
            rest
        }
    }
}

/// A location row moved one tick along its direction.
pub open spec fn stepped(m: MobileLocationComponent) -> MobileLocationComponent {
    MobileLocationComponent {
        entity_id: m.entity_id,
        location: m.location.spec_add(m.direction.spec_mul(BULLET_SPEED)),
        direction: m.direction,
        move_start_timestamp: m.move_start_timestamp,
    }
}

/// The location rows after one tick: those of the entities that have a row in
/// `bullets` are stepped, the others stay.
pub open spec fn stepped_mobiles(
    mobiles: Seq<MobileLocationComponent>,
    bullets: Seq<BulletComponent>,
) -> Seq<MobileLocationComponent> {
    Seq::new(
        mobiles.len(),
        |j: int|
            if contains_bullet(bullets, mobiles[j].entity_id) {
                stepped(mobiles[j])
            } else {
                mobiles[j]
            },
    )
}

/// Each row of `surviving(s)` comes from a row of `s` with a lifetime above
/// one, with the same id and one tick less.
pub proof fn lemma_surviving_from(s: Seq<BulletComponent>)
    ensures
        forall|k: int| 0 <= k < surviving(s).len() ==> exists|i: int|
            0 <= i < s.len() && (#[trigger] s[i]).entity_id == (#[trigger] surviving(s)[k]).entity_id
                && s[i].lifetime > 1 && surviving(s)[k].lifetime == s[i].lifetime - 1,
    decreases s.len(),
{
    if s.len() > 0 {
        let p = s.drop_last();
        lemma_surviving_from(p);
        let rest = surviving(p);
        let r = surviving(s);
        let n = s.len() - 1;
        assert forall|k: int| 0 <= k < r.len() implies exists|i: int|
            0 <= i < s.len() && (#[trigger] s[i]).entity_id == (#[trigger] r[k]).entity_id
                && s[i].lifetime > 1 && r[k].lifetime == s[i].lifetime - 1 by {
            if k < rest.len() {
                let i = choose|i: int|
                    0 <= i < p.len() && (#[trigger] p[i]).entity_id == (#[trigger] rest[k]).entity_id
                        && p[i].lifetime > 1 && rest[k].lifetime == p[i].lifetime - 1;
                assert(s[i] == p[i]);
                assert(r[k] == rest[k]);
            } else {
                assert(s[n].entity_id == r[k].entity_id);
            }
        }
    }
}

/// Each row of `s` with a lifetime above one is in `surviving(s)`, one tick
/// older.
pub proof fn lemma_surviving_keeps(s: Seq<BulletComponent>)
    ensures
        forall|i: int| 0 <= i < s.len() && (#[trigger] s[i]).lifetime > 1 ==> exists|k: int|
            0 <= k < surviving(s).len() && #[trigger] surviving(s)[k] == (BulletComponent {
                entity_id: s[i].entity_id,
                lifetime: (s[i].lifetime - 1) as u32,
            }),
    decreases s.len(),
{
    if s.len() > 0 {
        let p = s.drop_last();
        lemma_surviving_keeps(p);
        let rest = surviving(p);
        let r = surviving(s);
        let n = s.len() - 1;
        assert forall|i: int| 0 <= i < s.len() && (#[trigger] s[i]).lifetime > 1 implies exists|
            k: int,
        |
            0 <= k < r.len() && #[trigger] r[k] == (BulletComponent {
                entity_id: s[i].entity_id,
                lifetime: (s[i].lifetime - 1) as u32,
            }) by {
            if i < n {
                assert(p[i] == s[i]);
                let k = choose|k: int|
                    0 <= k < rest.len() && #[trigger] rest[k] == (BulletComponent {
                        entity_id: p[i].entity_id,
                        lifetime: (p[i].lifetime - 1) as u32,
                    });
                assert(r[k] == rest[k]);
            } else {
                assert(r[rest.len() as int] == (BulletComponent {
                    entity_id: s[i].entity_id,
                    lifetime: (s[i].lifetime - 1) as u32,
                }));
            }
        }
    }
}

/// `surviving` keeps the rows of an ordered table in order.
pub proof fn lemma_surviving_ordered(s: Seq<BulletComponent>, bound: u64)
    requires
        ids_ordered_below(bullet_ids(s), bound),
    ensures
        ids_ordered_below(bullet_ids(surviving(s)), bound),
    decreases s.len(),
{
    if s.len() > 0 {
        let p = s.drop_last();
        let rest = surviving(p);
        let r = surviving(s);
        let n = s.len() - 1;
        assert(bullet_ids(p) =~= bullet_ids(s).drop_last());
        lemma_surviving_ordered(p, bound);
        lemma_surviving_from(p);
        assert(bullet_ids(s)[n] == s[n].entity_id);
        if s.last().lifetime > 1 {
            assert(bullet_ids(r) =~= bullet_ids(rest).push(s[n].entity_id));
            assert(bullet_ids(r)[rest.len() as int] < bound);
            assert forall|a: int| 0 <= a < rest.len() implies bullet_ids(rest)[a]
                < s[n].entity_id by {
                let i = choose|i: int|
                    0 <= i < p.len() && (#[trigger] p[i]).entity_id == (#[trigger] rest[a]).entity_id
                        && p[i].lifetime > 1 && rest[a].lifetime == p[i].lifetime - 1;
                assert(bullet_ids(s)[i] < bullet_ids(s)[n]);
            }
        } else {
            assert(r == rest);
        }
    }
}

impl WorldView {
    /// The tables after one tick of the bullet simulation. Only the bullet
    /// rows and the location rows change.
    pub open spec fn after_tick(self) -> WorldView {
        WorldView {
            next_entity_id: self.next_entity_id,
            entities: self.entities,
            players: self.players,
            bullets: surviving(self.bullets),
            mobiles: stepped_mobiles(self.mobiles, self.bullets),
        }
    }

    /// A tick keeps the tables consistent.
    pub proof fn lemma_after_tick_wf(self)
        requires
            self.wf(),
        ensures
            self.after_tick().wf(),
    {
        let w = self.after_tick();
        lemma_surviving_from(self.bullets);
        lemma_surviving_ordered(self.bullets, self.next_entity_id);
        assert(mobile_ids(w.mobiles) =~= mobile_ids(self.mobiles));
        assert(w.entities == self.entities);
        assert forall|x: u64| #[trigger] w.is_entity(x) == self.is_entity(x) by {}
        assert forall|x: u64| #[trigger] self.has_mobile(x) implies w.has_mobile(x) by {
            let k = choose|k: int| 0 <= k < self.mobiles.len() && (#[trigger] self.mobiles[k]).entity_id == x;
            assert(w.mobiles[k].entity_id == x);
        }
        assert forall|i: int| 0 <= i < w.mobiles.len() implies w.is_entity(
            #[trigger] w.mobiles[i].entity_id,
        ) by {
            assert(w.mobiles[i].entity_id == self.mobiles[i].entity_id);
            assert(self.is_entity(self.mobiles[i].entity_id));
        }
        assert forall|i: int| 0 <= i < w.players.len() implies w.has_mobile(
            #[trigger] w.players[i].entity_id,
        ) by {
            assert(self.has_mobile(self.players[i].entity_id));
        }
        assert forall|k: int| 0 <= k < w.bullets.len() implies w.is_entity(
            #[trigger] w.bullets[k].entity_id,
        ) && w.has_mobile(w.bullets[k].entity_id) by {
            let i = choose|i: int|
                0 <= i < self.bullets.len() && (#[trigger] self.bullets[i]).entity_id == (#[trigger] w.bullets[k]).entity_id
                    && self.bullets[i].lifetime > 1 && w.bullets[k].lifetime == self.bullets[i].lifetime - 1;
            assert(self.is_entity(self.bullets[i].entity_id));
            assert(self.has_mobile(self.bullets[i].entity_id));
        }
    }
}

impl World {
    /// An empty world whose first entity id will be one.
    pub fn new() -> (w: World)
        ensures
            w@.wf(),
            w@.next_entity_id == 1,
            w@.entities.len() == 0,
            w@.players.len() == 0,
            w@.bullets.len() == 0,
            w@.mobiles.len() == 0,
    {
        World {
            next_entity_id: 1,
            entities: Vec::new(),
            players: Vec::new(),
            bullets: Vec::new(),
            mobiles: Vec::new(),
        }
    }

    /// The index of the player row owned by `who`, if there is one.
    pub fn find_player(&self, who: Identity) -> (r: Option<usize>)
        ensures
            match r {
                Some(i) => i < self.players.len() && self.players@[i as int].owner_id == who,
                None => !self@.has_player(who),
            },
    {
        let mut i: usize = 0;
        while i < self.players.len()
            invariant
                i <= self.players.len(),
                forall|k: int| 0 <= k < i ==> (#[trigger] self.players@[k]).owner_id != who,
            decreases self.players.len() - i,
        {
            if self.players[i].owner_id == who {
                return Some(i);
            }
            i = i + 1;
        }
        None
    }

    /// The index of the location row of entity `id`, if there is one.
    pub fn find_mobile(&self, id: u64) -> (r: Option<usize>)
        ensures
            match r {
                Some(j) => j < self.mobiles.len() && self.mobiles@[j as int].entity_id == id,
                None => !self@.has_mobile(id),
            },
    {
        let mut j: usize = 0;
        while j < self.mobiles.len()
            invariant
                j <= self.mobiles.len(),
                forall|k: int| 0 <= k < j ==> (#[trigger] self.mobiles@[k]).entity_id != id,
            decreases self.mobiles.len() - j,
        {
            if self.mobiles[j].entity_id == id {
                return Some(j);
            }
            j = j + 1;
        }
        None
    }

    /// Issues a fresh entity id and records the entity.
    pub fn allocate(&mut self) -> (id: u64)
        requires
            old(self)@.wf(),
            old(self).next_entity_id < u64::MAX,
        ensures
            final(self)@.wf(),
            forall|k: int| 0 <= k < old(self).entities@.len() ==> (#[trigger] old(self).entities@[k]).entity_id < id,
            id == old(self).next_entity_id,
            final(self).next_entity_id == id + 1,
            final(self).entities@ == old(self).entities@.push(SpawnableEntityComponent { entity_id: id }),
            final(self).players@ == old(self).players@,
            final(self).bullets@ == old(self).bullets@,
            final(self).mobiles@ == old(self).mobiles@,
    {
        let id = self.next_entity_id;
        proof {
            let pre = self@;
            let post = WorldView {
                next_entity_id: (id + 1) as u64,
                entities: pre.entities.push(SpawnableEntityComponent { entity_id: id }),
                ..pre
            };
            assert(entity_ids(post.entities) =~= entity_ids(pre.entities).push(id));
            lemma_push_next_id(entity_ids(pre.entities), id);
            assert forall|x: u64| #[trigger] pre.is_entity(x) implies post.is_entity(x) by {
                let k = choose|k: int| 0 <= k < pre.entities.len() && (#[trigger] pre.entities[k]).entity_id == x;
                assert(post.entities[k] == pre.entities[k]);
            }
            assert(post.mobiles == pre.mobiles);
            assert forall|x: u64| #[trigger] post.has_mobile(x) == pre.has_mobile(x) by {}
            assert(post.wf());
            assert forall|k: int| 0 <= k < pre.entities.len() implies (#[trigger] pre.entities[k]).entity_id < id by {
                assert(entity_ids(pre.entities)[k] == pre.entities[k].entity_id);
            }
        }
        self.entities.push(SpawnableEntityComponent { entity_id: id });
        self.next_entity_id = id + 1;
        id
    }
}

} // verus!
