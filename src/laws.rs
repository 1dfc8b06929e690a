use vstd::prelude::*;
use crate::components::{
    BulletComponent, Identity, ReducerError, SpawnableEntityComponent, StdbVector2,
};
use crate::world::{
    bullet_ids, contains_bullet, entity_ids, lemma_surviving_from, lemma_surviving_keeps,
    mobile_ids, surviving, WorldView, BULLET_LIFETIME,
};

verus! {

/// Creating the player of an identity twice in a row succeeds the first time
/// and fails with `AlreadyExists` the second time, leaving the tables as the
/// first call left them: one player row for the identity, and one entity row
/// and one location row for its entity.
pub proof fn lemma_create_player_twice(
    w: WorldView,
    who: Identity,
    first_name: String,
    second_name: String,
)
    requires
        w.wf(),
        !w.has_player(who),
        w.next_entity_id < u64::MAX,
    ensures
        ({
            let (w1, r1) = w.create_player_outcome(who, first_name);
            let (w2, r2) = w1.create_player_outcome(who, second_name);
            &&& r1 == Ok::<(), ReducerError>(())
            &&& r2 == Err::<(), ReducerError>(ReducerError::AlreadyExists)
            &&& w2 == w1
            &&& w2.wf()
            &&& exists|i: int| w2.sole_player(who, i)
        }),
{
    w.lemma_new_player_wf(who, first_name);
    let w1 = w.with_new_player(who, first_name);
    let i = w.players.len() as int;
    let id = w.next_entity_id;
    assert(w1.players[i].owner_id == who);
    assert(w1.has_player(who));
    assert forall|k: int| 0 <= k < w1.players.len() && w1.players[k].owner_id == who implies k
        == i by {
        if k < i {
            assert(w.players[k].owner_id == who);
        }
    }
    assert forall|k: int| 0 <= k < w1.entities.len() implies (w1.entities[k].entity_id == id
        <==> k == w1.entities.len() - 1) by {
        if k < w.entities.len() {
            assert(entity_ids(w.entities)[k] < id);
        }
    }
    assert forall|k: int| 0 <= k < w1.mobiles.len() implies (w1.mobiles[k].entity_id == id
        <==> k == w1.mobiles.len() - 1) by {
        if k < w.mobiles.len() {
            assert(mobile_ids(w.mobiles)[k] < id);
        }
    }
    assert(w1.players[i].entity_id == id);
    assert(w.create_player_outcome(who, first_name) == (w1, Ok::<(), ReducerError>(())));
    assert(w1.create_player_outcome(who, second_name) == (
        w1,
        Err::<(), ReducerError>(ReducerError::AlreadyExists),
    ));
    assert(w1.sole_player(who, i));
}

/// Any number of ticks keeps the tables consistent.
pub proof fn lemma_after_ticks_wf(w: WorldView, n: nat)
    requires
        w.wf(),
    ensures
        w.after_ticks(n).wf(),
    decreases n,
{
    if n > 0 {
        lemma_after_ticks_wf(w, (n - 1) as nat);
        w.after_ticks((n - 1) as nat).lemma_after_tick_wf();
    }
}

/// A bullet with lifetime `l` is in the bullet table after each of the first
/// `l - 1` ticks, its lifetime then `l - n` after `n` ticks, and is gone
/// from it after tick `l` and every later one.
pub proof fn lemma_bullet_lifetime(w: WorldView, k: int, n: nat)
    requires
        w.wf(),
        0 <= k < w.bullets.len(),
        w.bullets[k].lifetime > 0,
    ensures
        n < w.bullets[k].lifetime ==> exists|j: int|
            0 <= j < w.after_ticks(n).bullets.len() && #[trigger] w.after_ticks(n).bullets[j] == (
            BulletComponent {
                entity_id: w.bullets[k].entity_id,
                lifetime: (w.bullets[k].lifetime - n) as u32,
            }),
        n >= w.bullets[k].lifetime ==> !contains_bullet(
            w.after_ticks(n).bullets,
            w.bullets[k].entity_id,
        ),
    decreases n,
{
    let b = w.bullets[k];
    if n == 0 {
        assert(w.after_ticks(0) == w);
        assert(w.after_ticks(n).bullets[k] == b);
    } else {
        let m = (n - 1) as nat;
        lemma_bullet_lifetime(w, k, m);
        lemma_after_ticks_wf(w, m);
        let v = w.after_ticks(m);
        assert(w.after_ticks(n) == v.after_tick());
        lemma_surviving_keeps(v.bullets);
        lemma_surviving_from(v.bullets);
        if n < b.lifetime {
            let j = choose|j: int|
                0 <= j < v.bullets.len() && #[trigger] v.bullets[j] == (BulletComponent {
                    entity_id: b.entity_id,
                    lifetime: (b.lifetime - m) as u32,
                });
            assert(v.bullets[j].lifetime > 1);
            let q = choose|q: int|
                0 <= q < surviving(v.bullets).len() && #[trigger] surviving(v.bullets)[q] == (
                BulletComponent {
                    entity_id: v.bullets[j].entity_id,
                    lifetime: (v.bullets[j].lifetime - 1) as u32,
                });
            assert(w.after_ticks(n).bullets[q] == (BulletComponent {
                entity_id: b.entity_id,
                lifetime: (b.lifetime - n) as u32,
            }));
        } else if contains_bullet(w.after_ticks(n).bullets, b.entity_id) {
            let r = surviving(v.bullets);
            let q = choose|q: int| 0 <= q < r.len() && (#[trigger] r[q]).entity_id == b.entity_id;
            let i = choose|i: int|
                0 <= i < v.bullets.len() && (#[trigger] v.bullets[i]).entity_id == (
                #[trigger] r[q]).entity_id && v.bullets[i].lifetime > 1 && r[q].lifetime
                    == v.bullets[i].lifetime - 1;
            if m < b.lifetime {
                let j = choose|j: int|
                    0 <= j < v.bullets.len() && #[trigger] v.bullets[j] == (BulletComponent {
                        entity_id: b.entity_id,
                        lifetime: (b.lifetime - m) as u32,
                    });
                if i < j {
                    assert(bullet_ids(v.bullets)[i] < bullet_ids(v.bullets)[j]);
                } else if j < i {
                    assert(bullet_ids(v.bullets)[j] < bullet_ids(v.bullets)[i]);
                }
            } else {
                assert(contains_bullet(v.bullets, b.entity_id));
            }
        }
    }
}

/// A bullet fresh from `shoot_bullet` is in the bullet table after each of
/// the first 31 ticks and gone after the 32nd.
pub proof fn lemma_new_bullet_lives_its_lifetime(
    w: WorldView,
    location: StdbVector2,
    direction: StdbVector2,
    n: nat,
)
    requires
        w.wf(),
        w.next_entity_id < u64::MAX,
    ensures
        ({
            let v = w.with_new_bullet(location, direction);
            &&& n < BULLET_LIFETIME ==> contains_bullet(v.after_ticks(n).bullets, w.next_entity_id)
            &&& n >= BULLET_LIFETIME ==> !contains_bullet(
                v.after_ticks(n).bullets,
                w.next_entity_id,
            )
        }),
{
    let v = w.with_new_bullet(location, direction);
    w.lemma_new_bullet_wf(location, direction);
    let k = w.bullets.len() as int;
    assert(v.bullets[k].entity_id == w.next_entity_id);
    lemma_bullet_lifetime(v, k, n);
    if n < BULLET_LIFETIME {
        let j = choose|j: int|
            0 <= j < v.after_ticks(n).bullets.len() && #[trigger] v.after_ticks(n).bullets[j] == (
            BulletComponent {
                entity_id: v.bullets[k].entity_id,
                lifetime: (v.bullets[k].lifetime - n) as u32,
            });
        assert(v.after_ticks(n).bullets[j].entity_id == w.next_entity_id);
    }
}

/// Entity ids are issued in strictly increasing order and never reused. The
/// entity table lists every id issued so far, in the order of issue, and only
/// the allocating operations (creating a player, shooting a bullet) add to
/// it, each appending the next id, which exceeds every earlier one. So across
/// any interleaving of operations the ids issued strictly increase.
pub proof fn lemma_issued_ids_increase(
    w: WorldView,
    who: Identity,
    username: String,
    location: StdbVector2,
    direction: StdbVector2,
)
    requires
        w.wf(),
        w.next_entity_id < u64::MAX,
    ensures
        forall|i: int, j: int|
            0 <= i < j < w.entities.len() ==> w.entities[i].entity_id < w.entities[j].entity_id,
        forall|i: int| 0 <= i < w.entities.len() ==> w.entities[i].entity_id < w.next_entity_id,
        !w.has_player(who) ==> ({
            let v = w.create_player_outcome(who, username).0;
            &&& v.wf()
            &&& v.entities == w.entities.push(
                SpawnableEntityComponent { entity_id: w.next_entity_id },
            )
            &&& v.next_entity_id == w.next_entity_id + 1
        }),
        ({
            let v = w.with_new_bullet(location, direction);
            &&& v.wf()
            &&& v.entities == w.entities.push(
                SpawnableEntityComponent { entity_id: w.next_entity_id },
            )
            &&& v.next_entity_id == w.next_entity_id + 1
        }),
{
    assert forall|i: int, j: int| 0 <= i < j < w.entities.len() implies w.entities[i].entity_id
        < w.entities[j].entity_id by {
        assert(entity_ids(w.entities)[i] < entity_ids(w.entities)[j]);
    }
    assert forall|i: int| 0 <= i < w.entities.len() implies w.entities[i].entity_id
        < w.next_entity_id by {
        assert(entity_ids(w.entities)[i] < w.next_entity_id);
    }
    if !w.has_player(who) {
        w.lemma_new_player_wf(who, username);
    }
    w.lemma_new_bullet_wf(location, direction);
}

} // verus!
