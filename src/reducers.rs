use vstd::prelude::*;
use crate::components::{
    BulletComponent, Identity, MobileLocationComponent, PlayerComponent, ReducerError,
    StdbVector2, Timestamp,
};
use crate::world::{
    bullet_ids, contains_bullet, mobile_ids, stepped_mobiles, surviving, zero_vector,
    World, WorldView, BULLET_LIFETIME, BULLET_SPEED,
};

verus! {

/// Creates the player of `sender`: a new entity, a logged-in player row with
/// `username`, and a location row at the origin, not moving. Fails with
/// `AlreadyExists`, changing nothing, when `sender` already has a player.
/// The allocator must have an id left to issue.
pub fn create_player(world: &mut World, sender: Identity, username: String) -> (r: Result<
    (),
    ReducerError,
>)
    requires
        old(world)@.wf(),
        old(world).next_entity_id < u64::MAX,
    ensures
        final(world)@.wf(),
        (final(world)@, r) == old(world)@.create_player_outcome(sender, username),
        old(world)@.has_player(sender) ==> r == Err::<(), ReducerError>(ReducerError::AlreadyExists)
            && final(world)@ == old(world)@,
        !old(world)@.has_player(sender) ==> r == Ok::<(), ReducerError>(())
            && final(world)@ == old(world)@.with_new_player(sender, username),
{
    if world.find_player(sender).is_some() {
        return Err(ReducerError::AlreadyExists);
    }
    proof {
        world@.lemma_new_player_wf(sender, username);
    }
    let entity_id = world.allocate();
    world.players.push(
        PlayerComponent { entity_id, owner_id: sender, username, logged_in: true },
    );
    world.mobiles.push(
        MobileLocationComponent {
            entity_id,
            location: StdbVector2::zero(),
            direction: StdbVector2::zero(),
            move_start_timestamp: Timestamp::unix_epoch(),
        },
    );
    Ok(())
}

/// Spawns a bullet: a new entity, a bullet row with the full lifetime, and a
/// location row at `location` heading along `direction`. The allocator must
/// have an id left to issue.
pub fn shoot_bullet(world: &mut World, location: StdbVector2, direction: StdbVector2) -> (r:
    Result<(), ReducerError>)
    requires
        old(world)@.wf(),
        old(world).next_entity_id < u64::MAX,
    ensures
        final(world)@.wf(),
        r == Ok::<(), ReducerError>(()),
        final(world)@ == old(world)@.with_new_bullet(location, direction),
{
    proof {
        world@.lemma_new_bullet_wf(location, direction);
    }
    let entity_id = world.allocate();
    world.bullets.push(BulletComponent { entity_id, lifetime: BULLET_LIFETIME });
    world.mobiles.push(
        MobileLocationComponent {
            entity_id,
            location,
            direction,
            move_start_timestamp: Timestamp::unix_epoch(),
        },
    );
    Ok(())
}

/// The location row of a player that starts moving from `start` along
/// `direction` at time `now`.
pub open spec fn moving(
    m: MobileLocationComponent,
    start: StdbVector2,
    direction: StdbVector2,
    now: Timestamp,
) -> MobileLocationComponent {
    MobileLocationComponent {
        entity_id: m.entity_id,
        location: start,
        direction,
        move_start_timestamp: now,
    }
}

/// The location row of a player that stands still at `location`.
pub open spec fn stopped(m: MobileLocationComponent, location: StdbVector2) -> MobileLocationComponent {
    MobileLocationComponent {
        entity_id: m.entity_id,
        location,
        direction: zero_vector(),
        move_start_timestamp: Timestamp::spec_unix_epoch(),
    }
}

/// Finds the player row of `who` and its location row.
fn locate_player(world: &World, who: Identity) -> (r: Option<usize>)
    requires
        world@.wf(),
    ensures
        match r {
            Some(j) => exists|i: int| world@.locates_player(who, i, j as int),
            None => !world@.has_player_location(who),
        },
{
    match world.find_player(who) {
        None => None,
        Some(i) => {
            let r = world.find_mobile(world.players[i].entity_id);
            proof {
                match r {
                    Some(j) => {
                        assert(world@.locates_player(who, i as int, j as int));
                    },
                    None => {
                        assert forall|a: int, b: int| !world@.locates_player(who, a, b) by {
                            if world@.locates_player(who, a, b) {
                                assert(world.players@[a].owner_id == world.players@[i as int].owner_id);
                                assert(world.mobiles@[b].entity_id == world.players@[i as int].entity_id);
                            }
                        }
                    },
                }
            }
            r
        },
    }
}

/// Records that the player of `sender` started moving from `start` along
/// `direction` at `now`. Fails with `MissingPlayer`, changing nothing, when
/// `sender` has no player or the player has no location row.
pub fn move_player(
    world: &mut World,
    sender: Identity,
    start: StdbVector2,
    direction: StdbVector2,
    now: Timestamp,
) -> (r: Result<(), ReducerError>)
    requires
        old(world)@.wf(),
    ensures
        final(world)@.wf(),
        !old(world)@.has_player(sender) ==> r == Err::<(), ReducerError>(
            ReducerError::MissingPlayer,
        ) && final(world)@ == old(world)@,
        !old(world)@.has_player_location(sender) ==> r == Err::<(), ReducerError>(
            ReducerError::MissingPlayer,
        ) && final(world)@ == old(world)@,
        old(world)@.has_player_location(sender) ==> r == Ok::<(), ReducerError>(()) && exists|
            i: int,
            j: int,
        |
            old(world)@.locates_player(sender, i, j) && final(world)@ == old(world)@.with_mobile(
                j,
                moving(old(world)@.mobiles[j], start, direction, now),
            ),
{
    match locate_player(world, sender) {
        None => Err(ReducerError::MissingPlayer),
        Some(j) => {
            let entity_id = world.mobiles[j].entity_id;
            let m = MobileLocationComponent {
                entity_id,
                location: start,
                direction,
                move_start_timestamp: now,
            };
            proof {
                world@.lemma_with_mobile_wf(j as int, m);
            }
            world.mobiles.set(j, m);
            Ok(())
        },
    }
}

/// Records that the player of `sender` stopped at `location`: the direction
/// becomes zero and the start time the epoch. Fails with `MissingPlayer`,
/// changing nothing, when `sender` has no player or the player has no
/// location row.
pub fn stop_player(world: &mut World, sender: Identity, location: StdbVector2) -> (r: Result<
    (),
    ReducerError,
>)
    requires
        old(world)@.wf(),
    ensures
        final(world)@.wf(),
        !old(world)@.has_player(sender) ==> r == Err::<(), ReducerError>(
            ReducerError::MissingPlayer,
        ) && final(world)@ == old(world)@,
        !old(world)@.has_player_location(sender) ==> r == Err::<(), ReducerError>(
            ReducerError::MissingPlayer,
        ) && final(world)@ == old(world)@,
        old(world)@.has_player_location(sender) ==> r == Ok::<(), ReducerError>(()) && exists|
            i: int,
            j: int,
        |
            old(world)@.locates_player(sender, i, j) && final(world)@ == old(world)@.with_mobile(
                j,
                stopped(old(world)@.mobiles[j], location),
            ),
{
    match locate_player(world, sender) {
        None => Err(ReducerError::MissingPlayer),
        Some(j) => {
            let entity_id = world.mobiles[j].entity_id;
            let m = MobileLocationComponent {
                entity_id,
                location,
                direction: StdbVector2::zero(),
                move_start_timestamp: Timestamp::unix_epoch(),
            };
            proof {
                world@.lemma_with_mobile_wf(j as int, m);
            }
            world.mobiles.set(j, m);
            Ok(())
        },
    }
}

/// The player row of `who` with its login flag set to `logged_in`.
pub open spec fn with_login(p: PlayerComponent, logged_in: bool) -> PlayerComponent {
    PlayerComponent {
        entity_id: p.entity_id,
        owner_id: p.owner_id,
        username: p.username,
        logged_in,
    }
}

/// Sets the login flag of the player of `sender`; does nothing when `sender`
/// has no player.
pub fn update_player_login_state(world: &mut World, sender: Identity, logged_in: bool)
    requires
        old(world)@.wf(),
    ensures
        final(world)@.wf(),
        !old(world)@.has_player(sender) ==> final(world)@ == old(world)@,
        old(world)@.has_player(sender) ==> exists|i: int|
            0 <= i < old(world)@.players.len() && old(world)@.players[i].owner_id == sender
                && final(world)@ == old(world)@.with_player(
                i,
                with_login(old(world)@.players[i], logged_in),
            ),
{
    if let Some(i) = world.find_player(sender) {
        let p = &world.players[i];
        let updated = PlayerComponent {
            entity_id: p.entity_id,
            owner_id: p.owner_id,
            username: p.username.clone(),
            logged_in,
        };
        proof {
            world@.lemma_with_player_wf(i as int, updated);
        }
        world.players.set(i, updated);
    }
}

/// A client connected: its player, if any, is marked logged in.
pub fn identity_connected(world: &mut World, sender: Identity)
    requires
        old(world)@.wf(),
    ensures
        final(world)@.wf(),
        !old(world)@.has_player(sender) ==> final(world)@ == old(world)@,
        old(world)@.has_player(sender) ==> exists|i: int|
            0 <= i < old(world)@.players.len() && old(world)@.players[i].owner_id == sender
                && final(world)@ == old(world)@.with_player(
                i,
                with_login(old(world)@.players[i], true),
            ),
{
    update_player_login_state(world, sender, true);
}

/// A client disconnected: its player, if any, is marked logged out.
pub fn identity_disconnected(world: &mut World, sender: Identity)
    requires
        old(world)@.wf(),
    ensures
        final(world)@.wf(),
        !old(world)@.has_player(sender) ==> final(world)@ == old(world)@,
        old(world)@.has_player(sender) ==> exists|i: int|
            0 <= i < old(world)@.players.len() && old(world)@.players[i].owner_id == sender
                && final(world)@ == old(world)@.with_player(
                i,
                with_login(old(world)@.players[i], false),
            ),
{
    update_player_login_state(world, sender, false);
}

/// One tick of the bullet simulation. Each bullet's location row, if it has
/// one, moves `BULLET_SPEED` times its direction; each bullet's lifetime drops
/// by one, and a bullet whose lifetime reaches zero loses its bullet row (its
/// entity and location rows stay). The time of the previous tick is not used.
pub fn move_bullets(world: &mut World, _prev_time: Timestamp) -> (r: Result<(), ReducerError>)
    requires
        old(world)@.wf(),
    ensures
        final(world)@.wf(),
        r == Ok::<(), ReducerError>(()),
        final(world)@ == old(world)@.after_tick(),
{
    let ghost pre: WorldView = world@;
    let n = world.bullets.len();
    let mut kept: Vec<BulletComponent> = Vec::new();
    let mut i: usize = 0;
    while i < n
        invariant
            pre.wf(),
            n == pre.bullets.len(),
            i <= n,
            world.next_entity_id == pre.next_entity_id,
            world.entities@ == pre.entities,
            world.players@ == pre.players,
            world.bullets@ == pre.bullets,
            kept@ == surviving(pre.bullets.subrange(0, i as int)),
            world.mobiles@ == stepped_mobiles(pre.mobiles, pre.bullets.subrange(0, i as int)),
        decreases n - i,
    {
        let bullet = world.bullets[i];
        let ghost done = pre.bullets.subrange(0, i as int);
        let ghost next = pre.bullets.subrange(0, i + 1);
        assert(next.drop_last() == done);
        assert forall|id: u64| #[trigger] contains_bullet(next, id) == (contains_bullet(done, id)
            || id == bullet.entity_id) by {
            if contains_bullet(next, id) && id != bullet.entity_id {
                let k = choose|k: int| 0 <= k < next.len() && (#[trigger] next[k]).entity_id == id;
                assert(done[k] == next[k]);
            }
            if id == bullet.entity_id {
                assert(next[i as int] == bullet);
            }
            if contains_bullet(done, id) {
                let k = choose|k: int| 0 <= k < done.len() && (#[trigger] done[k]).entity_id == id;
                assert(next[k] == done[k]);
            }
        }
        assert(!contains_bullet(done, bullet.entity_id)) by {
            if contains_bullet(done, bullet.entity_id) {
                let k = choose|k: int| 0 <= k < done.len() && (#[trigger] done[k]).entity_id == bullet.entity_id;
                assert(bullet_ids(pre.bullets)[k] < bullet_ids(pre.bullets)[i as int]);
            }
        }
        match world.find_mobile(bullet.entity_id) {
            Some(j) => {
                let m = world.mobiles[j];
                let moved = MobileLocationComponent {
                    entity_id: m.entity_id,
                    location: m.location.add(m.direction.mul(BULLET_SPEED)),
                    direction: m.direction,
                    move_start_timestamp: m.move_start_timestamp,
                };
                world.mobiles.set(j, moved);
                assert(world.mobiles@ =~= stepped_mobiles(pre.mobiles, next)) by {
                    assert forall|a: int| 0 <= a < pre.mobiles.len() && a != j implies pre.mobiles[a].entity_id
                        != bullet.entity_id by {
                        if a < j {
                            assert(mobile_ids(pre.mobiles)[a] < mobile_ids(pre.mobiles)[j as int]);
                        } else {
                            assert(mobile_ids(pre.mobiles)[j as int] < mobile_ids(pre.mobiles)[a]);
                        }
                    }
                }
            },
            None => {
                assert forall|a: int| 0 <= a < pre.mobiles.len() implies pre.mobiles[a].entity_id
                    != bullet.entity_id by {
                    assert(world@.mobiles[a].entity_id == pre.mobiles[a].entity_id);
                }
                assert(world.mobiles@ =~= stepped_mobiles(pre.mobiles, next));
            },
        }
        if bullet.lifetime > 1 {
            kept.push(BulletComponent { entity_id: bullet.entity_id, lifetime: bullet.lifetime - 1 });
        }
        i = i + 1;
    }
    assert(pre.bullets.subrange(0, n as int) == pre.bullets);
    proof {
        pre.lemma_after_tick_wf();
    }
    world.bullets = kept;
    Ok(())
}

} // verus!
