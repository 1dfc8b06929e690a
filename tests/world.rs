use shooter_server::{
    create_player, identity_connected, identity_disconnected, move_bullets, move_player,
    shoot_bullet, stop_player, update_player_login_state, BulletComponent, Identity,
    ReducerError, StdbVector2, Timestamp, World, BULLET_LIFETIME,
};

fn who(n: u128) -> Identity {
    Identity { hi: 0, lo: n }
}

fn v(x: i32, z: i32) -> StdbVector2 {
    StdbVector2 { x, z }
}

fn tick(w: &mut World) {
    assert_eq!(move_bullets(w, Timestamp { micros_since_epoch: 0 }), Ok(()));
}

#[test]
fn create_player_twice_yields_already_exists() {
    let mut w = World::new();
    assert_eq!(create_player(&mut w, who(7), "ann".to_string()), Ok(()));
    assert_eq!(
        create_player(&mut w, who(7), "bob".to_string()),
        Err(ReducerError::AlreadyExists)
    );
    assert_eq!(w.players.len(), 1);
    assert_eq!(w.entities.len(), 1);
    assert_eq!(w.mobiles.len(), 1);
    let p = &w.players[0];
    assert_eq!(p.owner_id, who(7));
    assert_eq!(p.username, "ann");
    assert!(p.logged_in);
    let m = w.mobiles[0];
    assert_eq!(m.entity_id, p.entity_id);
    assert_eq!(m.location, v(0, 0));
    assert_eq!(m.direction, v(0, 0));
    assert_eq!(m.move_start_timestamp, Timestamp::unix_epoch());
    assert_eq!(w.entities[0].entity_id, p.entity_id);
}

#[test]
fn first_entity_id_is_one() {
    let mut w = World::new();
    assert_eq!(w.allocate(), 1);
    assert_eq!(w.allocate(), 2);
    assert_eq!(w.next_entity_id, 3);
}

#[test]
fn bullet_steps_fifty_per_tick() {
    let mut w = World::new();
    assert_eq!(shoot_bullet(&mut w, v(10, 0), v(1, 0)), Ok(()));
    tick(&mut w);
    assert_eq!(w.mobiles[0].location, v(60, 0));
    assert_eq!(w.mobiles[0].direction, v(1, 0));
    assert_eq!(w.bullets, vec![BulletComponent { entity_id: 1, lifetime: 31 }]);
}

#[test]
fn bullet_lives_exactly_thirty_two_ticks() {
    let mut w = World::new();
    assert_eq!(BULLET_LIFETIME, 32);
    shoot_bullet(&mut w, v(0, 0), v(0, 1)).unwrap();
    assert_eq!(w.bullets[0].lifetime, 32);
    for _ in 0..31 {
        tick(&mut w);
    }
    assert_eq!(w.bullets, vec![BulletComponent { entity_id: 1, lifetime: 1 }]);
    assert_eq!(w.mobiles[0].location, v(0, 31 * 50));
    tick(&mut w);
    assert!(w.bullets.is_empty());
    assert_eq!(w.mobiles[0].location, v(0, 32 * 50));
    tick(&mut w);
    assert!(w.bullets.is_empty());
    // the expired bullet's entity and location rows are kept
    assert_eq!(w.entities.len(), 1);
    assert_eq!(w.mobiles.len(), 1);
    assert_eq!(w.mobiles[0].location, v(0, 32 * 50));
}

#[test]
fn tick_moves_only_bullets() {
    let mut w = World::new();
    create_player(&mut w, who(1), "p".to_string()).unwrap();
    move_player(&mut w, who(1), v(5, 5), v(1, 1), Timestamp { micros_since_epoch: 9 }).unwrap();
    shoot_bullet(&mut w, v(-3, 4), v(2, -1)).unwrap();
    tick(&mut w);
    assert_eq!(w.mobiles[0].location, v(5, 5));
    assert_eq!(w.mobiles[1].location, v(97, -46));
}

#[test]
fn bullet_position_saturates() {
    let mut w = World::new();
    shoot_bullet(&mut w, v(i32::MAX - 10, i32::MIN + 10), v(1, -1)).unwrap();
    tick(&mut w);
    assert_eq!(w.mobiles[0].location, v(i32::MAX, i32::MIN));
}

#[test]
fn vector_arithmetic() {
    assert_eq!(v(1, 2).add(v(3, -7)), v(4, -5));
    assert_eq!(v(3, -2).mul(50), v(150, -100));
    assert_eq!(v(i32::MAX, 0).mul(2), v(i32::MAX, 0));
    assert_eq!(v(i32::MIN, 1).add(v(-1, 1)), v(i32::MIN, 2));
    assert_eq!(StdbVector2::zero(), v(0, 0));
}

#[test]
fn stop_player_zeroes_direction() {
    let mut w = World::new();
    create_player(&mut w, who(3), "c".to_string()).unwrap();
    move_player(&mut w, who(3), v(1, 2), v(4, 5), Timestamp { micros_since_epoch: 77 }).unwrap();
    assert_eq!(w.mobiles[0].direction, v(4, 5));
    assert_eq!(w.mobiles[0].move_start_timestamp, Timestamp { micros_since_epoch: 77 });
    assert_eq!(stop_player(&mut w, who(3), v(8, 9)), Ok(()));
    assert_eq!(w.mobiles[0].location, v(8, 9));
    assert_eq!(w.mobiles[0].direction, v(0, 0));
    assert_eq!(w.mobiles[0].move_start_timestamp, Timestamp { micros_since_epoch: 0 });
    assert_eq!(stop_player(&mut w, who(3), v(8, 9)), Ok(()));
    assert_eq!(w.mobiles[0].direction, v(0, 0));
}

#[test]
fn move_player_sets_start_direction_and_time() {
    let mut w = World::new();
    create_player(&mut w, who(1), "a".to_string()).unwrap();
    create_player(&mut w, who(2), "b".to_string()).unwrap();
    let now = Timestamp { micros_since_epoch: 1_000_000 };
    assert_eq!(move_player(&mut w, who(2), v(3, 4), v(0, -1), now), Ok(()));
    assert_eq!(w.mobiles[1].entity_id, 2);
    assert_eq!(w.mobiles[1].location, v(3, 4));
    assert_eq!(w.mobiles[1].direction, v(0, -1));
    assert_eq!(w.mobiles[1].move_start_timestamp, now);
    assert_eq!(w.mobiles[0].location, v(0, 0));
    assert_eq!(w.mobiles[0].direction, v(0, 0));
}

#[test]
fn disconnect_without_player_changes_nothing() {
    let mut w = World::new();
    create_player(&mut w, who(1), "a".to_string()).unwrap();
    identity_disconnected(&mut w, who(2));
    assert_eq!(w.players.len(), 1);
    assert!(w.players[0].logged_in);
    assert_eq!(w.entities.len(), 1);
    assert_eq!(w.mobiles.len(), 1);
    assert_eq!(w.next_entity_id, 2);
}

#[test]
fn connect_and_disconnect_toggle_login() {
    let mut w = World::new();
    create_player(&mut w, who(4), "d".to_string()).unwrap();
    identity_disconnected(&mut w, who(4));
    assert!(!w.players[0].logged_in);
    assert_eq!(w.players[0].username, "d");
    identity_connected(&mut w, who(4));
    assert!(w.players[0].logged_in);
    update_player_login_state(&mut w, who(4), false);
    assert!(!w.players[0].logged_in);
    identity_connected(&mut w, who(5));
    assert_eq!(w.players.len(), 1);
}

#[test]
fn movement_without_player_is_missing_player() {
    let mut w = World::new();
    shoot_bullet(&mut w, v(1, 1), v(1, 1)).unwrap();
    let before = w.mobiles.clone();
    assert_eq!(
        move_player(&mut w, who(9), v(0, 0), v(1, 0), Timestamp { micros_since_epoch: 5 }),
        Err(ReducerError::MissingPlayer)
    );
    assert_eq!(stop_player(&mut w, who(9), v(0, 0)), Err(ReducerError::MissingPlayer));
    assert_eq!(w.mobiles, before);
    assert!(w.players.is_empty());
    assert_eq!(w.bullets.len(), 1);
    assert_eq!(w.entities.len(), 1);
}

#[test]
fn entity_ids_increase_across_operations() {
    let mut w = World::new();
    shoot_bullet(&mut w, v(0, 0), v(1, 0)).unwrap();
    create_player(&mut w, who(1), "a".to_string()).unwrap();
    shoot_bullet(&mut w, v(0, 0), v(1, 0)).unwrap();
    assert!(create_player(&mut w, who(1), "again".to_string()).is_err());
    create_player(&mut w, who(2), "b".to_string()).unwrap();
    tick(&mut w);
    shoot_bullet(&mut w, v(0, 0), v(1, 0)).unwrap();
    let ids: Vec<u64> = w.entities.iter().map(|e| e.entity_id).collect();
    assert_eq!(ids, vec![1, 2, 3, 4, 5]);
    assert_eq!(w.players[0].entity_id, 2);
    assert_eq!(w.players[1].entity_id, 4);
    let bullet_ids: Vec<u64> = w.bullets.iter().map(|b| b.entity_id).collect();
    assert_eq!(bullet_ids, vec![1, 3, 5]);
}

#[test]
fn error_messages() {
    assert_eq!(ReducerError::AlreadyExists.message(), "Player already exists");
    assert_eq!(ReducerError::MissingPlayer.message(), "Player not found");
}
