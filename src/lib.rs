//! Authoritative world state for a small multiplayer top-down shooter: an
//! entity allocator, four component tables keyed by entity id, and the
//! operations (reducers) that change them, each one atomic.
pub mod components;
pub mod laws;
pub mod reducers;
pub mod world;

pub use components::{
    BulletComponent, Identity, MobileLocationComponent, PlayerComponent, ReducerError,
    SpawnableEntityComponent, StdbVector2, Timestamp,
};
pub use reducers::{
    create_player, identity_connected, identity_disconnected, move_bullets, move_player,
    shoot_bullet, stop_player, update_player_login_state,
};
pub use world::{World, WorldView, BULLET_LIFETIME, BULLET_SPEED};
