use vstd::prelude::*;

verus! {

/// Largest and smallest coordinate value; vector arithmetic saturates at these.
pub open spec fn clamp_i32(v: int) -> i32 {
    if v > i32::MAX as int {
        i32::MAX
    } else if v < i32::MIN as int {
        i32::MIN
    } else {
        v as i32
    }
}

proof fn lemma_i32_product_fits(a: i32, b: i32)
    ensures
        i64::MIN <= a * b <= i64::MAX,
{
    assert(-0x4000_0000_0000_0000 <= a * b <= 0x4000_0000_0000_0000) by (nonlinear_arith)
        requires
            -0x8000_0000 <= a <= 0x7fff_ffff,
            -0x8000_0000 <= b <= 0x7fff_ffff,
    ;
}

fn saturate(v: i64) -> (r: i32)
    ensures
        r == clamp_i32(v as int),
{
    if v > i32::MAX as i64 {
        i32::MAX
    } else if v < i32::MIN as i64 {
        i32::MIN
    } else {
        v as i32
    }
}

/// A 2D position or direction on the ground plane (x and z), in fixed-point
/// units chosen by the caller. Location and direction share one unit, so a
/// step `location + direction * k` stays in that unit.
#[derive(Clone, Copy, Debug, PartialEq, Eq, Structural)]
pub struct StdbVector2 {
    pub x: i32,
    pub z: i32,
}

impl StdbVector2 {
    /// The zero vector: no offset, or no movement.
    pub fn zero() -> (r: StdbVector2)
        ensures
            r.x == 0 && r.z == 0,
    {
        StdbVector2 { x: 0, z: 0 }
    }

    pub open spec fn spec_add(self, rhs: StdbVector2) -> StdbVector2 {
        StdbVector2 {
            x: clamp_i32(self.x + rhs.x),
            z: clamp_i32(self.z + rhs.z),
        }
    }

    pub open spec fn spec_mul(self, k: i32) -> StdbVector2 {
        StdbVector2 { x: clamp_i32(self.x * k), z: clamp_i32(self.z * k) }
    }

    /// Component-wise sum, saturating at the bounds of `i32`.
    pub fn add(self, rhs: StdbVector2) -> (r: StdbVector2)
        ensures
            r == self.spec_add(rhs),
    {
        let x = saturate(self.x as i64 + rhs.x as i64);
        let z = saturate(self.z as i64 + rhs.z as i64);
        StdbVector2 { x, z }
    }

    /// Scaling by `k`, saturating at the bounds of `i32`.
    pub fn mul(self, k: i32) -> (r: StdbVector2)
        ensures
            r == self.spec_mul(k),
    {
        proof {
            lemma_i32_product_fits(self.x, k);
            lemma_i32_product_fits(self.z, k);
        }
        let x = saturate(self.x as i64 * k as i64);
        let z = saturate(self.z as i64 * k as i64);
        StdbVector2 { x, z }
    }
}

/// The opaque token by which the transport layer identifies a client
/// (256 bits, as two halves).
#[derive(Clone, Copy, Debug, PartialEq, Eq, Structural)]
pub struct Identity {
    pub hi: u128,
    pub lo: u128,
}

/// A point in time, in microseconds since the Unix epoch. The epoch itself
/// marks an entity that is not moving.
#[derive(Clone, Copy, Debug, PartialEq, Eq, Structural)]
pub struct Timestamp {
    pub micros_since_epoch: u64,
}

impl Timestamp {
    pub open spec fn spec_unix_epoch() -> Timestamp {
        Timestamp { micros_since_epoch: 0 }
    }

    /// The "not moving" sentinel.
    pub fn unix_epoch() -> (r: Timestamp)
        ensures
            r == Timestamp::spec_unix_epoch(),
    {
        Timestamp { micros_since_epoch: 0 }
    }
}

/// Every entity that exists in the world has one row here.
#[derive(Clone, Copy, Debug, PartialEq, Eq, Structural)]
pub struct SpawnableEntityComponent {
    pub entity_id: u64,
}

/// Ties an entity to the client that owns it.
#[derive(Clone, Debug)]
pub struct PlayerComponent {
    pub entity_id: u64,
    pub owner_id: Identity,
    pub username: String,
    pub logged_in: bool,
}

/// A projectile and the number of ticks it has left.
#[derive(Clone, Copy, Debug, PartialEq, Eq, Structural)]
pub struct BulletComponent {
    pub entity_id: u64,
    pub lifetime: u32,
}

/// Last known position and movement of an entity. For players the current
/// position is extrapolated from `move_start_timestamp`; bullets are stepped
/// once per tick and keep the epoch there.
#[derive(Clone, Copy, Debug, PartialEq, Eq, Structural)]
pub struct MobileLocationComponent {
    pub entity_id: u64,
    pub location: StdbVector2,
    pub direction: StdbVector2,
    pub move_start_timestamp: Timestamp,
}

/// The errors a reducer reports to its caller; the tables are then unchanged.
#[derive(Clone, Copy, Debug, PartialEq, Eq, Structural)]
pub enum ReducerError {
    AlreadyExists,
    MissingPlayer,
}

impl ReducerError {
    /// A message for the caller.
    pub fn message(&self) -> (r: String)
        ensures
            *self == ReducerError::AlreadyExists ==> r@ == "Player already exists"@,
            *self == ReducerError::MissingPlayer ==> r@ == "Player not found"@,
    {
        match self {
            ReducerError::AlreadyExists => String::from_str("Player already exists"),
            ReducerError::MissingPlayer => String::from_str("Player not found"),
        }
    }
}

} // verus!
