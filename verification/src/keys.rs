//! The attribute keys of each entity kind. Every entity owns one
//! [`crate::attribute::Attributes`] store indexed by its own closed
//! enumeration.

use vstd::prelude::*;

use crate::attribute::AttributeKey;

verus! {

/// The player's derived stats.
#[derive(Debug, Clone, Copy, PartialEq, Eq, Structural)]
pub enum PlayerAttribute {
    /// Maximum health, in whole hit points.
    MaxHealth,
    /// Walk speed, in pixels per second.
    Speed,
}

impl AttributeKey for PlayerAttribute {
    fn key_eq(&self, other: &Self) -> (r: bool) {
        *self == *other
    }
}

/// A bullet's derived stats.
#[derive(Debug, Clone, Copy, PartialEq, Eq, Structural)]
pub enum BulletAttribute {
    /// How many bounces a bullet survives before exploding.
    MaxBounces,
    /// Speed factor kept on each bounce.
    BounceSpeedPreservation,
    /// Power factor kept on each bounce.
    BouncePowerPreservation,
    /// Flight speed.
    Speed,
    /// Seconds before the bullet decays.
    Lifetime,
    /// Damage dealt on impact.
    Power,
}

impl AttributeKey for BulletAttribute {
    fn key_eq(&self, other: &Self) -> (r: bool) {
        *self == *other
    }
}

/// A gun's derived stats, including the stats it stamps onto the bullets it
/// fires.
#[derive(Debug, Clone, Copy, PartialEq, Eq, Structural)]
pub enum GunAttribute {
    /// Seconds between shots.
    Cooldown,
    /// Random angular spread per shot.
    Spread,
    /// Bullets per shot.
    BulletCount,
    /// Angular fan width for multishot.
    MultishotSpread,
    /// A stat handed to every spawned bullet.
    Bullets(BulletAttribute),
}

impl AttributeKey for GunAttribute {
    fn key_eq(&self, other: &Self) -> (r: bool) {
        *self == *other
    }
}

} // verus!
