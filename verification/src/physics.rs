//! Collision layers and the routing of contact events.
//!
//! Entities are carried by their `u64` bit form (`Entity::to_bits`).

use vstd::prelude::*;

verus! {

/// A collision layer number.
#[derive(Clone, Copy, Debug, PartialEq, Eq, Hash, Structural)]
pub struct CollisionLayer(pub u32);

impl CollisionLayer {
    /// The default layer (number 0).
    pub fn default_layer() -> (l: Self)
        ensures
            l == CollisionLayer(0),
    {
        CollisionLayer(0)
    }

    /// The player layer (number 1).
    pub fn player() -> (l: Self)
        ensures
            l == CollisionLayer(1),
    {
        CollisionLayer(1)
    }

    /// The enemy layer (number 2).
    pub fn enemy() -> (l: Self)
        ensures
            l == CollisionLayer(2),
    {
        CollisionLayer(2)
    }

    /// The terrain layer (number 3).
    pub fn terrain() -> (l: Self)
        ensures
            l == CollisionLayer(3),
    {
        CollisionLayer(3)
    }

    /// The trigger layer (number 4).
    pub fn trigger() -> (l: Self)
        ensures
            l == CollisionLayer(4),
    {
        CollisionLayer(4)
    }

    /// A layer with a custom number.
    pub fn custom(id: u32) -> (l: Self)
        ensures
            l == CollisionLayer(id),
    {
        CollisionLayer(id)
    }
}

/// Two solid bodies started touching.
#[derive(Clone, Copy, Debug, PartialEq, Eq, Structural)]
pub struct CollisionStarted {
    pub entity_a: u64,
    pub entity_b: u64,
}

/// Two solid bodies stopped touching.
#[derive(Clone, Copy, Debug, PartialEq, Eq, Structural)]
pub struct CollisionEnded {
    pub entity_a: u64,
    pub entity_b: u64,
}

/// An entity entered a sensor.
#[derive(Clone, Copy, Debug, PartialEq, Eq, Structural)]
pub struct TriggerEntered {
    pub trigger: u64,
    pub entity: u64,
}

/// An entity left a sensor.
#[derive(Clone, Copy, Debug, PartialEq, Eq, Structural)]
pub struct TriggerExited {
    pub trigger: u64,
    pub entity: u64,
}

/// How a raw contact between two entities is reported.
#[derive(Clone, Copy, Debug, PartialEq, Eq, Structural)]
pub enum ContactRoute {
    /// As a collision between two solid bodies, in the order received.
    Collision { entity_a: u64, entity_b: u64 },
    /// As a trigger event: the sensor and the entity that touched it.
    Trigger { trigger: u64, entity: u64 },
}

/// Routes a contact between `e1` and `e2`: if either is a sensor it is a
/// trigger event whose trigger is `e1` when `e1` is a sensor and `e2`
/// otherwise; else it is a collision `(e1, e2)`.
pub fn route_contact(e1: u64, e2: u64, is_sensor_a: bool, is_sensor_b: bool) -> (r: ContactRoute)
    ensures
        r == (if is_sensor_a {
            ContactRoute::Trigger { trigger: e1, entity: e2 }
        } else if is_sensor_b {
            ContactRoute::Trigger { trigger: e2, entity: e1 }
        } else {
            ContactRoute::Collision { entity_a: e1, entity_b: e2 }
        }),
{
    if is_sensor_a || is_sensor_b {
        let (trigger, entity) = if is_sensor_a { (e1, e2) } else { (e2, e1) };
        ContactRoute::Trigger { trigger, entity }
    } else {
        ContactRoute::Collision { entity_a: e1, entity_b: e2 }
    }
}

/// Whether `event` is a collision between `entity_a` and `entity_b`, in either order.
pub open spec fn spec_collision_between(entity_a: u64, entity_b: u64, event: CollisionStarted) -> bool {
    (event.entity_a == entity_a && event.entity_b == entity_b) || (event.entity_a == entity_b
        && event.entity_b == entity_a)
}

/// Whether `event` is a collision between `entity_a` and `entity_b`, in either order.
pub fn check_collision_between(entity_a: u64, entity_b: u64, event: &CollisionStarted) -> (r: bool)
    ensures
        r == spec_collision_between(entity_a, entity_b, *event),
{
    (event.entity_a == entity_a && event.entity_b == entity_b) || (event.entity_a == entity_b
        && event.entity_b == entity_a)
}

/// The other party of `event` if `entity` takes part in it (the second
/// entity when `entity` is the first).
pub fn entity_in_collision(entity: u64, event: &CollisionStarted) -> (r: Option<u64>)
    ensures
        r == (if event.entity_a == entity {
            Some(event.entity_b)
        } else if event.entity_b == entity {
            Some(event.entity_a)
        } else {
            None
        }),
{
    if event.entity_a == entity {
        Some(event.entity_b)
    } else if event.entity_b == entity {
        Some(event.entity_a)
    } else {
        None
    }
}

/// A collision between `a` and `b` is also one between `b` and `a`.
pub proof fn law_collision_symmetric(a: u64, b: u64, event: CollisionStarted)
    ensures
        spec_collision_between(a, b, event) == spec_collision_between(b, a, event),
{
}

/// The partner found for an entity is the one it collides with, and an
/// entity has a partner exactly when it takes part in the event.
pub proof fn law_partner_collides(entity: u64, event: CollisionStarted)
    ensures
        (event.entity_a == entity) ==> spec_collision_between(entity, event.entity_b, event),
        (event.entity_b == entity) ==> spec_collision_between(entity, event.entity_a, event),
        (event.entity_a != entity && event.entity_b != entity) ==> forall|other: u64|
            !spec_collision_between(entity, other, event),
{
}

} // verus!
