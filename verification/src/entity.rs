//! Game objects: paddles (player, opponent, static goal posts) and the
//! puck.  All are circles with a position, a velocity and a radius; the
//! per-frame update rule is selected by the object's kind.

use crate::fx::{fxmul, iabs, SCALE};
use crate::vec2::{
    lemma_vlen, spec_add, spec_normalize_or, spec_scale, spec_zero, v2_in, Vec2, V2,
};
use vstd::prelude::*;

verus! {

/// Magnitude bound on stored positions and velocities; far beyond anything
/// the simulation reaches, and small enough that a frame's arithmetic
/// stays inside `i64`.
pub const LIM: i64 = 1_000_000_000_000;

/// A paddle's radius (40 units).
pub const PADDLE_RADIUS: i64 = 40_000;

/// The puck's radius (30 units).
pub const PUCK_RADIUS: i64 = 30_000;

/// A goal post's radius (20 units).
pub const POLE_RADIUS: i64 = 20_000;

/// The puck's speed cap (30 units per frame).
pub const MAX_PUCK_SPEED: i64 = 30_000;

/// The puck's velocity damping factor (0.99).
pub const DAMPING: i64 = 990;

/// Which update rule an object follows.  Goal posts are paddles whose
/// velocity stays zero.
#[derive(Clone, Copy, PartialEq, Eq, Structural, Debug)]
pub enum Kind {
    Paddle,
    Puck,
}

#[derive(Clone, Copy, PartialEq, Eq, Structural, Debug)]
pub struct Entity {
    pub position: Vec2,
    pub velocity: Vec2,
    pub radius: i64,
    pub kind: Kind,
}

/// Mathematical view of a game object.
#[verifier::ext_equal]
pub ghost struct EntityV {
    pub position: V2,
    pub velocity: V2,
    pub radius: int,
    pub kind: Kind,
}

impl View for Entity {
    type V = EntityV;

    open spec fn view(&self) -> EntityV {
        EntityV {
            position: self.position@,
            velocity: self.velocity@,
            radius: self.radius as int,
            kind: self.kind,
        }
    }
}

/// Position and velocity lie within `m`; the radius is positive and at
/// most `m`.
pub open spec fn entity_in(e: EntityV, m: int) -> bool {
    &&& v2_in(e.position, m)
    &&& v2_in(e.velocity, m)
    &&& 0 < e.radius <= m
}

/// A paddle's step: integrate the position, leave the velocity alone.
pub open spec fn paddle_update_spec(e: EntityV) -> EntityV {
    EntityV { position: spec_add(e.position, e.velocity), ..e }
}

/// The puck's velocity after its speed clamp: direction preserved,
/// magnitude capped at `MAX_PUCK_SPEED`.
pub open spec fn puck_clamped_velocity(v: V2) -> V2 {
    let speed = crate::vec2::vlen(v);
    let capped = if speed > MAX_PUCK_SPEED as int {
        MAX_PUCK_SPEED as int
    } else {
        speed
    };
    spec_scale(spec_normalize_or(v, spec_zero()), capped)
}

/// The puck's step: clamp the speed, integrate the position with the
/// clamped velocity, then damp the clamped velocity by `DAMPING` — in that
/// order.
pub open spec fn puck_update_spec(e: EntityV) -> EntityV {
    let v1 = puck_clamped_velocity(e.velocity);
    EntityV { position: spec_add(e.position, v1), velocity: spec_scale(v1, DAMPING as int), ..e }
}

/// The per-frame step of any object, selected by its kind.
pub open spec fn update_object_spec(e: EntityV) -> EntityV {
    match e.kind {
        Kind::Paddle => paddle_update_spec(e),
        Kind::Puck => puck_update_spec(e),
    }
}

/// A paddle at `position`, at rest.
#[allow(non_snake_case)]
pub fn newPaddle(position: Vec2) -> (r: Entity)
    ensures
        r@ == (EntityV {
            position: position@,
            velocity: spec_zero(),
            radius: PADDLE_RADIUS as int,
            kind: Kind::Paddle,
        }),
{
    Entity { position, velocity: Vec2::zero(), radius: PADDLE_RADIUS, kind: Kind::Paddle }
}

/// The puck at `position`, at rest.
#[allow(non_snake_case)]
pub fn newPuck(position: Vec2) -> (r: Entity)
    ensures
        r@ == (EntityV {
            position: position@,
            velocity: spec_zero(),
            radius: PUCK_RADIUS as int,
            kind: Kind::Puck,
        }),
{
    Entity { position, velocity: Vec2::zero(), radius: PUCK_RADIUS, kind: Kind::Puck }
}

/// A static goal post at `position`: a paddle that nothing ever drives.
/// Its velocity stays zero, so its per-frame update leaves it in place; it
/// matters only as a collision obstacle.
#[allow(non_snake_case)]
pub fn newPole(position: Vec2) -> (r: Entity)
    ensures
        r@ == (EntityV {
            position: position@,
            velocity: spec_zero(),
            radius: POLE_RADIUS as int,
            kind: Kind::Paddle,
        }),
{
    Entity { position, velocity: Vec2::zero(), radius: POLE_RADIUS, kind: Kind::Paddle }
}

/// Applies one frame's update rule to `e`.
pub fn update_object(e: &mut Entity)
    requires
        entity_in(old(e)@, LIM as int),
    ensures
        final(e)@ == update_object_spec(old(e)@),
        entity_in(final(e)@, 3 * LIM as int),
{
    match e.kind {
        Kind::Paddle => {
            e.position = e.position.add(e.velocity);
        },
        Kind::Puck => {
            let speed = e.velocity.length();
            let direction = e.velocity.normalizeOrZero();
            proof {
                lemma_vlen(e.velocity@);
                crate::fx::lemma_fxmul_bound(direction@.x, speed as int, SCALE as int);
                crate::fx::lemma_fxmul_bound(direction@.y, speed as int, SCALE as int);
                crate::fx::lemma_fxmul_bound(direction@.x, MAX_PUCK_SPEED as int, SCALE as int);
                crate::fx::lemma_fxmul_bound(direction@.y, MAX_PUCK_SPEED as int, SCALE as int);
            }
            let cap = if speed > MAX_PUCK_SPEED {
                MAX_PUCK_SPEED
            } else {
                speed
            };
            let v1 = direction.mul(cap);
            proof {
                assert(iabs(v1@.x) <= cap as int && iabs(v1@.y) <= cap as int) by {
                    vlen_scale_bound(direction@, cap as int);
                }
                crate::fx::lemma_fxmul_bound(v1@.x, DAMPING as int, iabs(v1@.x));
                crate::fx::lemma_fxmul_bound(v1@.y, DAMPING as int, iabs(v1@.y));
            }
            e.position = e.position.add(v1);
            e.velocity = v1.mul(DAMPING);
        },
    }
}

/// An object's update keeps it within three times the bound its inputs
/// respected: the position moves by at most the (possibly clamped)
/// velocity, and the velocity never grows.
pub proof fn lemma_update_object_bound(e: EntityV, m: int)
    requires
        entity_in(e, m),
        m >= MAX_PUCK_SPEED as int,
    ensures
        entity_in(update_object_spec(e), 3 * m),
{
    match e.kind {
        Kind::Paddle => {
        },
        Kind::Puck => {
            lemma_vlen(e.velocity);
            crate::vec2::lemma_normalize_or_zero_bound(e.velocity);
            let speed = crate::vec2::vlen(e.velocity);
            let capped = if speed > MAX_PUCK_SPEED as int {
                MAX_PUCK_SPEED as int
            } else {
                speed
            };
            let dir = spec_normalize_or(e.velocity, spec_zero());
            vlen_scale_bound(dir, capped);
            let v1 = puck_clamped_velocity(e.velocity);
            crate::fx::lemma_fxmul_bound(v1.x, DAMPING as int, iabs(v1.x));
            crate::fx::lemma_fxmul_bound(v1.y, DAMPING as int, iabs(v1.y));
            crate::fx::lemma_mul_le(DAMPING as int, SCALE as int, iabs(v1.x));
            crate::fx::lemma_mul_le(DAMPING as int, SCALE as int, iabs(v1.y));
        },
    }
}

/// Scaling a vector whose components are unit-bounded by a nonnegative
/// scalar keeps each component within that scalar.
pub proof fn vlen_scale_bound(d: V2, k: int)
    requires
        v2_in(d, SCALE as int),
        0 <= k,
    ensures
        iabs(fxmul(d.x, k)) <= k,
        iabs(fxmul(d.y, k)) <= k,
{
    crate::fx::lemma_fxmul_bound(d.x, k, SCALE as int);
    assert(iabs(fxmul(d.x, k)) <= k) by (nonlinear_arith)
        requires
            iabs(fxmul(d.x, k)) * (SCALE as int) <= (SCALE as int) * iabs(k),
            iabs(k) == k,
            SCALE as int >= 1,
    ;
    crate::fx::lemma_fxmul_bound(d.y, k, SCALE as int);
    assert(iabs(fxmul(d.y, k)) <= k) by (nonlinear_arith)
        requires
            iabs(fxmul(d.y, k)) * (SCALE as int) <= (SCALE as int) * iabs(k),
            iabs(k) == k,
            SCALE as int >= 1,
    ;
}

} // verus!
