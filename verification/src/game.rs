//! The simulation aggregate and the per-frame rules: player control
//! smoothing, object updates, opponent AI, circle-circle and wall bounce,
//! goal detection, and the frame's commit of staged registry mutations.
//!
//! Entities live in one arena (`entities`); the player, opponent, puck,
//! obstacle list and registry all refer to them by index.

use crate::entity::{
    entity_in, newPaddle, newPole, newPuck, update_object, update_object_spec, Entity, EntityV,
    Kind, LIM,
};
use crate::fx::{fxmul, iabs, is_isqrt, isqrt, lemma_fxmul_bound, mul_fx, tdiv, SCALE};
use crate::pendinglist::{commit_spec, PendingList, PendingListV};
use crate::vec2::{
    lemma_vlen, spec_add, spec_dot, spec_normalize_or, spec_scale, spec_sub, spec_zero, v2_in,
    vlen, Vec2, FXMAX, V2,
};
use vstd::prelude::*;
use vstd::std_specs::cmp::PartialOrdSpec;

verus! {

broadcast use vstd::laws_eq::group_laws_eq;

/// Most obstacles the collision sweep accepts: bounds every frame's bounce
/// arithmetic inside `i64`.  The game itself uses six.
pub const MAX_OBSTACLES: usize = 7;

/// The player paddle's top approach speed (50 units per frame).
pub const MAX_PLAYER_SPEED: i64 = 50_000;

/// Restitution of every bounce (0.9).
pub const BOUNCINESS: i64 = 900;

/// Key code that requests a stop, as the input layer delivers it.
pub const ESCAPE_KEY: u32 = 27;

/// Velocity magnitude accepted by the bounce-impact computation.
pub const VELMAX: i64 = 0x0fff_ffff_ffff_ffff;

/// An input-layer event, reduced to plain values.
#[derive(Clone, Copy, PartialEq, Eq, Structural, Debug)]
pub enum Event {
    PointerMoved(i64, i64),
    QuitRequested,
    KeyPressed(u32),
    NoEvent,
}

pub struct Game {
    pub entities: Vec<Entity>,
    pub objects: PendingList<usize>,
    pub player: usize,
    #[allow(non_snake_case)]
    pub playerScore: u64,
    pub opponent: usize,
    #[allow(non_snake_case)]
    pub opponentScore: u64,
    pub puck: usize,
    pub paddles: Vec<usize>,
    pub field: Vec2,
    #[allow(non_snake_case)]
    pub goalSize: i64,
    pub mouse: Vec2,
}

/// Mathematical view of the whole simulation state.
#[allow(non_snake_case)]
#[verifier::ext_equal]
pub ghost struct GameV {
    pub entities: Seq<EntityV>,
    pub objects: PendingListV<usize>,
    pub player: usize,
    pub playerScore: int,
    pub opponent: usize,
    pub opponentScore: int,
    pub puck: usize,
    pub paddles: Seq<usize>,
    pub field: V2,
    pub goalSize: int,
    pub mouse: V2,
}

impl View for Game {
    type V = GameV;

    open spec fn view(&self) -> GameV {
        GameV {
            entities: self.entities@.map_values(|e: Entity| e@),
            objects: self.objects@,
            player: self.player,
            playerScore: self.playerScore as int,
            opponent: self.opponent,
            opponentScore: self.opponentScore as int,
            puck: self.puck,
            paddles: self.paddles@,
            field: self.field@,
            goalSize: self.goalSize as int,
            mouse: self.mouse@,
        }
    }
}

/// Structural well-formedness: the role handles and every registered or
/// obstacle handle point into the arena at an object of the right kind,
/// live handles are distinct, and the fixed quantities are in range.
pub open spec fn game_wf(g: GameV) -> bool {
    &&& (g.player as int) < g.entities.len()
    &&& (g.opponent as int) < g.entities.len()
    &&& (g.puck as int) < g.entities.len()
    &&& g.entities[g.player as int].kind == Kind::Paddle
    &&& g.entities[g.opponent as int].kind == Kind::Paddle
    &&& g.entities[g.puck as int].kind == Kind::Puck
    &&& g.paddles.len() <= MAX_OBSTACLES
    &&& forall|i: int|
        0 <= i < g.paddles.len() ==> ((#[trigger] g.paddles[i]) as int) < g.entities.len()
            && g.entities[g.paddles[i] as int].kind == Kind::Paddle
    &&& forall|i: int|
        0 <= i < g.objects.objects.len() ==> ((#[trigger] g.objects.objects[i]) as int)
            < g.entities.len()
    &&& forall|i: int, j: int|
        0 <= i < j < g.objects.objects.len() ==> g.objects.objects[i] != g.objects.objects[j]
    &&& 0 < g.goalSize <= LIM as int
    &&& v2_in(g.field, LIM as int)
    &&& g.field.x >= 0
    &&& g.field.y >= 0
    &&& v2_in(g.mouse, LIM as int)
}

/// Every arena entity's position, velocity and radius lie within `m`.
pub open spec fn game_in(g: GameV, m: int) -> bool {
    forall|i: int| 0 <= i < g.entities.len() ==> entity_in(#[trigger] g.entities[i], m)
}

/// `x` lies strictly between `a` and `b`.
pub open spec fn between_spec(x: int, a: int, b: int) -> bool {
    x > a && x < b
}

/// Distance between two points.
pub open spec fn spec_distance(a: V2, b: V2) -> int {
    vlen(spec_sub(a, b))
}

/// The y-coordinate of the field's horizontal midline.
pub open spec fn field_mid_y(g: GameV) -> int {
    fxmul(g.field.y, 500)
}

/// Half the goal opening.
pub open spec fn half_gap(g: GameV) -> int {
    fxmul(g.goalSize, 500)
}

/// `y` lies inside the goal-gap band centered on the field's vertical
/// midpoint.
pub open spec fn in_gap_band(g: GameV, y: int) -> bool {
    y > field_mid_y(g) - half_gap(g) && y < field_mid_y(g) + half_gap(g)
}

/// The bounce impulse of `getBounceImpact`: when the velocity approaches
/// the surface (negative impact), the surface direction scaled by the
/// impact and by `1 + bounciness`; otherwise nothing.
pub open spec fn bounce_impact_spec(surface: V2, velocity: V2, bounciness: int) -> V2 {
    let impact = spec_dot(surface, velocity);
    if impact < 0 {
        spec_scale(spec_scale(surface, impact), (SCALE as int) + bounciness)
    } else {
        spec_zero()
    }
}

/// The velocity `velocityTowards` selects: toward `destination` at
/// `speed`, or exactly the remaining distance when that is nearer.
pub open spec fn velocity_towards_spec(source: V2, destination: V2, speed: int) -> V2 {
    let diff = spec_sub(destination, source);
    let distance = vlen(diff);
    let direction = spec_normalize_or(diff, spec_zero());
    if distance < speed {
        spec_scale(direction, distance)
    } else {
        spec_scale(direction, speed)
    }
}

/// The player-control smoothing rule: the paddle's velocity becomes 0.3 of
/// itself plus 0.5 of the capped step toward the pointer target.
pub open spec fn controls_spec(g: GameV) -> GameV {
    let pl = g.entities[g.player as int];
    let diff = spec_sub(g.mouse, pl.position);
    let dist = vlen(diff);
    let step = if dist < MAX_PLAYER_SPEED as int {
        dist
    } else {
        MAX_PLAYER_SPEED as int
    };
    let v = spec_add(
        spec_scale(pl.velocity, 300),
        spec_scale(spec_scale(spec_normalize_or(diff, spec_zero()), step), 500),
    );
    GameV {
        entities: g.entities.update(g.player as int, EntityV { velocity: v, ..pl }),
        ..g
    }
}

/// A handle among the registry's live handles.
pub open spec fn live_contains(live: Seq<usize>, j: int) -> bool {
    exists|k: int| 0 <= k < live.len() && ((#[trigger] live[k]) as int) == j
}

/// The update pass: every registered object takes its per-kind step.
pub open spec fn update_all_spec(g: GameV) -> GameV {
    GameV {
        entities: Seq::new(
            g.entities.len(),
            |j: int|
                if live_contains(g.objects.objects, j) {
                    update_object_spec(g.entities[j])
                } else {
                    g.entities[j]
                },
        ),
        ..g
    }
}

/// The opponent's own goal: the far-side midpoint of the field.
pub open spec fn opponent_goal(g: GameV) -> V2 {
    V2 { x: g.field.x, y: field_mid_y(g) }
}

/// The velocity the opponent AI asks for this frame: attack the puck when
/// goal-side of it, close and not already fleeing fast; intercept a nearly
/// still puck the player is far from; otherwise take the midpoint between
/// puck and own goal.
pub open spec fn opponent_desired_spec(g: GameV) -> V2 {
    let position = g.entities[g.opponent as int].position;
    let puck = g.entities[g.puck as int];
    let goal = opponent_goal(g);
    let goal_direction = spec_normalize_or(spec_sub(position, goal), spec_zero());
    let puck_direction = spec_normalize_or(spec_sub(position, puck.position), spec_zero());
    let puck_distance = vlen(spec_sub(position, puck.position));
    if spec_dot(goal_direction, puck_direction) < 0 && puck_distance < 100_000 && between_spec(
        spec_dot(puck_direction, puck.velocity),
        -2000,
        10_000,
    ) {
        velocity_towards_spec(position, puck.position, 10_000)
    } else if spec_dot(goal_direction, puck_direction) < 0 && vlen(puck.velocity) < 3000
        && spec_distance(g.entities[g.player as int].position, puck.position) > 2 * spec_distance(
        position,
        puck.position,
    ) {
        velocity_towards_spec(position, puck.position, 3000)
    } else {
        velocity_towards_spec(position, spec_scale(spec_add(puck.position, goal), 500), 3000)
    }
}

/// The opponent step: blend the desired velocity into the current one with
/// heavy inertia (0.80 old + 0.15 desired).
pub open spec fn opponent_spec(g: GameV) -> GameV {
    let opp = g.entities[g.opponent as int];
    let v = spec_add(
        spec_scale(opp.velocity, 800),
        spec_scale(opponent_desired_spec(g), 150),
    );
    GameV {
        entities: g.entities.update(g.opponent as int, EntityV { velocity: v, ..opp }),
        ..g
    }
}

/// The puck's velocity after bouncing off one obstacle — unchanged when
/// the circles do not overlap.  The contact normal is the normalized
/// puck-minus-paddle offset, and the impact acts on the relative velocity.
pub open spec fn collide_step_spec(puck: EntityV, paddle: EntityV) -> V2 {
    let diff = spec_sub(puck.position, paddle.position);
    if vlen(diff) < puck.radius + paddle.radius {
        spec_sub(
            puck.velocity,
            bounce_impact_spec(
                spec_normalize_or(diff, spec_zero()),
                spec_sub(puck.velocity, paddle.velocity),
                BOUNCINESS as int,
            ),
        )
    } else {
        puck.velocity
    }
}

/// The puck's velocity after the obstacle sweep: each overlapping obstacle
/// applies its impulse independently, in list order.
pub open spec fn collide_paddles_spec(puck: EntityV, ents: Seq<EntityV>, hs: Seq<usize>) -> V2
    decreases hs.len(),
{
    if hs.len() == 0 {
        puck.velocity
    } else {
        let v1 = collide_step_spec(puck, ents[hs[0] as int]);
        collide_paddles_spec(EntityV { velocity: v1, ..puck }, ents, hs.drop_first())
    }
}

/// The field-edge surface normal the puck has crossed, if any: no surface
/// inside the goal-gap band, else left, right, top, bottom — first match
/// wins.
pub open spec fn surface_spec(g: GameV, p: EntityV) -> Option<V2> {
    if in_gap_band(g, p.position.y) {
        None
    } else if p.position.x < p.radius {
        Some(V2 { x: SCALE as int, y: 0 })
    } else if p.position.x > g.field.x - p.radius {
        Some(V2 { x: -(SCALE as int), y: 0 })
    } else if p.position.y < p.radius {
        Some(V2 { x: 0, y: SCALE as int })
    } else if p.position.y > g.field.y - p.radius {
        Some(V2 { x: 0, y: -(SCALE as int) })
    } else {
        None
    }
}

/// The collision step: the obstacle sweep, then the wall bounce on the
/// puck's absolute velocity.
pub open spec fn collide_spec(g: GameV) -> GameV {
    let puck = g.entities[g.puck as int];
    let v1 = collide_paddles_spec(puck, g.entities, g.paddles);
    let v2 = match surface_spec(g, puck) {
        Some(s) => spec_sub(v1, bounce_impact_spec(s, v1, BOUNCINESS as int)),
        None => v1,
    };
    GameV {
        entities: g.entities.update(g.puck as int, EntityV { velocity: v2, ..puck }),
        ..g
    }
}

/// The goal rule: inside the gap band, a puck past the left edge still
/// moving left scores for the opponent, one past the right edge still
/// moving right scores for the player; either resets the puck to the field
/// center at rest.
pub open spec fn goals_spec(g: GameV) -> GameV {
    let p = g.entities[g.puck as int];
    let reset = EntityV {
        position: spec_scale(g.field, 500),
        velocity: spec_zero(),
        ..p
    };
    if in_gap_band(g, p.position.y) {
        if p.position.x < 0 && p.velocity.x < 0 {
            GameV {
                entities: g.entities.update(g.puck as int, reset),
                opponentScore: g.opponentScore + 1,
                ..g
            }
        } else if p.position.x > g.field.x && p.velocity.x > 0 {
            GameV {
                entities: g.entities.update(g.puck as int, reset),
                playerScore: g.playerScore + 1,
                ..g
            }
        } else {
            g
        }
    } else {
        g
    }
}

/// The frame-boundary commit of staged registry mutations.
pub open spec fn commit_game_spec(g: GameV) -> GameV {
    GameV { objects: commit_spec(g.objects), ..g }
}

/// One whole frame, in the fixed order: player control, update pass,
/// opponent AI, collision, goal scoring, commit.  (Rendering happens
/// between scoring and commit and changes no simulation state.)
pub open spec fn frame_spec(g: GameV) -> GameV {
    commit_game_spec(goals_spec(collide_spec(opponent_spec(update_all_spec(controls_spec(g))))))
}

/// How an input event changes the game: a pointer move retargets the
/// mouse; everything else leaves the state alone.
pub open spec fn event_game_spec(g: GameV, e: Event) -> GameV {
    match e {
        Event::PointerMoved(x, y) => GameV { mouse: V2 { x: x as int, y: y as int }, ..g },
        _ => g,
    }
}

/// Whether the loop keeps running after an event: a quit request or the
/// escape key stops it.
pub open spec fn event_continue_spec(e: Event) -> bool {
    match e {
        Event::QuitRequested => false,
        Event::KeyPressed(k) => k != ESCAPE_KEY,
        _ => true,
    }
}

/// `x > a && x < b`, for any type whose ordering obeys its specification.
pub fn between<T: PartialOrd>(x: T, a: T, b: T) -> (r: bool)
    ensures
        T::obeys_partial_cmp_spec() ==> r == (x.partial_cmp_spec(&a) == Some(
            core::cmp::Ordering::Greater,
        ) && x.partial_cmp_spec(&b) == Some(core::cmp::Ordering::Less)),
{
    x > a && x < b
}

/// Distance between two points.
pub fn distance(a: Vec2, b: Vec2) -> (r: i64)
    requires
        v2_in(a@, (FXMAX / 2) as int),
        v2_in(b@, (FXMAX / 2) as int),
    ensures
        r as int == spec_distance(a@, b@),
        r >= 0,
        r as int <= iabs(a@.x - b@.x) + iabs(a@.y - b@.y),
{
    let d = a.sub(b);
    proof {
        lemma_vlen(d@);
    }
    d.length()
}

/// The velocity that moves from `source` toward `destination` at `speed`,
/// arriving without overshoot when the distance is smaller.
#[allow(non_snake_case)]
pub fn velocityTowards(source: Vec2, destination: Vec2, speed: i64) -> (r: Vec2)
    requires
        v2_in(source@, (FXMAX / 2) as int),
        v2_in(destination@, (FXMAX / 2) as int),
        0 <= speed <= LIM,
    ensures
        r@ == velocity_towards_spec(source@, destination@, speed as int),
        v2_in(r@, speed as int),
{
    let diff = destination.sub(source);
    let dist = diff.length();
    let direction = diff.normalizeOrZero();
    proof {
        lemma_vlen(diff@);
        crate::entity::vlen_scale_bound(direction@, dist as int);
        crate::entity::vlen_scale_bound(direction@, speed as int);
    }
    if dist < speed {
        direction.mul(dist)
    } else {
        direction.mul(speed)
    }
}

/// The restitution impulse reflected off `surface`: applied only when the
/// velocity approaches the surface (`impact < 0`), scaled by
/// `1 + bounciness`.
#[allow(non_snake_case)]
pub fn getBounceImpact(surface: Vec2, velocity: Vec2, bounciness: i64) -> (r: Vec2)
    requires
        v2_in(surface@, SCALE as int),
        v2_in(velocity@, VELMAX as int),
        0 <= bounciness <= SCALE,
    ensures
        r@ == bounce_impact_spec(surface@, velocity@, bounciness as int),
        iabs(r@.x) <= 2 * (iabs(velocity@.x) + iabs(velocity@.y)),
        iabs(r@.y) <= 2 * (iabs(velocity@.x) + iabs(velocity@.y)),
{
    proof {
        lemma_dot_with_unit(surface@, velocity@);
    }
    let impact = surface.dot(velocity);
    if impact < 0 {
        proof {
            lemma_fxmul_bound(surface@.x, impact as int, SCALE as int);
            lemma_fxmul_bound(surface@.y, impact as int, SCALE as int);
        }
        let scaled = surface.mul(impact);
        proof {
            crate::fx::lemma_mul_le(iabs(surface@.x), SCALE as int, iabs(impact as int));
            crate::fx::lemma_mul_le(iabs(surface@.y), SCALE as int, iabs(impact as int));
            assert(iabs(scaled@.x) <= iabs(impact as int));
            assert(iabs(scaled@.y) <= iabs(impact as int));
            lemma_fxmul_bound(scaled@.x, (SCALE + bounciness) as int, iabs(scaled@.x));
            lemma_fxmul_bound(scaled@.y, (SCALE + bounciness) as int, iabs(scaled@.y));
            crate::fx::lemma_mul_le(
                (SCALE as int) + bounciness as int,
                2 * SCALE as int,
                iabs(scaled@.x),
            );
            crate::fx::lemma_mul_le(
                (SCALE as int) + bounciness as int,
                2 * SCALE as int,
                iabs(scaled@.y),
            );
        }
        scaled.mul(SCALE + bounciness)
    } else {
        Vec2 { x: 0, y: 0 }
    }
}

/// A dot product against a unit-bounded vector is bounded by the other
/// vector's component magnitudes.
proof fn lemma_dot_with_unit(s: V2, v: V2)
    requires
        v2_in(s, SCALE as int),
    ensures
        iabs(spec_dot(s, v)) <= iabs(v.x) + iabs(v.y),
{
    let p = s.x * v.x + s.y * v.y;
    crate::fx::lemma_mul_signs(s.x, v.x);
    crate::fx::lemma_mul_signs(s.y, v.y);
    assert(iabs(s.x) * iabs(v.x) <= (SCALE as int) * iabs(v.x)) by (nonlinear_arith)
        requires
            iabs(s.x) <= SCALE as int,
            iabs(v.x) >= 0,
    ;
    assert(iabs(s.y) * iabs(v.y) <= (SCALE as int) * iabs(v.y)) by (nonlinear_arith)
        requires
            iabs(s.y) <= SCALE as int,
            iabs(v.y) >= 0,
    ;
    assert(iabs(p) <= iabs(s.x * v.x) + iabs(s.y * v.y));
    crate::fx::lemma_tdiv_bound(p, SCALE as int);
    let t = iabs(crate::fx::tdiv(p, SCALE as int));
    assert(t * (SCALE as int) <= iabs(p));
    assert(t <= iabs(v.x) + iabs(v.y)) by (nonlinear_arith)
        requires
            t >= 0,
            t * (SCALE as int) <= iabs(p),
            iabs(p) <= (SCALE as int) * iabs(v.x) + (SCALE as int) * iabs(v.y),
            iabs(v.x) >= 0,
            iabs(v.y) >= 0,
    ;
}

/// The surface normal of the field edge the puck has crossed, or `None`
/// inside the goal-gap band or away from every edge.
#[allow(non_snake_case)]
pub fn getSurface(game: &Game, p: &Entity) -> (r: Option<Vec2>)
    requires
        v2_in(game@.field, LIM as int),
        0 < game@.goalSize <= LIM as int,
        0 < p@.radius <= 3 * LIM as int,
    ensures
        match r {
            Some(v) => surface_spec(game@, p@) == Some(v@),
            None => surface_spec(game@, p@) is None,
        },
{
    proof {
        lemma_fxmul_bound(game@.field.y, 500, LIM as int);
        lemma_fxmul_bound(game@.goalSize, 500, LIM as int);
    }
    let mid = mul_fx(game.field.y, 500);
    let hg = mul_fx(game.goalSize, 500);
    if p.position.y > mid - hg && p.position.y < mid + hg {
        None
    } else if p.position.x < p.radius {
        Some(Vec2 { x: SCALE, y: 0 })
    } else if p.position.x > game.field.x - p.radius {
        Some(Vec2 { x: -SCALE, y: 0 })
    } else if p.position.y < p.radius {
        Some(Vec2 { x: 0, y: SCALE })
    } else if p.position.y > game.field.y - p.radius {
        Some(Vec2 { x: 0, y: -SCALE })
    } else {
        None
    }
}

/// The freshly set-up game: a 640×480 field with a 250-unit goal opening,
/// the player and opponent paddles at midfield height, four goal posts,
/// the puck at the center, and all seven objects registered.
pub open spec fn initial_game() -> GameV {
    GameV {
        entities: seq![
            EntityV {
                position: V2 { x: 100_000, y: 240_000 },
                velocity: V2 { x: 0, y: 0 },
                radius: crate::entity::PADDLE_RADIUS as int,
                kind: Kind::Paddle,
            },
            EntityV {
                position: V2 { x: 540_000, y: 240_000 },
                velocity: V2 { x: 0, y: 0 },
                radius: crate::entity::PADDLE_RADIUS as int,
                kind: Kind::Paddle,
            },
            EntityV {
                position: V2 { x: 0, y: 115_000 },
                velocity: V2 { x: 0, y: 0 },
                radius: crate::entity::POLE_RADIUS as int,
                kind: Kind::Paddle,
            },
            EntityV {
                position: V2 { x: 0, y: 365_000 },
                velocity: V2 { x: 0, y: 0 },
                radius: crate::entity::POLE_RADIUS as int,
                kind: Kind::Paddle,
            },
            EntityV {
                position: V2 { x: 640_000, y: 115_000 },
                velocity: V2 { x: 0, y: 0 },
                radius: crate::entity::POLE_RADIUS as int,
                kind: Kind::Paddle,
            },
            EntityV {
                position: V2 { x: 640_000, y: 365_000 },
                velocity: V2 { x: 0, y: 0 },
                radius: crate::entity::POLE_RADIUS as int,
                kind: Kind::Paddle,
            },
            EntityV {
                position: V2 { x: 320_000, y: 240_000 },
                velocity: V2 { x: 0, y: 0 },
                radius: crate::entity::PUCK_RADIUS as int,
                kind: Kind::Puck,
            },
        ],
        objects: PendingListV {
            objects: seq![0usize, 1usize, 2usize, 3usize, 4usize, 5usize, 6usize],
            pendingAdd: Seq::empty(),
            pendingRemove: Seq::empty(),
        },
        player: 0,
        playerScore: 0,
        opponent: 1,
        opponentScore: 0,
        puck: 6,
        paddles: seq![0usize, 1usize, 2usize, 3usize, 4usize, 5usize],
        field: V2 { x: 640_000, y: 480_000 },
        goalSize: 250_000,
        mouse: V2 { x: 0, y: 0 },
    }
}

/// Stages every obstacle paddle for registration.
#[allow(non_snake_case)]
pub fn addPaddles(game: &mut Game)
    ensures
        final(game)@ == (GameV {
            objects: PendingListV {
                pendingAdd: old(game)@.objects.pendingAdd + old(game)@.paddles,
                ..old(game)@.objects
            },
            ..old(game)@
        }),
{
    let n = game.paddles.len();
    let mut i: usize = 0;
    while i < n
        invariant
            n == game.paddles@.len(),
            0 <= i <= n,
            game.entities == old(game).entities,
            game.player == old(game).player,
            game.playerScore == old(game).playerScore,
            game.opponent == old(game).opponent,
            game.opponentScore == old(game).opponentScore,
            game.puck == old(game).puck,
            game.paddles == old(game).paddles,
            game.field == old(game).field,
            game.goalSize == old(game).goalSize,
            game.mouse == old(game).mouse,
            game@.objects.objects == old(game)@.objects.objects,
            game@.objects.pendingRemove == old(game)@.objects.pendingRemove,
            game@.objects.pendingAdd == old(game)@.objects.pendingAdd + game.paddles@.take(
                i as int,
            ),
        decreases n - i,
    {
        let h = game.paddles[i];
        game.objects.add(h);
        proof {
            assert(game.paddles@.take(i + 1 as int) =~= game.paddles@.take(i as int).push(h));
            assert(game@.objects.pendingAdd =~= old(game)@.objects.pendingAdd
                + game.paddles@.take(i + 1 as int));
        }
        i += 1;
    }
    proof {
        assert(game.paddles@.take(n as int) =~= game.paddles@);
        assert(game@ =~= (GameV {
            objects: PendingListV {
                pendingAdd: old(game)@.objects.pendingAdd + old(game)@.paddles,
                ..old(game)@.objects
            },
            ..old(game)@
        }));
    }
}

/// Builds the starting state: field, paddles, goal posts and puck, with
/// every object staged and committed into the registry before the first
/// frame.
#[allow(non_snake_case)]
pub fn setupGame() -> (game: Game)
    ensures
        game@ == initial_game(),
        game_wf(game@),
        game_in(game@, LIM as int),
{
    let field = Vec2 { x: 640_000, y: 480_000 };
    proof {
        lemma_fxmul_bound(field@.y, 500, LIM as int);
    }
    let half_y = mul_fx(field.y, 500);
    let goal_size: i64 = 250_000;
    proof {
        lemma_fxmul_bound(goal_size as int, 500, LIM as int);
    }
    let half_goal = mul_fx(goal_size, 500);
    proof {
        assert(480_000 * 500 == 240_000_000int);
        assert(fxmul(480_000, 500) == tdiv(240_000_000, 1000));
        assert(iabs(240_000_000) == 240_000_000 && iabs(1000) == 1000);
        assert(240_000_000int / 1000int == 240_000);
        assert(half_y == 240_000);
        assert(250_000 * 500 == 125_000_000int);
        assert(fxmul(250_000, 500) == tdiv(125_000_000, 1000));
        assert(iabs(125_000_000) == 125_000_000);
        assert(125_000_000int / 1000int == 125_000);
        assert(half_goal == 125_000);
    }
    let mut entities: Vec<Entity> = Vec::new();
    entities.push(newPaddle(Vec2 { x: 100_000, y: half_y }));
    entities.push(newPaddle(Vec2 { x: field.x - 100_000, y: half_y }));
    entities.push(newPole(Vec2 { x: 0, y: half_y - half_goal }));
    entities.push(newPole(Vec2 { x: 0, y: half_y + half_goal }));
    entities.push(newPole(Vec2 { x: field.x, y: half_y - half_goal }));
    entities.push(newPole(Vec2 { x: field.x, y: half_y + half_goal }));
    entities.push(newPuck(Vec2 { x: 320_000, y: 240_000 }));
    let mut paddles: Vec<usize> = Vec::new();
    paddles.push(0);
    paddles.push(1);
    paddles.push(2);
    paddles.push(3);
    paddles.push(4);
    paddles.push(5);
    let mut game = Game {
        entities,
        objects: PendingList::<usize>(),
        player: 0,
        playerScore: 0,
        opponent: 1,
        opponentScore: 0,
        puck: 6,
        paddles,
        field,
        goalSize: goal_size,
        mouse: Vec2 { x: 0, y: 0 },
    };
    addPaddles(&mut game);
    game.objects.add(6);
    game.objects.handlePending();
    proof {
        assert(game@.objects.objects =~= seq![0usize, 1usize, 2usize, 3usize, 4usize, 5usize, 6usize]);
        assert(game@ =~= initial_game());
    }
    game
}

/// One frame of the simulation, in the fixed order: player control, the
/// update pass, opponent AI, collision, goal scoring, and the commit of
/// staged registry mutations.  (Rendering sits between scoring and commit
/// and reads but never writes simulation state.)
#[allow(non_snake_case)]
pub fn updateFrame(game: &mut Game)
    requires
        game_wf(old(game)@),
        game_in(old(game)@, LIM as int),
        old(game).playerScore < u64::MAX,
        old(game).opponentScore < u64::MAX,
    ensures
        final(game)@ == frame_spec(old(game)@),
        game_in(final(game)@, COLLIDE_OUT as int),
        old(game)@.objects.pendingAdd.len() == 0 && old(game)@.objects.pendingRemove.len() == 0
            ==> game_wf(final(game)@),
{
    handleControls(game);
    updateGame(game);
    handleOpponent(game);
    handleCollision(game);
    handleGoals(game);
    let ghost before_commit = game@;
    game.objects.handlePending();
    proof {
        assert(game@ =~= commit_game_spec(before_commit));
        assert(game@ =~= frame_spec(old(game)@));
        if old(game)@.objects.pendingAdd.len() == 0 && old(game)@.objects.pendingRemove.len()
            == 0 {
            assert(before_commit.objects.objects + before_commit.objects.pendingAdd
                =~= before_commit.objects.objects);
            assert(game@.objects.objects == before_commit.objects.objects);
            assert(game_wf(game@));
        }
    }
}

/// Applies one input event: a pointer move retargets the player control;
/// the returned flag is false exactly when the event asks the loop to
/// stop (a quit request or the escape key).
#[allow(non_snake_case)]
pub fn applyEvent(game: &mut Game, event: Event) -> (keep: bool)
    requires
        game_wf(old(game)@),
        match event {
            Event::PointerMoved(x, y) => iabs(x as int) <= LIM as int && iabs(y as int)
                <= LIM as int,
            _ => true,
        },
    ensures
        final(game)@ == event_game_spec(old(game)@, event),
        keep == event_continue_spec(event),
        game_wf(final(game)@),
{
    match event {
        Event::PointerMoved(x, y) => {
            game.mouse = Vec2 { x, y };
            true
        },
        Event::QuitRequested => false,
        Event::KeyPressed(k) => k != ESCAPE_KEY,
        Event::NoEvent => true,
    }
}

/// Largest score the marker layout accepts.
pub const SCORE_MAX: usize = 1_000_000;

/// Where the marker for `idx` of a score display sits: a square-ish grid
/// of `ceil(sqrt(score))` columns starting at `position`, advancing one
/// `direction` per column and one same-length downward step per row.
pub open spec fn score_marker_spec(score: int, position: V2, direction: V2, idx: int) -> V2
    recommends
        1 <= score,
        0 <= idx < score,
{
    let columns = crate::fx::sqrt_ceil(score);
    let gx = idx / columns;
    let gy = idx % columns;
    spec_add(
        spec_add(position, spec_scale(direction, gx * (SCALE as int))),
        spec_scale(V2 { x: 0, y: vlen(direction) }, gy * (SCALE as int)),
    )
}

/// The marker positions that display `score`: one filled disc per point,
/// laid out in a square-ish grid from `position` along `direction`.
pub fn score_markers(score: usize, position: Vec2, direction: Vec2) -> (r: Vec<Vec2>)
    requires
        score <= SCORE_MAX,
        v2_in(position@, LIM as int),
        v2_in(direction@, LIM as int),
    ensures
        r@.len() == score,
        forall|i: int|
            0 <= i < score ==> (#[trigger] r@[i])@ == score_marker_spec(
                score as int,
                position@,
                direction@,
                i,
            ),
{
    let mut out: Vec<Vec2> = Vec::new();
    if score == 0 {
        return out;
    }
    let root = isqrt(score as u128);
    proof {
        assert(root >= 1) by (nonlinear_arith)
            requires
                is_isqrt(score as int, root as int),
                score >= 1,
        ;
        assert(root as int * root as int <= score as int);
        assert(root <= 1000) by (nonlinear_arith)
            requires
                root as int * root as int <= score as int,
                score <= 1_000_000,
        ;
    }
    let columns_w: u64 = if root * root == score as u64 {
        root
    } else {
        root + 1
    };
    proof {
        assert(columns_w as int == crate::fx::sqrt_ceil(score as int));
    }
    let columns = columns_w as usize;
    let down = Vec2 { x: 0, y: direction.length() };
    proof {
        lemma_vlen(direction@);
    }
    let mut index: usize = 0;
    while index < score
        invariant
            1 <= columns <= 1001,
            columns as int == crate::fx::sqrt_ceil(score as int),
            1 <= score <= SCORE_MAX,
            v2_in(position@, LIM as int),
            v2_in(direction@, LIM as int),
            down@ == (V2 { x: 0, y: vlen(direction@) }),
            v2_in(down@, 2 * LIM as int),
            0 <= index <= score,
            out@.len() == index,
            forall|i: int|
                0 <= i < index ==> (#[trigger] out@[i])@ == score_marker_spec(
                    score as int,
                    position@,
                    direction@,
                    i,
                ),
        decreases score - index,
    {
        let gx = index / columns;
        let gy = index % columns;
        proof {
            vstd::arithmetic::div_mod::lemma_div_pos_is_pos(index as int, columns as int);
            vstd::arithmetic::div_mod::lemma_remainder_lower(index as int, columns as int);
            assert(gx as int * columns as int <= index as int) by (nonlinear_arith)
                requires
                    gx as int == index as int / columns as int,
                    (index as int / columns as int) * columns as int <= index as int,
            ;
            assert(gx as int <= index as int) by (nonlinear_arith)
                requires
                    gx as int * columns as int <= index as int,
                    gx >= 0,
                    columns >= 1,
            ;
        }
        let kx: i64 = (gx as i64) * SCALE;
        let ky: i64 = (gy as i64) * SCALE;
        proof {
            assert(iabs(kx as int) <= 1_000_000_000);
            assert(iabs(ky as int) <= 1_000_000_000);
            lemma_fxmul_bound(direction@.x, kx as int, LIM as int);
            lemma_fxmul_bound(direction@.y, kx as int, LIM as int);
            lemma_fxmul_bound(down@.x, ky as int, 2 * LIM as int);
            lemma_fxmul_bound(down@.y, ky as int, 2 * LIM as int);
            crate::fx::lemma_mul_le(iabs(kx as int), 1_000_000_000, LIM as int);
            crate::fx::lemma_mul_le(iabs(ky as int), 1_000_000_000, 2 * LIM as int);
        }
        let right_step = direction.mul(kx);
        let down_step = down.mul(ky);
        let marker = position.add(right_step).add(down_step);
        out.push(marker);
        index += 1;
    }
    out
}

impl Game {
    /// Runtime check of the frame step's preconditions: structural
    /// well-formedness, every stored value within `LIM`, and score
    /// headroom.  An unverified caller can test this before each frame.
    pub fn in_bounds(&self) -> (r: bool)
        ensures
            r == (game_wf(self@) && game_in(self@, LIM as int) && self.playerScore < u64::MAX
                && self.opponentScore < u64::MAX),
    {
        let n = self.entities.len();
        if !(self.player < n && self.opponent < n && self.puck < n) {
            return false;
        }
        if self.entities[self.player].kind != Kind::Paddle {
            return false;
        }
        if self.entities[self.opponent].kind != Kind::Paddle {
            return false;
        }
        if self.entities[self.puck].kind != Kind::Puck {
            return false;
        }
        if self.paddles.len() > MAX_OBSTACLES {
            return false;
        }
        let mut i: usize = 0;
        while i < self.paddles.len()
            invariant
                0 <= i <= self.paddles@.len(),
                n == self@.entities.len(),
                forall|j: int|
                    0 <= j < i ==> ((#[trigger] self.paddles@[j]) as int) < n
                        && self@.entities[self.paddles@[j] as int].kind == Kind::Paddle,
            decreases self.paddles@.len() - i,
        {
            let h = self.paddles[i];
            if h >= n {
                return false;
            }
            if self.entities[h].kind != Kind::Paddle {
                return false;
            }
            i += 1;
        }
        let live = self.objects.each();
        let m = live.len();
        let mut i: usize = 0;
        while i < m
            invariant
                m == self@.objects.objects.len(),
                live@ == self@.objects.objects,
                n == self@.entities.len(),
                0 <= i <= m,
                forall|j: int| 0 <= j < i ==> ((#[trigger] live@[j]) as int) < n,
                forall|j: int, k: int| 0 <= j < k < i ==> live@[j] != live@[k],
            decreases m - i,
        {
            if live[i] >= n {
                return false;
            }
            let mut j: usize = 0;
            while j < i
                invariant
                    m == self@.objects.objects.len(),
                    live@ == self@.objects.objects,
                    0 <= j <= i < m,
                    forall|k: int| 0 <= k < j ==> live@[k] != live@[i as int],
                decreases i - j,
            {
                if live[j] == live[i] {
                    return false;
                }
                j += 1;
            }
            i += 1;
        }
        if !(0 < self.goalSize && self.goalSize <= LIM) {
            return false;
        }
        if !(-LIM <= self.field.x && self.field.x <= LIM && -LIM <= self.field.y && self.field.y
            <= LIM && self.field.x >= 0 && self.field.y >= 0) {
            return false;
        }
        if !(-LIM <= self.mouse.x && self.mouse.x <= LIM && -LIM <= self.mouse.y && self.mouse.y
            <= LIM) {
            return false;
        }
        let mut i: usize = 0;
        while i < n
            invariant
                n == self@.entities.len(),
                n == self.entities@.len(),
                0 <= i <= n,
                forall|j: int| 0 <= j < i ==> entity_in(#[trigger] self@.entities[j], LIM as int),
            decreases n - i,
        {
            let e = self.entities[i];
            proof {
                assert(self@.entities[i as int] == e@);
            }
            if !(-LIM <= e.position.x && e.position.x <= LIM && -LIM <= e.position.y && e.position.y
                <= LIM) {
                return false;
            }
            if !(-LIM <= e.velocity.x && e.velocity.x <= LIM && -LIM <= e.velocity.y && e.velocity.y
                <= LIM) {
                return false;
            }
            if !(0 < e.radius && e.radius <= LIM) {
                return false;
            }
            i += 1;
        }
        if !(self.playerScore < u64::MAX && self.opponentScore < u64::MAX) {
            return false;
        }
        true
    }
}

/// Replaces the arena entry at `i`.
fn set_entity(v: &mut Vec<Entity>, i: usize, e: Entity)
    requires
        (i as int) < old(v)@.len(),
    ensures
        final(v)@ == old(v)@.update(i as int, e),
{
    v[i] = e;
}

/// Updating one arena entry updates the same index of the viewed sequence.
proof fn lemma_map_update(s: Seq<Entity>, i: int, e: Entity)
    requires
        0 <= i < s.len(),
    ensures
        s.update(i, e).map_values(|x: Entity| x@) == s.map_values(|x: Entity| x@).update(i, e@),
{
    assert(s.update(i, e).map_values(|x: Entity| x@) =~= s.map_values(|x: Entity| x@).update(
        i,
        e@,
    ));
}

/// Powers of five, the per-obstacle growth factor of the bounce sweep's
/// velocity bound.
pub open spec fn pow5(k: nat) -> int
    decreases k,
{
    if k == 0 {
        1
    } else {
        5 * pow5((k - 1) as nat)
    }
}

/// `pow5` is monotone and reaches at most `78125` within the obstacle cap.
proof fn lemma_pow5(k: nat)
    requires
        k <= MAX_OBSTACLES,
    ensures
        1 <= pow5(k) <= 78125,
        k < MAX_OBSTACLES ==> 5 * pow5(k) <= 78125,
{
    assert(pow5(0) == 1);
    assert(pow5(1) == 5);
    assert(pow5(2) == 25);
    assert(pow5(3) == 125);
    assert(pow5(4) == 625);
    assert(pow5(5) == 3125);
    assert(pow5(6) == 15625);
    assert(pow5(7) == 78125);
}

/// The update pass over the registry's live handles, in registration
/// order; handle distinctness makes it one per-kind step per object.
#[allow(non_snake_case)]
pub fn updateGame(game: &mut Game)
    requires
        game_wf(old(game)@),
        game_in(old(game)@, LIM as int),
    ensures
        final(game)@ == update_all_spec(old(game)@),
        game_wf(final(game)@),
        game_in(final(game)@, 3 * LIM as int),
{
    let ghost old_ents = old(game)@.entities;
    let ghost live = old(game)@.objects.objects;
    let n = game.objects.each().len();
    let mut i: usize = 0;
    while i < n
        invariant
            game_wf(old(game)@),
            game_in(old(game)@, LIM as int),
            old_ents == old(game)@.entities,
            live == old(game)@.objects.objects,
            n == live.len(),
            0 <= i <= n,
            game.objects == old(game).objects,
            game.player == old(game).player,
            game.playerScore == old(game).playerScore,
            game.opponent == old(game).opponent,
            game.opponentScore == old(game).opponentScore,
            game.puck == old(game).puck,
            game.paddles == old(game).paddles,
            game.field == old(game).field,
            game.goalSize == old(game).goalSize,
            game.mouse == old(game).mouse,
            game@.entities.len() == old_ents.len(),
            forall|j: int|
                0 <= j < old_ents.len() ==> #[trigger] game@.entities[j] == if live_contains(
                    live.take(i as int),
                    j,
                ) {
                    update_object_spec(old_ents[j])
                } else {
                    old_ents[j]
                },
        decreases n - i,
    {
        let h = game.objects.each()[i];
        proof {
            assert(live[i as int] == h);
            assert((h as int) < old_ents.len());
            assert(!live_contains(live.take(i as int), h as int)) by {
                if live_contains(live.take(i as int), h as int) {
                    let k = choose|k: int|
                        0 <= k < live.take(i as int).len() && (((#[trigger] live.take(
                            i as int,
                        )[k]) as int) == h as int);
                    assert(live[k] == live[i as int]);
                }
            }
            assert(game@.entities[h as int] == old_ents[h as int]);
        }
        let mut e = game.entities[h];
        proof {
            assert(e@ == old_ents[h as int]);
            assert(entity_in(e@, LIM as int));
        }
        update_object(&mut e);
        let ghost before = game.entities@;
        set_entity(&mut game.entities, h, e);
        proof {
            lemma_map_update(before, h as int, e);
            assert(live.take(i + 1 as int) =~= live.take(i as int).push(live[i as int]));
            assert forall|j: int| 0 <= j < old_ents.len() implies #[trigger] game@.entities[j]
                == if live_contains(live.take(i + 1 as int), j) {
                update_object_spec(old_ents[j])
            } else {
                old_ents[j]
            } by {
                if j == h as int {
                    assert(live.take(i + 1 as int)[i as int] as int == j);
                    assert(live_contains(live.take(i + 1 as int), j));
                } else {
                    assert(live_contains(live.take(i + 1 as int), j) == live_contains(
                        live.take(i as int),
                        j,
                    )) by {
                        if live_contains(live.take(i + 1 as int), j) {
                            let k = choose|k: int|
                                0 <= k < live.take(i + 1 as int).len() && (((#[trigger] live.take(
                                    i + 1 as int,
                                )[k]) as int) == j);
                            assert(k < i + 1);
                            assert(k != i);
                            assert(live.take(i as int)[k] as int == j);
                        }
                        if live_contains(live.take(i as int), j) {
                            let k = choose|k: int|
                                0 <= k < live.take(i as int).len() && (((#[trigger] live.take(
                                    i as int,
                                )[k]) as int) == j);
                            assert(live.take(i + 1 as int)[k] as int == j);
                        }
                    }
                }
            }
        }
        i += 1;
    }
    proof {
        assert(live.take(n as int) =~= live);
        assert(game@ =~= update_all_spec(old(game)@));
        assert forall|j: int| 0 <= j < game@.entities.len() implies entity_in(
            #[trigger] game@.entities[j],
            3 * LIM as int,
        ) by {
            crate::entity::lemma_update_object_bound(old_ents[j], LIM as int);
        }
    }
}

/// The player-control step: blends the player paddle's velocity toward the
/// pointer target, capped at `MAX_PLAYER_SPEED`, with weights 0.3 (old
/// velocity) and 0.5 (capped step).
#[allow(non_snake_case)]
pub fn handleControls(game: &mut Game)
    requires
        game_wf(old(game)@),
        game_in(old(game)@, LIM as int),
    ensures
        final(game)@ == controls_spec(old(game)@),
        game_wf(final(game)@),
        game_in(final(game)@, LIM as int),
{
    let p = game.entities[game.player];
    let diff = game.mouse.sub(p.position);
    let dist = diff.length();
    let direction = diff.normalizeOrZero();
    let step = if dist < MAX_PLAYER_SPEED {
        dist
    } else {
        MAX_PLAYER_SPEED
    };
    proof {
        lemma_vlen(diff@);
        crate::entity::vlen_scale_bound(direction@, step as int);
        lemma_fxmul_bound(p@.velocity.x, 300, LIM as int);
        lemma_fxmul_bound(p@.velocity.y, 300, LIM as int);
    }
    let part1 = p.velocity.mul(300);
    let scaled = direction.mul(step);
    proof {
        lemma_fxmul_bound(scaled@.x, 500, MAX_PLAYER_SPEED as int);
        lemma_fxmul_bound(scaled@.y, 500, MAX_PLAYER_SPEED as int);
    }
    let part2 = scaled.mul(500);
    let v = part1.add(part2);
    let np = Entity { velocity: v, ..p };
    let ghost before = game.entities@;
    set_entity(&mut game.entities, game.player, np);
    proof {
        lemma_map_update(before, game.player as int, np);
        assert(game@ =~= controls_spec(old(game)@));
    }
}

/// The opponent AI step: picks attack, intercept or defend from the
/// current positions and velocities, and blends the desired velocity into
/// the opponent paddle with heavy inertia.
#[allow(non_snake_case)]
pub fn handleOpponent(game: &mut Game)
    requires
        game_wf(old(game)@),
        game_in(old(game)@, 3 * LIM as int),
    ensures
        final(game)@ == opponent_spec(old(game)@),
        game_wf(final(game)@),
        game_in(final(game)@, 3 * LIM as int),
{
    let defence_speed: i64 = 3000;
    let attack_speed: i64 = 10_000;
    let opp = game.entities[game.opponent];
    let position = opp.position;
    proof {
        lemma_fxmul_bound(game@.field.y, 500, LIM as int);
    }
    let goal = Vec2 { x: game.field.x, y: mul_fx(game.field.y, 500) };
    let puck = game.entities[game.puck];
    let goal_direction = position.sub(goal).normalizeOrZero();
    let to_puck = position.sub(puck.position);
    let puck_direction = to_puck.normalizeOrZero();
    let puck_distance = to_puck.length();
    proof {
        lemma_vlen(to_puck@);
        lemma_dot_with_unit(goal_direction@, puck_direction@);
        lemma_dot_with_unit(puck_direction@, puck.velocity@);
    }
    let gp = goal_direction.dot(puck_direction);
    let desired: Vec2 = if gp < 0 && puck_distance < 100_000 && between(
        puck_direction.dot(puck.velocity),
        -2000,
        10_000,
    ) {
        // Attack: dash at the puck.
        velocityTowards(position, puck.position, attack_speed)
    } else if gp < 0 && puck.velocity.length() < 3000 && distance(
        game.entities[game.player].position,
        puck.position,
    ) > 2 * distance(position, puck.position) {
        // Intercept: the player is more than twice as far from the puck.
        velocityTowards(position, puck.position, defence_speed)
    } else {
        // Defend: stand between the puck and the own goal.
        proof {
            lemma_fxmul_bound(puck@.position.x + goal@.x, 500, 4 * LIM as int);
            lemma_fxmul_bound(puck@.position.y + goal@.y, 500, 4 * LIM as int);
        }
        velocityTowards(position, puck.position.add(goal).mul(500), defence_speed)
    };
    proof {
        lemma_fxmul_bound(opp@.velocity.x, 800, 3 * LIM as int);
        lemma_fxmul_bound(opp@.velocity.y, 800, 3 * LIM as int);
        lemma_fxmul_bound(desired@.x, 150, attack_speed as int);
        lemma_fxmul_bound(desired@.y, 150, attack_speed as int);
    }
    let v = opp.velocity.mul(800).add(desired.mul(150));
    let np = Entity { velocity: v, ..opp };
    let ghost before = game.entities@;
    set_entity(&mut game.entities, game.opponent, np);
    proof {
        lemma_map_update(before, game.opponent as int, np);
        assert(game@ =~= opponent_spec(old(game)@));
    }
}

/// Velocity bound guaranteed after a collision step (see
/// `handleCollision`): each obstacle contact can grow the puck's velocity
/// by a bounded factor, and at most `MAX_OBSTACLES` contacts plus one wall
/// bounce apply per frame.
pub const COLLIDE_OUT: i64 = 3_000_000_000_000_000_000;

/// The puck-velocity bound after `k` obstacle contacts: each contact can
/// at most quintuple the component bound and add four times the stored
/// bound.
pub open spec fn collide_bound(k: nat) -> int {
    2 * (3 * LIM as int) * pow5(k) - 3 * LIM as int
}

/// Range facts about `collide_bound` under the obstacle cap, and its
/// per-contact growth law.
proof fn lemma_collide_bound(k: nat)
    requires
        1 <= pow5(k) <= 78125,
    ensures
        3 * LIM as int <= collide_bound(k),
        collide_bound(k) <= 2 * (3 * LIM as int) * 78125 - 3 * LIM as int,
        collide_bound(k + 1) == 5 * collide_bound(k) + 4 * (3 * LIM as int),
{
    let p = pow5(k);
    assert(pow5(k + 1) == 5 * p);
    assert(2 * (3 * LIM as int) * p - 3 * LIM as int >= 3 * LIM as int && 2 * (3 * LIM as int) * p
        - 3 * LIM as int <= 2 * (3 * LIM as int) * 78125 - 3 * LIM as int && 2 * (3 * LIM as int)
        * (5 * p) - 3 * LIM as int == 5 * (2 * (3 * LIM as int) * p - 3 * LIM as int) + 4 * (3
        * LIM as int)) by (nonlinear_arith)
        requires
            1 <= p <= 78125,
            LIM as int == 1_000_000_000_000,
    ;
}

/// The collision step: every overlapping obstacle applies its bounce
/// impulse to the puck (several contacts in one frame each apply
/// independently), then a crossed field edge reflects the puck's absolute
/// velocity.
#[allow(non_snake_case)]
pub fn handleCollision(game: &mut Game)
    requires
        game_wf(old(game)@),
        game_in(old(game)@, 3 * LIM as int),
    ensures
        final(game)@ == collide_spec(old(game)@),
        game_wf(final(game)@),
        game_in(final(game)@, COLLIDE_OUT as int),
{
    let ghost g0 = old(game)@;
    let ghost puck0 = g0.entities[g0.puck as int];
    let ghost hs = g0.paddles;
    let ghost b = 3 * LIM as int;
    let n = game.paddles.len();
    proof {
        assert(game@.entities =~= g0.entities.update(
            g0.puck as int,
            EntityV { velocity: game@.entities[g0.puck as int].velocity, ..puck0 },
        ));
        assert(hs.skip(0) =~= hs);
    }
    let mut i: usize = 0;
    while i < n
        invariant
            game_wf(g0),
            game_in(g0, b),
            b == 3 * LIM as int,
            g0 == old(game)@,
            puck0 == g0.entities[g0.puck as int],
            hs == g0.paddles,
            n == hs.len(),
            n <= MAX_OBSTACLES,
            0 <= i <= n,
            game.objects == old(game).objects,
            game.player == old(game).player,
            game.playerScore == old(game).playerScore,
            game.opponent == old(game).opponent,
            game.opponentScore == old(game).opponentScore,
            game.puck == old(game).puck,
            game.paddles == old(game).paddles,
            game.field == old(game).field,
            game.goalSize == old(game).goalSize,
            game.mouse == old(game).mouse,
            game@.entities == g0.entities.update(
                g0.puck as int,
                EntityV { velocity: game@.entities[g0.puck as int].velocity, ..puck0 },
            ),
            collide_paddles_spec(
                game@.entities[g0.puck as int],
                g0.entities,
                hs.skip(i as int),
            ) == collide_paddles_spec(puck0, g0.entities, hs),
            iabs(game@.entities[g0.puck as int].velocity.x) <= collide_bound(i as nat),
            iabs(game@.entities[g0.puck as int].velocity.y) <= collide_bound(i as nat),
        decreases n - i,
    {
        let h = game.paddles[i];
        proof {
            lemma_pow5(i as nat);
            assert(game@.entities.len() == g0.entities.len());
            assert(game.entities@.len() == game@.entities.len());
            assert(g0.entities[h as int].kind == Kind::Paddle);
            assert(h as int != g0.puck as int);
            assert(game@.entities[h as int] == g0.entities[h as int]);
        }
        let paddle = game.entities[h];
        let puck_e = game.entities[game.puck];
        let ghost cur = game@.entities[g0.puck as int];
        proof {
            assert(puck_e@ == cur);
            assert(paddle@ == g0.entities[h as int]);
            assert(entity_in(g0.entities[h as int], b));
            assert(entity_in(puck0, b));
            lemma_collide_bound(i as nat);
        }
        let diff = puck_e.position.sub(paddle.position);
        if diff.length() < puck_e.radius + paddle.radius {
            let normal = diff.normalizeOrZero();
            let rel = puck_e.velocity.sub(paddle.velocity);
            let impulse = getBounceImpact(normal, rel, BOUNCINESS);
            let nv = puck_e.velocity.sub(impulse);
            let np = Entity { velocity: nv, ..puck_e };
            let ghost before = game.entities@;
            set_entity(&mut game.entities, game.puck, np);
            proof {
                lemma_map_update(before, g0.puck as int, np);
                assert(nv@ == collide_step_spec(cur, g0.entities[h as int]));
            }
        } else {
            proof {
                assert(cur.velocity == collide_step_spec(cur, g0.entities[h as int]));
            }
        }
        proof {
            let ncur = game@.entities[g0.puck as int];
            assert(ncur.velocity == collide_step_spec(cur, g0.entities[h as int]));
            assert(ncur =~= EntityV {
                velocity: collide_step_spec(cur, g0.entities[h as int]),
                ..cur
            });
            assert(hs.skip(i as int)[0] == hs[i as int]);
            assert(hs.skip(i as int).drop_first() =~= hs.skip(i + 1 as int));
            assert(collide_paddles_spec(cur, g0.entities, hs.skip(i as int))
                == collide_paddles_spec(ncur, g0.entities, hs.skip(i + 1 as int)));
            assert(game@.entities =~= g0.entities.update(
                g0.puck as int,
                EntityV { velocity: ncur.velocity, ..puck0 },
            ));
            lemma_collide_bound(i as nat);
            assert((i + 1) as nat == i as nat + 1);
            assert(iabs(ncur.velocity.x) <= collide_bound((i + 1) as nat));
            assert(iabs(ncur.velocity.y) <= collide_bound((i + 1) as nat));
        }
        i += 1;
    }
    proof {
        lemma_pow5(n as nat);
        assert(hs.skip(n as int) =~= Seq::<usize>::empty());
        assert(game@.entities[g0.puck as int].velocity == collide_paddles_spec(
            puck0,
            g0.entities,
            hs,
        ));
        lemma_collide_bound(n as nat);
        assert(game.entities@.len() == game@.entities.len());
        assert(game@.entities[g0.puck as int].radius == puck0.radius);
        assert(entity_in(puck0, b));
    }
    let puck_e = game.entities[game.puck];
    proof {
        assert(puck_e@ == game@.entities[g0.puck as int]);
    }
    let surface = getSurface(game, &puck_e);
    proof {
        assert(surface_spec(game@, puck_e@) == surface_spec(g0, puck0));
    }
    match surface {
        Some(s) => {
            let impulse = getBounceImpact(s, puck_e.velocity, BOUNCINESS);
            let nv = puck_e.velocity.sub(impulse);
            let np = Entity { velocity: nv, ..puck_e };
            let ghost before = game.entities@;
            set_entity(&mut game.entities, game.puck, np);
            proof {
                lemma_map_update(before, g0.puck as int, np);
                assert(iabs(np@.velocity.x) <= COLLIDE_OUT as int);
                assert(iabs(np@.velocity.y) <= COLLIDE_OUT as int);
            }
        },
        None => {},
    }
    proof {
        assert(game@ =~= collide_spec(old(game)@));
        let fin = game@.entities[g0.puck as int];
        assert(iabs(fin.velocity.x) <= COLLIDE_OUT as int);
        assert(iabs(fin.velocity.y) <= COLLIDE_OUT as int);
        assert(fin.position == puck0.position);
        assert(fin.radius == puck0.radius);
        assert(entity_in(fin, COLLIDE_OUT as int));
        assert forall|j: int| 0 <= j < game@.entities.len() implies entity_in(
            #[trigger] game@.entities[j],
            COLLIDE_OUT as int,
        ) by {
            if j != g0.puck as int {
                assert(game@.entities[j] == g0.entities[j]);
                assert(entity_in(g0.entities[j], b));
            }
        }
    }
}

/// The goal rule: a puck in the gap band past an edge, still moving out,
/// scores for the attacking side and is reset to the field center at rest.
#[allow(non_snake_case)]
pub fn handleGoals(game: &mut Game)
    requires
        game_wf(old(game)@),
        game_in(old(game)@, COLLIDE_OUT as int),
        old(game).playerScore < u64::MAX,
        old(game).opponentScore < u64::MAX,
    ensures
        final(game)@ == goals_spec(old(game)@),
        game_wf(final(game)@),
        game_in(final(game)@, COLLIDE_OUT as int),
{
    let p = game.entities[game.puck];
    proof {
        lemma_fxmul_bound(game@.field.y, 500, LIM as int);
        lemma_fxmul_bound(game@.goalSize, 500, LIM as int);
        lemma_fxmul_bound(game@.field.x, 500, LIM as int);
    }
    let mid = mul_fx(game.field.y, 500);
    let hg = mul_fx(game.goalSize, 500);
    if p.position.y > mid - hg && p.position.y < mid + hg {
        let reset = Entity {
            position: game.field.mul(500),
            velocity: Vec2 { x: 0, y: 0 },
            ..p
        };
        if p.position.x < 0 && p.velocity.x < 0 {
            let ghost before = game.entities@;
            set_entity(&mut game.entities, game.puck, reset);
            game.opponentScore = game.opponentScore + 1;
            proof {
                lemma_map_update(before, game.puck as int, reset);
                assert(game@ =~= goals_spec(old(game)@));
            }
        } else if p.position.x > game.field.x && p.velocity.x > 0 {
            let ghost before = game.entities@;
            set_entity(&mut game.entities, game.puck, reset);
            game.playerScore = game.playerScore + 1;
            proof {
                lemma_map_update(before, game.puck as int, reset);
                assert(game@ =~= goals_spec(old(game)@));
            }
        }
    }
}

} // verus!
