use air_hockey::entity::{newPaddle, newPole, newPuck, update_object, Entity, Kind};
use air_hockey::game::{
    between, distance, getBounceImpact, getSurface, velocityTowards, Game,
};
use air_hockey::pendinglist::PendingList;
use air_hockey::vec2::Vec2;

fn v(x: i64, y: i64) -> Vec2 {
    Vec2 { x, y }
}

/// A bare game with the given entities; entity 0 is the player paddle,
/// 1 the opponent paddle, the last one the puck.
fn game_with(entities: Vec<Entity>, paddles: Vec<usize>) -> Game {
    let puck = entities.len() - 1;
    let mut game = Game {
        entities,
        objects: PendingList(),
        player: 0,
        playerScore: 0,
        opponent: 1,
        opponentScore: 0,
        puck,
        paddles,
        field: v(640_000, 480_000),
        goalSize: 250_000,
        mouse: v(0, 0),
    };
    for i in 0..game.entities.len() {
        game.objects.add(i);
    }
    game.objects.handlePending();
    game
}

#[test]
fn between_is_strict() {
    assert!(between(5i64, 1, 10));
    assert!(!between(1i64, 1, 10));
    assert!(!between(10i64, 1, 10));
    assert!(!between(0i64, 1, 10));
    assert!(between(-1i64, -2000, 10_000));
}

#[test]
fn distance_is_length_of_difference() {
    assert_eq!(distance(v(0, 0), v(3000, 4000)), 5000);
    assert_eq!(distance(v(3000, 4000), v(0, 0)), 5000);
    assert_eq!(distance(v(1000, 1000), v(1000, 1000)), 0);
}

#[test]
fn velocity_towards_caps_at_speed() {
    // Far away: full speed along the direction.
    assert_eq!(velocityTowards(v(0, 0), v(100_000, 0), 10_000), v(10_000, 0));
    // Nearer than the speed: arrive without overshoot.
    assert_eq!(velocityTowards(v(0, 0), v(4000, 0), 10_000), v(4000, 0));
    // Coincident: stay put.
    assert_eq!(velocityTowards(v(5, 5), v(5, 5), 10_000), v(0, 0));
}

// The speed clamp caps the magnitude at 30, the position integrates the
// clamped velocity, and damping multiplies by 0.99 after the clamp:
// a speed of 50 along the x-axis leaves exactly 30 * 0.99 = 29.7.
#[test]
fn puck_speed_clamp_and_damping() {
    let mut p = newPuck(v(320_000, 240_000));
    p.velocity = v(50_000, 0);
    update_object(&mut p);
    assert_eq!(p.velocity, v(29_700, 0));
    assert_eq!(p.position, v(350_000, 240_000));

    // Below the cap the speed only gets damped.
    let mut q = newPuck(v(0, 0));
    q.velocity = v(10_000, 0);
    update_object(&mut q);
    assert_eq!(q.velocity, v(9_900, 0));
    assert_eq!(q.position, v(10_000, 0));
}

#[test]
fn paddle_update_integrates_position() {
    let mut p = newPaddle(v(100_000, 240_000));
    p.velocity = v(2000, -3000);
    update_object(&mut p);
    assert_eq!(p.position, v(102_000, 237_000));
    assert_eq!(p.velocity, v(2000, -3000));
}

#[test]
fn constructors_fix_radius_and_kind() {
    let paddle = newPaddle(v(1, 2));
    assert_eq!(paddle.radius, 40_000);
    assert_eq!(paddle.kind, Kind::Paddle);
    let pole = newPole(v(1, 2));
    assert_eq!(pole.radius, 20_000);
    assert_eq!(pole.kind, Kind::Paddle);
    let puck = newPuck(v(1, 2));
    assert_eq!(puck.radius, 30_000);
    assert_eq!(puck.kind, Kind::Puck);
    assert_eq!(puck.velocity, v(0, 0));
}

// The literal bounce formula: impulse only when the impact (dot of surface
// normal and velocity) is negative, scaled by 1 + bounciness = 1.9.
#[test]
fn bounce_impact_sign_convention() {
    // Receding along the normal: no impulse.
    assert_eq!(getBounceImpact(v(1000, 0), v(5000, 0), 900), v(0, 0));
    // Approaching: impact = -3, impulse = normal * impact * 1.9.
    assert_eq!(getBounceImpact(v(1000, 0), v(-3000, 0), 900), v(-5700, 0));
}

// The contact normal is the normalized puck-minus-paddle offset, and the
// impact acts on the relative velocity: a puck moving at (5, 0) toward a
// paddle ahead of it at (115, 100) has normal (-1, 0) and impact -5, so
// the impulse applies; the same puck with the paddle behind it at
// (85, 100) has normal (1, 0) and impact 5, so it is untouched.
#[test]
fn paddle_bounce_uses_relative_offset_sign() {
    let mut puck = newPuck(v(100_000, 100_000));
    puck.radius = 10_000;
    puck.velocity = v(5000, 0);
    let mut paddle = newPaddle(v(115_000, 100_000));
    paddle.radius = 10_000;
    let mut game = game_with(vec![paddle, paddle, puck], vec![0]);
    air_hockey::game::handleCollision(&mut game);
    // impact = dot((-1,0), (5,0)) = -5 < 0: velocity -= (-1,0)*(-5)*1.9.
    assert_eq!(game.entities[2].velocity, v(-4500, 0));

    let mut puck2 = newPuck(v(100_000, 100_000));
    puck2.radius = 10_000;
    puck2.velocity = v(5000, 0);
    let mut paddle2 = newPaddle(v(85_000, 100_000));
    paddle2.radius = 10_000;
    let mut game2 = game_with(vec![paddle2, paddle2, puck2], vec![0]);
    air_hockey::game::handleCollision(&mut game2);
    // impact = dot((1,0), (5,0)) = 5 >= 0: already separating, untouched.
    assert_eq!(game2.entities[2].velocity, v(5000, 0));
}

// Inside the goal-gap band there is no wall; outside it the crossed edge
// reports its inward normal, first match winning.
#[test]
fn surface_lookup() {
    let mut puck = newPuck(v(5000, 240_000));
    puck.radius = 10_000;
    let game = game_with(vec![newPaddle(v(0, 0)), newPaddle(v(0, 0)), puck], vec![]);
    // y = 240 sits inside the gap band (115..365): a scoring opening.
    assert_eq!(getSurface(&game, &game.entities[2]), None);

    let mut low = game.entities[2];
    low.position = v(5000, 50_000);
    assert_eq!(getSurface(&game, &low), Some(v(1000, 0)));
    low.position = v(635_000, 50_000);
    assert_eq!(getSurface(&game, &low), Some(v(-1000, 0)));
    low.position = v(320_000, 5000);
    assert_eq!(getSurface(&game, &low), Some(v(0, 1000)));
    low.position = v(320_000, 475_000);
    assert_eq!(getSurface(&game, &low), Some(v(0, -1000)));
    low.position = v(320_000, 50_000);
    assert_eq!(getSurface(&game, &low), None);
}

// A puck crossing the left edge outside the gap band reflects its
// x-velocity: velocity (-3, 0) becomes (2.7, 0) under restitution 0.9.
#[test]
fn wall_bounce_reflects_velocity() {
    let mut puck = newPuck(v(5000, 50_000));
    puck.radius = 10_000;
    puck.velocity = v(-3000, 0);
    let mut game = game_with(vec![newPaddle(v(0, 0)), newPaddle(v(0, 0)), puck], vec![]);
    air_hockey::game::handleCollision(&mut game);
    assert_eq!(game.entities[2].velocity, v(2700, 0));
}
