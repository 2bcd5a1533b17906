use air_hockey::game::{
    applyEvent, handleControls, handleGoals, handleOpponent, score_markers, setupGame,
    updateFrame, updateGame, Event,
};
use air_hockey::vec2::Vec2;

fn v(x: i64, y: i64) -> Vec2 {
    Vec2 { x, y }
}

#[test]
fn setup_builds_the_expected_world() {
    let game = setupGame();
    assert_eq!(game.field, v(640_000, 480_000));
    assert_eq!(game.goalSize, 250_000);
    assert_eq!(game.entities.len(), 7);
    assert_eq!(game.entities[game.player].position, v(100_000, 240_000));
    assert_eq!(game.entities[game.opponent].position, v(540_000, 240_000));
    assert_eq!(game.entities[game.puck].position, v(320_000, 240_000));
    assert_eq!(game.entities[2].position, v(0, 115_000));
    assert_eq!(game.entities[3].position, v(0, 365_000));
    assert_eq!(game.entities[4].position, v(640_000, 115_000));
    assert_eq!(game.entities[5].position, v(640_000, 365_000));
    assert_eq!(game.paddles, vec![0, 1, 2, 3, 4, 5]);
    assert_eq!(game.objects.each().as_slice(), &[0, 1, 2, 3, 4, 5, 6]);
    assert_eq!((game.playerScore, game.opponentScore), (0, 0));
    assert!(game.in_bounds());
}

// A puck in the gap band past the left edge, still moving left, scores
// for the opponent and resets to the field center at rest.
#[test]
fn goal_scores_and_resets_puck() {
    let mut game = setupGame();
    game.entities[game.puck].position = v(-1000, 240_000);
    game.entities[game.puck].velocity = v(-1000, 0);
    handleGoals(&mut game);
    assert_eq!(game.opponentScore, 1);
    assert_eq!(game.playerScore, 0);
    assert_eq!(game.entities[game.puck].position, v(320_000, 240_000));
    assert_eq!(game.entities[game.puck].velocity, v(0, 0));
}

// The velocity-direction guard: a puck past the goal line but moving back
// into the field does not score.
#[test]
fn goal_needs_outward_velocity() {
    let mut game = setupGame();
    game.entities[game.puck].position = v(-1000, 240_000);
    game.entities[game.puck].velocity = v(500, 0);
    handleGoals(&mut game);
    assert_eq!((game.playerScore, game.opponentScore), (0, 0));
    assert_eq!(game.entities[game.puck].position, v(-1000, 240_000));
}

#[test]
fn goal_on_the_right_credits_the_player() {
    let mut game = setupGame();
    game.entities[game.puck].position = v(641_000, 250_000);
    game.entities[game.puck].velocity = v(2000, 0);
    handleGoals(&mut game);
    assert_eq!((game.playerScore, game.opponentScore), (1, 0));
}

// A puck outside the gap band never scores, whatever its velocity.
#[test]
fn no_goal_outside_gap_band() {
    let mut game = setupGame();
    game.entities[game.puck].position = v(-1000, 50_000);
    game.entities[game.puck].velocity = v(-1000, 0);
    handleGoals(&mut game);
    assert_eq!((game.playerScore, game.opponentScore), (0, 0));
}

// Player control is a smoothing blend: 0.3 of the old velocity plus 0.5
// of the capped step toward the pointer.
#[test]
fn controls_blend_toward_pointer() {
    let mut game = setupGame();
    game.mouse = v(400_000, 240_000);
    // Far away: step caps at 50 units, so the velocity becomes 25 units.
    handleControls(&mut game);
    assert_eq!(game.entities[game.player].velocity, v(25_000, 0));
    // Once more: 0.3 * 25 + 25 = 32.5 units.
    handleControls(&mut game);
    assert_eq!(game.entities[game.player].velocity, v(32_500, 0));
}

#[test]
fn controls_near_pointer_use_distance() {
    let mut game = setupGame();
    game.mouse = v(110_000, 240_000);
    // Ten units away: step = 10, velocity = 0.5 * 10 = 5 units.
    handleControls(&mut game);
    assert_eq!(game.entities[game.player].velocity, v(5000, 0));
}

// With the player far from a stationary puck and the opponent goal-side
// of it, the AI picks the intercept branch: it drives toward the puck,
// not toward the defend midpoint (which lies the other way).
#[test]
fn opponent_intercepts_stationary_puck() {
    let mut game = setupGame();
    game.entities[game.player].position = v(80_000, 240_000);
    game.entities[game.opponent].position = v(430_000, 240_000);
    game.entities[game.puck].position = v(320_000, 240_000);
    game.entities[game.puck].velocity = v(0, 0);
    handleOpponent(&mut game);
    // Intercept at speed 3 toward the puck (negative x), blended by 0.15:
    // the defend branch would instead give +450 toward (480, 240).
    assert_eq!(game.entities[game.opponent].velocity, v(-450, 0));
}

#[test]
fn opponent_defends_when_player_is_near() {
    let mut game = setupGame();
    game.entities[game.player].position = v(300_000, 240_000);
    game.entities[game.opponent].position = v(430_000, 240_000);
    game.entities[game.puck].position = v(320_000, 240_000);
    game.entities[game.puck].velocity = v(0, 0);
    handleOpponent(&mut game);
    // Defend midpoint of puck and own goal is (480, 240): east of the
    // opponent, so the blended velocity points toward positive x.
    assert_eq!(game.entities[game.opponent].velocity, v(450, 0));
}

#[test]
fn opponent_attacks_close_puck() {
    let mut game = setupGame();
    game.entities[game.player].position = v(100_000, 240_000);
    game.entities[game.opponent].position = v(400_000, 240_000);
    game.entities[game.puck].position = v(320_000, 240_000);
    game.entities[game.puck].velocity = v(0, 0);
    handleOpponent(&mut game);
    // Attack: 80 units away (< 100), goal-side, puck still: speed 10
    // toward the puck, blended by 0.15.
    assert_eq!(game.entities[game.opponent].velocity, v(-1500, 0));
}

#[test]
fn update_pass_moves_registered_objects() {
    let mut game = setupGame();
    game.entities[game.player].velocity = v(1000, 0);
    game.entities[game.puck].velocity = v(2000, 0);
    updateGame(&mut game);
    assert_eq!(game.entities[game.player].position, v(101_000, 240_000));
    // Puck: integrate, then damp by 0.99.
    assert_eq!(game.entities[game.puck].position, v(322_000, 240_000));
    assert_eq!(game.entities[game.puck].velocity, v(1980, 0));
}

#[test]
fn events_drive_mouse_and_stop_flag() {
    let mut game = setupGame();
    assert!(applyEvent(&mut game, Event::PointerMoved(5000, 6000)));
    assert_eq!(game.mouse, v(5000, 6000));
    assert!(applyEvent(&mut game, Event::NoEvent));
    assert!(applyEvent(&mut game, Event::KeyPressed(65)));
    assert!(!applyEvent(&mut game, Event::KeyPressed(27)));
    assert!(!applyEvent(&mut game, Event::QuitRequested));
    assert_eq!(game.mouse, v(5000, 6000));
}

#[test]
fn frames_keep_the_world_in_bounds() {
    let mut game = setupGame();
    game.mouse = v(320_000, 240_000);
    for _ in 0..100 {
        assert!(game.in_bounds());
        updateFrame(&mut game);
    }
    assert!(game.in_bounds());
    assert_eq!(game.objects.each().len(), 7);
}

#[test]
fn in_bounds_rejects_bad_handles() {
    let mut game = setupGame();
    assert!(game.in_bounds());
    game.player = 99;
    assert!(!game.in_bounds());
}

// Score markers form a square-ish ceil(sqrt(score))-column grid from the
// anchor, one direction step per column, one same-length downward step
// per row.
#[test]
fn score_marker_grid() {
    let markers = score_markers(4, v(10_000, 10_000), v(10_000, 0));
    assert_eq!(
        markers,
        vec![
            v(10_000, 10_000),
            v(10_000, 20_000),
            v(20_000, 10_000),
            v(20_000, 20_000),
        ]
    );
    assert_eq!(score_markers(0, v(0, 0), v(10_000, 0)).len(), 0);
    // Score 2: ceil(sqrt(2)) = 2 columns, so the second marker fills the
    // next row of the first column, not a second column.
    let two = score_markers(2, v(0, 0), v(10_000, 0));
    assert_eq!(two, vec![v(0, 0), v(0, 10_000)]);
    // Score 3: ceil(sqrt(3)) = 2 columns; the third marker starts the
    // second column.
    let three = score_markers(3, v(0, 0), v(0, -10_000));
    assert_eq!(three, vec![v(0, 0), v(0, 10_000), v(0, -10_000)]);
}

#[test]
fn score_marker_grid_at_largest_size() {
    let markers = score_markers(1_000_000, v(0, 0), v(1000, 0));
    assert_eq!(markers.len(), 1_000_000);
    // A perfect square: exactly 1000 columns, and the last marker sits
    // 999 columns right, 999 rows down.
    assert_eq!(markers[999_999], v(999_000, 999_000));
}
