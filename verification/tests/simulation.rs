use ball_and_chain::body::Ball;
use ball_and_chain::collision::{Collision, Segment};
use ball_and_chain::game::Game;
use ball_and_chain::vec2::Vec2;

fn v(x: i64, y: i64) -> Vec2 {
    Vec2 { x, y }
}

fn flat_ground() -> Vec<Segment> {
    // One solid floor from (-10, 0) to (10, 0); its winding makes the
    // upper side the walkable one.
    vec![Segment { p1: v(-10_000, 0), p2: v(10_000, 0) }]
}

#[test]
fn gravity_accelerates_and_moves_a_free_body() {
    let mut b = Ball::new(v(0, 0), 500);
    b.update(&Vec::new(), 1000);
    assert_eq!(b.vel.y, -50_000);
    assert_eq!(b.pos.y, -50_000);
    assert_eq!(b.pos.x, 0);
    assert!(!b.stand);
}

#[test]
fn grounded_body_velocity_is_zeroed() {
    let mut b = Ball::new(v(0, 500), 500);
    b.vel = v(3000, -2000);
    b.stand = true;
    b.update(&flat_ground(), 1000);
    assert_eq!(b.vel, v(0, 0));
    assert!(b.stand);
}

#[test]
fn detect_reports_exact_contact_on_flat_ground() {
    let b = Ball::new(v(0, 400), 500);
    let seg = flat_ground()[0];
    let c = b.collide(&seg).unwrap();
    assert_eq!(c, Collision { normal: v(0, 1000), penetration: 100 });
}

#[test]
fn detect_reports_nothing_for_a_distant_circle() {
    let seg = flat_ground()[0];
    // Far above the line.
    assert!(Ball::new(v(0, 2000), 500).collide(&seg).is_none());
    // Beyond an endpoint, far from it.
    assert!(Ball::new(v(-11_000, 0), 500).collide(&seg).is_none());
    // Exactly at the radius from an endpoint: no overlap, no contact.
    assert!(Ball::new(v(-10_500, 0), 500).collide(&seg).is_none());
}

#[test]
fn detect_contact_at_an_endpoint() {
    let seg = flat_ground()[0];
    let c = Ball::new(v(-10_300, 0), 500).collide(&seg).unwrap();
    assert_eq!(c.penetration, 200);
    assert_eq!(c.normal, v(-1000, 0));
}

#[test]
fn landing_on_flat_ground_stops_and_grounds_the_body() {
    let mut b = Ball::new(v(0, 700), 500);
    b.vel = v(0, -400);
    b.update(&flat_ground(), 100);
    // The body sank into the floor and was pushed back to rest exactly on
    // it, the downward velocity fully damped.
    assert!(b.stand);
    assert_eq!(b.pos, v(0, 500));
    assert_eq!(b.vel, v(0, 0));
}

#[test]
fn chain_pull_drags_character_onto_the_chain_circle() {
    let mut g = Game::new(Vec::new());
    g.player.ball_in_hands = false;
    g.player.ball.pos = v(5000, 0);
    g.player.chain_len = 2000;
    // A zero-length step runs only the constraint logic.
    g.update(0, false);
    assert_eq!(g.player.character.pos, v(3000, 0));
    assert_eq!(g.player.ball.pos, v(5000, 0));
}

#[test]
fn slack_chain_never_pushes() {
    let mut g = Game::new(Vec::new());
    g.player.ball_in_hands = false;
    g.player.ball.pos = v(1000, 0);
    g.player.chain_len = 2000;
    g.update(0, false);
    assert_eq!(g.player.character.pos, v(0, 0));
}

#[test]
fn reset_restores_the_starting_state() {
    let mut g = Game::new(flat_ground());
    g.player.character.pos = v(4000, 9000);
    g.player.ball.pos = v(1000, 2000);
    g.player.chain_len = 700;
    g.player.ball_in_hands = false;
    g.reset();
    assert_eq!(g.player.character.pos, v(0, 0));
    assert_eq!(g.player.ball.pos, v(0, 0));
    assert!(g.player.ball_in_hands);
    assert_eq!(g.player.chain_len, 1000);
}

#[test]
fn save_then_load_restores_the_saved_state_exactly() {
    let mut g = Game::new(flat_ground());
    g.player.character.pos = v(0, 5000);
    g.update(100, false);
    g.save();
    let snapshot = g.player;
    g.end_swing();
    for _ in 0..20 {
        g.update(200, false);
    }
    assert_ne!(g.player, snapshot);
    g.load();
    assert_eq!(g.player, snapshot);
}

#[test]
fn load_without_a_save_changes_nothing() {
    let mut g = Game::new(flat_ground());
    g.player.character.pos = v(123, 456);
    let before = g.player;
    g.load();
    assert_eq!(g.player, before);
}

#[test]
fn release_turns_the_velocity_and_resets_the_chain() {
    let mut g = Game::new(flat_ground());
    g.player.ball.vel = v(100, 0);
    g.end_swing();
    assert!(!g.player.ball_in_hands);
    assert_eq!(g.player.ball.vel, v(0, 100));
    assert!(!g.player.ball.stand);
    assert_eq!(g.player.chain_len, 2000);
    // A release with the ball already loose still resets the chain.
    g.player.chain_len = 900;
    g.end_swing();
    assert_eq!(g.player.chain_len, 2000);
}

#[test]
fn shorten_intent_stops_at_its_floor() {
    let mut g = Game::new(flat_ground());
    g.player.chain_len = 60;
    g.update(10_000, true);
    assert_eq!(g.player.chain_len, 50);
}

#[test]
fn swing_velocity_formula_at_time_zero() {
    let mut g = Game::new(flat_ground());
    assert!(g.player.ball_in_hands);
    g.update(0, false);
    assert_eq!(g.player.ball.vel, v(24_975, 0));
}

#[test]
fn released_ball_grounds_retracts_and_returns_to_hand() {
    let mut g = Game::new(flat_ground());
    g.player.character.pos = v(0, 5000);
    g.player.ball.pos = v(0, 5000);
    g.player.ball.vel = v(500, 0);
    g.end_swing();
    assert!(!g.player.ball_in_hands);
    assert_eq!(g.player.ball.vel, v(0, 500));
    assert_eq!(g.player.chain_len, 2000);
    let mut grounded_seen = false;
    let mut returned = false;
    for _ in 0..600 {
        let was_held = g.player.ball_in_hands;
        g.update(200, false);
        if g.player.ball.stand {
            grounded_seen = true;
        }
        if !was_held && g.player.ball_in_hands {
            // The ball comes back to hand only once the chain has fully
            // retracted to its floor.
            assert_eq!(g.player.chain_len, 100);
            returned = true;
            break;
        }
        if !g.player.ball_in_hands {
            assert!(g.player.chain_len >= 100);
        }
    }
    assert!(grounded_seen);
    assert!(returned);
}
