use nbody::body::{new_body, radius_from_mass, Body};
use nbody::fixed::FP_MAX;
use nbody::physics::dist;
use nbody::sim::{Config, ConfigError, Core};
use nbody::store::{surface_distance, BodyUpdate, Store};

const SCALE: i128 = 1000;

fn base_config() -> Config {
    Config {
        sun_mass: 1_000_000_000,
        body_count: 3,
        world_width: 800 * SCALE,
        world_height: 600 * SCALE,
        initial_speed: 10 * SCALE,
        max_initial_mass: 5000 * SCALE,
        gravity: 100 * SCALE,
    }
}

#[test]
fn it_works() {
    let result = dist(11 * SCALE, 11 * SCALE, 10 * SCALE, 10 * SCALE);
    println!("{:?}", result)
}

#[test]
fn test_click_inside() {
    // A ball of radius 1 at (10, 20); a click at (11, 20) lands exactly on
    // its surface, so the solid distance to the ball is 0.
    let body = Body {
        id: 0,
        x: 10 * SCALE,
        y: 20 * SCALE,
        vx: 0,
        vy: 0,
        mass: SCALE,
        radius: SCALE,
        sun: false,
        selected: false,
        delete: false,
    };
    assert_eq!(surface_distance(&body, 11 * SCALE, 20 * SCALE), 0);
}

#[test]
fn mass_to_radius_formula() {
    // radius = cbrt(mass / (4/3 * pi)): for mass 113 the radius is 3,
    // within fixed-point tolerance (2.999).
    let r = radius_from_mass(113 * SCALE);
    assert_eq!(r, 2999);
    assert!((r - 3 * SCALE).abs() <= 2);
}

#[test]
fn mass_to_radius_small_mass() {
    // A mass below the density constant truncates to radius zero.
    assert_eq!(radius_from_mass(1), 0);
}

#[test]
fn distance_is_euclidean() {
    // A 3-4-5 triangle, exactly.
    assert_eq!(dist(0, 0, 3 * SCALE, 4 * SCALE), 5 * SCALE);
    assert_eq!(dist(5, 5, 5, 5), 0);
}

/// The gravity formula, pinned on exact values: with masses 1000, a gap
/// of 20 and G = 0.1, one tick of 1s kicks each body by exactly 0.240
/// toward the other (dv = G * m * dt * dx / d^3, truncated per step).
#[test]
fn gravity_formula_exact() {
    let m = 1000 * SCALE;
    let p = 10 * SCALE;
    let left = new_body(0, -p, 0, 0, 0, m, false);
    let right = new_body(1, p, 0, 0, 0, m, false);
    let mut core = Core::new();
    core.init_with(vec![left, right], 100);
    core.tick(SCALE, 0, 0);
    let snap = core.snapshot();
    assert_eq!(snap[0].vx, 240);
    assert_eq!(snap[0].vy, 0);
    assert_eq!(snap[1].vx, -240);
    assert_eq!(snap[0].x, -p + 240);
    assert_eq!(snap[1].x, p - 240);
}

/// Arithmetic saturates at the representable bound instead of wrapping.
#[test]
fn coordinates_saturate_at_bound() {
    let b = new_body(0, FP_MAX, 0, 0, 0, 10 * SCALE, false);
    let mut core = Core::new();
    core.init_with(vec![b], 0);
    core.tick(0, FP_MAX, 0);
    let snap = core.snapshot();
    assert_eq!(snap[0].x, FP_MAX);
}

/// Two equal masses symmetric about the origin, at rest: one tick turns
/// their velocities toward each other and strictly shrinks the distance.
#[test]
fn two_body_attraction() {
    let m = 1000 * SCALE;
    let p = 10 * SCALE;
    let left = new_body(0, -p, 0, 0, 0, m, false);
    let right = new_body(1, p, 0, 0, 0, m, false);
    let mut core = Core::new();
    core.init_with(vec![left, right], 100);
    let mut last_distance = 2 * p;
    for _ in 0..3 {
        core.tick(SCALE, 0, 0);
        let snap = core.snapshot();
        assert_eq!(snap.len(), 2);
        assert!(snap[0].vx > 0, "left body accelerates right");
        assert!(snap[1].vx < 0, "right body accelerates left");
        let d = dist(snap[0].x, snap[0].y, snap[1].x, snap[1].y);
        assert!(d < last_distance, "distance strictly decreases");
        last_distance = d;
    }
}

/// A sun's velocity is never perturbed by gravity, over any number of
/// ticks with other bodies present.
#[test]
fn sun_immobility() {
    let sun = new_body(-1, 0, 0, 0, 0, 1_000_000_000, true);
    let a = new_body(0, 500 * SCALE, 0, 0, 2 * SCALE, 50 * SCALE, false);
    let b = new_body(1, 0, 400 * SCALE, -2 * SCALE, 0, 80 * SCALE, false);
    let mut core = Core::new();
    core.init_with(vec![sun, a, b], 100 * SCALE);
    for _ in 0..10 {
        core.tick(SCALE, 0, 0);
        let snap = core.snapshot();
        let sun_now = snap.iter().find(|x| x.sun).expect("sun must survive");
        assert_eq!(sun_now.vx, 0);
        assert_eq!(sun_now.vy, 0);
    }
}

/// Two overlapping bodies of masses 10 and 3 merge into one of mass 13;
/// the lighter body's id disappears from the store.
#[test]
fn mass_conservation_single_merge() {
    let heavy = new_body(0, 0, 0, 0, 0, 10 * SCALE, false);
    let light = new_body(1, SCALE, 0, 0, 0, 3 * SCALE, false);
    let mut core = Core::new();
    core.init_with(vec![heavy, light], 0);
    core.tick(SCALE, 0, 0);
    let snap = core.snapshot();
    assert_eq!(snap.len(), 1);
    assert_eq!(snap[0].id, 0);
    assert_eq!(snap[0].mass, 13 * SCALE);
    assert!(!snap.iter().any(|b| b.id == 1));
}

/// The absorber's radius is left stale after a merge: it still reflects
/// the pre-merge mass (the radius is never recomputed on mass change).
#[test]
fn merge_keeps_radius_stale() {
    let heavy = new_body(0, 0, 0, 0, 0, 10 * SCALE, false);
    let light = new_body(1, SCALE, 0, 0, 0, 3 * SCALE, false);
    let expected_radius = heavy.radius;
    let mut core = Core::new();
    core.init_with(vec![heavy, light], 0);
    core.tick(SCALE, 0, 0);
    let snap = core.snapshot();
    assert_eq!(snap[0].radius, expected_radius);
    assert_ne!(snap[0].radius, radius_from_mass(13 * SCALE));
}

/// The merge outcome does not depend on which way the colliding pair is
/// ordered in the store: exactly one absorber, one deletion.
#[test]
fn merge_idempotent_either_order() {
    let heavy = new_body(0, 0, 0, 0, 0, 10 * SCALE, false);
    let light = new_body(1, SCALE, 0, 0, 0, 3 * SCALE, false);

    let mut first = Core::new();
    first.init_with(vec![heavy, light], 0);
    first.tick(SCALE, 0, 0);
    let snap1 = first.snapshot();

    let mut second = Core::new();
    second.init_with(vec![light, heavy], 0);
    second.tick(SCALE, 0, 0);
    let snap2 = second.snapshot();

    assert_eq!(snap1.len(), 1);
    assert_eq!(snap2.len(), 1);
    assert_eq!(snap1[0].id, 0);
    assert_eq!(snap2[0].id, 0);
    assert_eq!(snap1[0].mass, 13 * SCALE);
    assert_eq!(snap2[0].mass, 13 * SCALE);
}

/// The merge velocity rule: the absorber gains the lighter body's
/// velocity scaled by the mass ratio (an approximation kept on purpose).
#[test]
fn merge_velocity_rule() {
    let heavy = new_body(0, 0, 0, 0, 0, 10 * SCALE, false);
    let light = new_body(1, SCALE, 0, 4 * SCALE, 0, 3 * SCALE, false);
    let mut core = Core::new();
    core.init_with(vec![heavy, light], 0);
    core.tick(1, 0, 0);
    let snap = core.snapshot();
    assert_eq!(snap.len(), 1);
    // ratio = 3/10 = 0.3; v = 0 + 4.0 * 0.3 = 1.2
    assert_eq!(snap[0].vx, 1200);
}

/// After a click that hits body X, exactly one body is selected (X); a
/// later click on empty space clears every selection.
#[test]
fn selection_exclusivity() {
    let a = new_body(0, 0, 0, 0, 0, 10 * SCALE, false);
    let b = new_body(1, 100 * SCALE, 0, 0, 0, 10 * SCALE, false);
    let c = new_body(2, 200 * SCALE, 0, 0, 0, 10 * SCALE, false);
    let mut core = Core::new();
    core.init_with(vec![a, b, c], 0);

    core.click(100 * SCALE, 0);
    let snap = core.snapshot();
    let selected: Vec<&Body> = snap.iter().filter(|x| x.selected).collect();
    assert_eq!(selected.len(), 1);
    assert_eq!(selected[0].id, 1);

    core.click(400 * SCALE, 0);
    let snap = core.snapshot();
    assert!(snap.iter().all(|x| !x.selected));
}

/// Ties in click distance go to the body first in iteration order.
#[test]
fn selection_tie_breaks_stable() {
    let a = new_body(7, 0, 0, 0, 0, 3 * SCALE, false);
    let b = new_body(9, 2 * SCALE, 0, 0, 0, 3 * SCALE, false);
    let mut core = Core::new();
    core.init_with(vec![a, b], 0);
    core.click(SCALE, 0);
    let snap = core.snapshot();
    let selected: Vec<&Body> = snap.iter().filter(|x| x.selected).collect();
    assert_eq!(selected.len(), 1);
    assert_eq!(selected[0].id, 7);
}

/// With a fixed seed, pausing and requesting the prediction twice (and in
/// a second simulation initialized the same way) yields the identical
/// point sequence: prediction never mutates live state.
#[test]
fn orbit_prediction_determinism() {
    let cfg = base_config();
    let dt = SCALE;

    let mut first = Core::new();
    assert_eq!(first.init(&cfg, 42), Ok(()));
    first.click(400 * SCALE, 300 * SCALE);
    first.pause();
    let before = first.snapshot();
    first.tick(dt, 0, 0);
    let (_, orbit1) = first.draw();
    first.tick(dt, 0, 0);
    let (_, orbit2) = first.draw();
    assert_eq!(orbit1, orbit2, "requesting the prediction twice changes nothing");
    assert_eq!(before, first.snapshot(), "prediction leaves the live store untouched");

    let mut second = Core::new();
    assert_eq!(second.init(&cfg, 42), Ok(()));
    second.click(400 * SCALE, 300 * SCALE);
    second.pause();
    second.tick(dt, 0, 0);
    let (_, orbit3) = second.draw();
    assert_eq!(orbit1, orbit3, "the same seed gives the same prediction");
}

/// Unpausing invalidates the cached prediction.
#[test]
fn unpause_clears_prediction() {
    let sun = new_body(-1, 0, 0, 0, 0, 1_000_000_000, true);
    let a = new_body(0, 500 * SCALE, 0, 0, 2 * SCALE, 50 * SCALE, false);
    let mut core = Core::new();
    core.init_with(vec![sun, a], 100 * SCALE);
    core.click(500 * SCALE, 0);
    core.pause();
    core.tick(SCALE, 0, 0);
    let (_, orbit) = core.draw();
    assert!(!orbit.is_empty(), "a prediction was cached while paused");
    core.pause();
    let (_, orbit) = core.draw();
    assert!(orbit.is_empty(), "unpausing drops the cached prediction");
}

/// Ticking while paused leaves every body's position, velocity and mass
/// unchanged, however often it is called.
#[test]
fn pause_freezes_physics() {
    let cfg = base_config();
    let mut core = Core::new();
    assert_eq!(core.init(&cfg, 7), Ok(()));
    assert!(!core.paused_now());
    core.pause();
    assert!(core.paused_now());
    let before = core.snapshot();
    for _ in 0..5 {
        core.tick(SCALE, 0, 0);
    }
    assert_eq!(before, core.snapshot());
}

/// The camera offset translates every body after physics resolves.
#[test]
fn camera_offset_translates_all() {
    let a = new_body(0, 0, 0, 0, 0, 10 * SCALE, false);
    let b = new_body(1, 100 * SCALE, 0, 0, 0, 10 * SCALE, false);
    let mut core = Core::new();
    core.init_with(vec![a, b], 0);
    core.tick(0, 3 * SCALE, 4 * SCALE);
    let snap = core.snapshot();
    assert_eq!(snap[0].x, 3 * SCALE);
    assert_eq!(snap[0].y, 4 * SCALE);
    assert_eq!(snap[1].x, 103 * SCALE);
    assert_eq!(snap[1].y, 4 * SCALE);
}

#[test]
fn config_rejected_no_bodies() {
    let mut cfg = base_config();
    cfg.body_count = 0;
    let mut core = Core::new();
    assert_eq!(core.init(&cfg, 1), Err(ConfigError::NoBodies));
    assert!(core.snapshot().is_empty(), "no partial initialization");
}

#[test]
fn config_rejected_too_many_bodies() {
    let mut cfg = base_config();
    cfg.body_count = 100_001;
    let mut core = Core::new();
    assert_eq!(core.init(&cfg, 1), Err(ConfigError::TooManyBodies));
}

#[test]
fn config_rejected_bad_sun_mass() {
    let mut cfg = base_config();
    cfg.sun_mass = 0;
    let mut core = Core::new();
    assert_eq!(core.init(&cfg, 1), Err(ConfigError::BadSunMass));
}

#[test]
fn config_rejected_bad_world_bounds() {
    let mut cfg = base_config();
    cfg.world_height = 0;
    let mut core = Core::new();
    assert_eq!(core.init(&cfg, 1), Err(ConfigError::BadWorldBounds));
}

#[test]
fn config_rejected_bad_speed_range() {
    let mut cfg = base_config();
    cfg.initial_speed = -1;
    let mut core = Core::new();
    assert_eq!(core.init(&cfg, 1), Err(ConfigError::BadSpeedRange));
}

#[test]
fn config_rejected_bad_mass_range() {
    let mut cfg = base_config();
    cfg.max_initial_mass = SCALE;
    let mut core = Core::new();
    assert_eq!(core.init(&cfg, 1), Err(ConfigError::BadMassRange));
}

#[test]
fn config_rejected_bad_gravity() {
    let mut cfg = base_config();
    cfg.gravity = 1_000_000_000_000_000_001;
    let mut core = Core::new();
    assert_eq!(core.init(&cfg, 1), Err(ConfigError::BadGravity));
}

/// A valid configuration populates one sun plus `body_count` bodies, all
/// inside the world, with masses and speeds inside the configured ranges
/// and radii derived from the masses.  This would fail if the random
/// sampling ignored its bounds.
#[test]
fn init_populates_within_ranges() {
    let cfg = base_config();
    let mut core = Core::new();
    assert_eq!(core.init(&cfg, 123), Ok(()));
    let snap = core.snapshot();
    assert_eq!(snap.len(), cfg.body_count + 1);

    let sun = &snap[0];
    assert!(sun.sun);
    assert_eq!(sun.id, -1);
    assert_eq!(sun.x, cfg.world_width / 2);
    assert_eq!(sun.y, cfg.world_height / 2);
    assert_eq!(sun.vx, 0);
    assert_eq!(sun.vy, 0);
    assert_eq!(sun.mass, cfg.sun_mass);
    assert_eq!(sun.radius, radius_from_mass(cfg.sun_mass));

    for (k, b) in snap.iter().enumerate().skip(1) {
        assert_eq!(b.id, k as i64 - 1);
        assert!(!b.sun && !b.selected);
        assert!(0 <= b.x && b.x < cfg.world_width);
        assert!(0 <= b.y && b.y < cfg.world_height);
        assert!(-cfg.initial_speed <= b.vx && b.vx < cfg.initial_speed);
        assert!(-cfg.initial_speed <= b.vy && b.vy < cfg.initial_speed);
        assert!(SCALE < b.mass && b.mass < cfg.max_initial_mass);
        assert_eq!(b.radius, radius_from_mass(b.mass));
    }
}

/// The drawing snapshot lists one circle per body, then one marker per
/// selected body; without a cached prediction the orbit list is empty.
#[test]
fn draw_lists_bodies_then_markers() {
    let sun = new_body(-1, 0, 0, 0, 0, 1_000_000_000, true);
    let a = new_body(0, 300 * SCALE, 0, 0, 0, 10 * SCALE, false);
    let mut core = Core::new();
    core.init_with(vec![sun, a], 0);
    core.click(300 * SCALE, 0);
    let (drawables, orbit) = core.draw();
    assert_eq!(drawables.len(), 3);
    assert!(drawables[0].sun && !drawables[0].select_marker);
    assert!(!drawables[1].sun && !drawables[1].select_marker);
    assert!(drawables[2].select_marker && !drawables[2].sun);
    assert_eq!(drawables[2].x, 300 * SCALE);
    assert_eq!(drawables[2].radius, drawables[1].radius);
    assert!(orbit.is_empty());
}

/// Applying a tick's delta through the store: listed ids are dropped,
/// everything else is overwritten from its update, the radius stays.
#[test]
fn store_apply_updates_and_deletes() {
    let a = new_body(0, 0, 0, 0, 0, 10 * SCALE, false);
    let b = new_body(1, 100 * SCALE, 0, 0, 0, 10 * SCALE, false);
    let old_radius = a.radius;
    let mut store = Store::new();
    store.replace(vec![a, b]);
    let updates = vec![BodyUpdate {
        id: 0,
        x: 5 * SCALE,
        y: 6 * SCALE,
        vx: 7 * SCALE,
        vy: 8 * SCALE,
        mass: 20 * SCALE,
    }];
    let deletions = vec![1i64];
    assert_eq!(store.len(), 2);
    store.apply(&updates, &deletions);
    assert_eq!(store.len(), 1);
    let snap = store.snapshot();
    assert_eq!(snap.len(), 1);
    assert_eq!(snap[0].id, 0);
    assert_eq!(snap[0].x, 5 * SCALE);
    assert_eq!(snap[0].y, 6 * SCALE);
    assert_eq!(snap[0].vx, 7 * SCALE);
    assert_eq!(snap[0].vy, 8 * SCALE);
    assert_eq!(snap[0].mass, 20 * SCALE);
    assert_eq!(snap[0].radius, old_radius);
}

/// A zero speed bound means every body starts exactly at rest.
#[test]
fn init_zero_speed_starts_at_rest() {
    let mut cfg = base_config();
    cfg.initial_speed = 0;
    let mut core = Core::new();
    assert_eq!(core.init(&cfg, 9), Ok(()));
    for b in core.snapshot() {
        assert_eq!(b.vx, 0);
        assert_eq!(b.vy, 0);
    }
}
