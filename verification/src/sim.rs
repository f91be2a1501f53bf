//! The simulation facade: configuration, ticking, clicking, pausing and
//! the drawing snapshot.

use vstd::prelude::*;
use crate::fixed::{fp_in_range, sp_divt, divt, FP_MAX, SCALE};
use crate::body::{
    Body, BodyV, Vec2, Drawable, DrawableV, body_wf, seq_view, bodies_wf,
    sp_radius_from_mass, new_body,
};
use crate::physics::{
    sp_tick_bodies, sp_predicted_orbit, points_view, step_bodies, survivors, shift_pass,
    predict_orbit, copy_bodies, lemma_tick_props,
};
use crate::store::{Store, store_inv, sp_select, sp_surface_dist};
use crate::rng::{rng_from_seed, sample_range};

verus! {

/// How close (in world units) a click must land to a body's surface to
/// select it.
pub const SELECTION_TOLERANCE: i128 = 5000;

/// The largest accepted population; keeps ids and loop counters small.
pub const MAX_BODIES: usize = 100_000;

/// The one-time setup parameters of a simulation.
#[derive(Clone, Copy, PartialEq, Eq, Structural, Debug)]
pub struct Config {
    /// Mass of the central sun.
    pub sun_mass: i128,
    /// How many ordinary bodies to scatter, besides the sun.
    pub body_count: usize,
    /// World width; body positions are drawn from `[0, world_width)`.
    pub world_width: i128,
    /// World height; body positions are drawn from `[0, world_height)`.
    pub world_height: i128,
    /// Bound for the initial velocity components; zero means all bodies
    /// start at rest.
    pub initial_speed: i128,
    /// Upper bound (exclusive) for the initial mass of an ordinary body.
    pub max_initial_mass: i128,
    /// The gravitational constant, a calibration knob.
    pub gravity: i128,
}

/// Why a configuration was rejected.
#[derive(Clone, Copy, PartialEq, Eq, Structural, Debug)]
pub enum ConfigError {
    NoBodies,
    TooManyBodies,
    BadSunMass,
    BadWorldBounds,
    BadSpeedRange,
    BadMassRange,
    BadGravity,
}

/// The validation verdict on a configuration, checked in a fixed order.
pub open spec fn sp_validate(c: Config) -> Option<ConfigError> {
    if c.body_count == 0 {
        Some(ConfigError::NoBodies)
    } else if c.body_count > MAX_BODIES {
        Some(ConfigError::TooManyBodies)
    } else if !(0 < c.sun_mass <= FP_MAX) {
        Some(ConfigError::BadSunMass)
    } else if !(0 < c.world_width <= FP_MAX && 0 < c.world_height <= FP_MAX) {
        Some(ConfigError::BadWorldBounds)
    } else if !(0 <= c.initial_speed <= FP_MAX) {
        Some(ConfigError::BadSpeedRange)
    } else if !(SCALE + 1 < c.max_initial_mass <= FP_MAX) {
        Some(ConfigError::BadMassRange)
    } else if !(-FP_MAX <= c.gravity <= FP_MAX) {
        Some(ConfigError::BadGravity)
    } else {
        None
    }
}

/// The sun a valid configuration creates: centered in the world, at rest,
/// with the reserved id `-1`.
pub open spec fn sp_sun_body(c: Config) -> BodyV {
    BodyV {
        id: -1,
        x: sp_divt(c.world_width as int, 2),
        y: sp_divt(c.world_height as int, 2),
        vx: 0,
        vy: 0,
        mass: c.sun_mass as int,
        radius: sp_radius_from_mass(c.sun_mass as int),
        sun: true,
        selected: false,
        delete: false,
    }
}

/// What initialization promises of the ordinary body at position `k` of
/// the store: id `k - 1`, position inside the world, velocity components
/// within the configured bound (exactly zero when the bound is zero),
/// mass inside the configured open interval, radius derived from the mass.
pub open spec fn sp_init_body_ok(b: BodyV, k: int, c: Config) -> bool {
    &&& b.id == k - 1
    &&& !b.sun
    &&& !b.selected
    &&& !b.delete
    &&& 0 <= b.x < c.world_width as int
    &&& 0 <= b.y < c.world_height as int
    &&& (c.initial_speed as int == 0 ==> b.vx == 0 && b.vy == 0)
    &&& (c.initial_speed as int != 0 ==> -(c.initial_speed as int) <= b.vx < c.initial_speed
        as int && -(c.initial_speed as int) <= b.vy < c.initial_speed as int)
    &&& SCALE as int + 1 <= b.mass < c.max_initial_mass as int
    &&& b.radius == sp_radius_from_mass(b.mass)
}

/// One drawable circle per body.
pub open spec fn sp_drawable_of(b: BodyV) -> DrawableV {
    DrawableV { x: b.x, y: b.y, radius: b.radius, sun: b.sun, select_marker: false }
}

/// The selection marker drawn over a selected body.
pub open spec fn sp_marker_of(b: BodyV) -> DrawableV {
    DrawableV { x: b.x, y: b.y, radius: b.radius, sun: false, select_marker: true }
}

/// The body circles of a drawing snapshot.
pub open spec fn sp_drawables(s: Seq<BodyV>) -> Seq<DrawableV> {
    s.map_values(|b: BodyV| sp_drawable_of(b))
}

/// The selection markers of a drawing snapshot, in store order.
pub open spec fn sp_markers(s: Seq<BodyV>) -> Seq<DrawableV>
    decreases s.len(),
{
    if s.len() == 0 {
        Seq::empty()
    } else {
        let front = sp_markers(s.drop_last());
        if s.last().selected {
            front.push(sp_marker_of(s.last()))
        } else {
            front
        }
    }
}

/// The models of a sequence of drawables.
pub open spec fn drawables_view(s: Seq<Drawable>) -> Seq<DrawableV> {
    s.map_values(|d: Drawable| d@)
}

/// The live simulation: the body store, the pause flag and the lazily
/// computed orbit prediction.
pub struct Core {
    store: Store,
    paused: bool,
    predicted: Option<Vec<Vec2>>,
    gravity: i128,
}

impl Core {
    /// The models of the live bodies.
    pub closed spec fn bodies(&self) -> Seq<BodyV> {
        self.store@
    }

    /// Whether the simulation is paused.
    pub closed spec fn is_paused(&self) -> bool {
        self.paused
    }

    /// The cached orbit prediction, if one has been computed.
    pub closed spec fn orbit(&self) -> Option<Seq<(int, int)>> {
        match self.predicted {
            Some(v) => Some(points_view(v@)),
            None => None,
        }
    }

    /// The gravitational constant in use.
    pub closed spec fn g(&self) -> int {
        self.gravity as int
    }

    /// The simulation's invariant: the store invariant, and a gravitational
    /// constant in range.
    pub open spec fn inv(&self) -> bool {
        &&& store_inv(self.bodies())
        &&& fp_in_range(self.g())
    }

    /// An empty, unpaused simulation.
    pub fn new() -> (c: Core)
        ensures
            c.bodies() == Seq::<BodyV>::empty(),
            !c.is_paused(),
            c.orbit() is None,
            c.g() == 0,
            c.inv(),
    {
        Core { store: Store::new(), paused: false, predicted: None, gravity: 0 }
    }

    /// Install a concrete population and gravitational constant: the
    /// deterministic core of initialization, also usable directly.
    pub fn init_with(&mut self, bodies: Vec<Body>, gravity: i128)
        requires
            store_inv(seq_view(bodies@)),
            fp_in_range(gravity as int),
        ensures
            final(self).bodies() == seq_view(bodies@),
            !final(self).is_paused(),
            final(self).orbit() is None,
            final(self).g() == gravity as int,
            final(self).inv(),
    {
        self.store.replace(bodies);
        self.paused = false;
        self.predicted = None;
        self.gravity = gravity;
    }

    /// Validate the configuration and populate the store: one sun in the
    /// world's center plus `body_count` randomly scattered bodies.  A bad
    /// configuration is rejected whole, leaving the simulation untouched.
    pub fn init(&mut self, cfg: &Config, seed: u64) -> (r: Result<(), ConfigError>)
        ensures
            match r {
                Result::Err(e) => sp_validate(*cfg) == Some(e) && *final(self) == *old(self),
                Result::Ok(()) => {
                    &&& sp_validate(*cfg) is None
                    &&& final(self).inv()
                    &&& final(self).bodies().len() == cfg.body_count + 1
                    &&& final(self).bodies()[0] == sp_sun_body(*cfg)
                    &&& (forall|k: int| 1 <= k < final(self).bodies().len()
                        ==> sp_init_body_ok(#[trigger] final(self).bodies()[k], k, *cfg))
                    &&& !final(self).is_paused()
                    &&& final(self).orbit() is None
                    &&& final(self).g() == cfg.gravity as int
                },
            },
    {
        if cfg.body_count == 0 {
            return Result::Err(ConfigError::NoBodies);
        }
        if cfg.body_count > MAX_BODIES {
            return Result::Err(ConfigError::TooManyBodies);
        }
        if !(0 < cfg.sun_mass && cfg.sun_mass <= FP_MAX) {
            return Result::Err(ConfigError::BadSunMass);
        }
        if !(0 < cfg.world_width && cfg.world_width <= FP_MAX && 0 < cfg.world_height
            && cfg.world_height <= FP_MAX) {
            return Result::Err(ConfigError::BadWorldBounds);
        }
        if !(0 <= cfg.initial_speed && cfg.initial_speed <= FP_MAX) {
            return Result::Err(ConfigError::BadSpeedRange);
        }
        if !(SCALE + 1 < cfg.max_initial_mass && cfg.max_initial_mass <= FP_MAX) {
            return Result::Err(ConfigError::BadMassRange);
        }
        if !(-FP_MAX <= cfg.gravity && cfg.gravity <= FP_MAX) {
            return Result::Err(ConfigError::BadGravity);
        }
        let mut rng = rng_from_seed(seed);
        let mut bodies: Vec<Body> = Vec::new();
        let sun_x = divt(cfg.world_width, 2);
        let sun_y = divt(cfg.world_height, 2);
        let sun = new_body(-1, sun_x, sun_y, 0, 0, cfg.sun_mass, true);
        bodies.push(sun);
        let count = cfg.body_count;
        let mut i: usize = 0;
        while i < count
            invariant
                sp_validate(*cfg) is None,
                count == cfg.body_count,
                i <= count,
                bodies@.len() == i + 1,
                seq_view(bodies@)[0] == sp_sun_body(*cfg),
                forall|k: int| 1 <= k < bodies@.len()
                    ==> sp_init_body_ok(#[trigger] seq_view(bodies@)[k], k, *cfg),
                bodies_wf(seq_view(bodies@)),
            decreases count - i,
        {
            let x = sample_range(&mut rng, 0, cfg.world_width);
            let y = sample_range(&mut rng, 0, cfg.world_height);
            let vx = if cfg.initial_speed == 0 {
                0
            } else {
                sample_range(&mut rng, -cfg.initial_speed, cfg.initial_speed)
            };
            let vy = if cfg.initial_speed == 0 {
                0
            } else {
                sample_range(&mut rng, -cfg.initial_speed, cfg.initial_speed)
            };
            let mass = sample_range(&mut rng, SCALE + 1, cfg.max_initial_mass);
            let b = new_body(i as i64, x, y, vx, vy, mass, false);
            let ghost prev = seq_view(bodies@);
            bodies.push(b);
            proof {
                assert forall|k: int| 1 <= k < bodies@.len() implies sp_init_body_ok(
                    #[trigger] seq_view(bodies@)[k], k, *cfg) by {
                    if k < prev.len() {
                        assert(seq_view(bodies@)[k] == prev[k]);
                    } else {
                        assert(seq_view(bodies@)[k] == b@);
                    }
                }
                assert(seq_view(bodies@)[0] == prev[0]);
                assert forall|k: int| 0 <= k < seq_view(bodies@).len() implies body_wf(
                    #[trigger] seq_view(bodies@)[k]) by {
                    if k < prev.len() {
                        assert(seq_view(bodies@)[k] == prev[k]);
                    } else {
                        assert(seq_view(bodies@)[k] == b@);
                    }
                }
            }
            i += 1;
        }
        proof {
            let sv = seq_view(bodies@);
            assert forall|a: int, b0: int| 0 <= a < b0 < sv.len() implies (#[trigger] sv[a]).id
                != (#[trigger] sv[b0]).id by {
                if a == 0 {
                    assert(sv[a].id == -1 && sv[b0].id == b0 - 1);
                } else {
                    assert(sv[a].id == a - 1 && sv[b0].id == b0 - 1);
                }
            }
            assert forall|a: int, b0: int| 0 <= a < b0 < sv.len() implies !((
            #[trigger] sv[a]).selected && (#[trigger] sv[b0]).selected) by {
                assert(!sv[b0].selected);
            }
            assert forall|k: int| 0 <= k < sv.len() implies !(#[trigger] sv[k]).delete by {
                if k >= 1 {
                    assert(sp_init_body_ok(sv[k], k, *cfg));
                }
            }
        }
        self.store.replace(bodies);
        self.paused = false;
        self.predicted = None;
        self.gravity = cfg.gravity;
        Result::Ok(())
    }

    /// Advance the simulation by `dt` (with a display-space camera offset),
    /// or — while paused — leave every body untouched and compute the orbit
    /// prediction once, lazily.
    pub fn tick(&mut self, dt: i128, camera_x: i128, camera_y: i128)
        requires
            old(self).inv(),
            fp_in_range(dt as int),
            fp_in_range(camera_x as int),
            fp_in_range(camera_y as int),
        ensures
            final(self).inv(),
            final(self).g() == old(self).g(),
            final(self).is_paused() == old(self).is_paused(),
            old(self).is_paused() ==> {
                &&& final(self).bodies() == old(self).bodies()
                &&& (old(self).orbit() is Some ==> final(self).orbit() == old(self).orbit())
                &&& (old(self).orbit() is None ==> final(self).orbit() == Some(
                    sp_predicted_orbit(old(self).bodies(), dt as int, old(self).g())))
            },
            !old(self).is_paused() ==> {
                &&& final(self).bodies() == sp_tick_bodies(old(self).bodies(), dt as int,
                    old(self).g(), camera_x as int, camera_y as int)
                &&& final(self).orbit() == old(self).orbit()
            },
    {
        if self.paused {
            if self.predicted.is_none() {
                let snap = self.store.snapshot();
                let pts = predict_orbit(&snap, dt, self.gravity);
                self.predicted = Some(pts);
            }
            return;
        }
        let snap = self.store.snapshot();
        let stepped = step_bodies(&snap, dt, self.gravity);
        let surv = survivors(&stepped);
        let shifted = shift_pass(&surv, camera_x, camera_y);
        proof {
            lemma_tick_props(old(self).bodies(), dt as int, old(self).g(), camera_x as int,
                camera_y as int);
            assert forall|k: int| 0 <= k < seq_view(shifted@).len() implies !(
            #[trigger] seq_view(shifted@)[k]).delete by {
                assert(!seq_view(surv@)[k].delete);
            }
        }
        self.store.replace(shifted);
    }

    /// Register a click: any cached prediction is dropped, and the body
    /// whose surface lies nearest to the click point (strictly within the
    /// selection tolerance) becomes the single selected body; a click on
    /// empty space clears every selection.
    pub fn click(&mut self, px: i128, py: i128)
        requires
            old(self).inv(),
            fp_in_range(px as int),
            fp_in_range(py as int),
        ensures
            final(self).inv(),
            final(self).g() == old(self).g(),
            final(self).is_paused() == old(self).is_paused(),
            final(self).orbit() is None,
            (forall|j: int| 0 <= j < old(self).bodies().len() ==> sp_surface_dist(
                #[trigger] old(self).bodies()[j], px as int, py as int)
                >= SELECTION_TOLERANCE as int) ==> final(self).bodies() == sp_select(
                old(self).bodies(), None),
            (exists|j: int| 0 <= j < old(self).bodies().len() && sp_surface_dist(
                #[trigger] old(self).bodies()[j], px as int, py as int)
                < SELECTION_TOLERANCE as int) ==> (exists|i: int| {
                &&& 0 <= i < old(self).bodies().len()
                &&& sp_surface_dist(#[trigger] old(self).bodies()[i], px as int, py as int)
                    < SELECTION_TOLERANCE as int
                &&& (forall|j: int| 0 <= j < old(self).bodies().len() ==> sp_surface_dist(
                    #[trigger] old(self).bodies()[j], px as int, py as int)
                    >= sp_surface_dist(old(self).bodies()[i], px as int, py as int))
                &&& (forall|j: int| 0 <= j < i ==> sp_surface_dist(
                    #[trigger] old(self).bodies()[j], px as int, py as int)
                    > sp_surface_dist(old(self).bodies()[i], px as int, py as int))
                &&& final(self).bodies() == sp_select(old(self).bodies(), Some(
                    old(self).bodies()[i].id))
            }),
    {
        self.predicted = None;
        let target = self.store.find_nearest_within(px, py, SELECTION_TOLERANCE);
        self.store.set_selection(target);
    }

    /// Toggle the pause flag; unpausing invalidates the cached prediction.
    pub fn pause(&mut self)
        requires
            old(self).inv(),
        ensures
            final(self).inv(),
            final(self).bodies() == old(self).bodies(),
            final(self).g() == old(self).g(),
            final(self).is_paused() == !old(self).is_paused(),
            final(self).is_paused() ==> final(self).orbit() == old(self).orbit(),
            !final(self).is_paused() ==> final(self).orbit() is None,
    {
        if self.paused {
            self.paused = false;
            self.predicted = None;
        } else {
            self.paused = true;
        }
    }

    /// An immutable copy of every live body.
    pub fn snapshot(&self) -> (r: Vec<Body>)
        ensures
            seq_view(r@) == self.bodies(),
    {
        self.store.snapshot()
    }

    /// Whether the simulation is currently paused.
    pub fn paused_now(&self) -> (r: bool)
        ensures
            r == self.is_paused(),
    {
        self.paused
    }

    /// The drawing snapshot: one circle per body, then one selection
    /// marker per selected body, plus the predicted orbit points (empty
    /// when no prediction is cached).
    pub fn draw(&self) -> (r: (Vec<Drawable>, Vec<Vec2>))
        ensures
            drawables_view(r.0@) == sp_drawables(self.bodies()) + sp_markers(self.bodies()),
            points_view(r.1@) == (match self.orbit() {
                Some(o) => o,
                None => Seq::<(int, int)>::empty(),
            }),
    {
        let ghost sv = self.bodies();
        let snap = self.store.snapshot();
        let n = snap.len();
        let mut out: Vec<Drawable> = Vec::new();
        let mut i: usize = 0;
        while i < n
            invariant
                n == snap.len(),
                i <= n,
                sv == seq_view(snap@),
                drawables_view(out@) == sp_drawables(sv).take(i as int),
            decreases n - i,
        {
            proof {
                assert(sv[i as int] == snap@[i as int]@);
            }
            let b = snap[i];
            let ghost prev = drawables_view(out@);
            out.push(Drawable {
                x: b.x,
                y: b.y,
                radius: b.radius,
                sun: b.sun,
                select_marker: false,
            });
            proof {
                assert(drawables_view(out@) =~= prev.push(sp_drawable_of(sv[i as int])));
                assert(drawables_view(out@) =~= sp_drawables(sv).take(i as int + 1));
            }
            i += 1;
        }
        proof {
            assert(sp_drawables(sv).take(n as int) =~= sp_drawables(sv));
            assert(drawables_view(out@) =~= sp_drawables(sv) + sp_markers(sv.take(0)));
        }
        let mut i: usize = 0;
        while i < n
            invariant
                n == snap.len(),
                i <= n,
                sv == seq_view(snap@),
                drawables_view(out@) == sp_drawables(sv) + sp_markers(sv.take(i as int)),
            decreases n - i,
        {
            proof {
                assert(sv[i as int] == snap@[i as int]@);
                assert(sv.take(i as int + 1).drop_last() =~= sv.take(i as int));
                assert(sv.take(i as int + 1).last() == sv[i as int]);
            }
            let b = snap[i];
            if b.selected {
                let ghost prev = drawables_view(out@);
                out.push(Drawable {
                    x: b.x,
                    y: b.y,
                    radius: b.radius,
                    sun: false,
                    select_marker: true,
                });
                proof {
                    assert(drawables_view(out@) =~= prev.push(sp_marker_of(sv[i as int])));
                    assert(drawables_view(out@) =~= sp_drawables(sv) + sp_markers(sv.take(
                        i as int + 1)));
                }
            }
            i += 1;
        }
        proof {
            assert(sv.take(n as int) =~= sv);
        }
        let pts: Vec<Vec2> = match &self.predicted {
            Some(v) => copy_points(v),
            None => Vec::new(),
        };
        proof {
            if self.orbit() is None {
                assert(points_view(pts@) =~= Seq::<(int, int)>::empty());
            }
        }
        (out, pts)
    }
}

/// A plain element-wise copy of a point list.
fn copy_points(v: &Vec<Vec2>) -> (r: Vec<Vec2>)
    ensures
        r@ == v@,
{
    let mut r: Vec<Vec2> = Vec::new();
    let mut i: usize = 0;
    while i < v.len()
        invariant
            i <= v.len(),
            r@ == v@.take(i as int),
        decreases v.len() - i,
    {
        r.push(v[i]);
        proof {
            assert(r@ =~= v@.take(i as int + 1));
        }
        i += 1;
    }
    proof {
        assert(r@ =~= v@);
    }
    r
}

} // verus!
