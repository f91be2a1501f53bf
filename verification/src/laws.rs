//! The laws of the simulation, stated and proved over the spec-level
//! model: sun immobility, merge idempotence, selection exclusivity, and
//! the attraction of a symmetric pair.

use vstd::prelude::*;
use crate::fixed::{
    sp_clamp, sp_add, sp_mul, sp_div, sp_divt, sp_isqrt, lemma_sp_mul_neg, lemma_sp_divt_neg,
    lemma_isqrt_square, FP_MAX,
};
use crate::body::{BodyV, ids_distinct, sel_exclusive, contains_body_id};
use crate::physics::{
    sp_grav_upto, sp_gravity_all, sp_move_all, sp_move_body, sp_collide_step, sp_collide_upto,
    sp_collide_all, sp_colliding, sp_survivors, sp_shift_body, sp_tick_bodies, sp_dist,
    lemma_grav_upto_frame,
};
use crate::store::sp_select;

verus! {

/// Sun immobility, gravity part: the gravity pass leaves a sun entirely
/// unchanged, and the integration pass never touches a velocity — so a
/// sun's velocity after force and integration is exactly its velocity
/// before, whatever other bodies are present.
pub proof fn lemma_sun_unmoved_by_gravity(s: Seq<BodyV>, dt: int, g: int, i: int)
    requires
        0 <= i < s.len(),
        s[i].sun,
    ensures
        sp_gravity_all(s, dt, g)[i] == s[i],
        sp_move_all(sp_gravity_all(s, dt, g), dt)[i].vx == s[i].vx,
        sp_move_all(sp_gravity_all(s, dt, g), dt)[i].vy == s[i].vy,
{
    lemma_grav_upto_frame(s[i], s, s.len() as int, dt, g);
    let ga = sp_gravity_all(s, dt, g);
    assert(ga[i] == s[i]);
    assert(sp_move_all(ga, dt)[i] == sp_move_body(ga[i], dt));
}

/// A body that overlaps none of the first `k` snapshot bodies (other than
/// itself) passes the collision fold unchanged.
pub proof fn lemma_collide_untouched(b: BodyV, s: Seq<BodyV>, k: int)
    requires
        forall|j: int| 0 <= j < k && j < s.len()
            ==> (#[trigger] s[j]).id == b.id || !sp_colliding(b, s[j]),
        k <= s.len(),
    ensures
        sp_collide_upto(b, s, k) == b,
    decreases k,
{
    if k > 0 {
        lemma_collide_untouched(b, s, k - 1);
    }
}

/// A body that is not marked for deletion survives: it appears, with
/// exactly its value, among the survivors.
pub proof fn lemma_survivors_contains(s: Seq<BodyV>, m: int)
    requires
        0 <= m < s.len(),
        !s[m].delete,
    ensures
        exists|k: int| 0 <= k < sp_survivors(s).len() && (#[trigger] sp_survivors(s)[k]) == s[m],
    decreases s.len(),
{
    let r = sp_survivors(s);
    let butlast = s.drop_last();
    let front = sp_survivors(butlast);
    if m == s.len() - 1 {
        assert(r == front.push(s[m]));
        assert(r[front.len() as int] == s[m]);
    } else {
        assert(butlast[m] == s[m]);
        lemma_survivors_contains(butlast, m);
        let k = choose|k: int| 0 <= k < front.len() && (#[trigger] front[k]) == s[m];
        assert(r[k] == s[m]);
    }
}

/// Sun immobility, full-tick form: when the sun overlaps no other body
/// after the integration pass, a whole tick leaves its velocity exactly as
/// it was, and the sun survives the tick.
pub proof fn lemma_sun_velocity_tick(s: Seq<BodyV>, dt: int, g: int, cx: int, cy: int, i: int)
    requires
        0 <= i < s.len(),
        s[i].sun,
        !s[i].delete,
        ({
            let moved = sp_move_all(sp_gravity_all(s, dt, g), dt);
            forall|j: int| 0 <= j < moved.len() && (#[trigger] moved[j]).id != moved[i].id
                ==> !sp_colliding(moved[i], moved[j])
        }),
    ensures
        exists|k: int| {
            &&& 0 <= k < sp_tick_bodies(s, dt, g, cx, cy).len()
            &&& (#[trigger] sp_tick_bodies(s, dt, g, cx, cy)[k]).id == s[i].id
            &&& sp_tick_bodies(s, dt, g, cx, cy)[k].vx == s[i].vx
            &&& sp_tick_bodies(s, dt, g, cx, cy)[k].vy == s[i].vy
            &&& sp_tick_bodies(s, dt, g, cx, cy)[k].sun
        },
{
    let ga = sp_gravity_all(s, dt, g);
    let moved = sp_move_all(ga, dt);
    lemma_sun_unmoved_by_gravity(s, dt, g, i);
    let collided = sp_collide_all(moved);
    assert(collided[i] == sp_collide_upto(moved[i], moved, moved.len() as int));
    assert forall|j: int| 0 <= j < moved.len() implies (#[trigger] moved[j]).id == moved[i].id
        || !sp_colliding(moved[i], moved[j]) by {
    }
    lemma_collide_untouched(moved[i], moved, moved.len() as int);
    assert(collided[i] == moved[i]);
    assert(!collided[i].delete);
    lemma_survivors_contains(collided, i);
    let surv = sp_survivors(collided);
    let k = choose|k: int| 0 <= k < surv.len() && (#[trigger] surv[k]) == collided[i];
    let r = sp_tick_bodies(s, dt, g, cx, cy);
    assert(r[k] == sp_shift_body(surv[k], cx, cy));
    assert(r[k].id == s[i].id && r[k].vx == s[i].vx && r[k].vy == s[i].vy && r[k].sun);
}

/// A pair of equal bodies placed symmetrically about the origin on the
/// horizontal axis, each moving toward the other with speed `v`.
pub open spec fn sym_state(p: int, v: int, m: int, r: int) -> Seq<BodyV> {
    seq![
        (BodyV {
            id: 0, x: -p, y: 0, vx: v, vy: 0, mass: m, radius: r,
            sun: false, selected: false, delete: false,
        }),
        (BodyV {
            id: 1, x: p, y: 0, vx: -v, vy: 0, mass: m, radius: r,
            sun: false, selected: false, delete: false,
        }),
    ]
}

/// The same pair at rest.
pub open spec fn sym_pair(p: int, m: int, r: int) -> Seq<BodyV> {
    sym_state(p, 0, m, r)
}

/// The velocity kick one body of a symmetric pair at distance `2p`
/// receives in one gravity pass, toward the other body.
pub open spec fn sym_pair_kick(p: int, m: int, dt: int, g: int) -> int {
    let d = 2 * p;
    let d3 = sp_mul(sp_mul(d, d), d);
    sp_mul(sp_div(sp_mul(sp_mul(g, m), dt), d3), d)
}

/// Two-body attraction: two equal masses placed symmetrically about the
/// origin, at rest, accelerate toward each other in one force/integration
/// step — the left body's velocity turns strictly positive, the right
/// body's strictly negative, and their center distance strictly
/// decreases.  Excluded are only the inputs on which the fixed-point kick
/// truncates to zero, or is so large that the bodies would swap sides.
pub proof fn lemma_symmetric_pair_attracts(p: int, m: int, r: int, dt: int, g: int)
    requires
        50 <= p <= (FP_MAX as int) / 2,
        0 < m <= FP_MAX as int,
        0 <= r <= FP_MAX as int,
        0 < dt <= FP_MAX as int,
        0 < g <= FP_MAX as int,
        sp_mul(sp_mul(2 * p, 2 * p), 2 * p) > 0,
        1 <= sym_pair_kick(p, m, dt, g),
        1 <= sp_mul(sym_pair_kick(p, m, dt, g), dt) < 2 * p,
    ensures
        ({
            let s = sym_pair(p, m, r);
            let after = sp_move_all(sp_gravity_all(s, dt, g), dt);
            &&& after[0].vx > 0
            &&& after[1].vx < 0
            &&& sp_dist(after[0].x, after[0].y, after[1].x, after[1].y)
                < sp_dist(s[0].x, s[0].y, s[1].x, s[1].y)
        }),
{
    let s = sym_pair(p, m, r);
    let a = s[0];
    let b = s[1];
    assert(s.len() == 2);

    // The distance between the pair is exactly 2p.
    assert(sp_clamp(b.x - a.x) == 2 * p);
    assert((0int) * (0int) == 0) by (nonlinear_arith);
    lemma_isqrt_square(2 * p);
    assert(sp_dist(a.x, a.y, b.x, b.y) == 2 * p) by {
        assert(sp_clamp(b.y - a.y) == 0);
        assert(sp_clamp(b.x - a.x) * sp_clamp(b.x - a.x) + sp_clamp(b.y - a.y) * sp_clamp(
            b.y - a.y) == (2 * p) * (2 * p));
        assert(sp_isqrt((2 * p) * (2 * p)) == 2 * p);
    }
    assert((-(2 * p)) * (-(2 * p)) == (2 * p) * (2 * p)) by (nonlinear_arith);
    assert(sp_dist(b.x, b.y, a.x, a.y) == 2 * p) by {
        assert(sp_clamp(a.x - b.x) == -(2 * p));
        assert(sp_clamp(a.y - b.y) == 0);
        assert(sp_isqrt((2 * p) * (2 * p)) == 2 * p);
    }

    // One gravity pass: the left body is kicked right, the right body
    // left, by the same magnitude.
    let d3 = sp_mul(sp_mul(2 * p, 2 * p), 2 * p);
    let coef = sp_div(sp_mul(sp_mul(g, m), dt), d3);
    let kick = sym_pair_kick(p, m, dt, g);
    assert(kick == sp_mul(coef, 2 * p));

    let ga = sp_gravity_all(s, dt, g);
    assert(ga[0] == sp_grav_upto(a, s, 2, dt, g));
    assert(sp_grav_upto(a, s, 0, dt, g) == a);
    assert(sp_grav_upto(a, s, 1, dt, g) == a);
    let a1 = sp_grav_upto(a, s, 2, dt, g);
    assert(coef * 0 == 0) by (nonlinear_arith);
    assert(sp_mul(coef, 0) == 0);
    assert(a1.vx == sp_add(0, kick) && a1.vy == sp_add(0, 0) && a1.x == a.x && a1.y == a.y);
    assert(-(FP_MAX as int) <= kick <= FP_MAX as int);
    assert(a1.vx == kick && a1.vy == 0);

    assert(ga[1] == sp_grav_upto(b, s, 2, dt, g));
    assert(sp_grav_upto(b, s, 0, dt, g) == b);
    let b1 = sp_grav_upto(b, s, 1, dt, g);
    lemma_sp_mul_neg(coef, 2 * p);
    assert(b1.vx == sp_add(0, -kick) && b1.vy == sp_add(0, 0) && b1.x == b.x && b1.y == b.y);
    assert(b1.vx == -kick && b1.vy == 0);
    assert(sp_grav_upto(b, s, 2, dt, g) == b1);

    // The integration pass moves the bodies toward each other.
    let step = sp_mul(kick, dt);
    lemma_sp_mul_neg(kick, dt);
    let after = sp_move_all(ga, dt);
    assert(after[0] == sp_move_body(ga[0], dt));
    assert(after[1] == sp_move_body(ga[1], dt));
    assert(sp_mul(0, dt) == 0) by {
        assert((0int) * dt == 0) by (nonlinear_arith);
    }
    assert(after[0].x == sp_add(-p, step) && after[0].y == 0);
    assert(after[1].x == sp_add(p, -step) && after[1].y == 0);
    assert(after[0].x == -p + step && after[1].x == p - step);
    assert(after[0].vx == kick && after[1].vx == -kick);

    // The new distance is |2p - 2*step| < 2p.
    let v = 2 * p - 2 * step;
    assert(sp_clamp(after[1].x - after[0].x) == v);
    assert(sp_clamp(after[1].y - after[0].y) == 0);
    if v >= 0 {
        lemma_isqrt_square(v);
        assert(v * v + 0 == v * v);
        assert(sp_dist(after[0].x, after[0].y, after[1].x, after[1].y) == v);
    } else {
        lemma_isqrt_square(-v);
        assert(v * v == (-v) * (-v)) by (nonlinear_arith);
        assert(sp_dist(after[0].x, after[0].y, after[1].x, after[1].y) == -v);
    }
}

/// The speed of each body of a symmetric pair after one more gravity
/// pass.
pub open spec fn sym_next_speed(p: int, v: int, m: int, dt: int, g: int) -> int {
    sp_add(v, sym_pair_kick(p, m, dt, g))
}

/// How far each body of a symmetric pair travels in the integration pass
/// that follows.
pub open spec fn sym_travel(p: int, v: int, m: int, dt: int, g: int) -> int {
    sp_mul(sym_next_speed(p, v, m, dt, g), dt)
}

/// Two-body attraction, closed under ticking: a whole tick carries a
/// symmetric pair moving toward each other into another such pair, with a
/// strictly smaller half-distance and no smaller speed.  Chained over
/// ticks, the distance strictly decreases each tick until the bodies
/// collide.  Excluded are only the inputs on which the fixed-point travel
/// truncates to zero, and those where the step would already carry the
/// bodies into collision or past each other.
pub proof fn lemma_symmetric_pair_tick(p: int, v: int, m: int, r: int, dt: int, g: int)
    requires
        50 <= p <= (FP_MAX as int) / 2,
        0 < m <= FP_MAX as int,
        0 <= r <= FP_MAX as int,
        0 <= v <= FP_MAX as int,
        0 < dt <= FP_MAX as int,
        0 < g <= FP_MAX as int,
        sp_mul(sp_mul(2 * p, 2 * p), 2 * p) > 0,
        sym_pair_kick(p, m, dt, g) >= 0,
        1 <= sym_travel(p, v, m, dt, g),
        sym_travel(p, v, m, dt, g) <= p - r,
    ensures
        sp_tick_bodies(sym_state(p, v, m, r), dt, g, 0, 0) == sym_state(
            p - sym_travel(p, v, m, dt, g), sym_next_speed(p, v, m, dt, g), m, r),
        0 <= p - sym_travel(p, v, m, dt, g) < p,
        sym_next_speed(p, v, m, dt, g) >= v,
        sym_next_speed(p, v, m, dt, g) > 0,
{
    let s = sym_state(p, v, m, r);
    let a = s[0];
    let b = s[1];
    assert(s.len() == 2);

    // The distance between the pair is exactly 2p.
    assert(sp_clamp(b.x - a.x) == 2 * p);
    assert((0int) * (0int) == 0) by (nonlinear_arith);
    lemma_isqrt_square(2 * p);
    assert(sp_dist(a.x, a.y, b.x, b.y) == 2 * p) by {
        assert(sp_clamp(b.y - a.y) == 0);
        assert(sp_isqrt((2 * p) * (2 * p)) == 2 * p);
    }
    assert((-(2 * p)) * (-(2 * p)) == (2 * p) * (2 * p)) by (nonlinear_arith);
    assert(sp_dist(b.x, b.y, a.x, a.y) == 2 * p) by {
        assert(sp_clamp(a.x - b.x) == -(2 * p));
        assert(sp_clamp(a.y - b.y) == 0);
        assert(sp_isqrt((2 * p) * (2 * p)) == 2 * p);
    }

    // One gravity pass adds the same inward kick to each body.
    let d3 = sp_mul(sp_mul(2 * p, 2 * p), 2 * p);
    let coef = sp_div(sp_mul(sp_mul(g, m), dt), d3);
    let kick = sym_pair_kick(p, m, dt, g);
    assert(kick == sp_mul(coef, 2 * p));
    let nv = sym_next_speed(p, v, m, dt, g);
    assert(nv == sp_clamp(v + kick));
    assert(nv >= v);

    let ga = sp_gravity_all(s, dt, g);
    assert(ga[0] == sp_grav_upto(a, s, 2, dt, g));
    assert(sp_grav_upto(a, s, 0, dt, g) == a);
    assert(sp_grav_upto(a, s, 1, dt, g) == a);
    let a1 = sp_grav_upto(a, s, 2, dt, g);
    assert(coef * 0 == 0) by (nonlinear_arith);
    assert(sp_mul(coef, 0) == 0);
    assert(a1.vx == sp_add(v, kick) && a1.vy == sp_add(0, 0) && a1.x == a.x && a1.y == a.y);
    assert(a1.vx == nv && a1.vy == 0);

    assert(ga[1] == sp_grav_upto(b, s, 2, dt, g));
    assert(sp_grav_upto(b, s, 0, dt, g) == b);
    let b1 = sp_grav_upto(b, s, 1, dt, g);
    lemma_sp_mul_neg(coef, 2 * p);
    assert(b1.vx == sp_add(-v, -kick) && b1.vy == sp_add(0, 0) && b1.x == b.x && b1.y == b.y);
    assert(b1.vx == -nv && b1.vy == 0);
    assert(sp_grav_upto(b, s, 2, dt, g) == b1);

    // The integration pass moves each body inward by the travel distance.
    let st = sym_travel(p, v, m, dt, g);
    assert(st == sp_mul(nv, dt));
    assert(nv > 0) by {
        if nv <= 0 {
            assert(nv * dt <= 0) by (nonlinear_arith)
                requires nv <= 0 && dt > 0,
            ;
            lemma_sp_divt_neg(-(nv * dt), 1000);
            assert(sp_divt(nv * dt, 1000) <= 0);
        }
    }
    lemma_sp_mul_neg(nv, dt);
    let moved = sp_move_all(ga, dt);
    assert(moved[0] == sp_move_body(ga[0], dt));
    assert(moved[1] == sp_move_body(ga[1], dt));
    assert(sp_mul(0, dt) == 0) by {
        assert((0int) * dt == 0) by (nonlinear_arith);
    }
    let a2 = moved[0];
    let b2 = moved[1];
    assert(a2.x == sp_add(-p, st) && a2.y == 0);
    assert(b2.x == sp_add(p, -st) && b2.y == 0);
    let np = p - st;
    assert(a2.x == -np && b2.x == np);
    assert(a2 == (BodyV { id: 0, x: -np, y: 0, vx: nv, vy: 0, mass: m, radius: r,
        sun: false, selected: false, delete: false }));
    assert(b2 == (BodyV { id: 1, x: np, y: 0, vx: -nv, vy: 0, mass: m, radius: r,
        sun: false, selected: false, delete: false }));

    // The moved bodies are at distance 2*np >= 2r: they do not collide,
    // and the collision pass leaves both untouched.
    assert(sp_clamp(b2.x - a2.x) == 2 * np);
    assert(sp_clamp(a2.x - b2.x) == -(2 * np));
    lemma_isqrt_square(2 * np);
    assert((-(2 * np)) * (-(2 * np)) == (2 * np) * (2 * np)) by (nonlinear_arith);
    assert(sp_dist(a2.x, a2.y, b2.x, b2.y) == 2 * np);
    assert(sp_dist(b2.x, b2.y, a2.x, a2.y) == 2 * np);
    assert(!sp_colliding(a2, b2));
    assert(!sp_colliding(b2, a2));
    assert(moved.len() == 2);
    lemma_collide_untouched(a2, moved, 2);
    lemma_collide_untouched(b2, moved, 2);
    let collided = sp_collide_all(moved);
    assert(collided[0] == sp_collide_upto(a2, moved, 2) && collided[0] == a2);
    assert(collided[1] == b2);

    // Nothing was deleted, so the survivors are the pair itself, and the
    // zero camera offset moves nothing.
    let surv = sp_survivors(collided);
    assert(collided.len() == 2);
    let front1 = collided.drop_last();
    assert(front1.len() == 1 && front1[0] == a2);
    assert(front1.drop_last().len() == 0);
    assert(sp_survivors(front1.drop_last()) =~= Seq::<BodyV>::empty());
    assert(sp_survivors(front1) =~= seq![a2]);
    assert(collided.last() == b2);
    assert(surv =~= seq![a2, b2]);
    let shifted = sp_tick_bodies(s, dt, g, 0, 0);
    assert(shifted.len() == 2);
    assert(shifted[0] == sp_shift_body(a2, 0, 0));
    assert(shifted[1] == sp_shift_body(b2, 0, 0));
    assert(sp_shift_body(a2, 0, 0) == a2 && sp_shift_body(b2, 0, 0) == b2);
    assert(shifted =~= sym_state(np, nv, m, r));
}

/// Collision is symmetric: if `a` overlaps `b` then `b` overlaps `a`.
pub proof fn lemma_colliding_symmetric(a: BodyV, b: BodyV)
    ensures
        sp_dist(b.x, b.y, a.x, a.y) == sp_dist(a.x, a.y, b.x, b.y),
        sp_colliding(b, a) == sp_colliding(a, b),
{
    let dx = sp_clamp(b.x - a.x);
    let dx2 = sp_clamp(a.x - b.x);
    let dy = sp_clamp(b.y - a.y);
    let dy2 = sp_clamp(a.y - b.y);
    assert(dx2 == -dx && dy2 == -dy);
    assert((-dx) * (-dx) == dx * dx) by (nonlinear_arith);
    assert((-dy) * (-dy) == dy * dy) by (nonlinear_arith);
}

/// Merge idempotence: an unordered colliding pair of unequal masses
/// yields exactly one absorber and one deletion, whichever way the pair
/// is ordered in the snapshot.  The absorber is the heavier body; it
/// takes the whole combined (saturated) mass, and the lighter body is the
/// one marked deleted.
pub proof fn lemma_merge_pair_either_order(a: BodyV, b: BodyV)
    requires
        !a.delete,
        !b.delete,
        a.id != b.id,
        a.mass > b.mass,
        sp_colliding(a, b),
    ensures
        ({
            let r = sp_collide_all(seq![a, b]);
            &&& r.len() == 2
            &&& !r[0].delete
            &&& r[0].id == a.id
            &&& r[0].mass == sp_add(a.mass, b.mass)
            &&& r[1].delete
            &&& r[1].id == b.id
        }),
        ({
            let r = sp_collide_all(seq![b, a]);
            &&& r.len() == 2
            &&& r[0].delete
            &&& r[0].id == b.id
            &&& !r[1].delete
            &&& r[1].id == a.id
            &&& r[1].mass == sp_add(a.mass, b.mass)
        }),
        ({
            let surv = sp_survivors(sp_collide_all(seq![a, b]));
            &&& surv.len() == 1
            &&& surv[0].id == a.id
            &&& surv[0].mass == sp_add(a.mass, b.mass)
            &&& !contains_body_id(surv, b.id)
        }),
        ({
            let surv = sp_survivors(sp_collide_all(seq![b, a]));
            &&& surv.len() == 1
            &&& surv[0].id == a.id
            &&& surv[0].mass == sp_add(a.mass, b.mass)
            &&& !contains_body_id(surv, b.id)
        }),
{
    lemma_colliding_symmetric(a, b);
    let s1 = seq![a, b];
    assert(s1.len() == 2 && s1[0] == a && s1[1] == b);
    assert(sp_collide_upto(a, s1, 0) == a);
    assert(sp_collide_upto(a, s1, 1) == sp_collide_step(a, a));
    assert(sp_collide_step(a, a) == a);
    assert(sp_collide_upto(a, s1, 2) == sp_collide_step(a, b));
    assert(sp_collide_upto(b, s1, 0) == b);
    assert(sp_collide_upto(b, s1, 1) == sp_collide_step(b, a));
    let bd = sp_collide_step(b, a);
    assert(bd == (BodyV { delete: true, ..b }));
    assert(sp_collide_upto(b, s1, 2) == sp_collide_step(bd, b));
    assert(sp_collide_step(bd, b) == bd);
    assert(sp_collide_all(s1)[0] == sp_collide_step(a, b));
    assert(sp_collide_all(s1)[1] == bd);

    let s2 = seq![b, a];
    assert(s2.len() == 2 && s2[0] == b && s2[1] == a);
    assert(sp_collide_upto(b, s2, 0) == b);
    assert(sp_collide_upto(b, s2, 1) == sp_collide_step(b, b));
    assert(sp_collide_step(b, b) == b);
    assert(sp_collide_upto(b, s2, 2) == sp_collide_step(b, a));
    assert(sp_collide_upto(a, s2, 0) == a);
    assert(sp_collide_upto(a, s2, 1) == sp_collide_step(a, b));
    let aa = sp_collide_step(a, b);
    assert(aa.mass == sp_add(a.mass, b.mass) && !aa.delete && aa.id == a.id);
    assert(sp_collide_upto(a, s2, 2) == sp_collide_step(aa, a));
    assert(sp_collide_step(aa, a) == aa);
    assert(sp_collide_all(s2)[0] == bd);
    assert(sp_collide_all(s2)[1] == aa);

    // In either order, exactly the absorber survives.
    let r1 = sp_collide_all(s1);
    assert(r1.len() == 2);
    let r1front = r1.drop_last();
    assert(r1front.len() == 1 && r1front[0] == aa);
    assert(r1front.drop_last().len() == 0);
    assert(sp_survivors(r1front.drop_last()) =~= Seq::<BodyV>::empty());
    assert(sp_survivors(r1front) =~= seq![aa]);
    assert(r1.last() == bd && bd.delete);
    assert(sp_survivors(r1) =~= seq![aa]);
    assert(!contains_body_id(sp_survivors(r1), b.id)) by {
        if contains_body_id(sp_survivors(r1), b.id) {
            let k = choose|k: int| 0 <= k < sp_survivors(r1).len()
                && (#[trigger] sp_survivors(r1)[k]).id == b.id;
            assert(sp_survivors(r1)[k] == aa);
        }
    }

    let r2 = sp_collide_all(s2);
    assert(r2.len() == 2);
    let r2front = r2.drop_last();
    assert(r2front.len() == 1 && r2front[0] == bd);
    assert(r2front.drop_last().len() == 0);
    assert(sp_survivors(r2front.drop_last()) =~= Seq::<BodyV>::empty());
    assert(sp_survivors(r2front) =~= Seq::<BodyV>::empty());
    assert(r2.last() == aa && !aa.delete);
    assert(sp_survivors(r2) =~= seq![aa]);
    assert(!contains_body_id(sp_survivors(r2), b.id)) by {
        if contains_body_id(sp_survivors(r2), b.id) {
            let k = choose|k: int| 0 <= k < sp_survivors(r2).len()
                && (#[trigger] sp_survivors(r2)[k]).id == b.id;
            assert(sp_survivors(r2)[k] == aa);
        }
    }
}

/// Selection exclusivity: after selecting an id, at most one body is
/// selected — exactly one when the id is present — and each body is
/// selected precisely when it carries that id; clearing the selection
/// leaves no body selected.
pub proof fn lemma_selection_exclusive(s: Seq<BodyV>, id: int)
    requires
        ids_distinct(s),
    ensures
        sel_exclusive(sp_select(s, Some(id))),
        forall|k: int| 0 <= k < s.len()
            ==> ((#[trigger] sp_select(s, Some(id))[k]).selected <==> s[k].id == id),
        contains_body_id(s, id) ==> exists|k: int| 0 <= k < s.len()
            && (#[trigger] sp_select(s, Some(id))[k]).selected,
        forall|k: int| 0 <= k < s.len() ==> !(#[trigger] sp_select(s, None)[k]).selected,
{
    let r = sp_select(s, Some(id));
    assert forall|i: int, j: int| 0 <= i < j < r.len() implies !((#[trigger] r[i]).selected
        && (#[trigger] r[j]).selected) by {
        assert(s[i].id != s[j].id);
    }
    if contains_body_id(s, id) {
        let k = choose|k: int| 0 <= k < s.len() && (#[trigger] s[k]).id == id;
        assert(r[k].selected);
    }
}

} // verus!
