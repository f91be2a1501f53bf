//! One physics step: pairwise gravity, integration, collision and merging.
//!
//! The step is O(n^2) by design and works on an immutable snapshot: each
//! pass maps every body through a fold over the whole snapshot, so there is
//! no read/write aliasing.  Every executable pass is specified exactly by a
//! spec-level twin over `Seq<BodyV>`.

use vstd::prelude::*;
use crate::fixed::{
    fp_in_range, sp_clamp, sp_add, sp_sub, sp_mul, sp_div, sp_isqrt,
    fp_clamp, fp_add, fp_sub, fp_mul, fp_div, isqrt, lemma_product_bound,
    FP_MAX,
};
use crate::body::{
    Body, BodyV, Vec2, body_wf, seq_view, bodies_wf, contains_body_id, contains_selected,
    ids_distinct, sel_exclusive,
};

verus! {

/// Distance floor: two bodies are never treated as closer than this, which
/// keeps the force computation free of division by zero.
pub const DIST_EPS: i128 = 100;

/// How many iterations an orbit prediction runs.
pub const PREDICT_STEPS: usize = 10000;

/// Every how many prediction iterations the selected body is sampled.
pub const SAMPLE_EVERY: usize = 100;

/// The fixed-point distance between two points.
pub open spec fn sp_dist(ax: int, ay: int, bx: int, by: int) -> int {
    let dx = sp_sub(bx, ax);
    let dy = sp_sub(by, ay);
    sp_clamp(sp_isqrt(dx * dx + dy * dy))
}

/// One gravity contribution: `o` pulls on `b`, adding
/// `direction * G * o.mass * dt / distance^2` to `b`'s velocity.
/// A sun takes no contribution, a body none from itself.
pub open spec fn sp_grav_step(b: BodyV, o: BodyV, dt: int, g: int) -> BodyV {
    if b.sun || o.id == b.id {
        b
    } else {
        let dx = sp_sub(o.x, b.x);
        let dy = sp_sub(o.y, b.y);
        let d0 = sp_dist(b.x, b.y, o.x, o.y);
        let d = if d0 < DIST_EPS as int { DIST_EPS as int } else { d0 };
        let d3 = sp_mul(sp_mul(d, d), d);
        if d3 <= 0 {
            b
        } else {
            let coef = sp_div(sp_mul(sp_mul(g, o.mass), dt), d3);
            BodyV { vx: sp_add(b.vx, sp_mul(coef, dx)), vy: sp_add(b.vy, sp_mul(coef, dy)), ..b }
        }
    }
}

/// `b` after taking the gravity contributions of the first `k` bodies of
/// the snapshot, in order.
pub open spec fn sp_grav_upto(b: BodyV, others: Seq<BodyV>, k: int, dt: int, g: int) -> BodyV
    decreases k,
{
    if k <= 0 {
        b
    } else {
        sp_grav_step(sp_grav_upto(b, others, k - 1, dt, g), others[k - 1], dt, g)
    }
}

/// `b` after taking the gravity contributions of the whole snapshot.
pub open spec fn sp_grav_body(b: BodyV, others: Seq<BodyV>, dt: int, g: int) -> BodyV {
    sp_grav_upto(b, others, others.len() as int, dt, g)
}

/// The gravity pass: every body's velocity after pairwise attraction.
pub open spec fn sp_gravity_all(s: Seq<BodyV>, dt: int, g: int) -> Seq<BodyV> {
    s.map_values(|b: BodyV| sp_grav_body(b, s, dt, g))
}

/// The integration pass on one body: `position += velocity * dt`.
pub open spec fn sp_move_body(b: BodyV, dt: int) -> BodyV {
    BodyV { x: sp_add(b.x, sp_mul(b.vx, dt)), y: sp_add(b.y, sp_mul(b.vy, dt)), ..b }
}

/// The integration pass.
pub open spec fn sp_move_all(s: Seq<BodyV>, dt: int) -> Seq<BodyV> {
    s.map_values(|b: BodyV| sp_move_body(b, dt))
}

/// Two bodies collide iff their center distance is strictly below the sum
/// of their radii (overlapping, not merely touching).
pub open spec fn sp_colliding(b: BodyV, o: BodyV) -> bool {
    sp_dist(b.x, b.y, o.x, o.y) < b.radius + o.radius
}

/// One collision resolution from `b`'s own perspective against `o`:
/// the heavier body absorbs the lighter one's mass and a mass-weighted
/// share of its velocity; the lighter marks itself for deletion.  The
/// radius is left stale (it is not recomputed from the merged mass).
pub open spec fn sp_collide_step(b: BodyV, o: BodyV) -> BodyV {
    if o.id == b.id {
        b
    } else if !sp_colliding(b, o) {
        b
    } else if b.mass > o.mass {
        let ratio = sp_div(o.mass, b.mass);
        BodyV {
            vx: sp_add(b.vx, sp_mul(o.vx, ratio)),
            vy: sp_add(b.vy, sp_mul(o.vy, ratio)),
            mass: sp_add(b.mass, o.mass),
            ..b
        }
    } else {
        BodyV { delete: true, ..b }
    }
}

/// `b` after resolving collisions against the first `k` snapshot bodies.
pub open spec fn sp_collide_upto(b: BodyV, others: Seq<BodyV>, k: int) -> BodyV
    decreases k,
{
    if k <= 0 {
        b
    } else {
        sp_collide_step(sp_collide_upto(b, others, k - 1), others[k - 1])
    }
}

/// `b` after resolving collisions against the whole snapshot.
pub open spec fn sp_collide_body(b: BodyV, others: Seq<BodyV>) -> BodyV {
    sp_collide_upto(b, others, others.len() as int)
}

/// The collision/merge pass.
pub open spec fn sp_collide_all(s: Seq<BodyV>) -> Seq<BodyV> {
    s.map_values(|b: BodyV| sp_collide_body(b, s))
}

/// One full physics step: gravity, then integration, then collisions.
pub open spec fn sp_step(s: Seq<BodyV>, dt: int, g: int) -> Seq<BodyV> {
    sp_collide_all(sp_move_all(sp_gravity_all(s, dt, g), dt))
}

/// The bodies that survive a step, in order: those not marked for deletion.
pub open spec fn sp_survivors(s: Seq<BodyV>) -> Seq<BodyV>
    decreases s.len(),
{
    if s.len() == 0 {
        Seq::empty()
    } else {
        let front = sp_survivors(s.drop_last());
        if s.last().delete {
            front
        } else {
            front.push(s.last())
        }
    }
}

/// A parallel translation of one body (display-space camera offset).
pub open spec fn sp_shift_body(b: BodyV, cx: int, cy: int) -> BodyV {
    BodyV { x: sp_add(b.x, cx), y: sp_add(b.y, cy), ..b }
}

/// A parallel translation of the whole system.
pub open spec fn sp_shift_all(s: Seq<BodyV>, cx: int, cy: int) -> Seq<BodyV> {
    s.map_values(|b: BodyV| sp_shift_body(b, cx, cy))
}

/// What one tick leaves in the store: step, drop the absorbed bodies, then
/// apply the camera offset to every survivor.
pub open spec fn sp_tick_bodies(s: Seq<BodyV>, dt: int, g: int, cx: int, cy: int) -> Seq<BodyV> {
    sp_shift_all(sp_survivors(sp_step(s, dt, g)), cx, cy)
}

/// The executable distance between two points.
pub fn dist(ax: i128, ay: i128, bx: i128, by: i128) -> (d: i128)
    requires
        fp_in_range(ax as int),
        fp_in_range(ay as int),
        fp_in_range(bx as int),
        fp_in_range(by as int),
    ensures
        d as int == sp_dist(ax as int, ay as int, bx as int, by as int),
        0 <= d <= FP_MAX,
{
    let dx = fp_sub(bx, ax);
    let dy = fp_sub(by, ay);
    proof {
        lemma_product_bound(dx as int, dx as int, FP_MAX as int);
        lemma_product_bound(dy as int, dy as int, FP_MAX as int);
        assert(dx as int * dx as int >= 0) by (nonlinear_arith);
        assert(dy as int * dy as int >= 0) by (nonlinear_arith);
    }
    let q = dx * dx + dy * dy;
    let r = isqrt(q);
    fp_clamp(r)
}

/// One executable gravity contribution; mirrors `sp_grav_step` exactly.
fn grav_step(b: Body, o: &Body, dt: i128, g: i128) -> (r: Body)
    requires
        body_wf(b@),
        body_wf(o@),
        fp_in_range(dt as int),
        fp_in_range(g as int),
    ensures
        r@ == sp_grav_step(b@, o@, dt as int, g as int),
        body_wf(r@),
        r@.delete == b@.delete,
{
    if b.sun || o.id == b.id {
        b
    } else {
        let dx = fp_sub(o.x, b.x);
        let dy = fp_sub(o.y, b.y);
        let d0 = dist(b.x, b.y, o.x, o.y);
        let d = if d0 < DIST_EPS { DIST_EPS } else { d0 };
        let d2 = fp_mul(d, d);
        let d3 = fp_mul(d2, d);
        if d3 <= 0 {
            b
        } else {
            let coef = fp_div(fp_mul(fp_mul(g, o.mass), dt), d3);
            Body {
                vx: fp_add(b.vx, fp_mul(coef, dx)),
                vy: fp_add(b.vy, fp_mul(coef, dy)),
                ..b
            }
        }
    }
}

/// Executable integration of one body; mirrors `sp_move_body`.
fn move_body(b: Body, dt: i128) -> (r: Body)
    requires
        body_wf(b@),
        fp_in_range(dt as int),
    ensures
        r@ == sp_move_body(b@, dt as int),
        body_wf(r@),
{
    Body { x: fp_add(b.x, fp_mul(b.vx, dt)), y: fp_add(b.y, fp_mul(b.vy, dt)), ..b }
}

/// One executable collision resolution; mirrors `sp_collide_step`.
fn collide_step(b: Body, o: &Body) -> (r: Body)
    requires
        body_wf(b@),
        body_wf(o@),
    ensures
        r@ == sp_collide_step(b@, o@),
        body_wf(r@),
{
    if o.id == b.id {
        return b;
    }
    let d = dist(b.x, b.y, o.x, o.y);
    if !(d < b.radius + o.radius) {
        b
    } else if b.mass > o.mass {
        let ratio = fp_div(o.mass, b.mass);
        Body {
            vx: fp_add(b.vx, fp_mul(o.vx, ratio)),
            vy: fp_add(b.vy, fp_mul(o.vy, ratio)),
            mass: fp_add(b.mass, o.mass),
            ..b
        }
    } else {
        Body { delete: true, ..b }
    }
}

/// A plain element-wise copy of a snapshot.
pub fn copy_bodies(v: &Vec<Body>) -> (r: Vec<Body>)
    ensures
        r@ == v@,
{
    let mut r: Vec<Body> = Vec::new();
    let mut i: usize = 0;
    while i < v.len()
        invariant
            i <= v.len(),
            r@ == v@.take(i as int),
        decreases v.len() - i,
    {
        r.push(v[i]);
        proof {
            assert(r@ =~= v@.take(i as int + 1));
        }
        i += 1;
    }
    proof {
        assert(r@ =~= v@);
    }
    r
}

/// The gravity pass over a snapshot.
fn gravity_pass(bodies: &Vec<Body>, dt: i128, g: i128) -> (out: Vec<Body>)
    requires
        bodies_wf(seq_view(bodies@)),
        fp_in_range(dt as int),
        fp_in_range(g as int),
    ensures
        seq_view(out@) == sp_gravity_all(seq_view(bodies@), dt as int, g as int),
        bodies_wf(seq_view(out@)),
{
    let ghost sv = seq_view(bodies@);
    let n = bodies.len();
    let mut out: Vec<Body> = Vec::new();
    let mut i: usize = 0;
    while i < n
        invariant
            n == bodies.len(),
            i <= n,
            bodies_wf(sv),
            fp_in_range(dt as int),
            fp_in_range(g as int),
            sv == seq_view(bodies@),
            seq_view(out@) == sp_gravity_all(sv, dt as int, g as int).take(i as int),
            bodies_wf(seq_view(out@)),
        decreases n - i,
    {
        proof {
            assert(sv[i as int] == bodies@[i as int]@);
            assert(body_wf(sv[i as int]));
        }
        let mut b = bodies[i];
        let mut j: usize = 0;
        while j < n
            invariant
                n == bodies.len(),
                i < n,
                j <= n,
                bodies_wf(sv),
                fp_in_range(dt as int),
                fp_in_range(g as int),
                sv == seq_view(bodies@),
                b@ == sp_grav_upto(sv[i as int], sv, j as int, dt as int, g as int),
                body_wf(b@),
            decreases n - j,
        {
            proof {
                assert(sv[j as int] == bodies@[j as int]@);
                assert(body_wf(sv[j as int]));
            }
            b = grav_step(b, &bodies[j], dt, g);
            j += 1;
        }
        let ghost prev = seq_view(out@);
        out.push(b);
        proof {
            let all = sp_gravity_all(sv, dt as int, g as int);
            assert(all[i as int] == sp_grav_body(sv[i as int], sv, dt as int, g as int));
            assert(b@ == all[i as int]);
            assert(seq_view(out@) =~= prev.push(b@));
            assert(seq_view(out@) =~= all.take(i as int + 1));
            assert forall|k: int| 0 <= k < seq_view(out@).len() implies body_wf(
                #[trigger] seq_view(out@)[k]) by {
                if k < i as int {
                    assert(seq_view(out@)[k] == prev[k]);
                }
            }
        }
        i += 1;
    }
    proof {
        assert(seq_view(out@) =~= sp_gravity_all(sv, dt as int, g as int));
    }
    out
}

/// The integration pass over a snapshot.
fn move_pass(bodies: &Vec<Body>, dt: i128) -> (out: Vec<Body>)
    requires
        bodies_wf(seq_view(bodies@)),
        fp_in_range(dt as int),
    ensures
        seq_view(out@) == sp_move_all(seq_view(bodies@), dt as int),
        bodies_wf(seq_view(out@)),
{
    let ghost sv = seq_view(bodies@);
    let n = bodies.len();
    let mut out: Vec<Body> = Vec::new();
    let mut i: usize = 0;
    while i < n
        invariant
            n == bodies.len(),
            i <= n,
            bodies_wf(sv),
            fp_in_range(dt as int),
            sv == seq_view(bodies@),
            seq_view(out@) == sp_move_all(sv, dt as int).take(i as int),
            bodies_wf(seq_view(out@)),
        decreases n - i,
    {
        proof {
            assert(sv[i as int] == bodies@[i as int]@);
            assert(body_wf(sv[i as int]));
        }
        let b = move_body(bodies[i], dt);
        let ghost prev = seq_view(out@);
        out.push(b);
        proof {
            let all = sp_move_all(sv, dt as int);
            assert(all[i as int] == sp_move_body(sv[i as int], dt as int));
            assert(seq_view(out@) =~= prev.push(b@));
            assert(seq_view(out@) =~= all.take(i as int + 1));
            assert forall|k: int| 0 <= k < seq_view(out@).len() implies body_wf(
                #[trigger] seq_view(out@)[k]) by {
                if k < i as int {
                    assert(seq_view(out@)[k] == prev[k]);
                }
            }
        }
        i += 1;
    }
    proof {
        assert(seq_view(out@) =~= sp_move_all(sv, dt as int));
    }
    out
}

/// The collision/merge pass over a snapshot.
fn collide_pass(bodies: &Vec<Body>) -> (out: Vec<Body>)
    requires
        bodies_wf(seq_view(bodies@)),
    ensures
        seq_view(out@) == sp_collide_all(seq_view(bodies@)),
        bodies_wf(seq_view(out@)),
{
    let ghost sv = seq_view(bodies@);
    let n = bodies.len();
    let mut out: Vec<Body> = Vec::new();
    let mut i: usize = 0;
    while i < n
        invariant
            n == bodies.len(),
            i <= n,
            bodies_wf(sv),
            sv == seq_view(bodies@),
            seq_view(out@) == sp_collide_all(sv).take(i as int),
            bodies_wf(seq_view(out@)),
        decreases n - i,
    {
        proof {
            assert(sv[i as int] == bodies@[i as int]@);
            assert(body_wf(sv[i as int]));
        }
        let mut b = bodies[i];
        let mut j: usize = 0;
        while j < n
            invariant
                n == bodies.len(),
                i < n,
                j <= n,
                bodies_wf(sv),
                sv == seq_view(bodies@),
                b@ == sp_collide_upto(sv[i as int], sv, j as int),
                body_wf(b@),
            decreases n - j,
        {
            proof {
                assert(sv[j as int] == bodies@[j as int]@);
                assert(body_wf(sv[j as int]));
            }
            b = collide_step(b, &bodies[j]);
            j += 1;
        }
        let ghost prev = seq_view(out@);
        out.push(b);
        proof {
            let all = sp_collide_all(sv);
            assert(all[i as int] == sp_collide_body(sv[i as int], sv));
            assert(b@ == all[i as int]);
            assert(seq_view(out@) =~= prev.push(b@));
            assert(seq_view(out@) =~= all.take(i as int + 1));
            assert forall|k: int| 0 <= k < seq_view(out@).len() implies body_wf(
                #[trigger] seq_view(out@)[k]) by {
                if k < i as int {
                    assert(seq_view(out@)[k] == prev[k]);
                }
            }
        }
        i += 1;
    }
    proof {
        assert(seq_view(out@) =~= sp_collide_all(sv));
    }
    out
}

/// The gravity fold only changes a body's velocity; a sun it does not
/// touch at all.
pub proof fn lemma_grav_upto_frame(b: BodyV, s: Seq<BodyV>, k: int, dt: int, g: int)
    ensures
        sp_grav_upto(b, s, k, dt, g) == (BodyV {
            vx: sp_grav_upto(b, s, k, dt, g).vx,
            vy: sp_grav_upto(b, s, k, dt, g).vy,
            ..b
        }),
        b.sun ==> sp_grav_upto(b, s, k, dt, g) == b,
    decreases k,
{
    if k > 0 {
        lemma_grav_upto_frame(b, s, k - 1, dt, g);
    }
}

/// The collision fold only changes a body's velocity, mass and deletion
/// flag; its id, position, radius, sun and selection flags stay.
pub proof fn lemma_collide_upto_frame(b: BodyV, s: Seq<BodyV>, k: int)
    ensures
        sp_collide_upto(b, s, k) == (BodyV {
            vx: sp_collide_upto(b, s, k).vx,
            vy: sp_collide_upto(b, s, k).vy,
            mass: sp_collide_upto(b, s, k).mass,
            delete: sp_collide_upto(b, s, k).delete,
            ..b
        }),
    decreases k,
{
    if k > 0 {
        lemma_collide_upto_frame(b, s, k - 1);
    }
}

/// A physics step keeps, per position, each body's id, sun and selection
/// flags and its radius.
pub proof fn lemma_step_frame(s: Seq<BodyV>, dt: int, g: int)
    ensures
        sp_step(s, dt, g).len() == s.len(),
        forall|i: int| 0 <= i < s.len() ==> {
            &&& (#[trigger] sp_step(s, dt, g)[i]).id == s[i].id
            &&& sp_step(s, dt, g)[i].sun == s[i].sun
            &&& sp_step(s, dt, g)[i].selected == s[i].selected
            &&& sp_step(s, dt, g)[i].radius == s[i].radius
        },
{
    let ga = sp_gravity_all(s, dt, g);
    let mv = sp_move_all(ga, dt);
    assert forall|i: int| 0 <= i < s.len() implies {
        &&& (#[trigger] sp_step(s, dt, g)[i]).id == s[i].id
        &&& sp_step(s, dt, g)[i].sun == s[i].sun
        &&& sp_step(s, dt, g)[i].selected == s[i].selected
        &&& sp_step(s, dt, g)[i].radius == s[i].radius
    } by {
        lemma_grav_upto_frame(s[i], s, s.len() as int, dt, g);
        assert(mv[i] == sp_move_body(ga[i], dt));
        lemma_collide_upto_frame(mv[i], mv, mv.len() as int);
    }
}

/// Every id among the survivors comes from the stepped snapshot.
proof fn lemma_survivors_id_prov(s: Seq<BodyV>, id: int)
    requires
        contains_body_id(sp_survivors(s), id),
    ensures
        contains_body_id(s, id),
    decreases s.len(),
{
    let r = sp_survivors(s);
    let k = choose|k: int| 0 <= k < r.len() && (#[trigger] r[k]).id == id;
    if s.len() > 0 {
        let butlast = s.drop_last();
        let front = sp_survivors(butlast);
        if s.last().delete || k < front.len() {
            assert(r[k] == front[k]);
            assert(contains_body_id(front, id));
            lemma_survivors_id_prov(butlast, id);
            let m = choose|m: int| 0 <= m < butlast.len() && (#[trigger] butlast[m]).id == id;
            assert(butlast[m] == s[m]);
            assert(contains_body_id(s, id)) by {
                assert(0 <= m < s.len() && s[m].id == id);
            }
        } else {
            assert(s[s.len() - 1].id == id);
        }
    }
}

/// Every selection among the survivors comes from the stepped snapshot.
proof fn lemma_survivors_sel_prov(s: Seq<BodyV>)
    requires
        contains_selected(sp_survivors(s)),
    ensures
        contains_selected(s),
    decreases s.len(),
{
    let r = sp_survivors(s);
    let k = choose|k: int| 0 <= k < r.len() && (#[trigger] r[k]).selected;
    if s.len() > 0 {
        let butlast = s.drop_last();
        let front = sp_survivors(butlast);
        if s.last().delete || k < front.len() {
            assert(r[k] == front[k]);
            assert(contains_selected(front));
            lemma_survivors_sel_prov(butlast);
            let m = choose|m: int| 0 <= m < butlast.len() && (#[trigger] butlast[m]).selected;
            assert(butlast[m] == s[m]);
            assert(contains_selected(s)) by {
                assert(0 <= m < s.len() && s[m].selected);
            }
        } else {
            assert(s[s.len() - 1].selected);
        }
    }
}

/// Dropping the deleted bodies keeps ids distinct and selection exclusive.
pub proof fn lemma_survivors_props(s: Seq<BodyV>)
    requires
        ids_distinct(s),
        sel_exclusive(s),
    ensures
        ids_distinct(sp_survivors(s)),
        sel_exclusive(sp_survivors(s)),
    decreases s.len(),
{
    if s.len() > 0 {
        let butlast = s.drop_last();
        let b = s.last();
        assert(forall|i: int| 0 <= i < butlast.len() ==> butlast[i] == s[i]);
        lemma_survivors_props(butlast);
        let front = sp_survivors(butlast);
        let r = sp_survivors(s);
        if !b.delete {
            assert(r == front.push(b));
            assert forall|i: int| 0 <= i < front.len() implies (#[trigger] front[i]).id != b.id
                && !(front[i].selected && b.selected) by {
                if front[i].id == b.id {
                    assert(contains_body_id(front, b.id));
                    lemma_survivors_id_prov(butlast, b.id);
                    let m = choose|m: int| 0 <= m < butlast.len()
                        && (#[trigger] butlast[m]).id == b.id;
                    assert(s[m].id == s[s.len() - 1].id);
                }
                if front[i].selected && b.selected {
                    assert(contains_selected(front));
                    lemma_survivors_sel_prov(butlast);
                    let m = choose|m: int| 0 <= m < butlast.len()
                        && (#[trigger] butlast[m]).selected;
                    assert(s[m].selected && s[s.len() - 1].selected);
                }
            }
            assert forall|i: int, j: int| 0 <= i < j < r.len() implies (#[trigger] r[i]).id
                != (#[trigger] r[j]).id && !(r[i].selected && r[j].selected) by {
                if j < front.len() {
                    assert(r[i] == front[i] && r[j] == front[j]);
                } else {
                    assert(r[j] == b && r[i] == front[i]);
                }
            }
        }
    }
}

/// A whole tick keeps ids distinct and selection exclusive.
pub proof fn lemma_tick_props(s: Seq<BodyV>, dt: int, g: int, cx: int, cy: int)
    requires
        ids_distinct(s),
        sel_exclusive(s),
    ensures
        ids_distinct(sp_tick_bodies(s, dt, g, cx, cy)),
        sel_exclusive(sp_tick_bodies(s, dt, g, cx, cy)),
{
    let stepped = sp_step(s, dt, g);
    lemma_step_frame(s, dt, g);
    assert(ids_distinct(stepped));
    assert(sel_exclusive(stepped));
    lemma_survivors_props(stepped);
    let surv = sp_survivors(stepped);
    let r = sp_tick_bodies(s, dt, g, cx, cy);
    assert forall|i: int, j: int| 0 <= i < j < r.len() implies (#[trigger] r[i]).id
        != (#[trigger] r[j]).id && !(r[i].selected && r[j].selected) by {
        assert(r[i] == sp_shift_body(surv[i], cx, cy));
        assert(r[j] == sp_shift_body(surv[j], cx, cy));
    }
}

/// The first body of a snapshot that carries the selection flag.
pub open spec fn sp_first_selected_from(s: Seq<BodyV>, i: int) -> Option<BodyV>
    decreases s.len() - i,
{
    if i < 0 || i >= s.len() {
        None
    } else if s[i].selected {
        Some(s[i])
    } else {
        sp_first_selected_from(s, i + 1)
    }
}

/// The selected body of a snapshot, if any (first in iteration order).
pub open spec fn sp_first_selected(s: Seq<BodyV>) -> Option<BodyV> {
    sp_first_selected_from(s, 0)
}

proof fn lemma_first_selected_skip(s: Seq<BodyV>, i: int)
    requires
        0 <= i <= s.len(),
        forall|j: int| 0 <= j < i ==> !(#[trigger] s[j]).selected,
    ensures
        sp_first_selected_from(s, 0) == sp_first_selected_from(s, i),
    decreases i,
{
    if i > 0 {
        lemma_first_selected_skip(s, i - 1);
    }
}

/// The scratch state of an orbit prediction after `k` iterations: `k`
/// physics steps, each followed by dropping the absorbed bodies.
pub open spec fn sp_predict_state(s: Seq<BodyV>, dt: int, g: int, k: nat) -> Seq<BodyV>
    decreases k,
{
    if k == 0 {
        s
    } else {
        sp_survivors(sp_step(sp_predict_state(s, dt, g, (k - 1) as nat), dt, g))
    }
}

/// The points an orbit prediction of `k` iterations collects: every
/// `SAMPLE_EVERY`th iteration, the position of the selected body in the
/// scratch state, if it still exists.
pub open spec fn sp_predict_points(s: Seq<BodyV>, dt: int, g: int, k: nat) -> Seq<(int, int)>
    decreases k,
{
    if k == 0 {
        Seq::empty()
    } else {
        let prev = sp_predict_points(s, dt, g, (k - 1) as nat);
        if ((k - 1) as int) % (SAMPLE_EVERY as int) == 0 {
            match sp_first_selected(sp_predict_state(s, dt, g, k)) {
                Some(b) => prev.push((b.x, b.y)),
                None => prev,
            }
        } else {
            prev
        }
    }
}

/// The full predicted orbit of the selected body: `PREDICT_STEPS`
/// iterations of the detached forward simulation.
pub open spec fn sp_predicted_orbit(s: Seq<BodyV>, dt: int, g: int) -> Seq<(int, int)> {
    sp_predict_points(s, dt, g, PREDICT_STEPS as nat)
}

/// The models of a sequence of points.
pub open spec fn points_view(s: Seq<Vec2>) -> Seq<(int, int)> {
    s.map_values(|p: Vec2| (p.x as int, p.y as int))
}

/// Drop the bodies a collision pass marked for deletion; mirrors
/// `sp_survivors`.
pub fn survivors(stepped: &Vec<Body>) -> (out: Vec<Body>)
    requires
        bodies_wf(seq_view(stepped@)),
    ensures
        seq_view(out@) == sp_survivors(seq_view(stepped@)),
        bodies_wf(seq_view(out@)),
        forall|k: int| 0 <= k < out@.len() ==> !(#[trigger] seq_view(out@)[k]).delete,
{
    let ghost sv = seq_view(stepped@);
    let n = stepped.len();
    let mut out: Vec<Body> = Vec::new();
    let mut i: usize = 0;
    while i < n
        invariant
            n == stepped.len(),
            i <= n,
            bodies_wf(sv),
            sv == seq_view(stepped@),
            seq_view(out@) == sp_survivors(sv.take(i as int)),
            bodies_wf(seq_view(out@)),
            forall|k: int| 0 <= k < out@.len() ==> !(#[trigger] seq_view(out@)[k]).delete,
        decreases n - i,
    {
        proof {
            assert(sv[i as int] == stepped@[i as int]@);
            assert(body_wf(sv[i as int]));
            assert(sv.take(i as int + 1).drop_last() =~= sv.take(i as int));
            assert(sv.take(i as int + 1).last() == sv[i as int]);
        }
        let ghost prev = seq_view(out@);
        let b = stepped[i];
        if !b.delete {
            out.push(b);
            proof {
                assert(seq_view(out@) =~= prev.push(b@));
                assert forall|k: int| 0 <= k < seq_view(out@).len() implies body_wf(
                    #[trigger] seq_view(out@)[k]) && !seq_view(out@)[k].delete by {
                    if k < prev.len() {
                        assert(seq_view(out@)[k] == prev[k]);
                    }
                }
            }
        }
        i += 1;
    }
    proof {
        assert(sv.take(n as int) =~= sv);
    }
    out
}

/// Translate every body by the camera offset; mirrors `sp_shift_all`.
pub fn shift_pass(bodies: &Vec<Body>, cx: i128, cy: i128) -> (out: Vec<Body>)
    requires
        bodies_wf(seq_view(bodies@)),
        fp_in_range(cx as int),
        fp_in_range(cy as int),
    ensures
        seq_view(out@) == sp_shift_all(seq_view(bodies@), cx as int, cy as int),
        bodies_wf(seq_view(out@)),
        forall|k: int| 0 <= k < out@.len() ==> (#[trigger] seq_view(out@)[k]).delete
            == seq_view(bodies@)[k].delete,
{
    let ghost sv = seq_view(bodies@);
    let n = bodies.len();
    let mut out: Vec<Body> = Vec::new();
    let mut i: usize = 0;
    while i < n
        invariant
            n == bodies.len(),
            i <= n,
            bodies_wf(sv),
            fp_in_range(cx as int),
            fp_in_range(cy as int),
            sv == seq_view(bodies@),
            seq_view(out@) == sp_shift_all(sv, cx as int, cy as int).take(i as int),
            bodies_wf(seq_view(out@)),
            forall|k: int| 0 <= k < out@.len() ==> (#[trigger] seq_view(out@)[k]).delete
                == sv[k].delete,
        decreases n - i,
    {
        proof {
            assert(sv[i as int] == bodies@[i as int]@);
            assert(body_wf(sv[i as int]));
        }
        let b = bodies[i];
        let shifted = Body { x: fp_add(b.x, cx), y: fp_add(b.y, cy), ..b };
        let ghost prev = seq_view(out@);
        out.push(shifted);
        proof {
            let all = sp_shift_all(sv, cx as int, cy as int);
            assert(all[i as int] == sp_shift_body(sv[i as int], cx as int, cy as int));
            assert(seq_view(out@) =~= prev.push(shifted@));
            assert(seq_view(out@) =~= all.take(i as int + 1));
            assert forall|k: int| 0 <= k < seq_view(out@).len() implies body_wf(
                #[trigger] seq_view(out@)[k]) && seq_view(out@)[k].delete == sv[k].delete by {
                if k < prev.len() {
                    assert(seq_view(out@)[k] == prev[k]);
                }
            }
        }
        i += 1;
    }
    proof {
        assert(seq_view(out@) =~= sp_shift_all(sv, cx as int, cy as int));
    }
    out
}

/// The first selected body of a snapshot, if any; mirrors
/// `sp_first_selected`.
pub fn first_selected(bodies: &Vec<Body>) -> (r: Option<Body>)
    ensures
        match r {
            Some(b) => sp_first_selected(seq_view(bodies@)) == Some(b@),
            None => sp_first_selected(seq_view(bodies@)) is None,
        },
{
    let ghost sv = seq_view(bodies@);
    let n = bodies.len();
    let mut i: usize = 0;
    while i < n
        invariant
            n == bodies.len(),
            i <= n,
            sv == seq_view(bodies@),
            forall|j: int| 0 <= j < i ==> !(#[trigger] sv[j]).selected,
        decreases n - i,
    {
        proof {
            assert(sv[i as int] == bodies@[i as int]@);
        }
        if bodies[i].selected {
            proof {
                lemma_first_selected_skip(sv, i as int);
            }
            return Some(bodies[i]);
        }
        i += 1;
    }
    proof {
        lemma_first_selected_skip(sv, n as int);
    }
    None
}

/// Run the detached forward simulation for `PREDICT_STEPS` iterations,
/// sampling the selected body's position every `SAMPLE_EVERY`th iteration;
/// mirrors `sp_predicted_orbit`.  The snapshot itself is untouched.
pub fn predict_orbit(bodies: &Vec<Body>, dt: i128, g: i128) -> (pts: Vec<Vec2>)
    requires
        bodies_wf(seq_view(bodies@)),
        fp_in_range(dt as int),
        fp_in_range(g as int),
    ensures
        points_view(pts@) == sp_predicted_orbit(seq_view(bodies@), dt as int, g as int),
{
    let ghost sv = seq_view(bodies@);
    let mut state = copy_bodies(bodies);
    let mut pts: Vec<Vec2> = Vec::new();
    let mut i: usize = 0;
    while i < PREDICT_STEPS
        invariant
            i <= PREDICT_STEPS,
            fp_in_range(dt as int),
            fp_in_range(g as int),
            seq_view(state@) == sp_predict_state(sv, dt as int, g as int, i as nat),
            bodies_wf(seq_view(state@)),
            points_view(pts@) == sp_predict_points(sv, dt as int, g as int, i as nat),
        decreases PREDICT_STEPS - i,
    {
        let stepped = step_bodies(&state, dt, g);
        state = survivors(&stepped);
        proof {
            assert(seq_view(state@) == sp_predict_state(sv, dt as int, g as int,
                (i + 1) as nat));
        }
        if i % SAMPLE_EVERY == 0 {
            let ghost prev = points_view(pts@);
            match first_selected(&state) {
                Some(b) => {
                    pts.push(Vec2 { x: b.x, y: b.y });
                    proof {
                        assert(points_view(pts@) =~= prev.push((b@.x, b@.y)));
                    }
                },
                None => {},
            }
        }
        proof {
            assert(points_view(pts@) == sp_predict_points(sv, dt as int, g as int,
                (i + 1) as nat));
        }
        i += 1;
    }
    pts
}

/// One full physics step over a snapshot; mirrors `sp_step`.
pub fn step_bodies(bodies: &Vec<Body>, dt: i128, g: i128) -> (out: Vec<Body>)
    requires
        bodies_wf(seq_view(bodies@)),
        fp_in_range(dt as int),
        fp_in_range(g as int),
    ensures
        seq_view(out@) == sp_step(seq_view(bodies@), dt as int, g as int),
        bodies_wf(seq_view(out@)),
{
    let after_gravity = gravity_pass(bodies, dt, g);
    let after_move = move_pass(&after_gravity, dt);
    collide_pass(&after_move)
}

} // verus!
