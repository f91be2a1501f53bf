//! The simulated entity: a circular body with position, velocity, mass and
//! a radius derived from its mass.

use vstd::prelude::*;
use crate::fixed::{
    fp_in_range, sp_divt, sp_icbrt, divt, icbrt, FP_MAX, SCALE,
};

verus! {

/// `4/3 * pi` in fixed-point: the density constant that ties a mass to the
/// volume of a ball of uniform density.
pub const FOUR_THIRDS_PI: i128 = 4189;

/// A 2D point or vector in fixed-point coordinates.
#[derive(Clone, Copy, PartialEq, Eq, Structural, Debug)]
pub struct Vec2 {
    pub x: i128,
    pub y: i128,
}

/// One celestial body.
///
/// `delete` is only ever set on the intermediate copies that a
/// collision/merge pass produces; bodies held by the store never carry it.
#[derive(Clone, Copy, PartialEq, Eq, Structural, Debug)]
pub struct Body {
    pub id: i64,
    pub x: i128,
    pub y: i128,
    pub vx: i128,
    pub vy: i128,
    pub mass: i128,
    pub radius: i128,
    pub sun: bool,
    pub selected: bool,
    pub delete: bool,
}

/// The mathematical model of a body: the same record over `int`.
pub struct BodyV {
    pub id: int,
    pub x: int,
    pub y: int,
    pub vx: int,
    pub vy: int,
    pub mass: int,
    pub radius: int,
    pub sun: bool,
    pub selected: bool,
    pub delete: bool,
}

impl View for Body {
    type V = BodyV;

    open spec fn view(&self) -> BodyV {
        BodyV {
            id: self.id as int,
            x: self.x as int,
            y: self.y as int,
            vx: self.vx as int,
            vy: self.vy as int,
            mass: self.mass as int,
            radius: self.radius as int,
            sun: self.sun,
            selected: self.selected,
            delete: self.delete,
        }
    }
}

/// A physically admissible body: scalars in range, positive mass.
pub open spec fn body_wf(b: BodyV) -> bool {
    &&& fp_in_range(b.x)
    &&& fp_in_range(b.y)
    &&& fp_in_range(b.vx)
    &&& fp_in_range(b.vy)
    &&& 0 < b.mass <= FP_MAX as int
    &&& 0 <= b.radius <= FP_MAX as int
}

/// The radius of a ball of uniform density with the given mass:
/// the integer cube root of `mass / (4/3 * pi)`, carried out in fixed point.
pub open spec fn sp_radius_from_mass(m: int) -> int {
    sp_icbrt(sp_divt(m * SCALE as int, FOUR_THIRDS_PI as int) * SCALE as int * SCALE as int)
}

/// Derive a body's radius from its mass (fixed-point cube root).
pub fn radius_from_mass(mass: i128) -> (r: i128)
    requires
        0 < mass <= FP_MAX,
    ensures
        r as int == sp_radius_from_mass(mass as int),
        0 <= r <= FP_MAX,
{
    let volume = divt(mass * SCALE, FOUR_THIRDS_PI);
    let r = icbrt(volume * SCALE * SCALE);
    proof {
        let x = sp_divt(mass as int * SCALE as int, FOUR_THIRDS_PI as int)
            * SCALE as int * SCALE as int;
        assert(r as int <= FP_MAX as int) by (nonlinear_arith)
            requires
                0 <= r as int,
                (r as int) * (r as int) * (r as int) <= x,
                x <= 1_000_000_000_000_000_000_000_000int,
        ;
    }
    r
}

/// Build a body from its physical attributes; the radius is derived from
/// the mass, and the body starts unselected and not marked for deletion.
pub fn new_body(id: i64, x: i128, y: i128, vx: i128, vy: i128, mass: i128, sun: bool) -> (b: Body)
    requires
        fp_in_range(x as int),
        fp_in_range(y as int),
        fp_in_range(vx as int),
        fp_in_range(vy as int),
        0 < mass <= FP_MAX,
    ensures
        b@ == (BodyV {
            id: id as int,
            x: x as int,
            y: y as int,
            vx: vx as int,
            vy: vy as int,
            mass: mass as int,
            radius: sp_radius_from_mass(mass as int),
            sun,
            selected: false,
            delete: false,
        }),
        body_wf(b@),
        !b@.delete,
{
    let radius = radius_from_mass(mass);
    Body { id, x, y, vx, vy, mass, radius, sun, selected: false, delete: false }
}

/// The models of a sequence of executable bodies.
pub open spec fn seq_view(s: Seq<Body>) -> Seq<BodyV> {
    s.map_values(|b: Body| b@)
}

/// All bodies of a snapshot are physically admissible.
pub open spec fn bodies_wf(s: Seq<BodyV>) -> bool {
    forall|i: int| 0 <= i < s.len() ==> body_wf(#[trigger] s[i])
}

/// Some body of `s` has `id`.
pub open spec fn contains_body_id(s: Seq<BodyV>, id: int) -> bool {
    exists|k: int| 0 <= k < s.len() && (#[trigger] s[k]).id == id
}

/// Some body of `s` is selected.
pub open spec fn contains_selected(s: Seq<BodyV>) -> bool {
    exists|k: int| 0 <= k < s.len() && (#[trigger] s[k]).selected
}

/// No two bodies share an id.
pub open spec fn ids_distinct(s: Seq<BodyV>) -> bool {
    forall|i: int, j: int| 0 <= i < j < s.len()
        ==> (#[trigger] s[i]).id != (#[trigger] s[j]).id
}

/// At most one body is selected.
pub open spec fn sel_exclusive(s: Seq<BodyV>) -> bool {
    forall|i: int, j: int| 0 <= i < j < s.len()
        ==> !((#[trigger] s[i]).selected && (#[trigger] s[j]).selected)
}

/// No stored body is marked for deletion.
pub open spec fn none_deleted(s: Seq<BodyV>) -> bool {
    forall|i: int| 0 <= i < s.len() ==> !(#[trigger] s[i]).delete
}

/// What the presentation layer needs to draw one circle.
#[derive(Clone, Copy, PartialEq, Eq, Structural, Debug)]
pub struct Drawable {
    pub x: i128,
    pub y: i128,
    pub radius: i128,
    pub sun: bool,
    pub select_marker: bool,
}

/// The mathematical model of a drawable circle.
pub struct DrawableV {
    pub x: int,
    pub y: int,
    pub radius: int,
    pub sun: bool,
    pub select_marker: bool,
}

impl View for Drawable {
    type V = DrawableV;

    open spec fn view(&self) -> DrawableV {
        DrawableV {
            x: self.x as int,
            y: self.y as int,
            radius: self.radius as int,
            sun: self.sun,
            select_marker: self.select_marker,
        }
    }
}

} // verus!
