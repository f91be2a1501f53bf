//! The body store: the authoritative, flat collection of live bodies.
//!
//! The store upholds the structural invariants of the simulation: every
//! body is physically admissible, no stored body is marked for deletion,
//! ids are unique, and at most one body is selected.

use vstd::prelude::*;
use crate::fixed::{fp_in_range, FP_MAX};
use crate::body::{
    Body, BodyV, body_wf, seq_view, bodies_wf, contains_body_id, contains_selected,
    ids_distinct, sel_exclusive, none_deleted,
};
use crate::physics::{sp_dist, copy_bodies, dist};

verus! {

/// A per-id update that one tick produces: the new position, velocity and
/// mass of a surviving body.
#[derive(Clone, Copy, PartialEq, Eq, Structural, Debug)]
pub struct BodyUpdate {
    pub id: i64,
    pub x: i128,
    pub y: i128,
    pub vx: i128,
    pub vy: i128,
    pub mass: i128,
}

/// The mathematical model of an update.
pub struct BodyUpdateV {
    pub id: int,
    pub x: int,
    pub y: int,
    pub vx: int,
    pub vy: int,
    pub mass: int,
}

impl View for BodyUpdate {
    type V = BodyUpdateV;

    open spec fn view(&self) -> BodyUpdateV {
        BodyUpdateV {
            id: self.id as int,
            x: self.x as int,
            y: self.y as int,
            vx: self.vx as int,
            vy: self.vy as int,
            mass: self.mass as int,
        }
    }
}

/// An admissible update: scalars in range, positive mass.
pub open spec fn update_wf(u: BodyUpdateV) -> bool {
    &&& fp_in_range(u.x)
    &&& fp_in_range(u.y)
    &&& fp_in_range(u.vx)
    &&& fp_in_range(u.vy)
    &&& 0 < u.mass <= FP_MAX as int
}

/// The models of a sequence of updates.
pub open spec fn updates_view(s: Seq<BodyUpdate>) -> Seq<BodyUpdateV> {
    s.map_values(|u: BodyUpdate| u@)
}

pub open spec fn updates_wf(s: Seq<BodyUpdateV>) -> bool {
    forall|i: int| 0 <= i < s.len() ==> update_wf(#[trigger] s[i])
}

/// The models of a sequence of ids.
pub open spec fn ids_view(s: Seq<i64>) -> Seq<int> {
    s.map_values(|x: i64| x as int)
}

/// Some position of `ds` holds `id`.
pub open spec fn contains_id(ds: Seq<int>, id: int) -> bool {
    exists|k: int| 0 <= k < ds.len() && ds[k] == id
}

/// The store's invariant.
pub open spec fn store_inv(s: Seq<BodyV>) -> bool {
    &&& bodies_wf(s)
    &&& none_deleted(s)
    &&& ids_distinct(s)
    &&& sel_exclusive(s)
}

/// The first update for `id` at or after position `i`.
pub open spec fn sp_find_update_from(us: Seq<BodyUpdateV>, id: int, i: int) -> Option<BodyUpdateV>
    decreases us.len() - i,
{
    if i < 0 || i >= us.len() {
        None
    } else if us[i].id == id {
        Some(us[i])
    } else {
        sp_find_update_from(us, id, i + 1)
    }
}

/// The first update for `id`, if any.
pub open spec fn sp_find_update(us: Seq<BodyUpdateV>, id: int) -> Option<BodyUpdateV> {
    sp_find_update_from(us, id, 0)
}

/// A body overwritten from an update: position, velocity and mass are
/// taken over; id, radius, sun and selection flags are kept.
pub open spec fn sp_overwrite(b: BodyV, u: BodyUpdateV) -> BodyV {
    BodyV { x: u.x, y: u.y, vx: u.vx, vy: u.vy, mass: u.mass, ..b }
}

/// The store after applying one tick's delta: bodies whose id is listed in
/// `ds` are dropped; every other body is overwritten from its update (or
/// kept as it was, should no update name it).
pub open spec fn sp_apply(s: Seq<BodyV>, us: Seq<BodyUpdateV>, ds: Seq<int>) -> Seq<BodyV>
    decreases s.len(),
{
    if s.len() == 0 {
        Seq::empty()
    } else {
        let front = sp_apply(s.drop_last(), us, ds);
        let b = s.last();
        if contains_id(ds, b.id) {
            front
        } else {
            match sp_find_update(us, b.id) {
                Some(u) => front.push(sp_overwrite(b, u)),
                None => front.push(b),
            }
        }
    }
}

/// The store after a selection change: exactly the body with the given id
/// (if any) is selected, every other body is deselected.
pub open spec fn sp_select(s: Seq<BodyV>, target: Option<int>) -> Seq<BodyV> {
    s.map_values(|b: BodyV| BodyV {
        selected: match target {
            Some(id) => b.id == id,
            None => false,
        },
        ..b
    })
}

/// The distance from a point to a body's surface: the center distance
/// minus the radius, floored at zero for points inside the disk.
pub open spec fn sp_surface_dist(b: BodyV, px: int, py: int) -> int {
    let d = sp_dist(b.x, b.y, px, py) - b.radius;
    if d < 0 {
        0
    } else {
        d
    }
}

/// Every id in an applied store comes from the store it was applied to.
proof fn lemma_apply_id_prov(s: Seq<BodyV>, us: Seq<BodyUpdateV>, ds: Seq<int>, id: int)
    requires
        contains_body_id(sp_apply(s, us, ds), id),
    ensures
        contains_body_id(s, id),
    decreases s.len(),
{
    let r = sp_apply(s, us, ds);
    let k = choose|k: int| 0 <= k < r.len() && (#[trigger] r[k]).id == id;
    if s.len() > 0 {
        let butlast = s.drop_last();
        let b = s.last();
        let front = sp_apply(butlast, us, ds);
        if contains_id(ds, b.id) || k < front.len() {
            assert(r[k] == front[k]);
            assert(contains_body_id(front, id));
            lemma_apply_id_prov(butlast, us, ds, id);
            let m = choose|m: int| 0 <= m < butlast.len() && (#[trigger] butlast[m]).id == id;
            assert(butlast[m] == s[m]);
            assert(contains_body_id(s, id)) by {
                assert(0 <= m < s.len() && s[m].id == id);
            }
        } else {
            assert(s[s.len() - 1].id == id);
        }
    }
}

/// Every selection in an applied store comes from the store it was
/// applied to.
proof fn lemma_apply_sel_prov(s: Seq<BodyV>, us: Seq<BodyUpdateV>, ds: Seq<int>)
    requires
        contains_selected(sp_apply(s, us, ds)),
    ensures
        contains_selected(s),
    decreases s.len(),
{
    let r = sp_apply(s, us, ds);
    let k = choose|k: int| 0 <= k < r.len() && (#[trigger] r[k]).selected;
    if s.len() > 0 {
        let butlast = s.drop_last();
        let b = s.last();
        let front = sp_apply(butlast, us, ds);
        if contains_id(ds, b.id) || k < front.len() {
            assert(r[k] == front[k]);
            assert(contains_selected(front));
            lemma_apply_sel_prov(butlast, us, ds);
            let m = choose|m: int| 0 <= m < butlast.len() && (#[trigger] butlast[m]).selected;
            assert(butlast[m] == s[m]);
            assert(contains_selected(s)) by {
                assert(0 <= m < s.len() && s[m].selected);
            }
        } else {
            assert(s[s.len() - 1].selected);
        }
    }
}

/// `sp_apply` keeps the store's structural invariants: it never invents an
/// id or a selection, and it keeps ids distinct and selection exclusive.
proof fn lemma_apply_props(s: Seq<BodyV>, us: Seq<BodyUpdateV>, ds: Seq<int>)
    requires
        bodies_wf(s),
        ids_distinct(s),
        sel_exclusive(s),
        none_deleted(s),
        updates_wf(us),
    ensures
        ids_distinct(sp_apply(s, us, ds)),
        sel_exclusive(sp_apply(s, us, ds)),
        none_deleted(sp_apply(s, us, ds)),
        bodies_wf(sp_apply(s, us, ds)),
    decreases s.len(),
{
    if s.len() > 0 {
        let butlast = s.drop_last();
        let b = s.last();
        assert(forall|i: int| 0 <= i < butlast.len() ==> butlast[i] == s[i]);
        lemma_apply_props(butlast, us, ds);
        let front = sp_apply(butlast, us, ds);
        let r = sp_apply(s, us, ds);
        if !contains_id(ds, b.id) {
            let nb = match sp_find_update(us, b.id) {
                Some(u) => sp_overwrite(b, u),
                None => b,
            };
            if sp_find_update(us, b.id) is Some {
                lemma_find_update_wf(us, b.id, 0);
            }
            assert(r == front.push(nb));
            assert(nb.id == b.id && nb.selected == b.selected && !nb.delete && body_wf(nb));
            assert forall|i: int| 0 <= i < front.len() implies (#[trigger] front[i]).id != nb.id
                && !(front[i].selected && nb.selected) by {
                if front[i].id == nb.id {
                    assert(contains_body_id(front, nb.id));
                    lemma_apply_id_prov(butlast, us, ds, nb.id);
                    let m = choose|m: int| 0 <= m < butlast.len()
                        && (#[trigger] butlast[m]).id == nb.id;
                    assert(s[m].id == s[s.len() - 1].id);
                }
                if front[i].selected && nb.selected {
                    assert(contains_selected(front));
                    lemma_apply_sel_prov(butlast, us, ds);
                    let m = choose|m: int| 0 <= m < butlast.len()
                        && (#[trigger] butlast[m]).selected;
                    assert(s[m].selected && s[s.len() - 1].selected);
                }
            }
            assert forall|i: int, j: int| 0 <= i < j < r.len() implies (#[trigger] r[i]).id
                != (#[trigger] r[j]).id && !(r[i].selected && r[j].selected) by {
                if j < front.len() {
                    assert(r[i] == front[i] && r[j] == front[j]);
                } else {
                    assert(r[j] == nb && r[i] == front[i]);
                }
            }
            assert forall|i: int| 0 <= i < r.len() implies body_wf(#[trigger] r[i])
                && !r[i].delete by {
                if i < front.len() {
                    assert(r[i] == front[i]);
                }
            }
        }
    }
}

/// A found update satisfies `update_wf` when the whole list does.
proof fn lemma_find_update_wf(us: Seq<BodyUpdateV>, id: int, i: int)
    requires
        updates_wf(us),
        0 <= i,
        sp_find_update_from(us, id, i) is Some,
    ensures
        update_wf(sp_find_update_from(us, id, i).unwrap()),
    decreases us.len() - i,
{
    if i < us.len() && us[i].id != id {
        lemma_find_update_wf(us, id, i + 1);
    }
}

proof fn lemma_find_update_skip(us: Seq<BodyUpdateV>, id: int, i: int)
    requires
        0 <= i <= us.len(),
        forall|j: int| 0 <= j < i ==> (#[trigger] us[j]).id != id,
    ensures
        sp_find_update_from(us, id, 0) == sp_find_update_from(us, id, i),
    decreases i,
{
    if i > 0 {
        lemma_find_update_skip(us, id, i - 1);
    }
}

/// The authoritative collection of live bodies.
pub struct Store {
    bodies: Vec<Body>,
}

impl View for Store {
    type V = Seq<BodyV>;

    closed spec fn view(&self) -> Seq<BodyV> {
        seq_view(self.bodies@)
    }
}

impl Store {
    /// An empty store.
    pub fn new() -> (s: Store)
        ensures
            s@ =~= Seq::<BodyV>::empty(),
            store_inv(s@),
    {
        Store { bodies: Vec::new() }
    }

    /// Replace the whole population (batch insertion at setup, and the
    /// final write of a tick).
    pub fn replace(&mut self, bodies: Vec<Body>)
        requires
            store_inv(seq_view(bodies@)),
        ensures
            final(self)@ == seq_view(bodies@),
            store_inv(final(self)@),
    {
        self.bodies = bodies;
    }

    /// An immutable copy of every body's current state.
    pub fn snapshot(&self) -> (r: Vec<Body>)
        ensures
            seq_view(r@) == self@,
    {
        copy_bodies(&self.bodies)
    }

    /// How many bodies are live.
    pub fn len(&self) -> (n: usize)
        ensures
            n == self@.len(),
    {
        self.bodies.len()
    }

    /// Select exactly the body with the given id (if present); `None`
    /// clears every selection.
    pub fn set_selection(&mut self, target: Option<i64>)
        requires
            store_inv(old(self)@),
        ensures
            final(self)@ == sp_select(old(self)@, match target {
                Some(id) => Some(id as int),
                None => None,
            }),
            store_inv(final(self)@),
    {
        let ghost sv = self@;
        let ghost t: Option<int> = (match target {
            Some(id) => Some(id as int),
            None => None,
        });
        let n = self.bodies.len();
        let mut out: Vec<Body> = Vec::new();
        let mut i: usize = 0;
        while i < n
            invariant
                n == self.bodies.len(),
                i <= n,
                sv == seq_view(self.bodies@),
                store_inv(sv),
                t == (match target {
                    Some(id) => Some(id as int),
                    None => None,
                }),
                seq_view(out@) == sp_select(sv, t).take(i as int),
            decreases n - i,
        {
            proof {
                assert(sv[i as int] == self.bodies@[i as int]@);
            }
            let b = self.bodies[i];
            let sel = match target {
                Some(id) => b.id == id,
                None => false,
            };
            let ghost prev = seq_view(out@);
            out.push(Body { selected: sel, ..b });
            proof {
                let all = sp_select(sv, t);
                assert(all[i as int] == (BodyV {
                    selected: match t {
                        Some(id) => sv[i as int].id == id,
                        None => false,
                    },
                    ..sv[i as int]
                }));
                assert(seq_view(out@) =~= prev.push(all[i as int]));
                assert(seq_view(out@) =~= all.take(i as int + 1));
            }
            i += 1;
        }
        proof {
            assert(seq_view(out@) =~= sp_select(sv, t));
        }
        self.bodies = out;
        proof {
            let r = sp_select(sv, t);
            assert forall|i0: int| 0 <= i0 < r.len() implies body_wf(#[trigger] r[i0])
                && !r[i0].delete by {
                assert(body_wf(sv[i0]));
            }
            assert forall|i0: int, j0: int| 0 <= i0 < j0 < r.len() implies (#[trigger] r[i0]).id
                != (#[trigger] r[j0]).id && !(r[i0].selected && r[j0].selected) by {
                assert(sv[i0].id != sv[j0].id);
            }
        }
    }

    /// The id of the body whose surface lies closest to the click point,
    /// among those strictly within `max_d`; ties are broken by the first
    /// position in iteration order.  `None` when no body qualifies.
    pub fn find_nearest_within(&self, px: i128, py: i128, max_d: i128) -> (r: Option<i64>)
        requires
            store_inv(self@),
            fp_in_range(px as int),
            fp_in_range(py as int),
        ensures
            r is None ==> (forall|j: int| 0 <= j < self@.len()
                ==> sp_surface_dist(#[trigger] self@[j], px as int, py as int) >= max_d as int),
            match r {
                Some(id) => exists|i: int| {
                    &&& 0 <= i < self@.len()
                    &&& (#[trigger] self@[i]).id == id as int
                    &&& sp_surface_dist(self@[i], px as int, py as int) < max_d as int
                    &&& (forall|j: int| 0 <= j < self@.len()
                        ==> sp_surface_dist(#[trigger] self@[j], px as int, py as int)
                            >= sp_surface_dist(self@[i], px as int, py as int))
                    &&& (forall|j: int| 0 <= j < i
                        ==> sp_surface_dist(#[trigger] self@[j], px as int, py as int)
                            > sp_surface_dist(self@[i], px as int, py as int))
                },
                None => true,
            },
    {
        let ghost sv = self@;
        let n = self.bodies.len();
        let mut best_idx: usize = 0;
        let mut best_sd: i128 = 0;
        let mut found = false;
        let mut i: usize = 0;
        while i < n
            invariant
                n == self.bodies.len(),
                i <= n,
                sv == seq_view(self.bodies@),
                store_inv(sv),
                fp_in_range(px as int),
                fp_in_range(py as int),
                !found ==> (forall|j: int| 0 <= j < i
                    ==> sp_surface_dist(#[trigger] sv[j], px as int, py as int)
                        >= max_d as int),
                found ==> {
                    &&& best_idx < i
                    &&& best_sd as int == sp_surface_dist(sv[best_idx as int], px as int,
                        py as int)
                    &&& best_sd < max_d
                    &&& (forall|j: int| 0 <= j < i
                        ==> sp_surface_dist(#[trigger] sv[j], px as int, py as int)
                            >= best_sd as int)
                    &&& (forall|j: int| 0 <= j < best_idx
                        ==> sp_surface_dist(#[trigger] sv[j], px as int, py as int)
                            > best_sd as int)
                },
            decreases n - i,
        {
            proof {
                assert(sv[i as int] == self.bodies@[i as int]@);
                assert(body_wf(sv[i as int]));
            }
            let b = self.bodies[i];
            let sd = surface_distance(&b, px, py);
            if sd < max_d && (!found || sd < best_sd) {
                best_idx = i;
                best_sd = sd;
                found = true;
            }
            i += 1;
        }
        if found {
            proof {
                assert(sv[best_idx as int] == self.bodies@[best_idx as int]@);
            }
            Some(self.bodies[best_idx].id)
        } else {
            None
        }
    }

    /// Apply one tick's delta: drop the listed ids, overwrite everything
    /// else from its update.  Every live id not listed for deletion must
    /// come with an update.
    pub fn apply(&mut self, updates: &Vec<BodyUpdate>, deletions: &Vec<i64>)
        requires
            store_inv(old(self)@),
            updates_wf(updates_view(updates@)),
            forall|i: int| 0 <= i < old(self)@.len()
                && !contains_id(ids_view(deletions@), (#[trigger] old(self)@[i]).id)
                ==> sp_find_update(updates_view(updates@), old(self)@[i].id) is Some,
        ensures
            final(self)@ == sp_apply(old(self)@, updates_view(updates@), ids_view(deletions@)),
            store_inv(final(self)@),
    {
        let ghost sv = self@;
        let ghost us = updates_view(updates@);
        let ghost ds = ids_view(deletions@);
        let n = self.bodies.len();
        let mut out: Vec<Body> = Vec::new();
        let mut i: usize = 0;
        while i < n
            invariant
                n == self.bodies.len(),
                i <= n,
                sv == seq_view(self.bodies@),
                store_inv(sv),
                us == updates_view(updates@),
                ds == ids_view(deletions@),
                updates_wf(us),
                forall|k: int| 0 <= k < sv.len() && !contains_id(ds, (#[trigger] sv[k]).id)
                    ==> sp_find_update(us, sv[k].id) is Some,
                seq_view(out@) == sp_apply(sv.take(i as int), us, ds),
            decreases n - i,
        {
            proof {
                assert(sv[i as int] == self.bodies@[i as int]@);
                assert(body_wf(sv[i as int]));
                assert(sv.take(i as int + 1).drop_last() =~= sv.take(i as int));
                assert(sv.take(i as int + 1).last() == sv[i as int]);
            }
            let b = self.bodies[i];
            let ghost prev = seq_view(out@);
            if !contains_id_in(deletions, b.id) {
                match find_update_in(updates, b.id) {
                    Some(u) => {
                        proof {
                            lemma_find_update_wf(us, b@.id, 0);
                        }
                        out.push(Body {
                            x: u.x,
                            y: u.y,
                            vx: u.vx,
                            vy: u.vy,
                            mass: u.mass,
                            ..b
                        });
                        proof {
                            assert(seq_view(out@) =~= prev.push(sp_overwrite(b@, u@)));
                        }
                    },
                    None => {
                        out.push(b);
                        proof {
                            assert(seq_view(out@) =~= prev.push(b@));
                        }
                    },
                }
            }
            i += 1;
        }
        proof {
            assert(sv.take(n as int) =~= sv);
            lemma_apply_props(sv, us, ds);
        }
        self.bodies = out;
    }
}

/// The executable distance from a point to a body's surface, zero for
/// points inside the disk; mirrors `sp_surface_dist`.
pub fn surface_distance(b: &Body, px: i128, py: i128) -> (r: i128)
    requires
        body_wf(b@),
        fp_in_range(px as int),
        fp_in_range(py as int),
    ensures
        r as int == sp_surface_dist(b@, px as int, py as int),
        r >= 0,
{
    let d = dist(b.x, b.y, px, py);
    if d < b.radius {
        0
    } else {
        d - b.radius
    }
}

/// Whether a list of ids holds the given id.
fn contains_id_in(ds: &Vec<i64>, id: i64) -> (r: bool)
    ensures
        r == contains_id(ids_view(ds@), id as int),
{
    let ghost dv = ids_view(ds@);
    let n = ds.len();
    let mut i: usize = 0;
    while i < n
        invariant
            n == ds.len(),
            dv == ids_view(ds@),
            i <= n,
            forall|j: int| 0 <= j < i ==> dv[j] != id as int,
        decreases n - i,
    {
        proof {
            assert(dv[i as int] == ds@[i as int] as int);
        }
        if ds[i] == id {
            return true;
        }
        i += 1;
    }
    proof {
        if contains_id(dv, id as int) {
            let k = choose|k: int| 0 <= k < dv.len() && dv[k] == id as int;
            assert(dv[k] != id as int);
        }
    }
    false
}

/// The first update for the given id, if any.
fn find_update_in(us: &Vec<BodyUpdate>, id: i64) -> (r: Option<BodyUpdate>)
    ensures
        match r {
            Some(u) => sp_find_update(updates_view(us@), id as int) == Some(u@),
            None => sp_find_update(updates_view(us@), id as int) is None,
        },
{
    let ghost uv = updates_view(us@);
    let n = us.len();
    let mut i: usize = 0;
    while i < n
        invariant
            n == us.len(),
            uv == updates_view(us@),
            i <= n,
            forall|j: int| 0 <= j < i ==> (#[trigger] uv[j]).id != id as int,
        decreases n - i,
    {
        proof {
            assert(uv[i as int] == us@[i as int]@);
        }
        if us[i].id == id {
            proof {
                lemma_find_update_skip(uv, id as int, i as int);
            }
            return Some(us[i]);
        }
        i += 1;
    }
    proof {
        lemma_find_update_skip(uv, id as int, n as int);
    }
    None
}

} // verus!
