//! The render world: a fine mesh whose vertex radii carry terrain height.
//!
//! [`World::apply_heights`] projects the plate-simulation state onto the
//! render mesh: each render vertex gets a density from the simulation
//! vertices it points toward, the densities are normalized into their
//! observed range, and the vertex is moved radially by the normalized
//! density, so the elevation spread stays within a fixed band.

use vstd::prelude::*;

use crate::WorldError;
use crate::fixed::{SCALE, tdiv128};
use crate::plate_simulation::{MAX_SIM_VERTS, PlatePoint, PlateSimulation, SIM_COORD_LIMIT, sim_wf};
use crate::polyhedron::{Polyhedron, coords_bounded, wf};
use crate::vec3::Vec3;

verus! {

/// Density accumulator over the first `j` simulation vertices: the sum of
/// the scaled dot products with `a` that exceed the one-tenth threshold,
/// and how many passed.
pub open spec fn spec_density_acc(sim: Seq<PlatePoint>, a: Vec3, j: int) -> (int, int)
    decreases j,
{
    if j <= 0 {
        (0, 0)
    } else {
        let prev = spec_density_acc(sim, a, j - 1);
        let d = crate::fixed::spec_tdiv(crate::vec3::spec_dot(a, sim[j - 1].pos), 1_000_000);
        if d > 100_000 {
            (prev.0 + d, prev.1 + 1)
        } else {
            prev
        }
    }
}

/// The convergence density of a render vertex at `a`: the mean of the
/// passing dot products, or zero when none passes the threshold.
pub open spec fn spec_density(sim: Seq<PlatePoint>, a: Vec3) -> int {
    let acc = spec_density_acc(sim, a, sim.len() as int);
    if acc.1 == 0 {
        0
    } else {
        crate::fixed::spec_tdiv(acc.0, acc.1)
    }
}

/// The densities of every render vertex.
pub open spec fn spec_deltas(sim: Seq<PlatePoint>, mesh: Seq<crate::polyhedron::PolyVertex>) -> Seq<
    int,
> {
    Seq::new(mesh.len(), |i: int| spec_density(sim, mesh[i].pos))
}

/// The least of the first `j` entries (meaningful for `j >= 1`).
pub open spec fn spec_seq_min(ds: Seq<int>, j: int) -> int
    decreases j,
{
    if j <= 1 {
        ds[0]
    } else {
        let m = spec_seq_min(ds, j - 1);
        if ds[j - 1] < m {
            ds[j - 1]
        } else {
            m
        }
    }
}

/// The greatest of the first `j` entries (meaningful for `j >= 1`).
pub open spec fn spec_seq_max(ds: Seq<int>, j: int) -> int
    decreases j,
{
    if j <= 1 {
        ds[0]
    } else {
        let m = spec_seq_max(ds, j - 1);
        if ds[j - 1] > m {
            ds[j - 1]
        } else {
            m
        }
    }
}

/// A position scaled radially by `1 + (2 delta - min - max) / (max - min)`,
/// in fixed point with truncating division; the scale is one when the
/// density range is empty.
pub open spec fn spec_height_scaled(pos: Vec3, delta: int, mind: int, maxd: int) -> Vec3 {
    let scale = if maxd == mind {
        1_000_000int
    } else {
        1_000_000 + crate::fixed::spec_tdiv((2 * delta - mind - maxd) * 1_000_000, maxd - mind)
    };
    Vec3 {
        x: crate::fixed::spec_tdiv(pos.x * scale, 1_000_000) as i64,
        y: crate::fixed::spec_tdiv(pos.y * scale, 1_000_000) as i64,
        z: crate::fixed::spec_tdiv(pos.z * scale, 1_000_000) as i64,
    }
}

/// The render world: owns the fine mesh.
#[derive(Clone, Debug)]
pub struct World {
    pub poly: Polyhedron,
}

impl World {
    /// Wrap a render mesh.
    pub fn new(poly: Polyhedron) -> (w: World)
        ensures
            w.poly == poly,
    {
        World { poly }
    }

    /// The wrapped mesh.
    pub fn get_poly(&self) -> (p: &Polyhedron)
        ensures
            *p == self.poly,
    {
        &self.poly
    }

    /// Perturb every render vertex radially by the local convergence
    /// density of the plate simulation.
    ///
    /// For each render vertex, the density is the average of the scaled dot
    /// products against every simulation vertex that exceeds a fixed
    /// threshold of one tenth; a vertex with no such neighbor keeps density
    /// zero rather than dividing by zero.  Densities are then centered in
    /// their observed [min, max] range and each position is scaled by
    /// `1 + normalized`, which lies in [0, 2], so no radius turns negative
    /// or diverges: every coordinate stays within twice its old magnitude.
    pub fn apply_heights(&mut self, plate_sim: &PlateSimulation) -> (r: Result<(), WorldError>)
        requires
            wf(old(self).poly),
            coords_bounded(old(self).poly, 2 * SCALE as int),
            sim_wf(*plate_sim),
        ensures
            final(self).poly.vertices@.len() == old(self).poly.vertices@.len(),
            final(self).poly.edges@ == old(self).poly.edges@,
            final(self).poly.faces@ == old(self).poly.faces@,
            forall|i: int|
                0 <= i < final(self).poly.vertices@.len()
                    ==> #[trigger] final(self).poly.vertices@[i].edge_indices@
                    == old(self).poly.vertices@[i].edge_indices@
                    && final(self).poly.vertices@[i].face_indices@
                    == old(self).poly.vertices@[i].face_indices@,
            r is Ok ==> wf(final(self).poly),
            r is Ok ==> coords_bounded(final(self).poly, 4 * SCALE as int),
            r is Ok && old(self).poly.vertices@.len() > 0 ==> {
                let mesh0 = old(self).poly.vertices@;
                let ds = spec_deltas(plate_sim.verts@, mesh0);
                let mind = spec_seq_min(ds, mesh0.len() as int);
                let maxd = spec_seq_max(ds, mesh0.len() as int);
                forall|i: int|
                    0 <= i < mesh0.len() ==> #[trigger] final(self).poly.vertices@[i].pos
                        == spec_height_scaled(mesh0[i].pos, ds[i], mind, maxd)
            },
            r is Err <==> old(self).poly.vertices@.len() > MAX_SIM_VERTS,
            r is Err ==> r == Err::<(), WorldError>(WorldError::ConfigurationError)
                && *final(self) == *old(self),
    {
        let n = self.poly.vertices.len();
        if n == 0 {
            return Ok(());
        }
        if n > MAX_SIM_VERTS {
            return Err(WorldError::ConfigurationError);
        }
        let m = plate_sim.verts.len();
        // Density of every render vertex against the simulation vertices.
        let mut deltas: Vec<i64> = Vec::new();
        let mut i: usize = 0;
        while i < n
            invariant
                n == self.poly.vertices@.len(),
                1 <= n <= MAX_SIM_VERTS,
                coords_bounded(self.poly, 2 * SCALE as int),
                m == plate_sim.verts@.len(),
                1 <= m <= MAX_SIM_VERTS,
                sim_wf(*plate_sim),
                i <= n,
                deltas@.len() == i,
                forall|v: int| 0 <= v < i ==> 0 <= #[trigger] deltas@[v] <= 24_000_000,
                self.poly.vertices@ == old(self).poly.vertices@,
                forall|v: int|
                    0 <= v < i ==> #[trigger] deltas@[v] == spec_density(
                        plate_sim.verts@,
                        self.poly.vertices@[v].pos,
                    ),
            decreases n - i,
        {
            let pos = self.poly.vertices[i].pos;
            let mut acc: i128 = 0;
            let mut cnt: i128 = 0;
            let mut j: usize = 0;
            while j < m
                invariant
                    m == plate_sim.verts@.len(),
                    m <= MAX_SIM_VERTS,
                    sim_wf(*plate_sim),
                    crate::vec3::bounded(pos, 2 * SCALE as int),
                    j <= m,
                    0 <= cnt <= j,
                    100_000 * cnt <= acc <= cnt * 24_000_000,
                    acc == spec_density_acc(plate_sim.verts@, pos, j as int).0,
                    cnt == spec_density_acc(plate_sim.verts@, pos, j as int).1,
                decreases m - j,
            {
                let d = pos.dot(&plate_sim.verts[j].pos);
                proof {
                    crate::fixed::lemma_mul_le(
                        pos.x as int,
                        plate_sim.verts@[j as int].pos.x as int,
                        2 * SCALE as int,
                        SIM_COORD_LIMIT as int,
                    );
                    crate::fixed::lemma_mul_le(
                        pos.y as int,
                        plate_sim.verts@[j as int].pos.y as int,
                        2 * SCALE as int,
                        SIM_COORD_LIMIT as int,
                    );
                    crate::fixed::lemma_mul_le(
                        pos.z as int,
                        plate_sim.verts@[j as int].pos.z as int,
                        2 * SCALE as int,
                        SIM_COORD_LIMIT as int,
                    );
                }
                let ds = tdiv128(d, 1_000_000);
                proof {
                    crate::fixed::lemma_tdiv_bound(d as int, 1_000_000, 24_000_000_000_000);
                }
                if ds > 100_000 {
                    acc = acc + ds;
                    cnt = cnt + 1;
                }
                j += 1;
            }
            let delta: i128 = if cnt == 0 {
                0
            } else {
                let q = tdiv128(acc, cnt);
                proof {
                    crate::fixed::lemma_tdiv_bound(acc as int, cnt as int, cnt as int
                        * 24_000_000);
                    vstd::arithmetic::div_mod::lemma_div_multiples_vanish(
                        24_000_000,
                        cnt as int,
                    );
                }
                q
            };
            proof {
                assert(delta == spec_density(plate_sim.verts@, pos));
            }
            deltas.push(delta as i64);
            i += 1;
        }
        // Observed density range.
        let ghost ds = spec_deltas(plate_sim.verts@, old(self).poly.vertices@);
        proof {
            assert(forall|v: int| 0 <= v < n ==> #[trigger] deltas@[v] == ds[v]);
        }
        let mut min_delta: i64 = deltas[0];
        let mut max_delta: i64 = deltas[0];
        let mut i: usize = 1;
        while i < n
            invariant
                deltas@.len() == n,
                ds == spec_deltas(plate_sim.verts@, old(self).poly.vertices@),
                ds.len() == n,
                forall|v: int| 0 <= v < n ==> #[trigger] deltas@[v] == ds[v],
                1 <= i <= n,
                forall|v: int| 0 <= v < n ==> 0 <= #[trigger] deltas@[v] <= 24_000_000,
                0 <= min_delta <= max_delta <= 24_000_000,
                forall|v: int| 0 <= v < i ==> min_delta <= #[trigger] deltas@[v] <= max_delta,
                min_delta == spec_seq_min(ds, i as int),
                max_delta == spec_seq_max(ds, i as int),
            decreases n - i,
        {
            if deltas[i] < min_delta {
                min_delta = deltas[i];
            }
            if deltas[i] > max_delta {
                max_delta = deltas[i];
            }
            i += 1;
        }
        let diff: i64 = max_delta - min_delta;
        let ghost mind = spec_seq_min(ds, n as int);
        let ghost maxd = spec_seq_max(ds, n as int);
        // Scale every vertex radially by 1 + (2 delta - (min + max)) / diff.
        let mut i: usize = 0;
        while i < n
            invariant
                min_delta == mind,
                max_delta == maxd,
                ds == spec_deltas(plate_sim.verts@, old(self).poly.vertices@),
                ds.len() == n,
                forall|v: int| 0 <= v < n ==> #[trigger] deltas@[v] == ds[v],
                n == self.poly.vertices@.len(),
                self.poly.vertices@.len() == old(self).poly.vertices@.len(),
                self.poly.edges@ == old(self).poly.edges@,
                self.poly.faces@ == old(self).poly.faces@,
                forall|v: int|
                    0 <= v < n ==> #[trigger] self.poly.vertices@[v].edge_indices@ == old(
                        self,
                    ).poly.vertices@[v].edge_indices@
                        && self.poly.vertices@[v].face_indices@ == old(
                        self,
                    ).poly.vertices@[v].face_indices@,
                wf(*&old(self).poly),
                deltas@.len() == n,
                forall|v: int| 0 <= v < n ==> min_delta <= #[trigger] deltas@[v] <= max_delta,
                0 <= min_delta <= max_delta <= 24_000_000,
                diff == max_delta - min_delta,
                i <= n,
                forall|v: int|
                    i <= v < n ==> #[trigger] self.poly.vertices@[v].pos == old(
                        self,
                    ).poly.vertices@[v].pos,
                forall|v: int|
                    i <= v < n ==> crate::vec3::bounded(
                        #[trigger] self.poly.vertices@[v].pos,
                        2 * SCALE as int,
                    ),
                forall|v: int|
                    0 <= v < i ==> crate::vec3::bounded(
                        #[trigger] self.poly.vertices@[v].pos,
                        4 * SCALE as int,
                    ),
                forall|v: int|
                    0 <= v < i ==> #[trigger] self.poly.vertices@[v].pos == spec_height_scaled(
                        old(self).poly.vertices@[v].pos,
                        ds[v],
                        mind,
                        maxd,
                    ),
            decreases n - i,
        {
            let scale: i128 = if diff == 0 {
                1_000_000
            } else {
                let numer: i128 = 2 * deltas[i] as i128 - min_delta as i128 - max_delta as i128;
                let q = tdiv128(numer * 1_000_000, diff as i128);
                proof {
                    crate::fixed::lemma_mul_le(
                        numer as int,
                        1_000_000,
                        diff as int,
                        1_000_000,
                    );
                    crate::fixed::lemma_tdiv_bound(
                        numer as int * 1_000_000,
                        diff as int,
                        diff as int * 1_000_000,
                    );
                    vstd::arithmetic::div_mod::lemma_div_multiples_vanish(
                        1_000_000,
                        diff as int,
                    );
                }
                1_000_000 + q
            };
            let pos = self.poly.vertices[i].pos;
            proof {
                crate::fixed::lemma_mul_le(pos.x as int, scale as int, 2 * SCALE as int, 2_000_000);
                crate::fixed::lemma_mul_le(pos.y as int, scale as int, 2 * SCALE as int, 2_000_000);
                crate::fixed::lemma_mul_le(pos.z as int, scale as int, 2 * SCALE as int, 2_000_000);
            }
            let nx = tdiv128(pos.x as i128 * scale, 1_000_000);
            let ny = tdiv128(pos.y as i128 * scale, 1_000_000);
            let nz = tdiv128(pos.z as i128 * scale, 1_000_000);
            proof {
                crate::fixed::lemma_tdiv_bound(
                    pos.x as int * scale as int,
                    1_000_000,
                    4_000_000_000_000,
                );
                crate::fixed::lemma_tdiv_bound(
                    pos.y as int * scale as int,
                    1_000_000,
                    4_000_000_000_000,
                );
                crate::fixed::lemma_tdiv_bound(
                    pos.z as int * scale as int,
                    1_000_000,
                    4_000_000_000_000,
                );
            }
            let ghost before = self.poly.vertices@;
            self.poly.vertices[i].pos = Vec3 { x: nx as i64, y: ny as i64, z: nz as i64 };
            proof {
                assert(self.poly.vertices@[i as int].pos == spec_height_scaled(
                    old(self).poly.vertices@[i as int].pos,
                    ds[i as int],
                    mind,
                    maxd,
                ));
                assert(forall|v: int|
                    0 <= v < n && v != i ==> #[trigger] self.poly.vertices@[v] == before[v]);
            }
            i += 1;
        }
        proof {
            assert forall|v: int, j: int|
                0 <= v < self.poly.vertices@.len() && 0 <= j
                    < self.poly.vertices@[v].edge_indices@.len() implies #[trigger] self
                .poly.vertices@[v].edge_indices@[j] < self.poly.edges@.len() by {
                assert(self.poly.vertices@[v].edge_indices@
                    == old(self).poly.vertices@[v].edge_indices@);
            }
            assert forall|v: int, j: int|
                0 <= v < self.poly.vertices@.len() && 0 <= j
                    < self.poly.vertices@[v].face_indices@.len() implies #[trigger] self
                .poly.vertices@[v].face_indices@[j] < self.poly.faces@.len() by {
                assert(self.poly.vertices@[v].edge_indices@
                    == old(self).poly.vertices@[v].edge_indices@);
                assert(self.poly.vertices@[v].face_indices@
                    == old(self).poly.vertices@[v].face_indices@);
            }
            assert(wf(self.poly));
        }
        Ok(())
    }
}

} // verus!
