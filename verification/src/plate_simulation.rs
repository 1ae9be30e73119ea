//! Tectonic-plate partitioning and kinematics.
//!
//! The simulation mesh's vertices are wrapped into [`PlatePoint`]s, split
//! into contiguous [`Plate`]s by seeded breadth-first flood fill over the
//! vertex adjacency graph, and advanced step by step: each plate rotates its
//! members about its axis, then every vertex's angular speed is damped by a
//! dot-product convergence metric.  All randomness comes from one explicit
//! [`XorShiftRng`] stream, so a fixed seed reproduces the run exactly.

use vstd::prelude::*;

use crate::WorldError;
use crate::fixed::{SCALE, sin_cos, tdiv128};
use crate::polyhedron::{Edge, Polyhedron, list_has, wf, vertex_edges_sound, coords_bounded};
use crate::rng::XorShiftRng;
use crate::vec3::{Vec3, bounded};

verus! {

/// Largest simulation mesh the arithmetic bounds are stated for.
pub const MAX_SIM_VERTS: usize = 1_000_000;

/// Coordinate band that simulation positions stay inside.
pub const SIM_COORD_LIMIT: i64 = 4_000_000;

/// Angular-speed band (in fixed-point radians) that per-vertex speeds stay
/// inside.
pub const SIM_SPEED_LIMIT: i64 = 1_000_000_000;

/// A simulation vertex: its position, the cached indices of its mesh
/// neighbors, and its own angular speed.
#[derive(Clone, Debug)]
pub struct PlatePoint {
    pub pos: Vec3,
    pub nbr_indices: Vec<usize>,
    pub speed: i64,
}

/// A tectonic plate: the indices of its member vertices, a unit rotation
/// axis, an angular speed, and a height bias, the last three drawn from the
/// explicit random stream.
#[derive(Clone, Debug)]
pub struct Plate {
    pub vertex_indices: Vec<usize>,
    pub move_axis: Vec3,
    pub move_speed: i64,
    pub height: i64,
}

/// Every plate member index is a valid vertex index.
pub open spec fn plates_valid(plates: Seq<Plate>, nverts: int) -> bool {
    forall|p: int, j: int|
        0 <= p < plates.len() && 0 <= j < plates[p].vertex_indices@.len()
            ==> #[trigger] plates[p].vertex_indices@[j] < nverts
}

/// Some plate's member list holds vertex `v`.
pub open spec fn vertex_in_plates(plates: Seq<Plate>, v: int) -> bool {
    exists|p: int, j: int|
        0 <= p < plates.len() && 0 <= j < plates[p].vertex_indices@.len()
            && #[trigger] plates[p].vertex_indices@[j] == v
}

/// Every vertex appears in some plate.
pub open spec fn plates_cover(plates: Seq<Plate>, nverts: int) -> bool {
    forall|v: int| 0 <= v < nverts ==> #[trigger] vertex_in_plates(plates, v)
}

/// No vertex appears in two places: distinct slots hold distinct vertices.
pub open spec fn plates_disjoint(plates: Seq<Plate>) -> bool {
    forall|p1: int, j1: int, p2: int, j2: int|
        0 <= p1 < plates.len() && 0 <= j1 < plates[p1].vertex_indices@.len() && 0 <= p2
            < plates.len() && 0 <= j2 < plates[p2].vertex_indices@.len() && (p1 != p2 || j1
            != j2) ==> #[trigger] plates[p1].vertex_indices@[j1]
            != #[trigger] plates[p2].vertex_indices@[j2]
}

/// A plate's motion parameters have the drawn shape: the axis is the
/// normalized all-positive draw of some generator state, and speed and
/// height are the modular reductions of the two following draws.
pub open spec fn plate_params_drawn(p: Plate) -> bool {
    exists|g: XorShiftRng|
        {
            let g3 = crate::rng::spec_step(crate::rng::spec_step(crate::rng::spec_step(g)));
            let g4 = crate::rng::spec_step(g3);
            let g5 = crate::rng::spec_step(g4);
            &&& p.move_axis == crate::vec3::spec_normalize(#[trigger] spec_axis_draw(g))
            &&& p.move_speed == 10_000 + g4.w as int % 90_000
            &&& p.height == 980_000 + g5.w as int % 40_000
        }
}

/// A true partition of the vertex set: valid, covering, and disjoint.
pub open spec fn is_partition(plates: Seq<Plate>, nverts: int) -> bool {
    plates_valid(plates, nverts) && plates_cover(plates, nverts) && plates_disjoint(plates)
}

/// The working state of partitioning: `ids[v]` is the claiming plate of
/// vertex `v` or -1, and `lists[p]` holds exactly the vertices claimed by
/// plate `p`, each at most once.
pub open spec fn partition_state(lists: Seq<Vec<usize>>, ids: Seq<i64>, nverts: int) -> bool {
    &&& forall|v: int| 0 <= v < ids.len() ==> -1 <= #[trigger] ids[v] < lists.len()
    &&& forall|p: int, j: int|
        0 <= p < lists.len() && 0 <= j < lists[p]@.len() ==> {
            let x = #[trigger] lists[p]@[j];
            x < nverts && ids.len() == nverts && ids[x as int] == p
        }
    &&& forall|p: int, j1: int, j2: int|
        0 <= p < lists.len() && 0 <= j1 < lists[p]@.len() && 0 <= j2 < lists[p]@.len() && j1
            != j2 ==> #[trigger] lists[p]@[j1] != #[trigger] lists[p]@[j2]
    &&& forall|v: int|
        0 <= v < ids.len() && #[trigger] ids[v] >= 0 ==> exists|j: int|
            0 <= j < lists[ids[v] as int]@.len() && lists[ids[v] as int]@[j] == v
}

/// How many vertices are claimed (entry not -1).
pub open spec fn count_claimed(ids: Seq<i64>) -> int
    decreases ids.len(),
{
    if ids.len() == 0 {
        0
    } else {
        count_claimed(ids.drop_last()) + if ids.last() >= 0 {
            1int
        } else {
            0int
        }
    }
}

/// Claiming one unclaimed vertex raises the claimed count by one.
proof fn lemma_count_claim(ids: Seq<i64>, v: int, p: i64)
    requires
        0 <= v < ids.len(),
        ids[v] == -1,
        p >= 0,
    ensures
        count_claimed(ids.update(v, p)) == count_claimed(ids) + 1,
    decreases ids.len(),
{
    let upd = ids.update(v, p);
    if v == ids.len() - 1 {
        assert(upd.drop_last() =~= ids.drop_last());
    } else {
        assert(upd.drop_last() =~= ids.drop_last().update(v, p));
        lemma_count_claim(ids.drop_last(), v, p);
    }
}

/// The claimed count never exceeds the length; it reaches the length
/// exactly when every vertex is claimed, and is zero when none is.
proof fn lemma_count_range(ids: Seq<i64>)
    ensures
        0 <= count_claimed(ids) <= ids.len(),
        (forall|v: int| 0 <= v < ids.len() ==> #[trigger] ids[v] >= 0) ==> count_claimed(ids)
            == ids.len(),
        count_claimed(ids) == ids.len() ==> forall|v: int|
            0 <= v < ids.len() ==> #[trigger] ids[v] >= 0,
        (forall|v: int| 0 <= v < ids.len() ==> #[trigger] ids[v] == -1) ==> count_claimed(ids)
            == 0,
    decreases ids.len(),
{
    if ids.len() > 0 {
        lemma_count_range(ids.drop_last());
        if forall|v: int| 0 <= v < ids.len() ==> #[trigger] ids[v] >= 0 {
            assert(forall|v: int|
                0 <= v < ids.drop_last().len() ==> #[trigger] ids.drop_last()[v] >= 0);
        }
        if forall|v: int| 0 <= v < ids.len() ==> #[trigger] ids[v] == -1 {
            assert(forall|v: int|
                0 <= v < ids.drop_last().len() ==> #[trigger] ids.drop_last()[v] == -1);
        }
        if count_claimed(ids) == ids.len() {
            assert(count_claimed(ids.drop_last()) == ids.drop_last().len());
            assert(ids.last() >= 0);
            assert forall|v: int| 0 <= v < ids.len() implies #[trigger] ids[v] >= 0 by {
                if v < ids.len() - 1 {
                    assert(ids.drop_last()[v] >= 0);
                }
            }
        }
    }
}

/// The other endpoint of an edge, as seen from vertex `v`.
pub open spec fn spec_other_end(e: Edge, v: int) -> int {
    if e.vertex_indices@[0] == v {
        e.vertex_indices@[1] as int
    } else {
        e.vertex_indices@[0] as int
    }
}

/// The other endpoint of an edge, as seen from `vert_idx`.
pub fn get_nbr_idx(edge: &Edge, vert_idx: usize) -> (r: usize)
    ensures
        r == if edge.vertex_indices@[0] == vert_idx {
            edge.vertex_indices@[1]
        } else {
            edge.vertex_indices@[0]
        },
{
    if edge.vertex_indices[0] == vert_idx {
        edge.vertex_indices[1]
    } else {
        edge.vertex_indices[0]
    }
}

/// Claim every still-unclaimed neighbor in `nbr_indices` for plate
/// `plate_idx`, append it to the plate's member list and to the next
/// frontier, and return how many were claimed.
pub fn assign_neighbors(
    plate_points: &mut Vec<Vec<usize>>,
    new_frontier: &mut Vec<usize>,
    plate_id_for_verts: &mut Vec<i64>,
    plate_idx: usize,
    nbr_indices: &Vec<usize>,
) -> (num_assigned: usize)
    requires
        partition_state(
            old(plate_points)@,
            old(plate_id_for_verts)@,
            old(plate_id_for_verts)@.len() as int,
        ),
        plate_idx < old(plate_points)@.len(),
        old(plate_points)@.len() <= MAX_SIM_VERTS,
        forall|j: int|
            0 <= j < nbr_indices@.len() ==> #[trigger] nbr_indices@[j] < old(
                plate_id_for_verts,
            )@.len(),
        forall|j: int|
            0 <= j < old(new_frontier)@.len() ==> #[trigger] old(new_frontier)@[j] < old(
                plate_id_for_verts,
            )@.len(),
    ensures
        partition_state(
            final(plate_points)@,
            final(plate_id_for_verts)@,
            final(plate_id_for_verts)@.len() as int,
        ),
        final(plate_points)@.len() == old(plate_points)@.len(),
        final(plate_id_for_verts)@.len() == old(plate_id_for_verts)@.len(),
        forall|j: int|
            0 <= j < final(new_frontier)@.len() ==> #[trigger] final(new_frontier)@[j]
                < final(plate_id_for_verts)@.len(),
        num_assigned <= nbr_indices@.len(),
        count_claimed(final(plate_id_for_verts)@) == count_claimed(old(plate_id_for_verts)@)
            + num_assigned,
        forall|v: int|
            0 <= v < old(plate_id_for_verts)@.len() && old(plate_id_for_verts)@[v] != -1
                ==> #[trigger] final(plate_id_for_verts)@[v] == old(plate_id_for_verts)@[v],
        forall|w: int|
            0 <= w < old(plate_id_for_verts)@.len() && old(plate_id_for_verts)@[w] == -1
                && #[trigger] final(plate_id_for_verts)@[w] != -1 ==> list_has(
                final(new_frontier)@,
                w,
            ),
        forall|j: int|
            0 <= j < old(new_frontier)@.len() ==> #[trigger] final(new_frontier)@[j] == old(
                new_frontier,
            )@[j],
        final(new_frontier)@.len() == old(new_frontier)@.len() + num_assigned,
        forall|k: int|
            0 <= k < nbr_indices@.len()
                ==> #[trigger] final(plate_id_for_verts)@[nbr_indices@[k] as int] >= 0,
        forall|q: int|
            0 <= q < old(plate_points)@.len() && q != plate_idx
                ==> #[trigger] final(plate_points)@[q]@ == old(plate_points)@[q]@,
        old(plate_points)@[plate_idx as int]@.len() <= final(plate_points)@[plate_idx as int]@.len(),
        forall|j: int|
            0 <= j < old(plate_points)@[plate_idx as int]@.len()
                ==> #[trigger] final(plate_points)@[plate_idx as int]@[j] == old(
                plate_points,
            )@[plate_idx as int]@[j],
        final(plate_id_for_verts)@ == spec_assign(
            old(plate_id_for_verts)@,
            nbr_indices@,
            plate_idx as i64,
        ).0,
        final(new_frontier)@ == old(new_frontier)@ + spec_assign(
            old(plate_id_for_verts)@,
            nbr_indices@,
            plate_idx as i64,
        ).1,
{
    let nverts = plate_id_for_verts.len();
    let mut num_assigned: usize = 0;
    let mut k: usize = 0;
    while k < nbr_indices.len()
        invariant
            partition_state(plate_points@, plate_id_for_verts@, nverts as int),
            nverts == plate_id_for_verts@.len(),
            plate_idx < plate_points@.len(),
            plate_points@.len() == old(plate_points)@.len(),
            plate_points@.len() <= MAX_SIM_VERTS,
            forall|j: int| 0 <= j < nbr_indices@.len() ==> #[trigger] nbr_indices@[j] < nverts,
            forall|j: int|
                0 <= j < new_frontier@.len() ==> #[trigger] new_frontier@[j] < nverts,
            k <= nbr_indices@.len(),
            num_assigned <= k,
            count_claimed(plate_id_for_verts@) == count_claimed(old(plate_id_for_verts)@)
                + num_assigned,
            forall|v: int|
                0 <= v < nverts && old(plate_id_for_verts)@[v] != -1
                    ==> #[trigger] plate_id_for_verts@[v] == old(plate_id_for_verts)@[v],
            forall|kk: int|
                0 <= kk < k ==> #[trigger] plate_id_for_verts@[nbr_indices@[kk] as int] >= 0,
            forall|w: int|
                0 <= w < nverts && old(plate_id_for_verts)@[w] == -1
                    && #[trigger] plate_id_for_verts@[w] != -1 ==> list_has(new_frontier@, w),
            forall|j: int|
                0 <= j < old(new_frontier)@.len() ==> #[trigger] new_frontier@[j] == old(
                    new_frontier,
                )@[j],
            new_frontier@.len() == old(new_frontier)@.len() + num_assigned,
            forall|q: int|
                0 <= q < plate_points@.len() && q != plate_idx ==> #[trigger] plate_points@[q]@
                    == old(plate_points)@[q]@,
            old(plate_points)@[plate_idx as int]@.len() <= plate_points@[plate_idx as int]@.len(),
            forall|j: int|
                0 <= j < old(plate_points)@[plate_idx as int]@.len()
                    ==> #[trigger] plate_points@[plate_idx as int]@[j] == old(
                    plate_points,
                )@[plate_idx as int]@[j],
            plate_id_for_verts@ == spec_assign(
                old(plate_id_for_verts)@,
                nbr_indices@.take(k as int),
                plate_idx as i64,
            ).0,
            new_frontier@ == old(new_frontier)@ + spec_assign(
                old(plate_id_for_verts)@,
                nbr_indices@.take(k as int),
                plate_idx as i64,
            ).1,
        decreases nbr_indices@.len() - k,
    {
        let nbr_idx = nbr_indices[k];
        proof {
            assert(nbr_indices@.take(k + 1).drop_last() =~= nbr_indices@.take(k as int));
            assert(nbr_indices@.take(k + 1).last() == nbr_indices@[k as int]);
        }
        if plate_id_for_verts[nbr_idx] == -1 {
            let ghost old_lists = plate_points@;
            let ghost old_ids = plate_id_for_verts@;
            let ghost old_frontier = new_frontier@;
            proof {
                lemma_count_claim(plate_id_for_verts@, nbr_idx as int, plate_idx as i64);
            }
            plate_id_for_verts[nbr_idx] = plate_idx as i64;
            plate_points[plate_idx].push(nbr_idx);
            new_frontier.push(nbr_idx);
            num_assigned += 1;
            proof {
                assert(new_frontier@[old_frontier.len() as int] == nbr_idx);
                let a_k = spec_assign(
                    old(plate_id_for_verts)@,
                    nbr_indices@.take(k as int),
                    plate_idx as i64,
                );
                let a_k1 = spec_assign(
                    old(plate_id_for_verts)@,
                    nbr_indices@.take(k + 1),
                    plate_idx as i64,
                );
                assert(old_ids == a_k.0);
                assert(a_k.0[nbr_idx as int] == -1);
                assert(nbr_indices@.take(k + 1).drop_last() =~= nbr_indices@.take(k as int));
                assert(spec_assign(
                    old(plate_id_for_verts)@,
                    nbr_indices@.take(k + 1).drop_last(),
                    plate_idx as i64,
                ) == a_k);
                assert(nbr_indices@.take(k + 1).last() == nbr_idx);
                assert(a_k1 == (a_k.0.update(nbr_idx as int, plate_idx as i64), a_k.1.push(
                    nbr_idx,
                )));
                assert(new_frontier@ =~= old(new_frontier)@ + a_k1.1);
                assert forall|w: int|
                    0 <= w < nverts && old(plate_id_for_verts)@[w] == -1
                        && #[trigger] plate_id_for_verts@[w] != -1 implies list_has(
                    new_frontier@,
                    w,
                ) by {
                    if w == nbr_idx as int {
                        assert(new_frontier@[old_frontier.len() as int] == w);
                    } else {
                        assert(plate_id_for_verts@[w] == old_ids[w]);
                        assert(list_has(old_frontier, w));
                        let j = choose|j: int|
                            0 <= j < old_frontier.len() && old_frontier[j] == w;
                        assert(new_frontier@[j] == w);
                    }
                }
                let lists = plate_points@;
                let ids = plate_id_for_verts@;
                assert forall|v: int|
                    0 <= v < ids.len() && #[trigger] ids[v] >= 0 implies exists|j: int|
                        0 <= j < lists[ids[v] as int]@.len() && lists[ids[v] as int]@[j]
                            == v by {
                    if v == nbr_idx {
                        assert(lists[plate_idx as int]@[lists[plate_idx as int]@.len() - 1]
                            == v);
                    } else {
                        let j = choose|j: int|
                            0 <= j < old_lists[old_ids[v] as int]@.len() && old_lists[old_ids[v]
                                as int]@[j] == v;
                        assert(lists[ids[v] as int]@[j] == v);
                    }
                }
            }
        }
        k += 1;
    }
    proof {
        assert(nbr_indices@.take(nbr_indices@.len() as int) =~= nbr_indices@);
    }
    num_assigned
}

/// One plate's claiming pass over a neighbor list, processed left to
/// right: each still-unclaimed neighbor is claimed for plate `p` and
/// appended to the claim list.  Returns the updated claims and the list of
/// newly claimed vertices, in claim order.
pub open spec fn spec_assign(ids: Seq<i64>, nbrs: Seq<usize>, p: i64) -> (Seq<i64>, Seq<usize>)
    decreases nbrs.len(),
{
    if nbrs.len() == 0 {
        (ids, Seq::<usize>::empty())
    } else {
        let r = spec_assign(ids, nbrs.drop_last(), p);
        let v = nbrs.last();
        if r.0[v as int] == -1 {
            (r.0.update(v as int, p), r.1.push(v))
        } else {
            r
        }
    }
}

/// One plate's scan of its frontier, entry by entry: every entry's
/// neighbors are offered to plate `p` in order.  Returns the updated claims
/// and the plate's next frontier.
pub open spec fn spec_scan(
    verts: Seq<PlatePoint>,
    ids: Seq<i64>,
    entries: Seq<usize>,
    p: i64,
) -> (Seq<i64>, Seq<usize>)
    decreases entries.len(),
{
    if entries.len() == 0 {
        (ids, Seq::<usize>::empty())
    } else {
        let r = spec_scan(verts, ids, entries.drop_last(), p);
        let a = spec_assign(r.0, verts[entries.last() as int].nbr_indices@, p);
        (a.0, r.1 + a.1)
    }
}

/// One synchronized round over the first `q` plates, in index order: this
/// order is what hands a contested vertex to the first plate that reaches
/// it.  Returns the updated claims and frontiers.
pub open spec fn spec_round(
    verts: Seq<PlatePoint>,
    ids: Seq<i64>,
    fr: Seq<Seq<usize>>,
    q: int,
) -> (Seq<i64>, Seq<Seq<usize>>)
    decreases q,
{
    if q <= 0 {
        (ids, fr)
    } else {
        let r = spec_round(verts, ids, fr, q - 1);
        let sc = spec_scan(verts, r.0, r.1[q - 1], (q - 1) as i64);
        (sc.0, r.1.update(q - 1, sc.1))
    }
}

/// The claims and frontiers after `k` full rounds.
pub open spec fn spec_fill(
    verts: Seq<PlatePoint>,
    ids: Seq<i64>,
    fr: Seq<Seq<usize>>,
    k: nat,
) -> (Seq<i64>, Seq<Seq<usize>>)
    decreases k,
{
    if k == 0 {
        (ids, fr)
    } else {
        let r = spec_fill(verts, ids, fr, (k - 1) as nat);
        spec_round(verts, r.0, r.1, r.1.len() as int)
    }
}

/// The per-plate views of a frontier or member-list vector.
pub open spec fn views_of(fr: Seq<Vec<usize>>) -> Seq<Seq<usize>> {
    Seq::new(fr.len(), |q: int| fr[q]@)
}

/// A round touches only the frontiers of the plates it processed.
proof fn lemma_round_frame(verts: Seq<PlatePoint>, ids: Seq<i64>, fr: Seq<Seq<usize>>, q: int)
    requires
        0 <= q <= fr.len(),
    ensures
        spec_round(verts, ids, fr, q).1.len() == fr.len(),
        forall|j: int| q <= j < fr.len() ==> #[trigger] spec_round(verts, ids, fr, q).1[j]
            == fr[j],
    decreases q,
{
    if q > 0 {
        lemma_round_frame(verts, ids, fr, q - 1);
    }
}

/// A round over empty frontiers claims nothing.
proof fn lemma_round_empty(verts: Seq<PlatePoint>, ids: Seq<i64>, fr: Seq<Seq<usize>>, q: int)
    requires
        forall|j: int| 0 <= j < fr.len() ==> #[trigger] fr[j].len() == 0,
        q <= fr.len(),
    ensures
        spec_round(verts, ids, fr, q).0 == ids,
        forall|j: int|
            0 <= j < fr.len() ==> #[trigger] spec_round(verts, ids, fr, q).1[j].len() == 0,
        spec_round(verts, ids, fr, q).1.len() == fr.len(),
    decreases q,
{
    if q > 0 {
        lemma_round_empty(verts, ids, fr, q - 1);
    }
}

/// Some frontier list holds vertex `v`.
pub open spec fn in_frontiers(fr: Seq<Vec<usize>>, v: int) -> bool {
    exists|q: int, j: int| 0 <= q < fr.len() && 0 <= j < fr[q]@.len() && #[trigger] fr[q]@[j] == v
}

/// Every neighbor of vertex `v` is claimed.
pub open spec fn nbrs_all_claimed(verts: Seq<PlatePoint>, ids: Seq<i64>, v: int) -> bool {
    forall|k: int|
        0 <= k < verts[v].nbr_indices@.len() ==> ids[#[trigger] verts[v].nbr_indices@[k] as int]
            >= 0
}

/// Every claimed vertex either has all its neighbors claimed already or
/// still waits in some frontier.
pub open spec fn frontier_covers(
    verts: Seq<PlatePoint>,
    ids: Seq<i64>,
    fr: Seq<Vec<usize>>,
) -> bool {
    forall|v: int|
        0 <= v < ids.len() && #[trigger] ids[v] >= 0 ==> nbrs_all_claimed(verts, ids, v)
            || in_frontiers(fr, v)
}

/// Synchronized breadth-first flood fill: round after round, each plate in
/// index order claims the unclaimed neighbors of its current frontier.  The
/// round-robin order decides contested vertices, which makes the fill
/// reproducible.  Rounds continue until one claims nothing more (the count
/// of claimed vertices bounds the rounds), so on return the claimed region
/// is closed: every neighbor of a claimed vertex is claimed.
#[verifier::rlimit(100)]
pub fn flood_fill(
    verts: &Vec<PlatePoint>,
    plate_id_for_verts: &mut Vec<i64>,
    plate_points: &mut Vec<Vec<usize>>,
)
    requires
        partition_state(
            old(plate_points)@,
            old(plate_id_for_verts)@,
            old(plate_id_for_verts)@.len() as int,
        ),
        old(plate_id_for_verts)@.len() == verts@.len(),
        old(plate_points)@.len() <= MAX_SIM_VERTS,
        verts@.len() <= MAX_SIM_VERTS,
        forall|v: int, j: int|
            0 <= v < verts@.len() && 0 <= j < verts@[v].nbr_indices@.len()
                ==> #[trigger] verts@[v].nbr_indices@[j] < verts@.len(),
    ensures
        partition_state(
            final(plate_points)@,
            final(plate_id_for_verts)@,
            final(plate_id_for_verts)@.len() as int,
        ),
        final(plate_points)@.len() == old(plate_points)@.len(),
        final(plate_id_for_verts)@.len() == old(plate_id_for_verts)@.len(),
        forall|v: int|
            0 <= v < old(plate_id_for_verts)@.len() && old(plate_id_for_verts)@[v] != -1
                ==> #[trigger] final(plate_id_for_verts)@[v] == old(plate_id_for_verts)@[v],
        forall|q: int|
            0 <= q < old(plate_points)@.len() ==> #[trigger] old(plate_points)@[q]@.len()
                <= final(plate_points)@[q]@.len(),
        forall|q: int, j: int|
            0 <= q < old(plate_points)@.len() && 0 <= j < old(plate_points)@[q]@.len()
                ==> #[trigger] final(plate_points)@[q]@[j] == old(plate_points)@[q]@[j],
        forall|v: int|
            0 <= v < final(plate_id_for_verts)@.len()
                && #[trigger] final(plate_id_for_verts)@[v] >= 0 ==> nbrs_all_claimed(
                verts@,
                final(plate_id_for_verts)@,
                v,
            ),
        exists|k: nat|
            {
                let st = #[trigger] spec_fill(
                    verts@,
                    old(plate_id_for_verts)@,
                    views_of(old(plate_points)@),
                    k,
                );
                &&& final(plate_id_for_verts)@ == st.0
                &&& spec_round(verts@, st.0, st.1, st.1.len() as int).0 == st.0
            },
{
    let nverts = verts.len();
    let nplates = plate_points.len();
    let mut frontier: Vec<Vec<usize>> = Vec::new();
    let mut p: usize = 0;
    while p < nplates
        invariant
            nplates == plate_points@.len(),
            nplates <= MAX_SIM_VERTS,
            nverts == verts@.len(),
            partition_state(plate_points@, plate_id_for_verts@, nverts as int),
            plate_id_for_verts@.len() == nverts,
            p <= nplates,
            frontier@.len() == p,
            forall|q: int| 0 <= q < p ==> #[trigger] frontier@[q]@ == plate_points@[q]@,
        decreases nplates - p,
    {
        frontier.push(copy_indices(&plate_points[p]));
        p += 1;
    }
    proof {
        // Initially every claimed vertex sits in its plate's frontier copy.
        assert forall|v: int|
            0 <= v < plate_id_for_verts@.len() && #[trigger] plate_id_for_verts@[v] >= 0
                implies nbrs_all_claimed(verts@, plate_id_for_verts@, v) || in_frontiers(
            frontier@,
            v,
        ) by {
            let q = plate_id_for_verts@[v] as int;
            let j = choose|j: int|
                0 <= j < plate_points@[q]@.len() && plate_points@[q]@[j] == v;
            assert(frontier@[q]@[j] == v);
        }
    }
    proof {
        lemma_count_range(plate_id_for_verts@);
    }
    let ghost fr0 = views_of(frontier@);
    proof {
        assert(fr0 =~= views_of(old(plate_points)@));
    }
    let ghost mut rounds: nat = 0;
    let mut progress = true;
    while progress
        invariant
            nplates == plate_points@.len(),
            nplates <= MAX_SIM_VERTS,
            nverts == verts@.len(),
            nverts <= MAX_SIM_VERTS,
            partition_state(plate_points@, plate_id_for_verts@, nverts as int),
            plate_id_for_verts@.len() == nverts,
            forall|v: int, j: int|
                0 <= v < verts@.len() && 0 <= j < verts@[v].nbr_indices@.len()
                    ==> #[trigger] verts@[v].nbr_indices@[j] < verts@.len(),
            frontier@.len() == nplates,
            forall|q: int, j: int|
                0 <= q < nplates && 0 <= j < frontier@[q]@.len() ==> #[trigger] frontier@[q]@[j]
                    < nverts,
            forall|v: int|
                0 <= v < nverts && old(plate_id_for_verts)@[v] != -1
                    ==> #[trigger] plate_id_for_verts@[v] == old(plate_id_for_verts)@[v],
            forall|q: int|
                0 <= q < nplates ==> #[trigger] old(plate_points)@[q]@.len()
                    <= plate_points@[q]@.len(),
            forall|q: int, j: int|
                0 <= q < nplates && 0 <= j < old(plate_points)@[q]@.len()
                    ==> #[trigger] plate_points@[q]@[j] == old(plate_points)@[q]@[j],
            frontier_covers(verts@, plate_id_for_verts@, frontier@),
            !progress ==> forall|q: int| 0 <= q < nplates ==> #[trigger] frontier@[q]@.len()
                == 0,
            count_claimed(plate_id_for_verts@) <= nverts,
            fr0 == views_of(old(plate_points)@),
            plate_id_for_verts@ == spec_fill(verts@, old(plate_id_for_verts)@, fr0, rounds).0,
            views_of(frontier@) == spec_fill(verts@, old(plate_id_for_verts)@, fr0, rounds).1,
        decreases nverts - count_claimed(plate_id_for_verts@), (if progress {
            1int
        } else {
            0int
        }),
    {
        let ghost round_start_ids = plate_id_for_verts@;
        let ghost rsf = views_of(frontier@);
        let mut any_assigned = false;
        let mut plate_idx: usize = 0;
        while plate_idx < nplates
            invariant
                nplates == plate_points@.len(),
                nplates <= MAX_SIM_VERTS,
                nverts == verts@.len(),
                nverts <= MAX_SIM_VERTS,
                partition_state(plate_points@, plate_id_for_verts@, nverts as int),
                plate_id_for_verts@.len() == nverts,
                forall|v: int, j: int|
                    0 <= v < verts@.len() && 0 <= j < verts@[v].nbr_indices@.len()
                        ==> #[trigger] verts@[v].nbr_indices@[j] < verts@.len(),
                frontier@.len() == nplates,
                forall|q: int, j: int|
                    0 <= q < nplates && 0 <= j < frontier@[q]@.len()
                        ==> #[trigger] frontier@[q]@[j] < nverts,
                forall|v: int|
                    0 <= v < nverts && old(plate_id_for_verts)@[v] != -1
                        ==> #[trigger] plate_id_for_verts@[v] == old(plate_id_for_verts)@[v],
                forall|v: int|
                    0 <= v < nverts && round_start_ids[v] != -1
                        ==> #[trigger] plate_id_for_verts@[v] == round_start_ids[v],
                round_start_ids.len() == nverts,
                forall|q: int|
                    0 <= q < nplates ==> #[trigger] old(plate_points)@[q]@.len()
                        <= plate_points@[q]@.len(),
                forall|q: int, j: int|
                    0 <= q < nplates && 0 <= j < old(plate_points)@[q]@.len()
                        ==> #[trigger] plate_points@[q]@[j] == old(plate_points)@[q]@[j],
                frontier_covers(verts@, plate_id_for_verts@, frontier@),
                any_assigned ==> count_claimed(plate_id_for_verts@) > count_claimed(
                    round_start_ids,
                ),
                count_claimed(plate_id_for_verts@) >= count_claimed(round_start_ids),
                !any_assigned ==> forall|q: int|
                    0 <= q < plate_idx ==> #[trigger] frontier@[q]@.len() == 0,
                rsf.len() == nplates,
                plate_id_for_verts@ == spec_round(
                    verts@,
                    round_start_ids,
                    rsf,
                    plate_idx as int,
                ).0,
                forall|q: int|
                    0 <= q < plate_idx ==> #[trigger] frontier@[q]@ == spec_round(
                        verts@,
                        round_start_ids,
                        rsf,
                        plate_idx as int,
                    ).1[q],
                forall|q: int|
                    plate_idx <= q < nplates ==> #[trigger] frontier@[q]@ == rsf[q],
                plate_idx <= nplates,
            decreases nplates - plate_idx,
        {
            let ghost plate_start_ids = plate_id_for_verts@;
            let mut new_frontier: Vec<usize> = Vec::new();
            let flen = frontier[plate_idx].len();
            let mut fj: usize = 0;
            while fj < flen
                invariant
                    nplates == plate_points@.len(),
                    nplates <= MAX_SIM_VERTS,
                    nverts == verts@.len(),
                    nverts <= MAX_SIM_VERTS,
                    partition_state(plate_points@, plate_id_for_verts@, nverts as int),
                    plate_id_for_verts@.len() == nverts,
                    forall|v: int, j: int|
                        0 <= v < verts@.len() && 0 <= j < verts@[v].nbr_indices@.len()
                            ==> #[trigger] verts@[v].nbr_indices@[j] < verts@.len(),
                    frontier@.len() == nplates,
                    forall|q: int, j: int|
                        0 <= q < nplates && 0 <= j < frontier@[q]@.len()
                            ==> #[trigger] frontier@[q]@[j] < nverts,
                    forall|v: int|
                        0 <= v < nverts && old(plate_id_for_verts)@[v] != -1
                            ==> #[trigger] plate_id_for_verts@[v] == old(
                            plate_id_for_verts,
                        )@[v],
                    forall|v: int|
                        0 <= v < nverts && round_start_ids[v] != -1
                            ==> #[trigger] plate_id_for_verts@[v] == round_start_ids[v],
                    round_start_ids.len() == nverts,
                    forall|q: int|
                        0 <= q < nplates ==> #[trigger] old(plate_points)@[q]@.len()
                            <= plate_points@[q]@.len(),
                    forall|q: int, j: int|
                        0 <= q < nplates && 0 <= j < old(plate_points)@[q]@.len()
                            ==> #[trigger] plate_points@[q]@[j] == old(plate_points)@[q]@[j],
                    plate_idx < nplates,
                    flen == frontier@[plate_idx as int]@.len(),
                    fj <= flen,
                    forall|j: int|
                        0 <= j < new_frontier@.len() ==> #[trigger] new_frontier@[j] < nverts,
                    plate_start_ids.len() == nverts,
                    forall|v: int|
                        0 <= v < nverts && plate_start_ids[v] != -1
                            ==> #[trigger] plate_id_for_verts@[v] == plate_start_ids[v],
                    forall|v: int|
                        0 <= v < nverts && #[trigger] plate_id_for_verts@[v] >= 0
                            ==> nbrs_all_claimed(verts@, plate_id_for_verts@, v)
                            || in_frontiers(frontier@, v) || list_has(new_frontier@, v),
                    forall|j: int|
                        0 <= j < fj ==> nbrs_all_claimed(
                            verts@,
                            plate_id_for_verts@,
                            #[trigger] frontier@[plate_idx as int]@[j] as int,
                        ),
                    forall|v: int|
                        0 <= v < nverts && plate_start_ids[v] == -1
                            && #[trigger] plate_id_for_verts@[v] != -1 ==> list_has(
                            new_frontier@,
                            v,
                        ),
                    any_assigned ==> count_claimed(plate_id_for_verts@) > count_claimed(
                        round_start_ids,
                    ),
                    count_claimed(plate_id_for_verts@) >= count_claimed(round_start_ids),
                    !any_assigned ==> new_frontier@.len() == 0,
                    !any_assigned ==> forall|q: int|
                        0 <= q < plate_idx ==> #[trigger] frontier@[q]@.len() == 0,
                    rsf.len() == nplates,
                    frontier@[plate_idx as int]@ == rsf[plate_idx as int],
                    plate_id_for_verts@ == spec_scan(
                        verts@,
                        plate_start_ids,
                        rsf[plate_idx as int].take(fj as int),
                        plate_idx as i64,
                    ).0,
                    new_frontier@ == spec_scan(
                        verts@,
                        plate_start_ids,
                        rsf[plate_idx as int].take(fj as int),
                        plate_idx as i64,
                    ).1,
                    plate_start_ids == spec_round(verts@, round_start_ids, rsf, plate_idx as int).0,
                    forall|q: int|
                        0 <= q < plate_idx ==> #[trigger] frontier@[q]@ == spec_round(
                            verts@,
                            round_start_ids,
                            rsf,
                            plate_idx as int,
                        ).1[q],
                    forall|q: int|
                        plate_idx < q < nplates ==> #[trigger] frontier@[q]@ == rsf[q],
                decreases flen - fj,
            {
                let point_idx = frontier[plate_idx][fj];
                let ghost pre_ids = plate_id_for_verts@;
                let ghost pre_frontier = new_frontier@;
                let n = assign_neighbors(
                    plate_points,
                    &mut new_frontier,
                    plate_id_for_verts,
                    plate_idx,
                    &verts[point_idx].nbr_indices,
                );
                if n > 0 {
                    any_assigned = true;
                }
                proof {
                    let entries = rsf[plate_idx as int];
                    assert(entries.take(fj + 1).drop_last() =~= entries.take(fj as int));
                    assert(entries.take(fj + 1).last() == entries[fj as int]);
                    assert(entries[fj as int] == point_idx);
                    assert((plate_id_for_verts@, new_frontier@) == spec_scan(
                        verts@,
                        plate_start_ids,
                        entries.take(fj + 1),
                        plate_idx as i64,
                    ));
                }
                proof {
                    let ids = plate_id_for_verts@;
                    assert(nbrs_all_claimed(verts@, ids, point_idx as int));
                    assert forall|j: int|
                        0 <= j < fj + 1 implies nbrs_all_claimed(
                        verts@,
                        ids,
                        #[trigger] frontier@[plate_idx as int]@[j] as int,
                    ) by {
                        if j < fj as int {
                            let w = frontier@[plate_idx as int]@[j] as int;
                            assert(nbrs_all_claimed(verts@, pre_ids, w));
                            assert forall|k: int|
                                0 <= k < verts@[w].nbr_indices@.len() implies ids[
                            #[trigger] verts@[w].nbr_indices@[k] as int] >= 0 by {
                                let x = verts@[w].nbr_indices@[k] as int;
                                assert(pre_ids[x] >= 0);
                            }
                        }
                    }
                    assert forall|v: int|
                        0 <= v < nverts && plate_start_ids[v] == -1 && #[trigger] ids[v] != -1
                            implies list_has(new_frontier@, v) by {
                        if pre_ids[v] != -1 {
                            assert(list_has(pre_frontier, v));
                            let j = choose|j: int|
                                0 <= j < pre_frontier.len() && pre_frontier[j] == v;
                            assert(new_frontier@[j] == v);
                        }
                    }
                    assert forall|v: int|
                        0 <= v < ids.len() && #[trigger] ids[v] >= 0 implies nbrs_all_claimed(
                        verts@,
                        ids,
                        v,
                    ) || in_frontiers(frontier@, v) || list_has(new_frontier@, v) by {
                        if pre_ids[v] >= 0 {
                            if nbrs_all_claimed(verts@, pre_ids, v) {
                                assert forall|k: int|
                                    0 <= k < verts@[v].nbr_indices@.len() implies ids[
                                #[trigger] verts@[v].nbr_indices@[k] as int] >= 0 by {
                                    let x = verts@[v].nbr_indices@[k] as int;
                                    assert(pre_ids[x] >= 0);
                                }
                            } else if list_has(pre_frontier, v) {
                                let j = choose|j: int|
                                    0 <= j < pre_frontier.len() && pre_frontier[j] == v;
                                assert(new_frontier@[j] == v);
                            }
                        } else {
                            // Newly claimed by this very call: it waits in
                            // the incoming frontier.
                            assert(list_has(new_frontier@, v));
                        }
                    }
                }
                fj += 1;
            }
            let ghost pre_replace = frontier@;
            let ghost last_frontier = new_frontier@;
            frontier[plate_idx] = new_frontier;
            proof {
                let entries = rsf[plate_idx as int];
                assert(entries.take(flen as int) =~= entries);
                lemma_round_frame(verts@, round_start_ids, rsf, plate_idx as int);
                assert(spec_round(verts@, round_start_ids, rsf, plate_idx as int).1[
                    plate_idx as int] == rsf[plate_idx as int]);
                assert((plate_id_for_verts@, last_frontier) == spec_scan(
                    verts@,
                    plate_start_ids,
                    entries,
                    plate_idx as i64,
                ));
                assert(plate_id_for_verts@ == spec_round(
                    verts@,
                    round_start_ids,
                    rsf,
                    plate_idx + 1,
                ).0);
                assert forall|q: int|
                    0 <= q < plate_idx + 1 implies #[trigger] frontier@[q]@ == spec_round(
                    verts@,
                    round_start_ids,
                    rsf,
                    plate_idx + 1,
                ).1[q] by {
                    if q < plate_idx as int {
                        assert(frontier@[q]@ == pre_replace[q]@);
                        assert(spec_round(verts@, round_start_ids, rsf, plate_idx + 1).1[q]
                            == spec_round(verts@, round_start_ids, rsf, plate_idx as int).1[q]);
                    } else {
                        assert(frontier@[q]@ == last_frontier);
                    }
                }
            }
            proof {
                let ids = plate_id_for_verts@;
                assert(frontier@[plate_idx as int]@ == last_frontier);
                assert forall|v: int|
                    0 <= v < ids.len() && #[trigger] ids[v] >= 0 implies nbrs_all_claimed(
                    verts@,
                    ids,
                    v,
                ) || in_frontiers(frontier@, v) by {
                    if !nbrs_all_claimed(verts@, ids, v) {
                        if list_has(last_frontier, v) {
                            let j = choose|j: int|
                                0 <= j < last_frontier.len() && last_frontier[j] == v;
                            assert(frontier@[plate_idx as int]@[j] == v);
                        } else {
                            assert(in_frontiers(pre_replace, v));
                            let (q, j) = choose|q: int, j: int|
                                0 <= q < pre_replace.len() && 0 <= j < pre_replace[q]@.len()
                                    && #[trigger] pre_replace[q]@[j] == v;
                            if q == plate_idx as int {
                                assert(nbrs_all_claimed(verts@, ids, v));
                                assert(false);
                            } else {
                                assert(frontier@[q]@[j] == v);
                            }
                        }
                    }
                }
            }
            plate_idx += 1;
        }
        proof {
            let st = spec_fill(verts@, old(plate_id_for_verts)@, fr0, rounds);
            assert(round_start_ids == st.0);
            assert(rsf == st.1);
            assert(rsf.len() == nplates);
            let st1 = spec_fill(verts@, old(plate_id_for_verts)@, fr0, rounds + 1);
            assert(st1 == spec_round(verts@, st.0, st.1, st.1.len() as int));
            assert(plate_id_for_verts@ == st1.0);
            assert(views_of(frontier@) =~= st1.1) by {
                lemma_round_frame(verts@, st.0, st.1, st.1.len() as int);
                assert(forall|q: int|
                    0 <= q < nplates ==> #[trigger] views_of(frontier@)[q] == frontier@[q]@);
            }
            rounds = rounds + 1;
        }
        if !any_assigned {
            progress = false;
        }
        proof {
            lemma_count_range(plate_id_for_verts@);
        }
    }
    proof {
        let st = spec_fill(verts@, old(plate_id_for_verts)@, fr0, rounds);
        assert(forall|j: int| 0 <= j < st.1.len() ==> #[trigger] st.1[j].len() == 0) by {
            assert(forall|j: int|
                0 <= j < nplates ==> #[trigger] views_of(frontier@)[j] == frontier@[j]@);
        }
        lemma_round_empty(verts@, st.0, st.1, st.1.len() as int);
    }
}

impl PlatePoint {
    /// Wrap a mesh vertex with its cached neighbor list; the speed starts at
    /// one fixed-point radian and is overwritten with the owning plate's
    /// speed during partitioning.
    pub fn new(pos: &Vec3, nbr_indices: Vec<usize>) -> (r: PlatePoint)
        ensures
            r.pos == *pos,
            r.nbr_indices@ == nbr_indices@,
            r.speed == SCALE,
    {
        PlatePoint { pos: *pos, nbr_indices, speed: SCALE }
    }

    /// Rotate this point about `move_axis` by its own angular speed.
    pub fn move_around(&mut self, move_axis: &Vec3) -> (ok: bool)
        requires
            bounded(old(self).pos, 32_000_000),
            bounded(*move_axis, 2_000_000),
            old(self).speed > i64::MIN,
        ensures
            ({
                let s = crate::fixed::spec_sin(old(self).speed as int);
                let c = crate::fixed::spec_cos(old(self).speed as int);
                let rr = crate::vec3::spec_rotate(old(self).pos, *move_axis, s, c);
                final(self).pos == (Vec3 { x: rr.0 as i64, y: rr.1 as i64, z: rr.2 as i64 })
            }),
            final(self).nbr_indices@ == old(self).nbr_indices@,
            final(self).speed == old(self).speed,
            bounded(final(self).pos, 1_000_000_000),
            ok == bounded(final(self).pos, SIM_COORD_LIMIT as int),
    {
        let (s, c) = sin_cos(self.speed);
        let np = self.pos.rotate(move_axis, s, c);
        self.pos = np;
        np.x >= -SIM_COORD_LIMIT && np.x <= SIM_COORD_LIMIT && np.y >= -SIM_COORD_LIMIT && np.y
            <= SIM_COORD_LIMIT && np.z >= -SIM_COORD_LIMIT && np.z <= SIM_COORD_LIMIT
    }
}

/// The vector drawn by [`random_axis`] before normalization: three
/// components from [0.0001, 1), taken from three generator steps.
pub open spec fn spec_axis_draw(g: XorShiftRng) -> Vec3 {
    let s1 = crate::rng::spec_step(g);
    let s2 = crate::rng::spec_step(s1);
    let s3 = crate::rng::spec_step(s2);
    Vec3 {
        x: (100 + s1.w as int % 999_900) as i64,
        y: (100 + s2.w as int % 999_900) as i64,
        z: (100 + s3.w as int % 999_900) as i64,
    }
}

/// A random rotation axis: all components drawn from a positive range, then
/// scaled onto the unit sphere, so the result is never degenerate.  The
/// drawn components and the three consumed generator steps are pinned
/// exactly.
pub fn random_axis(rng: &mut XorShiftRng) -> (a: Vec3)
    ensures
        bounded(a, SCALE as int),
        a == crate::vec3::spec_normalize(spec_axis_draw(*old(rng))),
        *final(rng) == crate::rng::spec_step(
            crate::rng::spec_step(crate::rng::spec_step(*old(rng))),
        ),
{
    let x = rng.gen_range_fixed(100, SCALE);
    let y = rng.gen_range_fixed(100, SCALE);
    let z = rng.gen_range_fixed(100, SCALE);
    let v = Vec3 { x, y, z };
    proof {
        assert(v.x * v.x >= 100 * 100) by (nonlinear_arith)
            requires
                v.x >= 100,
        ;
        assert(v.y * v.y >= 0 && v.z * v.z >= 0) by (nonlinear_arith);
    }
    match v.normalize() {
        Ok(u) => u,
        Err(_) => {
            proof {
                assert(false);
            }
            Vec3 { x: SCALE, y: 0, z: 0 }
        },
    }
}

impl Plate {
    /// A plate from its member vertices and motion parameters.
    pub fn new(vertex_indices: Vec<usize>, move_axis: &Vec3, move_speed: i64, height: i64) -> (r:
        Plate)
        ensures
            r.vertex_indices@ == vertex_indices@,
            r.move_axis == *move_axis,
            r.move_speed == move_speed,
            r.height == height,
    {
        Plate { vertex_indices, move_axis: *move_axis, move_speed, height }
    }

    /// A plate over the given vertices with a random axis, a random angular
    /// speed in [0.01, 0.1) radians, and a random height bias within two
    /// percent of one, all pinned to the five consumed generator steps.
    pub fn from_points(rng: &mut XorShiftRng, vertex_indices: Vec<usize>) -> (r: Plate)
        ensures
            r.vertex_indices@ == vertex_indices@,
            bounded(r.move_axis, SCALE as int),
            10_000 <= r.move_speed < 100_000,
            980_000 <= r.height < 1_020_000,
            ({
                let g3 = crate::rng::spec_step(
                    crate::rng::spec_step(crate::rng::spec_step(*old(rng))),
                );
                let g4 = crate::rng::spec_step(g3);
                let g5 = crate::rng::spec_step(g4);
                &&& r.move_axis == crate::vec3::spec_normalize(spec_axis_draw(*old(rng)))
                &&& r.move_speed == 10_000 + g4.w as int % 90_000
                &&& r.height == 980_000 + g5.w as int % 40_000
                &&& *final(rng) == g5
            }),
    {
        let axis = random_axis(rng);
        let speed = rng.gen_range_fixed(10_000, 100_000);
        let height = rng.gen_range_fixed(1_000_000 - 20_000, 1_000_000 + 20_000);
        Plate::new(vertex_indices, &axis, speed, height)
    }
}

/// Claim the still-unclaimed vertex `v` as the seed of plate `p`.
fn claim_seed(lists: &mut Vec<Vec<usize>>, ids: &mut Vec<i64>, p: usize, v: usize)
    requires
        partition_state(old(lists)@, old(ids)@, old(ids)@.len() as int),
        old(lists)@.len() <= MAX_SIM_VERTS,
        p < old(lists)@.len(),
        v < old(ids)@.len(),
        old(ids)@[v as int] == -1,
    ensures
        partition_state(final(lists)@, final(ids)@, final(ids)@.len() as int),
        final(lists)@.len() == old(lists)@.len(),
        final(ids)@.len() == old(ids)@.len(),
        final(ids)@[v as int] == p,
        final(ids)@ == old(ids)@.update(v as int, p as i64),
        count_claimed(final(ids)@) == count_claimed(old(ids)@) + 1,
        forall|q: int|
            0 <= q < old(lists)@.len() && q != p ==> #[trigger] final(lists)@[q]@ == old(
                lists,
            )@[q]@,
        final(lists)@[p as int]@ == old(lists)@[p as int]@.push(v),
{
    proof {
        lemma_count_claim(ids@, v as int, p as i64);
    }
    let ghost old_lists = lists@;
    let ghost old_ids = ids@;
    ids[v] = p as i64;
    lists[p].push(v);
    proof {
        let nl = lists@;
        let ni = ids@;
        assert forall|w: int| 0 <= w < ni.len() && #[trigger] ni[w] >= 0 implies exists|j: int|
            0 <= j < nl[ni[w] as int]@.len() && nl[ni[w] as int]@[j] == w by {
            if w == v {
                assert(nl[p as int]@[nl[p as int]@.len() - 1] == w);
            } else {
                let j = choose|j: int|
                    0 <= j < old_lists[old_ids[w] as int]@.len() && old_lists[old_ids[w]
                        as int]@[j] == w;
                assert(nl[ni[w] as int]@[j] == w);
            }
        }
    }
}

/// Split the vertices into `num_plates` contiguous regions: pick a distinct
/// random seed vertex per plate, flood-fill the adjacency graph round-robin,
/// then draw each plate's axis, speed and height from the same stream.
///
/// Fails with [`WorldError::ConfigurationError`] when no plates are
/// requested or more plates than vertices; fails with
/// [`WorldError::NumericDegeneracy`] if the flood fill cannot reach every
/// vertex (a disconnected adjacency graph, which no sphere mesh produces).
#[verifier::rlimit(100)]
#[verifier::spinoff_prover]
pub fn random_partition(
    rng: &mut XorShiftRng,
    verts: &Vec<PlatePoint>,
    num_plates: usize,
) -> (r: Result<Vec<Plate>, WorldError>)
    requires
        verts@.len() <= MAX_SIM_VERTS,
        forall|v: int, j: int|
            0 <= v < verts@.len() && 0 <= j < verts@[v].nbr_indices@.len()
                ==> #[trigger] verts@[v].nbr_indices@[j] < verts@.len(),
    ensures
        r == Err::<Vec<Plate>, WorldError>(WorldError::ConfigurationError) <==> (num_plates == 0
            || num_plates > verts@.len()),
        r is Err ==> r == Err::<Vec<Plate>, WorldError>(WorldError::ConfigurationError) || r
            == Err::<Vec<Plate>, WorldError>(WorldError::NumericDegeneracy),
        1 <= num_plates == verts@.len() ==> r is Ok,
        r is Ok ==> {
            let plates = r->Ok_0;
            &&& plates@.len() == num_plates
            &&& is_partition(plates@, verts@.len() as int)
            &&& forall|p: int|
                0 <= p < plates@.len() ==> #[trigger] plates@[p].vertex_indices@.len() >= 1
            &&& forall|p: int|
                0 <= p < plates@.len() ==> bounded(#[trigger] plates@[p].move_axis, SCALE as int)
            &&& forall|p: int|
                0 <= p < plates@.len() ==> 10_000 <= #[trigger] plates@[p].move_speed < 100_000
            &&& forall|p: int|
                0 <= p < plates@.len() ==> 980_000 <= #[trigger] plates@[p].height < 1_020_000
            &&& forall|p: int|
                0 <= p < plates@.len() ==> plate_params_drawn(#[trigger] plates@[p])
        },
{
    let nverts = verts.len();
    if num_plates == 0 || num_plates > nverts {
        return Err(WorldError::ConfigurationError);
    }
    let mut ids: Vec<i64> = Vec::new();
    let mut i: usize = 0;
    while i < nverts
        invariant
            i <= nverts,
            ids@.len() == i,
            forall|v: int| 0 <= v < i ==> #[trigger] ids@[v] == -1,
        decreases nverts - i,
    {
        ids.push(-1);
        i += 1;
    }
    let mut lists: Vec<Vec<usize>> = Vec::new();
    let mut p: usize = 0;
    while p < num_plates
        invariant
            p <= num_plates,
            lists@.len() == p,
            forall|q: int| 0 <= q < p ==> #[trigger] lists@[q]@.len() == 0,
        decreases num_plates - p,
    {
        lists.push(Vec::new());
        p += 1;
    }
    proof {
        assert(partition_state(lists@, ids@, nverts as int));
        lemma_count_range(ids@);
    }
    // Seed selection: rejection-sample an unclaimed vertex for each plate in
    // turn; after too many collisions fall back to the first unclaimed
    // vertex in index order.
    let mut plate_idx: usize = 0;
    while plate_idx < num_plates
        invariant
            num_plates <= nverts,
            nverts == verts@.len(),
            nverts <= MAX_SIM_VERTS,
            lists@.len() == num_plates,
            ids@.len() == nverts,
            partition_state(lists@, ids@, nverts as int),
            count_claimed(ids@) == plate_idx,
            forall|q: int| 0 <= q < plate_idx ==> #[trigger] lists@[q]@.len() >= 1,
            plate_idx <= num_plates,
        decreases num_plates - plate_idx,
    {
        let mut seeded = false;
        let mut attempt: usize = 0;
        while attempt < 64 && !seeded
            invariant
                num_plates <= nverts,
                nverts == verts@.len(),
                nverts <= MAX_SIM_VERTS,
                lists@.len() == num_plates,
                ids@.len() == nverts,
                partition_state(lists@, ids@, nverts as int),
                count_claimed(ids@) == plate_idx + if seeded {
                    1int
                } else {
                    0int
                },
                forall|q: int| 0 <= q < plate_idx ==> #[trigger] lists@[q]@.len() >= 1,
                seeded ==> lists@[plate_idx as int]@.len() >= 1,
                plate_idx < num_plates,
                attempt <= 64,
            decreases 64 - attempt,
        {
            let idx = rng.gen_index(nverts);
            if ids[idx] == -1 {
                claim_seed(&mut lists, &mut ids, plate_idx, idx);
                seeded = true;
            }
            attempt += 1;
        }
        if !seeded {
            let mut v: usize = 0;
            while v < nverts && !seeded
                invariant
                    num_plates <= nverts,
                    nverts == verts@.len(),
                    nverts <= MAX_SIM_VERTS,
                    lists@.len() == num_plates,
                    ids@.len() == nverts,
                    partition_state(lists@, ids@, nverts as int),
                    count_claimed(ids@) == plate_idx + if seeded {
                        1int
                    } else {
                        0int
                    },
                    forall|q: int| 0 <= q < plate_idx ==> #[trigger] lists@[q]@.len() >= 1,
                    seeded ==> lists@[plate_idx as int]@.len() >= 1,
                    !seeded ==> forall|w: int| 0 <= w < v ==> #[trigger] ids@[w] >= 0,
                    plate_idx < num_plates,
                    v <= nverts,
                decreases nverts - v,
            {
                if ids[v] == -1 {
                    claim_seed(&mut lists, &mut ids, plate_idx, v);
                    seeded = true;
                }
                v += 1;
            }
        }
        proof {
            // A seed always exists: fewer vertices are claimed than exist.
            if !seeded {
                lemma_count_range(ids@);
                assert(count_claimed(ids@) == nverts as int);
                assert(false);
            }
        }
        plate_idx += 1;
    }
    let ghost all_seeded = num_plates == nverts;
    proof {
        if all_seeded {
            lemma_count_range(ids@);
            assert(forall|w: int| 0 <= w < nverts ==> #[trigger] ids@[w] >= 0);
        }
    }
    let ghost pre_fill_ids = ids@;
    let ghost pre_fill_lists = lists@;
    flood_fill(verts, &mut ids, &mut lists);
    proof {
        assert forall|q: int| 0 <= q < num_plates implies #[trigger] lists@[q]@.len() >= 1 by {
            assert(pre_fill_lists[q]@.len() >= 1);
            assert(pre_fill_lists[q]@.len() <= lists@[q]@.len());
        }
        if all_seeded {
            assert forall|w: int| 0 <= w < nverts implies #[trigger] ids@[w] >= 0 by {
                assert(pre_fill_ids[w] >= 0);
            }
        }
    }
    // Validate coverage: the flood fill reaches every vertex of a connected
    // mesh; any unclaimed vertex means the graph was disconnected.
    let mut v: usize = 0;
    while v < nverts
        invariant
            nverts == ids@.len(),
            nverts == verts@.len(),
            1 <= num_plates <= nverts,
            lists@.len() == num_plates,
            partition_state(lists@, ids@, nverts as int),
            forall|q: int| 0 <= q < num_plates ==> #[trigger] lists@[q]@.len() >= 1,
            all_seeded == (num_plates == nverts),
            all_seeded ==> forall|w: int| 0 <= w < nverts ==> #[trigger] ids@[w] >= 0,
            v <= nverts,
            forall|w: int| 0 <= w < v ==> #[trigger] ids@[w] >= 0,
        decreases nverts - v,
    {
        if ids[v] == -1 {
            return Err(WorldError::NumericDegeneracy);
        }
        proof {
            assert(ids@[v as int] >= 0);
        }
        v += 1;
    }
    // Build the plates: each takes its member list and fresh random motion
    // parameters.
    let mut plates: Vec<Plate> = Vec::new();
    let mut p: usize = 0;
    while p < num_plates
        invariant
            1 <= num_plates <= nverts,
            num_plates == lists@.len(),
            nverts == ids@.len(),
            nverts == verts@.len(),
            partition_state(lists@, ids@, nverts as int),
            forall|w: int| 0 <= w < nverts ==> #[trigger] ids@[w] >= 0,
            p <= num_plates,
            plates@.len() == p,
            forall|q: int| 0 <= q < p ==> #[trigger] plates@[q].vertex_indices@ =~= lists@[q]@,
            forall|q: int|
                0 <= q < p ==> bounded(#[trigger] plates@[q].move_axis, SCALE as int),
            forall|q: int| 0 <= q < p ==> 10_000 <= #[trigger] plates@[q].move_speed < 100_000,
            forall|q: int| 0 <= q < p ==> 980_000 <= #[trigger] plates@[q].height < 1_020_000,
            forall|q: int| 0 <= q < p ==> plate_params_drawn(#[trigger] plates@[q]),
        decreases num_plates - p,
    {
        let members = copy_indices(&lists[p]);
        let ghost members_view = members@;
        let ghost g_in = *rng;
        let plate = Plate::from_points(rng, members);
        proof {
            assert(plate.move_axis == crate::vec3::spec_normalize(spec_axis_draw(g_in)));
            assert(plate_params_drawn(plate));
        }
        let ghost pre = plates@;
        let ghost plate_snap = plate;
        plates.push(plate);
        proof {
            assert(plates@ == pre.push(plate_snap));
            assert(plate_snap.vertex_indices@ == members_view);
            assert(members_view == lists@[p as int]@);
            assert forall|q: int| 0 <= q < p + 1 implies #[trigger] plates@[q].vertex_indices@
                =~= lists@[q]@ by {
                if q < p {
                    assert(plates@[q] == pre[q]);
                    assert(pre[q].vertex_indices@ =~= lists@[q]@);
                } else {
                    assert(plates@[q] == plate_snap);
                }
            }
        }
        p += 1;
    }
    proof {
        let ps = plates@;
        let n = nverts as int;
        assert forall|w: int| 0 <= w < n implies #[trigger] vertex_in_plates(ps, w) by {
            assert(ids@[w] >= 0);
            let q = ids@[w] as int;
            assert(q < lists@.len());
            assert(exists|j: int| 0 <= j < lists@[q]@.len() && lists@[q]@[j] == w);
            let j = choose|j: int| 0 <= j < lists@[q]@.len() && lists@[q]@[j] == w;
            assert(0 <= q < ps.len());
            assert(ps[q].vertex_indices@ =~= lists@[q]@);
            assert(lists@[q]@[j] == w);
            assert(ps[q].vertex_indices@[j] == w);
        }
    }
    proof {
        assert(plates@.len() == num_plates);
        assert(forall|p2: int|
            0 <= p2 < plates@.len() ==> plate_params_drawn(#[trigger] plates@[p2]));
        assert(plates_valid(plates@, nverts as int));
        assert(plates_disjoint(plates@));
    }
    Ok(plates)
}

/// A fresh copy of a list of vertex indices.
fn copy_indices(src: &Vec<usize>) -> (r: Vec<usize>)
    ensures
        r@ == src@,
{
    let mut r: Vec<usize> = Vec::new();
    let mut i: usize = 0;
    while i < src.len()
        invariant
            i <= src@.len(),
            r@ == src@.subrange(0, i as int),
        decreases src@.len() - i,
    {
        r.push(src[i]);
        i += 1;
    }
    proof {
        assert(r@ =~= src@);
    }
    r
}

/// The full plate-simulation state: the wrapped simulation-mesh vertices,
/// the plates partitioning them, and the mesh's original edge length, which
/// damping measures convergence against.
#[derive(Clone, Debug)]
pub struct PlateSimulation {
    pub initial_distance: i64,
    pub verts: Vec<PlatePoint>,
    pub plates: Vec<Plate>,
}

/// A vertex after one rotation phase: its position turned about `axis` by
/// its own angular speed (exact Rodrigues numerators, truncated).
pub open spec fn spec_rotated(pt: PlatePoint, axis: Vec3) -> Vec3 {
    let s = crate::fixed::spec_sin(pt.speed as int);
    let c = crate::fixed::spec_cos(pt.speed as int);
    let rr = crate::vec3::spec_rotate(pt.pos, axis, s, c);
    Vec3 { x: rr.0 as i64, y: rr.1 as i64, z: rr.2 as i64 }
}

/// The positions of a vertex sequence.
pub open spec fn spec_positions(vs: Seq<PlatePoint>) -> Seq<Vec3> {
    vs.map(|k: int, pt: PlatePoint| pt.pos)
}

/// Sum over the first `j` positions of the scaled dot product with `a`,
/// clamped below at the half-unit threshold.
pub open spec fn spec_closeness_sum(ps: Seq<Vec3>, a: Vec3, j: int) -> int
    decreases j,
{
    if j <= 0 {
        0
    } else {
        let d = crate::fixed::spec_tdiv(crate::vec3::spec_dot(a, ps[j - 1]), 1_000_000);
        spec_closeness_sum(ps, a, j - 1) + if d < 500_000 {
            500_000
        } else {
            d
        }
    }
}

/// The convergence proxy of a vertex at `a`: the average clamped closeness
/// to all positions, with the threshold baseline subtracted.
pub open spec fn spec_avg_closeness(ps: Seq<Vec3>, a: Vec3) -> int {
    crate::fixed::spec_tdiv(
        spec_closeness_sum(ps, a, ps.len() as int) - ps.len() * 500_000,
        ps.len() as int,
    )
}

/// A speed damped by its convergence: `speed * (1 - avg / initial)`, in
/// fixed point with truncating division.
pub open spec fn spec_damped(speed: int, avg: int, initial: int) -> int {
    crate::fixed::spec_tdiv(
        speed * (1_000_000 - crate::fixed::spec_tdiv(avg * 1_000_000, initial)),
        1_000_000,
    )
}

/// Slot `(p1, j1)` is processed strictly before slot `(p2, j2)` in the
/// rotation phase's plate-then-member order.
pub open spec fn slot_before(p1: int, j1: int, p2: int, j2: int) -> bool {
    p1 < p2 || (p1 == p2 && j1 < j2)
}

/// Vertex `v` occupies some plate slot strictly before `(p, j)`.
pub open spec fn in_rotated_prefix(plates: Seq<Plate>, v: int, p: int, j: int) -> bool {
    exists|p1: int, j1: int|
        0 <= p1 < plates.len() && 0 <= j1 < plates[p1].vertex_indices@.len() && slot_before(
            p1,
            j1,
            p,
            j,
        ) && #[trigger] plates[p1].vertex_indices@[j1] == v
}

/// Every plate slot strictly before `(p, j)` already holds its rotated
/// position: the member's position in `vs` is its position in `vs0` turned
/// about the owning plate's axis.
pub open spec fn rotation_done_upto(
    vs0: Seq<PlatePoint>,
    vs: Seq<PlatePoint>,
    plates: Seq<Plate>,
    p: int,
    j: int,
) -> bool {
    forall|p1: int, j1: int|
        0 <= p1 < plates.len() && 0 <= j1 < plates[p1].vertex_indices@.len() && slot_before(
            p1,
            j1,
            p,
            j,
        ) ==> {
            let v = #[trigger] plates[p1].vertex_indices@[j1] as int;
            vs[v].pos == spec_rotated(vs0[v], plates[p1].move_axis)
        }
}

/// Every vertex not yet reached by the rotation order still holds its old
/// position.
pub open spec fn untouched_outside_prefix(
    vs0: Seq<PlatePoint>,
    vs: Seq<PlatePoint>,
    plates: Seq<Plate>,
    p: int,
    j: int,
) -> bool {
    forall|v: int|
        0 <= v < vs.len() && !(#[trigger] in_rotated_prefix(plates, v, p, j)) ==> vs[v].pos
            == vs0[v].pos
}

/// Plate `p`'s member list holds vertex `v`.
pub open spec fn plate_has(plates: Seq<Plate>, p: int, v: int) -> bool {
    exists|j: int|
        0 <= j < plates[p].vertex_indices@.len() && #[trigger] plates[p].vertex_indices@[j] == v
}

/// The plate owning vertex `v` (unique under a disjoint cover).
pub open spec fn owner_plate(plates: Seq<Plate>, v: int) -> int {
    choose|p: int| 0 <= p < plates.len() && #[trigger] plate_has(plates, p, v)
}

/// Under a disjoint cover, the owner of a member is its plate.
proof fn lemma_owner_unique(plates: Seq<Plate>, p: int, v: int)
    requires
        plates_disjoint(plates),
        0 <= p < plates.len(),
        plate_has(plates, p, v),
    ensures
        owner_plate(plates, v) == p,
{
    let po = owner_plate(plates, v);
    assert(0 <= po < plates.len() && plate_has(plates, po, v));
    if po != p {
        let j1 = choose|j: int|
            0 <= j < plates[p].vertex_indices@.len() && #[trigger] plates[p].vertex_indices@[j]
                == v;
        let j2 = choose|j: int|
            0 <= j < plates[po].vertex_indices@.len()
                && #[trigger] plates[po].vertex_indices@[j] == v;
        assert(plates[p].vertex_indices@[j1] != plates[po].vertex_indices@[j2]);
    }
}

/// A vertex's position after the rotation phase: turned about its owning
/// plate's axis by its own speed.
pub open spec fn spec_mid_pos(s: PlateSimulation, v: int) -> Vec3 {
    spec_rotated(s.verts@[v], s.plates@[owner_plate(s.plates@, v)].move_axis)
}

/// All positions after the rotation phase.
pub open spec fn spec_mid_positions(s: PlateSimulation) -> Seq<Vec3> {
    Seq::new(s.verts@.len(), |v: int| spec_mid_pos(s, v))
}

/// One step stays inside the numeric bands: every rotated position fits the
/// coordinate band and every damped speed fits the speed band.
pub open spec fn step_in_bands(s: PlateSimulation) -> bool {
    &&& forall|v: int|
        0 <= v < s.verts@.len() ==> bounded(#[trigger] spec_mid_pos(s, v), SIM_COORD_LIMIT as int)
    &&& forall|v: int|
        0 <= v < s.verts@.len() ==> -SIM_SPEED_LIMIT <= #[trigger] spec_damped(
            s.verts@[v].speed as int,
            spec_avg_closeness(spec_mid_positions(s), spec_mid_pos(s, v)),
            s.initial_distance as int,
        ) <= SIM_SPEED_LIMIT
}

/// The effect of one simulation step on the state: plates, neighbor lists
/// and the initial distance are kept; every plate member's position is its
/// Rodrigues rotation; every speed is damped by its convergence over the
/// post-rotation positions.
pub open spec fn step_relation(s0: PlateSimulation, s1: PlateSimulation) -> bool {
    &&& s1.verts@.len() == s0.verts@.len()
    &&& s1.plates@ == s0.plates@
    &&& s1.initial_distance == s0.initial_distance
    &&& forall|v: int|
        0 <= v < s0.verts@.len() ==> #[trigger] s1.verts@[v].nbr_indices@
            == s0.verts@[v].nbr_indices@
    &&& forall|p: int, j: int|
        0 <= p < s0.plates@.len() && 0 <= j < s0.plates@[p].vertex_indices@.len() ==> {
            let v = #[trigger] s0.plates@[p].vertex_indices@[j] as int;
            s1.verts@[v].pos == spec_rotated(s0.verts@[v], s0.plates@[p].move_axis)
        }
    &&& forall|v: int|
        0 <= v < s0.verts@.len() ==> #[trigger] s1.verts@[v].speed == spec_damped(
            s0.verts@[v].speed as int,
            spec_avg_closeness(spec_positions(s1.verts@), s1.verts@[v].pos),
            s0.initial_distance as int,
        )
}

/// The state after `k` sequential steps: the k-fold composition of
/// [`step_relation`].
pub open spec fn steps_relation(s0: PlateSimulation, s1: PlateSimulation, k: nat) -> bool
    decreases k,
{
    if k == 0 {
        s1 == s0
    } else {
        exists|m: PlateSimulation|
            steps_relation(s0, m, (k - 1) as nat) && #[trigger] step_relation(m, s1)
    }
}

/// The simulation invariant: a nonempty, bounded vertex set with sound
/// neighbor lists, speeds inside the speed band, positions inside the
/// coordinate band, and plates that truly partition the vertices with unit
/// axes.
pub open spec fn sim_wf(s: PlateSimulation) -> bool {
    &&& 1 <= s.verts@.len() <= MAX_SIM_VERTS
    &&& s.initial_distance >= 1
    &&& forall|v: int|
        0 <= v < s.verts@.len() ==> bounded(#[trigger] s.verts@[v].pos, SIM_COORD_LIMIT as int)
    &&& forall|v: int|
        0 <= v < s.verts@.len() ==> -SIM_SPEED_LIMIT <= #[trigger] s.verts@[v].speed
            <= SIM_SPEED_LIMIT
    &&& forall|v: int, j: int|
        0 <= v < s.verts@.len() && 0 <= j < s.verts@[v].nbr_indices@.len()
            ==> #[trigger] s.verts@[v].nbr_indices@[j] < s.verts@.len()
    &&& is_partition(s.plates@, s.verts@.len() as int)
    &&& forall|p: int|
        0 <= p < s.plates@.len() ==> bounded(#[trigger] s.plates@[p].move_axis, SCALE as int)
}

/// The length of a mesh's first edge, as a mathematical function: the
/// rounded-down norm of the difference of its endpoints.
pub open spec fn spec_edge0_length(poly: Polyhedron) -> int {
    let a = poly.vertices@[poly.edges@[0].vertex_indices@[0] as int].pos;
    let b = poly.vertices@[poly.edges@[0].vertex_indices@[1] as int].pos;
    crate::vec3::spec_sqrt(
        crate::vec3::spec_norm2(
            Vec3 { x: (a.x - b.x) as i64, y: (a.y - b.y) as i64, z: (a.z - b.z) as i64 },
        ) as nat,
    ) as int
}

/// The length of the mesh's first edge: the original vertex spacing.
pub fn get_edge_length(poly: &Polyhedron) -> (r: i64)
    requires
        wf(*poly),
        coords_bounded(*poly, 2 * SCALE as int),
        poly.edges@.len() > 0,
    ensures
        r >= 0,
        r == spec_edge0_length(*poly),
{
    let i0 = poly.edges[0].vertex_indices[0];
    let i1 = poly.edges[0].vertex_indices[1];
    let a = poly.vertices[i0].pos;
    let b = poly.vertices[i1].pos;
    let diff = a.sub(&b);
    diff.length()
}

impl PlateSimulation {
    /// Wrap a simulation mesh: cache each vertex's neighbors from the mesh
    /// edges, partition the vertices into `num_plates` plates, and give
    /// every vertex its owning plate's initial speed.
    ///
    /// Fails with [`WorldError::ConfigurationError`] when the mesh has fewer
    /// faces than the requested plates (or no plates, no vertices, no edges,
    /// or a mesh beyond [`MAX_SIM_VERTS`] are requested).  The only other
    /// failure, [`WorldError::NumericDegeneracy`], arises when the flood
    /// fill cannot reach some vertex (a disconnected adjacency graph) or
    /// the mesh's first edge is shorter than one fixed-point step; neither
    /// occurs on a sphere mesh.
    pub fn new(poly: &Polyhedron, num_plates: usize, rng: &mut XorShiftRng) -> (r: Result<
        PlateSimulation,
        WorldError,
    >)
        requires
            wf(*poly),
            vertex_edges_sound(*poly),
            coords_bounded(*poly, 2 * SCALE as int),
        ensures
            r == Err::<PlateSimulation, WorldError>(WorldError::ConfigurationError) <==> (
            num_plates == 0 || num_plates > poly.faces@.len() || poly.vertices@.len() == 0
                || poly.vertices@.len() > MAX_SIM_VERTS || num_plates > poly.vertices@.len()
                || poly.edges@.len() == 0),
            r is Err ==> r == Err::<PlateSimulation, WorldError>(WorldError::ConfigurationError)
                || r == Err::<PlateSimulation, WorldError>(WorldError::NumericDegeneracy),
            r is Ok ==> {
                let s = r->Ok_0;
                &&& sim_wf(s)
                &&& s.verts@.len() == poly.vertices@.len()
                &&& s.plates@.len() == num_plates
                &&& forall|p: int|
                    0 <= p < s.plates@.len() ==> #[trigger] s.plates@[p].vertex_indices@.len()
                        >= 1
                &&& forall|v: int|
                    0 <= v < s.verts@.len() ==> #[trigger] s.verts@[v].pos
                        == poly.vertices@[v].pos
                &&& forall|v: int|
                    0 <= v < s.verts@.len() ==> #[trigger] s.verts@[v].nbr_indices@.len()
                        == poly.vertices@[v].edge_indices@.len()
                &&& forall|v: int, j: int|
                    0 <= v < s.verts@.len() && 0 <= j < s.verts@[v].nbr_indices@.len()
                        ==> #[trigger] s.verts@[v].nbr_indices@[j] == spec_other_end(
                        poly.edges@[poly.vertices@[v].edge_indices@[j] as int],
                        v,
                    )
                &&& forall|p: int, j: int|
                    0 <= p < s.plates@.len() && 0 <= j < s.plates@[p].vertex_indices@.len()
                        ==> s.verts@[#[trigger] s.plates@[p].vertex_indices@[j] as int].speed
                        == s.plates@[p].move_speed
                &&& s.initial_distance == spec_edge0_length(*poly)
                &&& forall|p: int|
                    0 <= p < s.plates@.len() ==> plate_params_drawn(#[trigger] s.plates@[p])
            },
            r is Ok ==> spec_edge0_length(*poly) >= 1,
            (1 <= num_plates && num_plates == poly.vertices@.len() && num_plates
                <= poly.faces@.len() && poly.vertices@.len() <= MAX_SIM_VERTS
                && poly.edges@.len() > 0 && spec_edge0_length(*poly) >= 1) ==> r is Ok,
    {
        if num_plates == 0 || poly.faces.len() < num_plates {
            return Err(WorldError::ConfigurationError);
        }
        let nverts = poly.vertices.len();
        if nverts == 0 || nverts > MAX_SIM_VERTS || num_plates > nverts
            || poly.edges.len() == 0 {
            return Err(WorldError::ConfigurationError);
        }
        let mut verts: Vec<PlatePoint> = Vec::new();
        let mut vert_idx: usize = 0;
        while vert_idx < nverts
            invariant
                wf(*poly),
                vertex_edges_sound(*poly),
                coords_bounded(*poly, 2 * SCALE as int),
                nverts == poly.vertices@.len(),
                vert_idx <= nverts,
                verts@.len() == vert_idx,
                forall|v: int|
                    0 <= v < vert_idx ==> #[trigger] verts@[v].pos == poly.vertices@[v].pos,
                forall|v: int| 0 <= v < vert_idx ==> #[trigger] verts@[v].speed == SCALE,
                forall|v: int, j: int|
                    0 <= v < vert_idx && 0 <= j < verts@[v].nbr_indices@.len()
                        ==> #[trigger] verts@[v].nbr_indices@[j] < nverts,
                forall|v: int|
                    0 <= v < vert_idx ==> #[trigger] verts@[v].nbr_indices@.len()
                        == poly.vertices@[v].edge_indices@.len(),
                forall|v: int, j: int|
                    0 <= v < vert_idx && 0 <= j < verts@[v].nbr_indices@.len()
                        ==> #[trigger] verts@[v].nbr_indices@[j] == spec_other_end(
                        poly.edges@[poly.vertices@[v].edge_indices@[j] as int],
                        v,
                    ),
            decreases nverts - vert_idx,
        {
            let mut nbrs: Vec<usize> = Vec::new();
            let ecount = poly.vertices[vert_idx].edge_indices.len();
            let mut j: usize = 0;
            while j < ecount
                invariant
                    wf(*poly),
                    vertex_edges_sound(*poly),
                    nverts == poly.vertices@.len(),
                    vert_idx < nverts,
                    ecount == poly.vertices@[vert_idx as int].edge_indices@.len(),
                    j <= ecount,
                    nbrs@.len() == j,
                    forall|k: int| 0 <= k < nbrs@.len() ==> #[trigger] nbrs@[k] < nverts,
                    forall|k: int|
                        0 <= k < j ==> #[trigger] nbrs@[k] == spec_other_end(
                            poly.edges@[poly.vertices@[vert_idx as int].edge_indices@[k] as int],
                            vert_idx as int,
                        ),
                decreases ecount - j,
            {
                let e = poly.vertices[vert_idx].edge_indices[j];
                let nbr = get_nbr_idx(&poly.edges[e], vert_idx);
                nbrs.push(nbr);
                j += 1;
            }
            verts.push(PlatePoint::new(&poly.vertices[vert_idx].pos, nbrs));
            vert_idx += 1;
        }
        let plates = match random_partition(rng, &verts, num_plates) {
            Ok(p) => p,
            Err(e) => {
                return Err(e);
            },
        };
        // Give every vertex its owning plate's speed.
        let mut p: usize = 0;
        while p < plates.len()
            invariant
                nverts == verts@.len(),
                nverts <= MAX_SIM_VERTS,
                is_partition(plates@, nverts as int),
                forall|q: int|
                    0 <= q < plates@.len() ==> bounded(
                        #[trigger] plates@[q].move_axis,
                        SCALE as int,
                    ),
                forall|q: int|
                    0 <= q < plates@.len() ==> 10_000 <= #[trigger] plates@[q].move_speed
                        < 100_000,
                p <= plates@.len(),
                forall|v: int|
                    0 <= v < nverts ==> #[trigger] verts@[v].pos == poly.vertices@[v].pos,
                coords_bounded(*poly, 2 * SCALE as int),
                nverts == poly.vertices@.len(),
                forall|v: int|
                    0 <= v < nverts ==> -SIM_SPEED_LIMIT <= #[trigger] verts@[v].speed
                        <= SIM_SPEED_LIMIT,
                forall|v: int, j: int|
                    0 <= v < nverts && 0 <= j < verts@[v].nbr_indices@.len()
                        ==> #[trigger] verts@[v].nbr_indices@[j] < nverts,
                forall|v: int|
                    0 <= v < nverts ==> #[trigger] verts@[v].nbr_indices@.len()
                        == poly.vertices@[v].edge_indices@.len(),
                forall|v: int, j: int|
                    0 <= v < nverts && 0 <= j < verts@[v].nbr_indices@.len()
                        ==> #[trigger] verts@[v].nbr_indices@[j] == spec_other_end(
                        poly.edges@[poly.vertices@[v].edge_indices@[j] as int],
                        v,
                    ),
                forall|p1: int, j1: int|
                    0 <= p1 < plates@.len() && 0 <= j1 < plates@[p1].vertex_indices@.len()
                        && slot_before(p1, j1, p as int, 0)
                        ==> verts@[#[trigger] plates@[p1].vertex_indices@[j1] as int].speed
                        == plates@[p1].move_speed,
            decreases plates@.len() - p,
        {
            let mcount = plates[p].vertex_indices.len();
            let speed = plates[p].move_speed;
            let mut j: usize = 0;
            while j < mcount
                invariant
                    nverts == verts@.len(),
                    nverts == poly.vertices@.len(),
                    is_partition(plates@, nverts as int),
                    p < plates@.len(),
                    mcount == plates@[p as int].vertex_indices@.len(),
                    speed == plates@[p as int].move_speed,
                    10_000 <= speed < 100_000,
                    j <= mcount,
                    forall|v: int|
                        0 <= v < nverts ==> #[trigger] verts@[v].pos == poly.vertices@[v].pos,
                    forall|v: int|
                        0 <= v < nverts ==> -SIM_SPEED_LIMIT <= #[trigger] verts@[v].speed
                            <= SIM_SPEED_LIMIT,
                    forall|v: int, k: int|
                        0 <= v < nverts && 0 <= k < verts@[v].nbr_indices@.len()
                            ==> #[trigger] verts@[v].nbr_indices@[k] < nverts,
                    forall|v: int|
                        0 <= v < nverts ==> #[trigger] verts@[v].nbr_indices@.len()
                            == poly.vertices@[v].edge_indices@.len(),
                    forall|v: int, k: int|
                        0 <= v < nverts && 0 <= k < verts@[v].nbr_indices@.len()
                            ==> #[trigger] verts@[v].nbr_indices@[k] == spec_other_end(
                            poly.edges@[poly.vertices@[v].edge_indices@[k] as int],
                            v,
                        ),
                    forall|p1: int, j1: int|
                        0 <= p1 < plates@.len() && 0 <= j1 < plates@[p1].vertex_indices@.len()
                            && slot_before(p1, j1, p as int, j as int)
                            ==> verts@[#[trigger] plates@[p1].vertex_indices@[j1] as int].speed
                            == plates@[p1].move_speed,
                decreases mcount - j,
            {
                let v = plates[p].vertex_indices[j];
                verts[v].speed = speed;
                proof {
                    assert forall|p1: int, j1: int|
                        0 <= p1 < plates@.len() && 0 <= j1 < plates@[p1].vertex_indices@.len()
                            && slot_before(p1, j1, p as int, j + 1) implies verts@[
                        #[trigger] plates@[p1].vertex_indices@[j1] as int].speed
                        == plates@[p1].move_speed by {
                        let w = plates@[p1].vertex_indices@[j1] as int;
                        if slot_before(p1, j1, p as int, j as int) {
                            assert(w != v as int) by {
                                if w == v as int {
                                    assert(plates@[p1].vertex_indices@[j1]
                                        == plates@[p as int].vertex_indices@[j as int]);
                                }
                            }
                        } else {
                            assert(p1 == p as int && j1 == j as int);
                        }
                    }
                }
                j += 1;
            }
            proof {
                assert forall|p1: int, j1: int|
                    0 <= p1 < plates@.len() && 0 <= j1 < plates@[p1].vertex_indices@.len()
                        && slot_before(p1, j1, p + 1, 0) implies verts@[
                    #[trigger] plates@[p1].vertex_indices@[j1] as int].speed
                    == plates@[p1].move_speed by {
                    assert(slot_before(p1, j1, p as int, mcount as int));
                    assert(slot_before(p1, j1, p as int, mcount as int) ==> (slot_before(
                        p1,
                        j1,
                        p as int,
                        0,
                    ) || (p1 == p as int && 0 <= j1 < mcount)));
                }
            }
            p += 1;
        }
        let initial_distance = get_edge_length(poly);
        if initial_distance < 1 {
            return Err(WorldError::NumericDegeneracy);
        }
        Ok(PlateSimulation { initial_distance, verts, plates })
    }

    /// One simulation step: rotate every plate's member vertices about the
    /// plate's axis by each vertex's own angular speed, compute every
    /// vertex's average clamped-dot closeness to all vertices, and damp each
    /// speed by `1 - closeness / initial_distance`.  On success the new
    /// state is pinned exactly: each plate member's position is the
    /// Rodrigues rotation of its old position, and each speed is the damped
    /// old speed, both over the library's fixed-point spec functions.
    ///
    /// Fails with [`WorldError::NumericDegeneracy`] only if a position or
    /// speed would leave its band, which no unit-sphere run produces.
    #[verifier::rlimit(100)]
    #[verifier::spinoff_prover]
    pub fn simulate_plates_step(&mut self) -> (r: Result<(), WorldError>)
        requires
            sim_wf(*old(self)),
        ensures
            r is Ok <==> step_in_bands(*old(self)),
            r is Ok ==> sim_wf(*final(self)),
            r is Ok ==> final(self).verts@.len() == old(self).verts@.len(),
            r is Ok ==> final(self).plates@ == old(self).plates@,
            r is Ok ==> final(self).initial_distance == old(self).initial_distance,
            r is Ok ==> forall|v: int|
                0 <= v < old(self).verts@.len() ==> #[trigger] final(self).verts@[v].nbr_indices@
                    == old(self).verts@[v].nbr_indices@,
            r is Ok ==> forall|p: int, j: int|
                0 <= p < old(self).plates@.len() && 0 <= j < old(
                    self,
                ).plates@[p].vertex_indices@.len() ==> {
                    let v = #[trigger] old(self).plates@[p].vertex_indices@[j] as int;
                    final(self).verts@[v].pos == spec_rotated(
                        old(self).verts@[v],
                        old(self).plates@[p].move_axis,
                    )
                },
            r is Ok ==> forall|v: int|
                0 <= v < old(self).verts@.len() ==> #[trigger] final(self).verts@[v].speed
                    == spec_damped(
                    old(self).verts@[v].speed as int,
                    spec_avg_closeness(
                        spec_positions(final(self).verts@),
                        final(self).verts@[v].pos,
                    ),
                    old(self).initial_distance as int,
                ),
            r is Ok ==> step_relation(*old(self), *final(self)),
            r is Err ==> r == Err::<(), WorldError>(WorldError::NumericDegeneracy),
            final(self).verts@.len() == old(self).verts@.len(),
            final(self).plates@ == old(self).plates@,
            final(self).initial_distance == old(self).initial_distance,
            forall|v: int|
                0 <= v < old(self).verts@.len() ==> #[trigger] final(self).verts@[v].nbr_indices@
                    == old(self).verts@[v].nbr_indices@,
            forall|v: int|
                0 <= v < final(self).verts@.len() ==> -SIM_SPEED_LIMIT
                    <= #[trigger] final(self).verts@[v].speed <= SIM_SPEED_LIMIT,
            forall|v: int|
                0 <= v < final(self).verts@.len() ==> bounded(
                    #[trigger] final(self).verts@[v].pos,
                    1_000_000_000,
                ),
    {
        let nverts = self.verts.len();
        let nplates = self.plates.len();
        // (a) Rotate each plate's members in plate order.
        let mut p: usize = 0;
        while p < nplates
            invariant
                nplates == self.plates@.len(),
                self.plates@ == old(self).plates@,
                nverts == self.verts@.len(),
                nverts == old(self).verts@.len(),
                1 <= nverts <= MAX_SIM_VERTS,
                self.initial_distance == old(self).initial_distance,
                self.initial_distance >= 1,
                is_partition(self.plates@, nverts as int),
                forall|q: int|
                    0 <= q < nplates ==> bounded(
                        #[trigger] self.plates@[q].move_axis,
                        SCALE as int,
                    ),
                forall|v: int|
                    0 <= v < nverts ==> bounded(
                        #[trigger] self.verts@[v].pos,
                        SIM_COORD_LIMIT as int,
                    ),
                forall|v: int|
                    0 <= v < nverts ==> #[trigger] self.verts@[v].speed == old(
                        self,
                    ).verts@[v].speed,
                forall|v: int|
                    0 <= v < nverts ==> #[trigger] self.verts@[v].nbr_indices@ == old(
                        self,
                    ).verts@[v].nbr_indices@,
                forall|v: int|
                    0 <= v < nverts ==> -SIM_SPEED_LIMIT <= #[trigger] self.verts@[v].speed
                        <= SIM_SPEED_LIMIT,
                rotation_done_upto(old(self).verts@, self.verts@, self.plates@, p as int, 0),
                untouched_outside_prefix(
                    old(self).verts@,
                    self.verts@,
                    self.plates@,
                    p as int,
                    0,
                ),
                p <= nplates,
            decreases nplates - p,
        {
            let axis = self.plates[p].move_axis;
            let mcount = self.plates[p].vertex_indices.len();
            let mut j: usize = 0;
            while j < mcount
                invariant
                    nplates == self.plates@.len(),
                    self.plates@ == old(self).plates@,
                    nverts == self.verts@.len(),
                    nverts == old(self).verts@.len(),
                    1 <= nverts <= MAX_SIM_VERTS,
                    self.initial_distance == old(self).initial_distance,
                    self.initial_distance >= 1,
                    is_partition(self.plates@, nverts as int),
                    forall|q: int|
                        0 <= q < nplates ==> bounded(
                            #[trigger] self.plates@[q].move_axis,
                            SCALE as int,
                        ),
                    p < nplates,
                    axis == self.plates@[p as int].move_axis,
                    bounded(axis, SCALE as int),
                    mcount == self.plates@[p as int].vertex_indices@.len(),
                    forall|v: int|
                        0 <= v < nverts ==> bounded(
                            #[trigger] self.verts@[v].pos,
                            SIM_COORD_LIMIT as int,
                        ),
                    forall|v: int|
                        0 <= v < nverts ==> #[trigger] self.verts@[v].speed == old(
                            self,
                        ).verts@[v].speed,
                    forall|v: int|
                        0 <= v < nverts ==> #[trigger] self.verts@[v].nbr_indices@ == old(
                            self,
                        ).verts@[v].nbr_indices@,
                    forall|v: int|
                        0 <= v < nverts ==> -SIM_SPEED_LIMIT <= #[trigger] self.verts@[v].speed
                            <= SIM_SPEED_LIMIT,
                    rotation_done_upto(
                        old(self).verts@,
                        self.verts@,
                        self.plates@,
                        p as int,
                        j as int,
                    ),
                    untouched_outside_prefix(
                        old(self).verts@,
                        self.verts@,
                        self.plates@,
                        p as int,
                        j as int,
                    ),
                    j <= mcount,
                decreases mcount - j,
            {
                let v = self.plates[p].vertex_indices[j];
                proof {
                    assert(plate_has(old(self).plates@, p as int, v as int)) by {
                        assert(old(self).plates@[p as int].vertex_indices@[j as int]
                            == v as usize);
                    }
                    lemma_owner_unique(old(self).plates@, p as int, v as int);
                    if in_rotated_prefix(self.plates@, v as int, p as int, j as int) {
                        let (p1, j1) = choose|p1: int, j1: int|
                            0 <= p1 < self.plates@.len() && 0 <= j1
                                < self.plates@[p1].vertex_indices@.len() && slot_before(
                                p1,
                                j1,
                                p as int,
                                j as int,
                            ) && #[trigger] self.plates@[p1].vertex_indices@[j1] == v;
                        assert(self.plates@[p1].vertex_indices@[j1]
                            == self.plates@[p as int].vertex_indices@[j as int]);
                        assert(false);
                    }
                }
                let ghost pre = self.verts@;
                let ok = self.verts[v].move_around(&axis);
                proof {
                    assert(self.verts@[v as int].pos == spec_mid_pos(*old(self), v as int));
                }
                if !ok {
                    proof {
                        assert(!bounded(
                            spec_mid_pos(*old(self), v as int),
                            SIM_COORD_LIMIT as int,
                        ));
                        assert(!step_in_bands(*old(self)));
                    }
                    return Err(WorldError::NumericDegeneracy);
                }
                proof {
                    let plates = self.plates@;
                    let vs0 = old(self).verts@;
                    let vs = self.verts@;
                    assert(vs[v as int].pos == spec_rotated(vs0[v as int], axis));
                    assert forall|p1: int, j1: int|
                        0 <= p1 < plates.len() && 0 <= j1 < plates[p1].vertex_indices@.len()
                            && slot_before(p1, j1, p as int, j + 1) implies {
                        let w = #[trigger] plates[p1].vertex_indices@[j1] as int;
                        vs[w].pos == spec_rotated(vs0[w], plates[p1].move_axis)
                    } by {
                        let w = plates[p1].vertex_indices@[j1] as int;
                        if slot_before(p1, j1, p as int, j as int) {
                            assert(w != v) by {
                                if w == v {
                                    assert(plates[p1].vertex_indices@[j1]
                                        == plates[p as int].vertex_indices@[j as int]);
                                }
                            }
                            assert(pre[w].pos == spec_rotated(vs0[w], plates[p1].move_axis));
                            assert(vs[w].pos == pre[w].pos);
                        } else {
                            assert(p1 == p as int && j1 == j as int);
                        }
                    }
                    assert forall|w: int|
                        0 <= w < vs.len() && !(#[trigger] in_rotated_prefix(
                            plates,
                            w,
                            p as int,
                            j + 1,
                        )) implies vs[w].pos == vs0[w].pos by {
                        assert(!in_rotated_prefix(plates, w, p as int, j as int));
                        assert(w != v) by {
                            if w == v {
                                assert(plates[p as int].vertex_indices@[j as int] == v);
                                assert(slot_before(p as int, j as int, p as int, j + 1));
                            }
                        }
                        assert(vs[w].pos == pre[w].pos);
                    }
                }
                j += 1;
            }
            proof {
                let plates = self.plates@;
                let vs0 = old(self).verts@;
                let vs = self.verts@;
                assert forall|p1: int, j1: int|
                    0 <= p1 < plates.len() && 0 <= j1 < plates[p1].vertex_indices@.len()
                        && slot_before(p1, j1, p + 1, 0) implies {
                    let w = #[trigger] plates[p1].vertex_indices@[j1] as int;
                    vs[w].pos == spec_rotated(vs0[w], plates[p1].move_axis)
                } by {
                    assert(slot_before(p1, j1, p as int, mcount as int));
                }
                assert forall|w: int|
                    0 <= w < vs.len() && !(#[trigger] in_rotated_prefix(plates, w, p + 1, 0))
                        implies vs[w].pos == vs0[w].pos by {
                    assert(!in_rotated_prefix(plates, w, p as int, mcount as int)) by {
                        if in_rotated_prefix(plates, w, p as int, mcount as int) {
                            let (p1, j1) = choose|p1: int, j1: int|
                                0 <= p1 < plates.len() && 0 <= j1
                                    < plates[p1].vertex_indices@.len() && slot_before(
                                    p1,
                                    j1,
                                    p as int,
                                    mcount as int,
                                ) && #[trigger] plates[p1].vertex_indices@[j1] == w;
                            assert(slot_before(p1, j1, p + 1, 0));
                        }
                    }
                }
            }
            p += 1;
        }
        let ghost mid = self.verts@;
        // (b) Average clamped-dot closeness of every vertex to all vertices.
        let ghost mid_ps = spec_positions(mid);
        proof {
            assert(mid_ps.len() == nverts);
            assert forall|v: int| 0 <= v < nverts implies #[trigger] mid[v].pos == spec_mid_pos(
                *old(self),
                v,
            ) by {
                assert(vertex_in_plates(old(self).plates@, v));
                let (pw, jw) = choose|pw: int, jw: int|
                    0 <= pw < old(self).plates@.len() && 0 <= jw < old(
                        self,
                    ).plates@[pw].vertex_indices@.len() && #[trigger] old(
                        self,
                    ).plates@[pw].vertex_indices@[jw] == v;
                assert(slot_before(pw, jw, old(self).plates@.len() as int, 0));
                assert(mid[v].pos == spec_rotated(
                    old(self).verts@[v],
                    old(self).plates@[pw].move_axis,
                ));
                assert(plate_has(old(self).plates@, pw, v)) by {
                    assert(old(self).plates@[pw].vertex_indices@[jw] == v as usize);
                }
                lemma_owner_unique(old(self).plates@, pw, v);
            }
            assert(mid_ps =~= spec_mid_positions(*old(self))) by {
                assert(forall|v: int|
                    0 <= v < nverts ==> #[trigger] mid_ps[v] == mid[v].pos);
            }
        }
        let mut avg: Vec<i64> = Vec::new();
        let mut i: usize = 0;
        while i < nverts
            invariant
                nverts == self.verts@.len(),
                1 <= nverts <= MAX_SIM_VERTS,
                self.verts@ == mid,
                mid_ps == spec_positions(mid),
                mid_ps == spec_mid_positions(*old(self)),
                forall|v: int|
                    0 <= v < nverts ==> #[trigger] mid[v].pos == spec_mid_pos(*old(self), v),
                mid_ps.len() == nverts,
                forall|v: int|
                    0 <= v < nverts ==> bounded(
                        #[trigger] self.verts@[v].pos,
                        SIM_COORD_LIMIT as int,
                    ),
                i <= nverts,
                avg@.len() == i,
                forall|v: int| 0 <= v < i ==> 0 <= #[trigger] avg@[v] <= 48_000_000,
                forall|v: int|
                    0 <= v < i ==> #[trigger] avg@[v] == spec_avg_closeness(
                        mid_ps,
                        mid[v].pos,
                    ),
            decreases nverts - i,
        {
            let pos_i = self.verts[i].pos;
            let mut sum: i128 = 0;
            let mut j: usize = 0;
            while j < nverts
                invariant
                    nverts == self.verts@.len(),
                    nverts <= MAX_SIM_VERTS,
                    self.verts@ == mid,
                    mid_ps == spec_positions(mid),
                    mid_ps.len() == nverts,
                    forall|v: int|
                        0 <= v < nverts ==> bounded(
                            #[trigger] self.verts@[v].pos,
                            SIM_COORD_LIMIT as int,
                        ),
                    bounded(pos_i, SIM_COORD_LIMIT as int),
                    j <= nverts,
                    j as int * 500_000 <= sum <= j as int * 48_000_000,
                    sum == spec_closeness_sum(mid_ps, pos_i, j as int),
                decreases nverts - j,
            {
                let d = pos_i.dot(&self.verts[j].pos);
                proof {
                    crate::fixed::lemma_mul_le(
                        pos_i.x as int,
                        self.verts@[j as int].pos.x as int,
                        SIM_COORD_LIMIT as int,
                        SIM_COORD_LIMIT as int,
                    );
                    crate::fixed::lemma_mul_le(
                        pos_i.y as int,
                        self.verts@[j as int].pos.y as int,
                        SIM_COORD_LIMIT as int,
                        SIM_COORD_LIMIT as int,
                    );
                    crate::fixed::lemma_mul_le(
                        pos_i.z as int,
                        self.verts@[j as int].pos.z as int,
                        SIM_COORD_LIMIT as int,
                        SIM_COORD_LIMIT as int,
                    );
                    assert(mid_ps[j as int] == mid[j as int].pos);
                }
                let ds = tdiv128(d, 1_000_000);
                proof {
                    crate::fixed::lemma_tdiv_bound(d as int, 1_000_000, 48_000_000_000_000);
                }
                let clamped: i128 = if ds < 500_000 {
                    500_000
                } else {
                    ds
                };
                sum = sum + clamped;
                j += 1;
            }
            let base: i128 = (nverts as i128) * 500_000;
            let centered = sum - base;
            let a = tdiv128(centered, nverts as i128);
            proof {
                crate::fixed::lemma_tdiv_bound(
                    centered as int,
                    nverts as int,
                    nverts as int * 48_000_000,
                );
                vstd::arithmetic::div_mod::lemma_div_multiples_vanish(
                    48_000_000,
                    nverts as int,
                );
            }
            avg.push(a as i64);
            i += 1;
        }
        // (c) Damp every per-vertex speed by its closeness.
        let initial = self.initial_distance;
        let mut i: usize = 0;
        while i < nverts
            invariant
                nverts == self.verts@.len(),
                nverts == mid.len(),
                nverts == old(self).verts@.len(),
                mid_ps == spec_mid_positions(*old(self)),
                forall|v: int|
                    0 <= v < nverts ==> #[trigger] mid[v].pos == spec_mid_pos(*old(self), v),
                forall|v: int|
                    0 <= v < nverts ==> #[trigger] mid[v].speed == old(self).verts@[v].speed,
                forall|v: int|
                    0 <= v < nverts ==> #[trigger] mid[v].nbr_indices@ == old(
                        self,
                    ).verts@[v].nbr_indices@,
                1 <= nverts <= MAX_SIM_VERTS,
                avg@.len() == nverts,
                forall|v: int| 0 <= v < nverts ==> 0 <= #[trigger] avg@[v] <= 48_000_000,
                forall|v: int|
                    0 <= v < nverts ==> #[trigger] avg@[v] == spec_avg_closeness(
                        mid_ps,
                        mid[v].pos,
                    ),
                mid_ps == spec_positions(mid),
                initial >= 1,
                initial == self.initial_distance,
                self.plates@ == old(self).plates@,
                self.initial_distance == old(self).initial_distance,
                is_partition(self.plates@, nverts as int),
                forall|q: int|
                    0 <= q < self.plates@.len() ==> bounded(
                        #[trigger] self.plates@[q].move_axis,
                        SCALE as int,
                    ),
                forall|v: int| i <= v < nverts ==> #[trigger] self.verts@[v] == mid[v],
                forall|v: int|
                    0 <= v < i ==> #[trigger] self.verts@[v].pos == mid[v].pos
                        && self.verts@[v].nbr_indices@ == mid[v].nbr_indices@
                        && self.verts@[v].speed == spec_damped(
                        mid[v].speed as int,
                        spec_avg_closeness(mid_ps, mid[v].pos),
                        initial as int,
                    ),
                forall|v: int|
                    0 <= v < nverts ==> bounded(
                        #[trigger] self.verts@[v].pos,
                        SIM_COORD_LIMIT as int,
                    ),
                forall|v: int|
                    0 <= v < nverts ==> -SIM_SPEED_LIMIT <= #[trigger] self.verts@[v].speed
                        <= SIM_SPEED_LIMIT,
                forall|v: int, k: int|
                    0 <= v < nverts && 0 <= k < self.verts@[v].nbr_indices@.len()
                        ==> #[trigger] self.verts@[v].nbr_indices@[k] < nverts,
                i <= nverts,
            decreases nverts - i,
        {
            let scaled = tdiv128(avg[i] as i128 * 1_000_000, initial as i128);
            proof {
                crate::fixed::lemma_tdiv_bound(
                    avg@[i as int] as int * 1_000_000,
                    initial as int,
                    48_000_000_000_000,
                );
            }
            let factor: i128 = 1_000_000 - scaled;
            let speed = self.verts[i].speed;
            proof {
                crate::fixed::lemma_mul_le(
                    speed as int,
                    factor as int,
                    SIM_SPEED_LIMIT as int,
                    48_001_000_000_000,
                );
            }
            let damped = tdiv128(speed as i128 * factor, 1_000_000);
            proof {
                crate::fixed::lemma_tdiv_bound(
                    speed as int * factor as int,
                    1_000_000,
                    SIM_SPEED_LIMIT as int * 48_001_000_000_000,
                );
            }
            if damped < -(SIM_SPEED_LIMIT as i128) || damped > SIM_SPEED_LIMIT as i128 {
                proof {
                    assert(damped == spec_damped(
                        old(self).verts@[i as int].speed as int,
                        spec_avg_closeness(
                            spec_mid_positions(*old(self)),
                            spec_mid_pos(*old(self), i as int),
                        ),
                        old(self).initial_distance as int,
                    ));
                    assert(!step_in_bands(*old(self)));
                }
                proof {
                    assert forall|v: int|
                        0 <= v < nverts implies #[trigger] self.verts@[v].nbr_indices@ == old(
                        self,
                    ).verts@[v].nbr_indices@ by {
                        if v < i as int {
                            assert(self.verts@[v].pos == mid[v].pos);
                            assert(self.verts@[v].nbr_indices@ == mid[v].nbr_indices@);
                        } else {
                            assert(self.verts@[v] == mid[v]);
                        }
                    }
                }
                return Err(WorldError::NumericDegeneracy);
            }
            let ghost before = self.verts@;
            self.verts[i].speed = damped as i64;
            proof {
                assert forall|v: int|
                    0 <= v < i + 1 implies #[trigger] self.verts@[v].pos == mid[v].pos
                        && self.verts@[v].nbr_indices@ == mid[v].nbr_indices@
                        && self.verts@[v].speed == spec_damped(
                        mid[v].speed as int,
                        spec_avg_closeness(mid_ps, mid[v].pos),
                        initial as int,
                    ) by {
                    if v < i as int {
                        assert(self.verts@[v] == before[v]);
                        assert(before[v].pos == mid[v].pos && before[v].nbr_indices@
                            == mid[v].nbr_indices@ && before[v].speed == spec_damped(
                            mid[v].speed as int,
                            spec_avg_closeness(mid_ps, mid[v].pos),
                            initial as int,
                        ));
                    } else {
                        assert(self.verts@[v].pos == mid[v].pos);
                        assert(self.verts@[v].nbr_indices@ == mid[v].nbr_indices@);
                        assert(self.verts@[v].speed == spec_damped(
                            mid[v].speed as int,
                            spec_avg_closeness(mid_ps, mid[v].pos),
                            initial as int,
                        ));
                    }
                }
            }
            i += 1;
        }
        proof {
            assert forall|v: int|
                0 <= v < nverts implies bounded(
                #[trigger] spec_mid_pos(*old(self), v),
                SIM_COORD_LIMIT as int,
            ) by {
                assert(mid[v].pos == spec_mid_pos(*old(self), v));
                assert(bounded(self.verts@[v].pos, SIM_COORD_LIMIT as int));
                assert(self.verts@[v].pos == mid[v].pos);
            }
            assert forall|v: int|
                0 <= v < nverts implies -SIM_SPEED_LIMIT <= #[trigger] spec_damped(
                old(self).verts@[v].speed as int,
                spec_avg_closeness(
                    spec_mid_positions(*old(self)),
                    spec_mid_pos(*old(self), v),
                ),
                old(self).initial_distance as int,
            ) <= SIM_SPEED_LIMIT by {
                assert(self.verts@[v].pos == mid[v].pos);
                assert(self.verts@[v].speed == spec_damped(
                    mid[v].speed as int,
                    spec_avg_closeness(mid_ps, mid[v].pos),
                    initial as int,
                ));
                assert(mid[v].speed == old(self).verts@[v].speed);
                assert(mid[v].pos == spec_mid_pos(*old(self), v));
                assert(-SIM_SPEED_LIMIT <= self.verts@[v].speed <= SIM_SPEED_LIMIT);
            }
            assert(step_in_bands(*old(self)));
        }
        proof {
            let vs0 = old(self).verts@;
            let vs1 = self.verts@;
            assert forall|v: int| 0 <= v < vs0.len() implies #[trigger] vs1[v].nbr_indices@
                == vs0[v].nbr_indices@ by {
                assert(vs1[v].pos == mid[v].pos);
                assert(vs1[v].nbr_indices@ == mid[v].nbr_indices@);
                assert(mid[v].nbr_indices@ == vs0[v].nbr_indices@);
            }
            assert(spec_positions(vs1) =~= mid_ps) by {
                assert(forall|k: int|
                    0 <= k < vs1.len() ==> #[trigger] spec_positions(vs1)[k]
                        == spec_positions(mid)[k]);
            }
            assert forall|v: int| 0 <= v < vs0.len() implies #[trigger] vs1[v].speed
                == spec_damped(
                vs0[v].speed as int,
                spec_avg_closeness(spec_positions(vs1), vs1[v].pos),
                old(self).initial_distance as int,
            ) by {
                assert(vs1[v].pos == mid[v].pos);
                assert(mid[v].speed == vs0[v].speed);
            }
            assert forall|pq: int, j: int|
                0 <= pq < old(self).plates@.len() && 0 <= j < old(
                    self,
                ).plates@[pq].vertex_indices@.len() implies {
                let v = #[trigger] old(self).plates@[pq].vertex_indices@[j] as int;
                vs1[v].pos == spec_rotated(vs0[v], old(self).plates@[pq].move_axis)
            } by {
                let v = old(self).plates@[pq].vertex_indices@[j] as int;
                assert(slot_before(pq, j, self.plates@.len() as int, 0));
                assert(mid[v].pos == spec_rotated(vs0[v], old(self).plates@[pq].move_axis));
                assert(vs1[v].pos == mid[v].pos);
            }
        }
        Ok(())
    }

    /// Advance the simulation by `steps` sequential steps (each pinned by
    /// [`PlateSimulation::simulate_plates_step`]); no step is skipped or
    /// reordered, and zero steps leave the state untouched.
    pub fn simulate_plates(&mut self, steps: usize) -> (r: Result<(), WorldError>)
        requires
            sim_wf(*old(self)),
        ensures
            r is Ok ==> sim_wf(*final(self)),
            r is Ok ==> final(self).verts@.len() == old(self).verts@.len(),
            r is Ok ==> final(self).plates@ == old(self).plates@,
            r is Ok ==> final(self).initial_distance == old(self).initial_distance,
            r is Ok ==> steps_relation(*old(self), *final(self), steps as nat),
            steps == 0 ==> r is Ok && *final(self) == *old(self),
            r is Err ==> r == Err::<(), WorldError>(WorldError::NumericDegeneracy),
            final(self).verts@.len() == old(self).verts@.len(),
            final(self).plates@ == old(self).plates@,
            final(self).initial_distance == old(self).initial_distance,
            forall|v: int|
                0 <= v < final(self).verts@.len() ==> -SIM_SPEED_LIMIT
                    <= #[trigger] final(self).verts@[v].speed <= SIM_SPEED_LIMIT,
            forall|v: int|
                0 <= v < final(self).verts@.len() ==> bounded(
                    #[trigger] final(self).verts@[v].pos,
                    1_000_000_000,
                ),
    {
        if steps == 0 {
            proof {
                assert(steps_relation(*old(self), *self, 0));
            }
            return Ok(());
        }
        let mut k: usize = 0;
        while k < steps
            invariant
                steps > 0,
                sim_wf(*self),
                self.verts@.len() == old(self).verts@.len(),
                self.plates@ == old(self).plates@,
                self.initial_distance == old(self).initial_distance,
                steps_relation(*old(self), *self, k as nat),
                k <= steps,
            decreases steps - k,
        {
            let ghost cur = *self;
            match self.simulate_plates_step() {
                Ok(_) => {
                },
                Err(e) => {
                    return Err(WorldError::NumericDegeneracy);
                },
            }
            proof {
                assert(step_relation(cur, *self));
                assert(steps_relation(*old(self), *self, (k + 1) as nat));
            }
            k += 1;
        }
        Ok(())
    }
}

} // verus!
