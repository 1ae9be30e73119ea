//! Indexed triangle meshes on the unit sphere.
//!
//! A [`Polyhedron`] owns flat vectors of vertices, edges and faces that
//! reference each other by plain indices.  [`make_sphere`] builds the base
//! icosahedron and refines it onto the unit sphere, deduplicating shared
//! midpoints and edges through exact integer keys, so no two vertices of a
//! refined mesh hold the same position.

use vstd::prelude::*;

use crate::WorldError;
use crate::fixed::SCALE;
use crate::vec3::{Vec3, bounded};

verus! {

/// A mesh vertex: a position plus the indices of the edges and faces that
/// touch it.
#[derive(Clone, Debug)]
pub struct PolyVertex {
    pub pos: Vec3,
    pub edge_indices: Vec<usize>,
    pub face_indices: Vec<usize>,
}

/// An undirected edge: its two endpoint vertex indices and the indices of
/// the faces it borders.
#[derive(Clone, Debug)]
pub struct Edge {
    pub vertex_indices: [usize; 2],
    pub face_indices: Vec<usize>,
}

/// A triangle: three vertex indices and three edge indices, in winding
/// order.
#[derive(Clone, Debug)]
pub struct Face {
    pub vertex_indices: [usize; 3],
    pub edge_indices: [usize; 3],
}

/// An indexed triangle mesh.
#[derive(Clone, Debug)]
pub struct Polyhedron {
    pub vertices: Vec<PolyVertex>,
    pub edges: Vec<Edge>,
    pub faces: Vec<Face>,
}

impl Edge {
    /// An edge between two vertices, with no face adjacency yet.
    pub fn new(a_idx: usize, b_idx: usize) -> (e: Edge)
        ensures
            e.vertex_indices@ == seq![a_idx, b_idx],
            e.face_indices@ == Seq::<usize>::empty(),
    {
        Edge { vertex_indices: [a_idx, b_idx], face_indices: Vec::new() }
    }
}

impl Face {
    /// A triangle from three vertex indices and its three edge indices.
    pub fn new(
        a_vert_idx: usize,
        b_vert_idx: usize,
        c_vert_idx: usize,
        a_edge_idx: usize,
        b_edge_idx: usize,
        c_edge_idx: usize,
    ) -> (f: Face)
        ensures
            f.vertex_indices@ == seq![a_vert_idx, b_vert_idx, c_vert_idx],
            f.edge_indices@ == seq![a_edge_idx, b_edge_idx, c_edge_idx],
    {
        Face {
            vertex_indices: [a_vert_idx, b_vert_idx, c_vert_idx],
            edge_indices: [a_edge_idx, b_edge_idx, c_edge_idx],
        }
    }
}

/// The edge's endpoints are valid vertex indices.
pub open spec fn wf_edge(e: Edge, nv: int) -> bool {
    e.vertex_indices@[0] < nv && e.vertex_indices@[1] < nv
}

/// The face's vertex and edge indices are valid.
pub open spec fn wf_face(f: Face, nv: int, ne: int) -> bool {
    &&& f.vertex_indices@[0] < nv
    &&& f.vertex_indices@[1] < nv
    &&& f.vertex_indices@[2] < nv
    &&& f.edge_indices@[0] < ne
    &&& f.edge_indices@[1] < ne
    &&& f.edge_indices@[2] < ne
}

/// Structural well-formedness: every stored index is in range.
pub open spec fn wf(p: Polyhedron) -> bool {
    &&& forall|i: int|
        0 <= i < p.edges@.len() ==> wf_edge(#[trigger] p.edges@[i], p.vertices@.len() as int)
    &&& forall|i: int|
        0 <= i < p.faces@.len() ==> wf_face(
            #[trigger] p.faces@[i],
            p.vertices@.len() as int,
            p.edges@.len() as int,
        )
    &&& forall|v: int, j: int|
        0 <= v < p.vertices@.len() && 0 <= j < p.vertices@[v].edge_indices@.len()
            ==> #[trigger] p.vertices@[v].edge_indices@[j] < p.edges@.len()
    &&& forall|v: int, j: int|
        0 <= v < p.vertices@.len() && 0 <= j < p.vertices@[v].face_indices@.len()
            ==> #[trigger] p.vertices@[v].face_indices@[j] < p.faces@.len()
    &&& forall|e: int, j: int|
        0 <= e < p.edges@.len() && 0 <= j < p.edges@[e].face_indices@.len()
            ==> #[trigger] p.edges@[e].face_indices@[j] < p.faces@.len()
}

/// Every vertex position has components within `b`.
pub open spec fn coords_bounded(p: Polyhedron, b: int) -> bool {
    forall|i: int| 0 <= i < p.vertices@.len() ==> bounded(#[trigger] p.vertices@[i].pos, b)
}

/// No two vertices share a position (exact fixed-point equality).
pub open spec fn distinct_positions(p: Polyhedron) -> bool {
    forall|i: int, j: int|
        0 <= i < p.vertices@.len() && 0 <= j < p.vertices@.len() && i != j
            ==> #[trigger] p.vertices@[i].pos != #[trigger] p.vertices@[j].pos
}

/// The canonical form of an unordered index pair: smaller endpoint first.
pub open spec fn canon(a: usize, b: usize) -> (usize, usize) {
    if a <= b {
        (a, b)
    } else {
        (b, a)
    }
}

/// Every edge stores its endpoints in canonical order.
pub open spec fn edges_canonical(p: Polyhedron) -> bool {
    forall|e: int|
        0 <= e < p.edges@.len() ==> (#[trigger] p.edges@[e]).vertex_indices@[0]
            <= p.edges@[e].vertex_indices@[1]
}

/// No two edges share an endpoint pair (edges are deduplicated).
pub open spec fn edges_distinct(p: Polyhedron) -> bool {
    forall|e1: int, e2: int|
        0 <= e1 < p.edges@.len() && 0 <= e2 < p.edges@.len() && e1 != e2
            ==> #[trigger] p.edges@[e1].vertex_indices@ != #[trigger] p.edges@[e2].vertex_indices@
}

/// Every face's three edges connect its corners in winding order: edge `k`
/// joins corner `k` to the next corner, as a canonical pair.
pub open spec fn face_edges_connect(p: Polyhedron) -> bool {
    forall|f: int|
        0 <= f < p.faces@.len() ==> {
            let fc = #[trigger] p.faces@[f];
            &&& p.edges@[fc.edge_indices@[0] as int].vertex_indices@ == seq![
                canon(fc.vertex_indices@[0], fc.vertex_indices@[1]).0,
                canon(fc.vertex_indices@[0], fc.vertex_indices@[1]).1,
            ]
            &&& p.edges@[fc.edge_indices@[1] as int].vertex_indices@ == seq![
                canon(fc.vertex_indices@[1], fc.vertex_indices@[2]).0,
                canon(fc.vertex_indices@[1], fc.vertex_indices@[2]).1,
            ]
            &&& p.edges@[fc.edge_indices@[2] as int].vertex_indices@ == seq![
                canon(fc.vertex_indices@[2], fc.vertex_indices@[0]).0,
                canon(fc.vertex_indices@[2], fc.vertex_indices@[0]).1,
            ]
        }
}

/// Every face has three pairwise distinct corner indices.
pub open spec fn faces_proper(p: Polyhedron) -> bool {
    forall|f: int|
        0 <= f < p.faces@.len() ==> {
            let fc = #[trigger] p.faces@[f];
            &&& fc.vertex_indices@[0] != fc.vertex_indices@[1]
            &&& fc.vertex_indices@[1] != fc.vertex_indices@[2]
            &&& fc.vertex_indices@[2] != fc.vertex_indices@[0]
        }
}

/// Every stored pair is in canonical order.
pub open spec fn pairs_canonical(pairs: Seq<(usize, usize)>) -> bool {
    forall|i: int| 0 <= i < pairs.len() ==> (#[trigger] pairs[i]).0 <= pairs[i].1
}

/// A face's edge slots, as stored pairs, connect its corners in winding
/// order.
pub open spec fn face_pairs_connect(f: Face, pairs: Seq<(usize, usize)>) -> bool {
    &&& pairs[f.edge_indices@[0] as int] == canon(f.vertex_indices@[0], f.vertex_indices@[1])
    &&& pairs[f.edge_indices@[1] as int] == canon(f.vertex_indices@[1], f.vertex_indices@[2])
    &&& pairs[f.edge_indices@[2] as int] == canon(f.vertex_indices@[2], f.vertex_indices@[0])
}

/// Powers of four, for the face-count law of subdivision.
pub open spec fn pow4(k: nat) -> nat
    decreases k,
{
    if k == 0 {
        1
    } else {
        4 * pow4((k - 1) as nat)
    }
}

/// Euler's formula for a closed genus-0 surface.
pub open spec fn euler_formula_holds(p: Polyhedron) -> bool {
    p.vertices@.len() - p.edges@.len() + p.faces@.len() == 2
}

/// Every edge borders exactly two faces.
pub open spec fn closed_edges(p: Polyhedron) -> bool {
    forall|i: int| 0 <= i < p.edges@.len() ==> #[trigger] p.edges@[i].face_indices@.len() == 2
}

/// Runtime check of Euler's formula (`V - E + F == 2`).
pub fn check_euler_formula(p: &Polyhedron) -> (r: bool)
    ensures
        r == euler_formula_holds(*p),
{
    let v = p.vertices.len() as u128;
    let e = p.edges.len() as u128;
    let f = p.faces.len() as u128;
    v + f >= e && v + f - e == 2
}

/// Runtime check that every edge borders exactly two faces.
pub fn check_closed_edges(p: &Polyhedron) -> (r: bool)
    ensures
        r == closed_edges(*p),
{
    let mut i: usize = 0;
    while i < p.edges.len()
        invariant
            i <= p.edges@.len(),
            forall|j: int| 0 <= j < i ==> #[trigger] p.edges@[j].face_indices@.len() == 2,
        decreases p.edges@.len() - i,
    {
        if p.edges[i].face_indices.len() != 2 {
            return false;
        }
        i += 1;
    }
    true
}

/// Runtime check that no two vertices share a position.
pub fn check_distinct_positions(p: &Polyhedron) -> (r: bool)
    ensures
        r == distinct_positions(*p),
{
    let n = p.vertices.len();
    let mut i: usize = 0;
    while i < n
        invariant
            n == p.vertices@.len(),
            i <= n,
            forall|a: int, b: int|
                0 <= a < i && 0 <= b < n && a != b ==> #[trigger] p.vertices@[a].pos
                    != #[trigger] p.vertices@[b].pos,
        decreases n - i,
    {
        let mut j: usize = i + 1;
        while j < n
            invariant
                n == p.vertices@.len(),
                i < j <= n,
                forall|b: int| i < b < j ==> #[trigger] p.vertices@[b].pos != p.vertices@[i as int].pos,
            decreases n - j,
        {
            if p.vertices[i].pos == p.vertices[j].pos {
                return false;
            }
            j += 1;
        }
        proof {
            assert(forall|b: int|
                0 <= b < n && b != i ==> #[trigger] p.vertices@[b].pos != p.vertices@[i as int].pos);
        }
        i += 1;
    }
    true
}

/// A key sequence holds a value somewhere.
pub open spec fn contains_key(s: Seq<u128>, v: u128) -> bool {
    exists|j: int| 0 <= j < s.len() && s[j] == v
}

/// All keys are pairwise distinct.
pub open spec fn distinct_keys(s: Seq<u128>) -> bool {
    forall|i: int, j: int| 0 <= i < s.len() && 0 <= j < s.len() && i != j ==> s[i] != s[j]
}

/// Look a key up in insertion order; append it if it is new.  Returns the
/// key's index, which is stable across later calls.
pub fn get_or_create(map: &mut Vec<u128>, val: u128) -> (idx: usize)
    ensures
        idx < final(map)@.len(),
        final(map)@[idx as int] == val,
        contains_key(old(map)@, val) ==> final(map)@ == old(map)@,
        !contains_key(old(map)@, val) ==> final(map)@ == old(map)@.push(val) && idx == old(
            map,
        )@.len(),
        distinct_keys(old(map)@) ==> distinct_keys(final(map)@),
        old(map)@.len() <= final(map)@.len(),
        forall|j: int| 0 <= j < old(map)@.len() ==> final(map)@[j] == old(map)@[j],
{
    let n = map.len();
    let mut i: usize = 0;
    while i < n
        invariant
            n == map@.len(),
            i <= n,
            forall|j: int| 0 <= j < i ==> map@[j] != val,
        decreases n - i,
    {
        if map[i] == val {
            return i;
        }
        i += 1;
    }
    map.push(val);
    n
}

/// The exact integer encoding of a position used as a deduplication key:
/// three offset coordinates as base-2^42 digits.
pub open spec fn spec_pack(v: Vec3) -> int {
    (v.x + 2_199_023_255_552) * 19_342_813_113_834_066_795_298_816 + (v.y + 2_199_023_255_552)
        * 4_398_046_511_104 + (v.z + 2_199_023_255_552)
}

/// Pack a position into its deduplication key.
fn pack_key(v: &Vec3) -> (r: u128)
    requires
        bounded(*v, 2_000_000_000),
    ensures
        r == spec_pack(*v),
{
    ((v.x + 2_199_023_255_552) as u128) * 19_342_813_113_834_066_795_298_816 + ((v.y
        + 2_199_023_255_552) as u128) * 4_398_046_511_104 + ((v.z + 2_199_023_255_552) as u128)
}

/// The key encoding is injective on bounded positions: equal keys mean equal
/// positions.
#[verifier::spinoff_prover]
pub proof fn lemma_pack_injective(a: Vec3, b: Vec3)
    requires
        bounded(a, 2_000_000_000),
        bounded(b, 2_000_000_000),
        spec_pack(a) == spec_pack(b),
    ensures
        a == b,
{
}

/// Key and position vectors grow in lockstep: entry `i` of the keys is the
/// packed entry `i` of the positions.
pub open spec fn parallel_keyed(keys: Seq<u128>, positions: Seq<Vec3>) -> bool {
    &&& keys.len() == positions.len()
    &&& forall|i: int| 0 <= i < keys.len() ==> keys[i] == spec_pack(#[trigger] positions[i])
}

/// Deduplicating insert of a position: returns the index of the unique entry
/// holding this position.
fn intern_vertex(keys: &mut Vec<u128>, positions: &mut Vec<Vec3>, pos: Vec3) -> (idx: usize)
    requires
        parallel_keyed(old(keys)@, old(positions)@),
        distinct_keys(old(keys)@),
        bounded(pos, 2_000_000_000),
        forall|i: int|
            0 <= i < old(positions)@.len() ==> bounded(#[trigger] old(positions)@[i], 2_000_000_000),
    ensures
        forall|i: int|
            0 <= i < final(positions)@.len() ==> bounded(
                #[trigger] final(positions)@[i],
                2_000_000_000,
            ),
        parallel_keyed(final(keys)@, final(positions)@),
        distinct_keys(final(keys)@),
        idx < final(positions)@.len(),
        final(positions)@[idx as int] == pos,
        final(positions)@ == old(positions)@ || final(positions)@ == old(positions)@.push(pos),
        old(positions)@.len() <= final(positions)@.len(),
        forall|j: int|
            0 <= j < old(positions)@.len() ==> final(positions)@[j] == old(positions)@[j],
{
    let key = pack_key(&pos);
    let idx = get_or_create(keys, key);
    if idx == positions.len() {
        positions.push(pos);
    } else {
        proof {
            lemma_pack_injective(positions@[idx as int], pos);
        }
    }
    idx
}

/// The exact integer encoding of a canonical vertex-index pair used as an
/// edge deduplication key.
pub open spec fn spec_pack_pair(a: int, b: int) -> int {
    a * 18_446_744_073_709_551_616 + b
}

/// Key and pair vectors grow in lockstep: entry `i` of the keys is the
/// packed entry `i` of the pairs.
pub open spec fn pair_keyed(keys: Seq<u128>, pairs: Seq<(usize, usize)>) -> bool {
    &&& keys.len() == pairs.len()
    &&& forall|i: int|
        0 <= i < keys.len() ==> keys[i] == spec_pack_pair(
            (#[trigger] pairs[i]).0 as int,
            pairs[i].1 as int,
        )
}

/// The pair encoding is injective: equal keys mean equal pairs.
pub proof fn lemma_pack_pair_injective(a1: usize, b1: usize, a2: usize, b2: usize)
    requires
        spec_pack_pair(a1 as int, b1 as int) == spec_pack_pair(a2 as int, b2 as int),
    ensures
        a1 == a2 && b1 == b2,
{
}

/// Deduplicating insert of a canonical edge (vertex-index pair).
fn intern_edge(keys: &mut Vec<u128>, pairs: &mut Vec<(usize, usize)>, a: usize, b: usize) -> (idx:
    usize)
    requires
        pair_keyed(old(keys)@, old(pairs)@),
        distinct_keys(old(keys)@),
    ensures
        pair_keyed(final(keys)@, final(pairs)@),
        distinct_keys(final(keys)@),
        final(keys)@.len() == final(pairs)@.len(),
        idx < final(pairs)@.len(),
        final(pairs)@[idx as int] == (a, b),
        final(pairs)@ == old(pairs)@ || final(pairs)@ == old(pairs)@.push((a, b)),
        old(pairs)@.len() <= final(pairs)@.len(),
        forall|j: int| 0 <= j < old(pairs)@.len() ==> final(pairs)@[j] == old(pairs)@[j],
{
    let key: u128 = (a as u128) * 18_446_744_073_709_551_616 + (b as u128);
    let idx = get_or_create(keys, key);
    if idx == pairs.len() {
        pairs.push((a, b));
    } else {
        proof {
            lemma_pack_pair_injective(pairs@[idx as int].0, pairs@[idx as int].1, a, b);
            assert(pairs@[idx as int] == (a, b));
        }
    }
    idx
}

/// An edge touches the vertex with this index.
pub open spec fn edge_has_vertex(e: Edge, v: int) -> bool {
    e.vertex_indices@[0] == v || e.vertex_indices@[1] == v
}

/// A face touches the vertex with this index.
pub open spec fn face_has_vertex(f: Face, v: int) -> bool {
    f.vertex_indices@[0] == v || f.vertex_indices@[1] == v || f.vertex_indices@[2] == v
}

/// A face borders the edge with this index.
pub open spec fn face_has_edge(f: Face, e: int) -> bool {
    f.edge_indices@[0] == e || f.edge_indices@[1] == e || f.edge_indices@[2] == e
}

/// An index list holds the value `x` somewhere.
pub open spec fn list_has(s: Seq<usize>, x: int) -> bool {
    exists|j: int| 0 <= j < s.len() && s[j] == x
}

/// An index list is strictly ascending.
pub open spec fn list_ascending(s: Seq<usize>) -> bool {
    forall|j1: int, j2: int| 0 <= j1 < j2 < s.len() ==> s[j1] < s[j2]
}

/// The adjacency lists are complete, exact and ascending: every vertex's
/// edge and face lists hold exactly the indices of the edges and faces that
/// touch it, in ascending order, and every edge's face list holds exactly
/// its bordering faces, in ascending order.
pub open spec fn adjacency_complete(p: Polyhedron) -> bool {
    &&& forall|v: int, e: int|
        0 <= v < p.vertices@.len() && 0 <= e < p.edges@.len() && edge_has_vertex(
            #[trigger] p.edges@[e],
            v,
        ) ==> list_has(#[trigger] p.vertices@[v].edge_indices@, e)
    &&& forall|v: int, f: int|
        0 <= v < p.vertices@.len() && 0 <= f < p.faces@.len() && face_has_vertex(
            #[trigger] p.faces@[f],
            v,
        ) ==> list_has(#[trigger] p.vertices@[v].face_indices@, f)
    &&& forall|e: int, f: int|
        0 <= e < p.edges@.len() && 0 <= f < p.faces@.len() && face_has_edge(
            #[trigger] p.faces@[f],
            e,
        ) ==> list_has(#[trigger] p.edges@[e].face_indices@, f)
    &&& forall|v: int, j: int|
        0 <= v < p.vertices@.len() && 0 <= j < p.vertices@[v].face_indices@.len()
            ==> face_has_vertex(
            p.faces@[#[trigger] p.vertices@[v].face_indices@[j] as int],
            v,
        )
    &&& forall|e: int, j: int|
        0 <= e < p.edges@.len() && 0 <= j < p.edges@[e].face_indices@.len() ==> face_has_edge(
            p.faces@[#[trigger] p.edges@[e].face_indices@[j] as int],
            e,
        )
    &&& forall|v: int|
        0 <= v < p.vertices@.len() ==> list_ascending(#[trigger] p.vertices@[v].edge_indices@)
    &&& forall|v: int|
        0 <= v < p.vertices@.len() ==> list_ascending(#[trigger] p.vertices@[v].face_indices@)
    &&& forall|e: int|
        0 <= e < p.edges@.len() ==> list_ascending(#[trigger] p.edges@[e].face_indices@)
}

/// Every entry of every vertex's edge list is an edge that really touches
/// that vertex.
pub open spec fn vertex_edges_sound(p: Polyhedron) -> bool {
    forall|v: int, j: int|
        0 <= v < p.vertices@.len() && 0 <= j < p.vertices@[v].edge_indices@.len() ==> {
            let e = #[trigger] p.vertices@[v].edge_indices@[j];
            e < p.edges@.len() && edge_has_vertex(p.edges@[e as int], v)
        }
}

/// Fill in all adjacency lists of a mesh whose vertices, edges and faces are
/// already in place: each vertex learns its incident edges and faces, each
/// edge its bordering faces, all in index order.
#[verifier::rlimit(100)]
#[verifier::spinoff_prover]
fn populate_adjacency(p: Polyhedron) -> (r: Polyhedron)
    requires
        forall|i: int|
            0 <= i < p.edges@.len() ==> wf_edge(#[trigger] p.edges@[i], p.vertices@.len() as int),
        forall|i: int|
            0 <= i < p.faces@.len() ==> wf_face(
                #[trigger] p.faces@[i],
                p.vertices@.len() as int,
                p.edges@.len() as int,
            ),
    ensures
        wf(r),
        vertex_edges_sound(r),
        adjacency_complete(r),
        r.vertices@.len() == p.vertices@.len(),
        r.edges@.len() == p.edges@.len(),
        r.faces@ == p.faces@,
        forall|i: int|
            0 <= i < p.vertices@.len() ==> #[trigger] r.vertices@[i].pos == p.vertices@[i].pos,
        forall|i: int|
            0 <= i < p.edges@.len() ==> #[trigger] r.edges@[i].vertex_indices@
                == p.edges@[i].vertex_indices@,
{
    let nv = p.vertices.len();
    let ne = p.edges.len();
    let nf = p.faces.len();
    let mut vertices: Vec<PolyVertex> = Vec::new();
    let mut v: usize = 0;
    while v < nv
        invariant
            nv == p.vertices@.len(),
            ne == p.edges@.len(),
            nf == p.faces@.len(),
            forall|i: int|
                0 <= i < p.edges@.len() ==> wf_edge(
                    #[trigger] p.edges@[i],
                    p.vertices@.len() as int,
                ),
            forall|i: int|
                0 <= i < p.faces@.len() ==> wf_face(
                    #[trigger] p.faces@[i],
                    p.vertices@.len() as int,
                    p.edges@.len() as int,
                ),
            v <= nv,
            vertices@.len() == v,
            forall|i: int| 0 <= i < v ==> #[trigger] vertices@[i].pos == p.vertices@[i].pos,
            forall|i: int, j: int|
                0 <= i < v && 0 <= j < vertices@[i].edge_indices@.len() ==> {
                    let e = #[trigger] vertices@[i].edge_indices@[j];
                    e < ne && edge_has_vertex(p.edges@[e as int], i)
                },
            forall|i: int, j: int|
                0 <= i < v && 0 <= j < vertices@[i].face_indices@.len() ==> {
                    let f = #[trigger] vertices@[i].face_indices@[j];
                    f < nf && face_has_vertex(p.faces@[f as int], i)
                },
            forall|i: int, e: int|
                0 <= i < v && 0 <= e < ne && edge_has_vertex(#[trigger] p.edges@[e], i)
                    ==> list_has(#[trigger] vertices@[i].edge_indices@, e),
            forall|i: int, f: int|
                0 <= i < v && 0 <= f < nf && face_has_vertex(#[trigger] p.faces@[f], i)
                    ==> list_has(#[trigger] vertices@[i].face_indices@, f),
            forall|i: int|
                0 <= i < v ==> list_ascending(#[trigger] vertices@[i].edge_indices@),
            forall|i: int|
                0 <= i < v ==> list_ascending(#[trigger] vertices@[i].face_indices@),
        decreases nv - v,
    {
        let mut eidx: Vec<usize> = Vec::new();
        let mut e: usize = 0;
        while e < ne
            invariant
                ne == p.edges@.len(),
                nv == p.vertices@.len(),
                v < nv,
                e <= ne,
                forall|j: int|
                    0 <= j < eidx@.len() ==> {
                        let k = #[trigger] eidx@[j];
                        k < ne && edge_has_vertex(p.edges@[k as int], v as int)
                    },
                forall|j: int| 0 <= j < eidx@.len() ==> #[trigger] eidx@[j] < e,
                list_ascending(eidx@),
                forall|e2: int|
                    0 <= e2 < e && edge_has_vertex(#[trigger] p.edges@[e2], v as int)
                        ==> list_has(eidx@, e2),
            decreases ne - e,
        {
            if p.edges[e].vertex_indices[0] == v || p.edges[e].vertex_indices[1] == v {
                let ghost pre = eidx@;
                eidx.push(e);
                proof {
                    assert(eidx@[pre.len() as int] == e);
                    assert forall|e2: int|
                        0 <= e2 < e + 1 && edge_has_vertex(#[trigger] p.edges@[e2], v as int)
                            implies list_has(eidx@, e2) by {
                        if e2 < e as int {
                            let j = choose|j: int| 0 <= j < pre.len() && pre[j] == e2;
                            assert(eidx@[j] == e2);
                        }
                    }
                }
            }
            e += 1;
        }
        let mut fidx: Vec<usize> = Vec::new();
        let mut f: usize = 0;
        while f < nf
            invariant
                nf == p.faces@.len(),
                nv == p.vertices@.len(),
                v < nv,
                f <= nf,
                forall|j: int|
                    0 <= j < fidx@.len() ==> {
                        let k = #[trigger] fidx@[j];
                        k < nf && face_has_vertex(p.faces@[k as int], v as int)
                    },
                forall|j: int| 0 <= j < fidx@.len() ==> #[trigger] fidx@[j] < f,
                list_ascending(fidx@),
                forall|f2: int|
                    0 <= f2 < f && face_has_vertex(#[trigger] p.faces@[f2], v as int)
                        ==> list_has(fidx@, f2),
            decreases nf - f,
        {
            if p.faces[f].vertex_indices[0] == v || p.faces[f].vertex_indices[1] == v
                || p.faces[f].vertex_indices[2] == v {
                let ghost pre = fidx@;
                fidx.push(f);
                proof {
                    assert(fidx@[pre.len() as int] == f);
                    assert forall|f2: int|
                        0 <= f2 < f + 1 && face_has_vertex(#[trigger] p.faces@[f2], v as int)
                            implies list_has(fidx@, f2) by {
                        if f2 < f as int {
                            let j = choose|j: int| 0 <= j < pre.len() && pre[j] == f2;
                            assert(fidx@[j] == f2);
                        }
                    }
                }
            }
            f += 1;
        }
        let ghost eidx_view = eidx@;
        let ghost fidx_view = fidx@;
        let ghost pre_verts = vertices@;
        vertices.push(
            PolyVertex { pos: p.vertices[v].pos, edge_indices: eidx, face_indices: fidx },
        );
        proof {
            assert(vertices@[v as int].edge_indices@ == eidx_view);
            assert(vertices@[v as int].face_indices@ == fidx_view);
            assert forall|i: int, j: int|
                0 <= i < v + 1 && 0 <= j < vertices@[i].edge_indices@.len() implies {
                let e2 = #[trigger] vertices@[i].edge_indices@[j];
                e2 < ne && edge_has_vertex(p.edges@[e2 as int], i)
            } by {
                if i < v as int {
                    assert(vertices@[i] == pre_verts[i]);
                }
            }
            assert forall|i: int, j: int|
                0 <= i < v + 1 && 0 <= j < vertices@[i].face_indices@.len() implies {
                let f2 = #[trigger] vertices@[i].face_indices@[j];
                f2 < nf && face_has_vertex(p.faces@[f2 as int], i)
            } by {
                if i < v as int {
                    assert(vertices@[i] == pre_verts[i]);
                }
            }
            assert forall|i: int, e2: int|
                0 <= i < v + 1 && 0 <= e2 < ne && edge_has_vertex(#[trigger] p.edges@[e2], i)
                    implies list_has(#[trigger] vertices@[i].edge_indices@, e2) by {
                if i < v as int {
                    assert(vertices@[i] == pre_verts[i]);
                    assert(list_has(pre_verts[i].edge_indices@, e2));
                } else {
                    assert(list_has(eidx_view, e2));
                }
            }
            assert forall|i: int, f2: int|
                0 <= i < v + 1 && 0 <= f2 < nf && face_has_vertex(#[trigger] p.faces@[f2], i)
                    implies list_has(#[trigger] vertices@[i].face_indices@, f2) by {
                if i < v as int {
                    assert(vertices@[i] == pre_verts[i]);
                    assert(list_has(pre_verts[i].face_indices@, f2));
                } else {
                    assert(list_has(fidx_view, f2));
                }
            }
            assert forall|i: int|
                0 <= i < v + 1 implies list_ascending(
                #[trigger] vertices@[i].edge_indices@,
            ) by {
                if i < v as int {
                    assert(vertices@[i] == pre_verts[i]);
                }
            }
            assert forall|i: int|
                0 <= i < v + 1 implies list_ascending(
                #[trigger] vertices@[i].face_indices@,
            ) by {
                if i < v as int {
                    assert(vertices@[i] == pre_verts[i]);
                }
            }
        }
        v += 1;
    }
    let mut edges: Vec<Edge> = Vec::new();
    let mut e: usize = 0;
    while e < ne
        invariant
            ne == p.edges@.len(),
            nv == p.vertices@.len(),
            nf == p.faces@.len(),
            forall|i: int|
                0 <= i < p.edges@.len() ==> wf_edge(
                    #[trigger] p.edges@[i],
                    p.vertices@.len() as int,
                ),
            e <= ne,
            edges@.len() == e,
            forall|i: int|
                0 <= i < e ==> #[trigger] edges@[i].vertex_indices@
                    == p.edges@[i].vertex_indices@,
            forall|i: int, j: int|
                0 <= i < e && 0 <= j < edges@[i].face_indices@.len() ==> {
                    let f = #[trigger] edges@[i].face_indices@[j];
                    f < nf && face_has_edge(p.faces@[f as int], i)
                },
            forall|i: int, f: int|
                0 <= i < e && 0 <= f < nf && face_has_edge(#[trigger] p.faces@[f], i)
                    ==> list_has(#[trigger] edges@[i].face_indices@, f),
            forall|i: int| 0 <= i < e ==> list_ascending(#[trigger] edges@[i].face_indices@),
        decreases ne - e,
    {
        let mut fidx: Vec<usize> = Vec::new();
        let mut f: usize = 0;
        while f < nf
            invariant
                nf == p.faces@.len(),
                ne == p.edges@.len(),
                e < ne,
                f <= nf,
                forall|j: int|
                    0 <= j < fidx@.len() ==> {
                        let k = #[trigger] fidx@[j];
                        k < nf && face_has_edge(p.faces@[k as int], e as int)
                    },
                forall|j: int| 0 <= j < fidx@.len() ==> #[trigger] fidx@[j] < f,
                list_ascending(fidx@),
                forall|f2: int|
                    0 <= f2 < f && face_has_edge(#[trigger] p.faces@[f2], e as int)
                        ==> list_has(fidx@, f2),
            decreases nf - f,
        {
            if p.faces[f].edge_indices[0] == e || p.faces[f].edge_indices[1] == e
                || p.faces[f].edge_indices[2] == e {
                let ghost pre = fidx@;
                fidx.push(f);
                proof {
                    assert(fidx@[pre.len() as int] == f);
                    assert forall|f2: int|
                        0 <= f2 < f + 1 && face_has_edge(#[trigger] p.faces@[f2], e as int)
                            implies list_has(fidx@, f2) by {
                        if f2 < f as int {
                            let j = choose|j: int| 0 <= j < pre.len() && pre[j] == f2;
                            assert(fidx@[j] == f2);
                        }
                    }
                }
            }
            f += 1;
        }
        let a = p.edges[e].vertex_indices[0];
        let b = p.edges[e].vertex_indices[1];
        edges.push(Edge { vertex_indices: [a, b], face_indices: fidx });
        proof {
            assert(edges@[e as int].vertex_indices@ =~= p.edges@[e as int].vertex_indices@);
        }
        e += 1;
    }
    let r = Polyhedron { vertices, edges, faces: p.faces };
    proof {
        assert forall|v2: int, e2: int|
            0 <= v2 < r.vertices@.len() && 0 <= e2 < r.edges@.len() && edge_has_vertex(
                #[trigger] r.edges@[e2],
                v2,
            ) implies list_has(#[trigger] r.vertices@[v2].edge_indices@, e2) by {
            assert(r.edges@[e2].vertex_indices@ == p.edges@[e2].vertex_indices@);
            assert(edge_has_vertex(p.edges@[e2], v2));
        }
    }
    r
}

/// The twelve golden-ratio vertex positions of the unit icosahedron, in
/// fixed point: every coordinate is 0, du or dv up to sign, with
/// du = 525731 and dv = 850651 (du^2 + dv^2 is one within fixed-point
/// rounding).
#[verifier::opaque]
pub open spec fn icosa_positions() -> Seq<Vec3> {
    seq![
        Vec3 { x: 0, y: 850651, z: 525731 },
        Vec3 { x: 0, y: 850651, z: (-525731) as i64 },
        Vec3 { x: 0, y: (-850651) as i64, z: 525731 },
        Vec3 { x: 0, y: (-850651) as i64, z: (-525731) as i64 },
        Vec3 { x: 525731, y: 0, z: 850651 },
        Vec3 { x: (-525731) as i64, y: 0, z: 850651 },
        Vec3 { x: 525731, y: 0, z: (-850651) as i64 },
        Vec3 { x: (-525731) as i64, y: 0, z: (-850651) as i64 },
        Vec3 { x: 850651, y: 525731, z: 0 },
        Vec3 { x: 850651, y: (-525731) as i64, z: 0 },
        Vec3 { x: (-850651) as i64, y: 525731, z: 0 },
        Vec3 { x: (-850651) as i64, y: (-525731) as i64, z: 0 },
    ]
}

/// The thirty fixed edges of the icosahedron, as canonical vertex pairs.
#[verifier::opaque]
pub open spec fn icosa_edges() -> Seq<(usize, usize)> {
    seq![
        (0usize, 1usize), (0usize, 4usize), (0usize, 5usize), (0usize, 8usize),
        (0usize, 10usize), (1usize, 6usize), (1usize, 7usize), (1usize, 8usize),
        (1usize, 10usize), (2usize, 3usize), (2usize, 4usize), (2usize, 5usize),
        (2usize, 9usize), (2usize, 11usize), (3usize, 6usize), (3usize, 7usize),
        (3usize, 9usize), (3usize, 11usize), (4usize, 5usize), (4usize, 8usize),
        (4usize, 9usize), (5usize, 10usize), (5usize, 11usize), (6usize, 7usize),
        (6usize, 8usize), (6usize, 9usize), (7usize, 10usize), (7usize, 11usize),
        (8usize, 9usize), (10usize, 11usize),
    ]
}

/// The twenty fixed faces of the icosahedron: three vertex indices and
/// three edge indices each, in winding order.
#[verifier::opaque]
pub open spec fn icosa_faces() -> Seq<(usize, usize, usize, usize, usize, usize)> {
    seq![
        (0usize, 1usize, 8usize, 0usize, 7usize, 3usize),
        (0usize, 4usize, 5usize, 1usize, 18usize, 2usize),
        (0usize, 5usize, 10usize, 2usize, 21usize, 4usize),
        (0usize, 8usize, 4usize, 3usize, 19usize, 1usize),
        (0usize, 10usize, 1usize, 4usize, 8usize, 0usize),
        (1usize, 6usize, 8usize, 5usize, 24usize, 7usize),
        (1usize, 7usize, 6usize, 6usize, 23usize, 5usize),
        (1usize, 10usize, 7usize, 8usize, 26usize, 6usize),
        (2usize, 3usize, 11usize, 9usize, 17usize, 13usize),
        (2usize, 4usize, 9usize, 10usize, 20usize, 12usize),
        (2usize, 5usize, 4usize, 11usize, 18usize, 10usize),
        (2usize, 9usize, 3usize, 12usize, 16usize, 9usize),
        (2usize, 11usize, 5usize, 13usize, 22usize, 11usize),
        (3usize, 6usize, 7usize, 14usize, 23usize, 15usize),
        (3usize, 7usize, 11usize, 15usize, 27usize, 17usize),
        (3usize, 9usize, 6usize, 16usize, 25usize, 14usize),
        (4usize, 8usize, 9usize, 19usize, 28usize, 20usize),
        (5usize, 11usize, 10usize, 22usize, 29usize, 21usize),
        (6usize, 9usize, 8usize, 25usize, 28usize, 24usize),
        (7usize, 10usize, 11usize, 26usize, 29usize, 27usize),
    ]
}

/// Build the canonical icosahedron: the twelve golden-ratio vertices of
/// [`icosa_positions`], the thirty edges of [`icosa_edges`] and the twenty
/// faces of [`icosa_faces`], with all adjacency lists populated.
#[verifier::rlimit(100)]
#[verifier::spinoff_prover]
pub fn make_icosahedron() -> (p: Polyhedron)
    ensures
        wf(p),
        vertex_edges_sound(p),
        adjacency_complete(p),
        edges_canonical(p),
        edges_distinct(p),
        face_edges_connect(p),
        faces_proper(p),
        coords_bounded(p, SCALE as int),
        p.vertices@.len() == 12,
        p.edges@.len() == 30,
        p.faces@.len() == 20,
        forall|i: int| 0 <= i < 12 ==> #[trigger] p.vertices@[i].pos == icosa_positions()[i],
        forall|i: int|
            0 <= i < 30 ==> #[trigger] p.edges@[i].vertex_indices@ == seq![
                icosa_edges()[i].0,
                icosa_edges()[i].1,
            ],
        forall|i: int|
            0 <= i < 20 ==> #[trigger] p.faces@[i].vertex_indices@ == seq![
                icosa_faces()[i].0,
                icosa_faces()[i].1,
                icosa_faces()[i].2,
            ] && p.faces@[i].edge_indices@ == seq![
                icosa_faces()[i].3,
                icosa_faces()[i].4,
                icosa_faces()[i].5,
            ],
{
    // One over the norm of (1, phi), and phi times it, in fixed point:
    // the two coordinate magnitudes of an icosahedron inscribed in the
    // unit sphere.
    let du: i64 = 525_731;
    let dv: i64 = 850_651;
    let nu: i64 = -525_731;
    let nv: i64 = -850_651;
    let vertices: Vec<PolyVertex> = vec![
        bare_vertex(0, dv, du),
        bare_vertex(0, dv, nu),
        bare_vertex(0, nv, du),
        bare_vertex(0, nv, nu),
        bare_vertex(du, 0, dv),
        bare_vertex(nu, 0, dv),
        bare_vertex(du, 0, nv),
        bare_vertex(nu, 0, nv),
        bare_vertex(dv, du, 0),
        bare_vertex(dv, nu, 0),
        bare_vertex(nv, du, 0),
        bare_vertex(nv, nu, 0),
    ];
    let edges: Vec<Edge> = vec![
        Edge::new(0, 1),
        Edge::new(0, 4),
        Edge::new(0, 5),
        Edge::new(0, 8),
        Edge::new(0, 10),
        Edge::new(1, 6),
        Edge::new(1, 7),
        Edge::new(1, 8),
        Edge::new(1, 10),
        Edge::new(2, 3),
        Edge::new(2, 4),
        Edge::new(2, 5),
        Edge::new(2, 9),
        Edge::new(2, 11),
        Edge::new(3, 6),
        Edge::new(3, 7),
        Edge::new(3, 9),
        Edge::new(3, 11),
        Edge::new(4, 5),
        Edge::new(4, 8),
        Edge::new(4, 9),
        Edge::new(5, 10),
        Edge::new(5, 11),
        Edge::new(6, 7),
        Edge::new(6, 8),
        Edge::new(6, 9),
        Edge::new(7, 10),
        Edge::new(7, 11),
        Edge::new(8, 9),
        Edge::new(10, 11),
    ];
    let faces: Vec<Face> = vec![
        Face::new(0, 1, 8, 0, 7, 3),
        Face::new(0, 4, 5, 1, 18, 2),
        Face::new(0, 5, 10, 2, 21, 4),
        Face::new(0, 8, 4, 3, 19, 1),
        Face::new(0, 10, 1, 4, 8, 0),
        Face::new(1, 6, 8, 5, 24, 7),
        Face::new(1, 7, 6, 6, 23, 5),
        Face::new(1, 10, 7, 8, 26, 6),
        Face::new(2, 3, 11, 9, 17, 13),
        Face::new(2, 4, 9, 10, 20, 12),
        Face::new(2, 5, 4, 11, 18, 10),
        Face::new(2, 9, 3, 12, 16, 9),
        Face::new(2, 11, 5, 13, 22, 11),
        Face::new(3, 6, 7, 14, 23, 15),
        Face::new(3, 7, 11, 15, 27, 17),
        Face::new(3, 9, 6, 16, 25, 14),
        Face::new(4, 8, 9, 19, 28, 20),
        Face::new(5, 11, 10, 22, 29, 21),
        Face::new(6, 9, 8, 25, 28, 24),
        Face::new(7, 10, 11, 26, 29, 27),
    ];
    let base = Polyhedron { vertices, edges, faces };
    proof {
        reveal(icosa_positions);
        reveal(icosa_edges);
        reveal(icosa_faces);
        assert(forall|i: int|
            0 <= i < 12 ==> #[trigger] base.vertices@[i].pos == icosa_positions()[i]);
        assert(forall|i: int|
            0 <= i < 30 ==> #[trigger] base.edges@[i].vertex_indices@ == seq![
                icosa_edges()[i].0,
                icosa_edges()[i].1,
            ]);
        assert(forall|i: int|
            0 <= i < 20 ==> #[trigger] base.faces@[i].vertex_indices@ == seq![
                icosa_faces()[i].0,
                icosa_faces()[i].1,
                icosa_faces()[i].2,
            ] && base.faces@[i].edge_indices@ == seq![
                icosa_faces()[i].3,
                icosa_faces()[i].4,
                icosa_faces()[i].5,
            ]);
        assert(edges_canonical(base));
        assert(edges_distinct(base));
        assert(face_edges_connect(base));
        assert(faces_proper(base));
    }
    let r = populate_adjacency(base);
    proof {
        assert(faces_proper(r)) by {
            assert(r.faces@ == base.faces@);
        }
        assert forall|e: int|
            0 <= e < r.edges@.len() implies (#[trigger] r.edges@[e]).vertex_indices@[0]
                <= r.edges@[e].vertex_indices@[1] by {
            assert(r.edges@[e].vertex_indices@ == base.edges@[e].vertex_indices@);
        }
        assert forall|e1: int, e2: int|
            0 <= e1 < r.edges@.len() && 0 <= e2 < r.edges@.len() && e1 != e2
                implies #[trigger] r.edges@[e1].vertex_indices@
                != #[trigger] r.edges@[e2].vertex_indices@ by {
            assert(r.edges@[e1].vertex_indices@ == base.edges@[e1].vertex_indices@);
            assert(r.edges@[e2].vertex_indices@ == base.edges@[e2].vertex_indices@);
        }
        assert forall|f: int|
            0 <= f < r.faces@.len() implies {
            let fc = #[trigger] r.faces@[f];
            &&& r.edges@[fc.edge_indices@[0] as int].vertex_indices@ == seq![
                canon(fc.vertex_indices@[0], fc.vertex_indices@[1]).0,
                canon(fc.vertex_indices@[0], fc.vertex_indices@[1]).1,
            ]
            &&& r.edges@[fc.edge_indices@[1] as int].vertex_indices@ == seq![
                canon(fc.vertex_indices@[1], fc.vertex_indices@[2]).0,
                canon(fc.vertex_indices@[1], fc.vertex_indices@[2]).1,
            ]
            &&& r.edges@[fc.edge_indices@[2] as int].vertex_indices@ == seq![
                canon(fc.vertex_indices@[2], fc.vertex_indices@[0]).0,
                canon(fc.vertex_indices@[2], fc.vertex_indices@[0]).1,
            ]
        } by {
            let fc = r.faces@[f];
            assert(fc == base.faces@[f]);
            assert(wf_face(fc, 12, 30));
            assert(r.edges@[fc.edge_indices@[0] as int].vertex_indices@ == base.edges@[
                fc.edge_indices@[0] as int].vertex_indices@);
            assert(r.edges@[fc.edge_indices@[1] as int].vertex_indices@ == base.edges@[
                fc.edge_indices@[1] as int].vertex_indices@);
            assert(r.edges@[fc.edge_indices@[2] as int].vertex_indices@ == base.edges@[
                fc.edge_indices@[2] as int].vertex_indices@);
        }
    }
    r
}

/// A vertex with a position and empty adjacency lists.
fn bare_vertex(x: i64, y: i64, z: i64) -> (v: PolyVertex)
    ensures
        v.pos == (Vec3 { x, y, z }),
        v.edge_indices@ == Seq::<usize>::empty(),
        v.face_indices@ == Seq::<usize>::empty(),
{
    PolyVertex { pos: Vec3 { x, y, z }, edge_indices: Vec::new(), face_indices: Vec::new() }
}

/// The componentwise sum of two bounded positions.
pub open spec fn spec_vsum(a: Vec3, b: Vec3) -> Vec3 {
    Vec3 { x: (a.x + b.x) as i64, y: (a.y + b.y) as i64, z: (a.z + b.z) as i64 }
}

/// An edge midpoint re-projected onto the unit sphere: the normalized sum
/// of its two endpoints.
pub open spec fn spec_mid(a: Vec3, b: Vec3) -> Vec3 {
    crate::vec3::spec_normalize(spec_vsum(a, b))
}

/// All three midpoint sums of face `i` are nonzero, so each midpoint can be
/// projected onto the sphere.
pub open spec fn face_midpoints_ok(poly: Polyhedron, i: int) -> bool {
    let f = poly.faces@[i];
    let v1 = poly.vertices@[f.vertex_indices@[0] as int].pos;
    let v2 = poly.vertices@[f.vertex_indices@[1] as int].pos;
    let v3 = poly.vertices@[f.vertex_indices@[2] as int].pos;
    &&& crate::vec3::spec_norm2(spec_vsum(v1, v2)) != 0
    &&& crate::vec3::spec_norm2(spec_vsum(v2, v3)) != 0
    &&& crate::vec3::spec_norm2(spec_vsum(v3, v1)) != 0
}

/// The positions of a mesh's vertices.
pub open spec fn mesh_positions(p: Polyhedron) -> Seq<Vec3> {
    p.vertices@.map(|k: int, pv: PolyVertex| pv.pos)
}

/// The four children of parent face `i` stand at slots `4i` to `4i+3` of
/// `faces` and reference, through `positions`, exactly the parent's corners
/// and its three normalized edge midpoints: three corner triangles and the
/// central midpoint triangle.
pub open spec fn children_follow(parent: Polyhedron, positions: Seq<Vec3>, faces: Seq<Face>, i: int) -> bool {
    let f = parent.faces@[i];
    let v1 = parent.vertices@[f.vertex_indices@[0] as int].pos;
    let v2 = parent.vertices@[f.vertex_indices@[1] as int].pos;
    let v3 = parent.vertices@[f.vertex_indices@[2] as int].pos;
    let m12 = spec_mid(v1, v2);
    let m23 = spec_mid(v2, v3);
    let m31 = spec_mid(v3, v1);
    &&& positions[faces[4 * i].vertex_indices@[0] as int] == v1
    &&& positions[faces[4 * i].vertex_indices@[1] as int] == m12
    &&& positions[faces[4 * i].vertex_indices@[2] as int] == m31
    &&& positions[faces[4 * i + 1].vertex_indices@[0] as int] == m12
    &&& positions[faces[4 * i + 1].vertex_indices@[1] as int] == v2
    &&& positions[faces[4 * i + 1].vertex_indices@[2] as int] == m23
    &&& positions[faces[4 * i + 2].vertex_indices@[0] as int] == m23
    &&& positions[faces[4 * i + 2].vertex_indices@[1] as int] == v3
    &&& positions[faces[4 * i + 2].vertex_indices@[2] as int] == m31
    &&& positions[faces[4 * i + 3].vertex_indices@[0] as int] == m12
    &&& positions[faces[4 * i + 3].vertex_indices@[1] as int] == m23
    &&& positions[faces[4 * i + 3].vertex_indices@[2] as int] == m31
}

/// One subdivision pass: every face is split into four, the three edge
/// midpoints are re-projected onto the unit sphere, and shared midpoints and
/// edges are deduplicated through exact integer keys (positions quantized to
/// fixed point, edges keyed by their ordered endpoint pair).  The output
/// never holds two vertices with the same position.  Fails with
/// [`WorldError::NumericDegeneracy`] only if some midpoint sum is the zero
/// vector, which a sphere mesh never produces.
#[verifier::rlimit(100)]
#[verifier::spinoff_prover]
pub fn refine(poly: &Polyhedron) -> (r: Result<Polyhedron, WorldError>)
    requires
        wf(*poly),
        coords_bounded(*poly, 2 * SCALE as int),
    ensures
        r is Ok <==> (forall|i: int|
            0 <= i < poly.faces@.len() ==> #[trigger] face_midpoints_ok(*poly, i)),
        r is Ok ==> {
            let q = r->Ok_0;
            &&& wf(q)
            &&& vertex_edges_sound(q)
            &&& adjacency_complete(q)
            &&& coords_bounded(q, 2 * SCALE as int)
            &&& distinct_positions(q)
            &&& edges_canonical(q)
            &&& edges_distinct(q)
            &&& face_edges_connect(q)
            &&& q.faces@.len() == 4 * poly.faces@.len()
            &&& forall|i: int|
                0 <= i < poly.faces@.len() ==> #[trigger] children_follow(
                    *poly,
                    mesh_positions(q),
                    q.faces@,
                    i,
                )
        },
        r is Err ==> r == Err::<Polyhedron, WorldError>(WorldError::NumericDegeneracy),
{
    let nf = poly.faces.len();
    let mut vkeys: Vec<u128> = Vec::new();
    let mut positions: Vec<Vec3> = Vec::new();
    let mut ekeys: Vec<u128> = Vec::new();
    let mut pairs: Vec<(usize, usize)> = Vec::new();
    let mut faces: Vec<Face> = Vec::new();
    let mut fi: usize = 0;
    while fi < nf
        invariant
            wf(*poly),
            coords_bounded(*poly, 2 * SCALE as int),
            nf == poly.faces@.len(),
            fi <= nf,
            parallel_keyed(vkeys@, positions@),
            distinct_keys(vkeys@),
            forall|i: int|
                0 <= i < positions@.len() ==> bounded(#[trigger] positions@[i], 2_000_000_000),
            forall|i: int|
                0 <= i < positions@.len() ==> bounded(#[trigger] positions@[i], 2 * SCALE as int),
            pair_keyed(ekeys@, pairs@),
            distinct_keys(ekeys@),
            pairs_canonical(pairs@),
            forall|i: int|
                0 <= i < pairs@.len() ==> #[trigger] pairs@[i].0 < positions@.len()
                    && pairs@[i].1 < positions@.len(),
            faces@.len() == 4 * fi,
            forall|i: int|
                0 <= i < faces@.len() ==> face_pairs_connect(#[trigger] faces@[i], pairs@),
            forall|i: int|
                0 <= i < faces@.len() ==> wf_face(
                    #[trigger] faces@[i],
                    positions@.len() as int,
                    pairs@.len() as int,
                ),
            forall|i: int| 0 <= i < fi ==> #[trigger] face_midpoints_ok(*poly, i),
            forall|i: int|
                0 <= i < fi ==> #[trigger] children_follow(*poly, positions@, faces@, i),
        decreases nf - fi,
    {
        let i1 = poly.faces[fi].vertex_indices[0];
        let i2 = poly.faces[fi].vertex_indices[1];
        let i3 = poly.faces[fi].vertex_indices[2];
        let v1 = poly.vertices[i1].pos;
        let v2 = poly.vertices[i2].pos;
        let v3 = poly.vertices[i3].pos;
        let s12 = v1.add(&v2);
        let s23 = v2.add(&v3);
        let s31 = v3.add(&v1);
        proof {
            assert(s12 == spec_vsum(v1, v2));
            assert(s23 == spec_vsum(v2, v3));
            assert(s31 == spec_vsum(v3, v1));
        }
        let v12 = match s12.normalize() {
            Ok(v) => v,
            Err(_) => {
                proof {
                    assert(!face_midpoints_ok(*poly, fi as int));
                }
                return Err(WorldError::NumericDegeneracy);
            },
        };
        let v23 = match s23.normalize() {
            Ok(v) => v,
            Err(_) => {
                proof {
                    assert(!face_midpoints_ok(*poly, fi as int));
                }
                return Err(WorldError::NumericDegeneracy);
            },
        };
        let v31 = match s31.normalize() {
            Ok(v) => v,
            Err(_) => {
                proof {
                    assert(!face_midpoints_ok(*poly, fi as int));
                }
                return Err(WorldError::NumericDegeneracy);
            },
        };
        let ghost pre_positions = positions@;
        let ghost pre_faces = faces@;
        let ghost pre_pairs = pairs@;
        let ghost pre_pairs_len = pairs@.len();
        subdivide_face(
            &mut vkeys,
            &mut positions,
            &mut ekeys,
            &mut pairs,
            &mut faces,
            v1,
            v2,
            v3,
            v12,
            v23,
            v31,
        );
        proof {
            assert(face_midpoints_ok(*poly, fi as int));
            assert(v12 == spec_mid(v1, v2));
            assert(v23 == spec_mid(v2, v3));
            assert(v31 == spec_mid(v3, v1));
            assert forall|i: int|
                0 <= i < faces@.len() implies face_pairs_connect(
                #[trigger] faces@[i],
                pairs@,
            ) by {
                if i < 4 * fi {
                    assert(faces@[i] == pre_faces[i]);
                    assert(face_pairs_connect(pre_faces[i], pre_pairs));
                    assert(wf_face(pre_faces[i], pre_positions.len() as int, pre_pairs.len() as int));
                    assert(pairs@[pre_faces[i].edge_indices@[0] as int] == pre_pairs[pre_faces[
                        i].edge_indices@[0] as int]);
                    assert(pairs@[pre_faces[i].edge_indices@[1] as int] == pre_pairs[pre_faces[
                        i].edge_indices@[1] as int]);
                    assert(pairs@[pre_faces[i].edge_indices@[2] as int] == pre_pairs[pre_faces[
                        i].edge_indices@[2] as int]);
                }
            }
            assert forall|i: int|
                0 <= i < fi + 1 implies #[trigger] children_follow(
                *poly,
                positions@,
                faces@,
                i,
            ) by {
                if i < fi as int {
                    assert(children_follow(*poly, pre_positions, pre_faces, i));
                    assert(faces@[4 * i] == pre_faces[4 * i]);
                    assert(faces@[4 * i + 1] == pre_faces[4 * i + 1]);
                    assert(faces@[4 * i + 2] == pre_faces[4 * i + 2]);
                    assert(faces@[4 * i + 3] == pre_faces[4 * i + 3]);
                    assert(wf_face(
                        pre_faces[4 * i],
                        pre_positions.len() as int,
                        pre_pairs_len as int,
                    ));
                    assert(wf_face(
                        pre_faces[4 * i + 1],
                        pre_positions.len() as int,
                        pre_pairs_len as int,
                    ));
                    assert(wf_face(
                        pre_faces[4 * i + 2],
                        pre_positions.len() as int,
                        pre_pairs_len as int,
                    ));
                    assert(wf_face(
                        pre_faces[4 * i + 3],
                        pre_positions.len() as int,
                        pre_pairs_len as int,
                    ));
                } else {
                    assert(children_follow(*poly, positions@, faces@, fi as int));
                }
            }
        }
        fi += 1;
    }
    let nv = positions.len();
    let mut vertices: Vec<PolyVertex> = Vec::new();
    let mut vi: usize = 0;
    while vi < nv
        invariant
            nv == positions@.len(),
            vi <= nv,
            vertices@.len() == vi,
            forall|i: int| 0 <= i < vi ==> #[trigger] vertices@[i].pos == positions@[i],
            forall|i: int| 0 <= i < vi ==> #[trigger] vertices@[i].edge_indices@.len() == 0,
            forall|i: int| 0 <= i < vi ==> #[trigger] vertices@[i].face_indices@.len() == 0,
        decreases nv - vi,
    {
        let ghost pre_push = vertices@;
        vertices.push(
            PolyVertex {
                pos: positions[vi],
                edge_indices: Vec::new(),
                face_indices: Vec::new(),
            },
        );
        proof {
            assert forall|i2: int| 0 <= i2 < vi + 1 implies #[trigger] vertices@[i2].pos
                == positions@[i2] by {
                if i2 < vi as int {
                    assert(vertices@[i2] == pre_push[i2]);
                }
            }
            assert forall|i2: int|
                0 <= i2 < vi + 1 implies #[trigger] vertices@[i2].edge_indices@.len() == 0 by {
                if i2 < vi as int {
                    assert(vertices@[i2] == pre_push[i2]);
                }
            }
            assert forall|i2: int|
                0 <= i2 < vi + 1 implies #[trigger] vertices@[i2].face_indices@.len() == 0 by {
                if i2 < vi as int {
                    assert(vertices@[i2] == pre_push[i2]);
                }
            }
        }
        vi += 1;
    }
    let ne = pairs.len();
    let mut edges: Vec<Edge> = Vec::new();
    let mut ei: usize = 0;
    while ei < ne
        invariant
            ne == pairs@.len(),
            nv == positions@.len(),
            forall|i: int|
                0 <= i < pairs@.len() ==> #[trigger] pairs@[i].0 < nv && pairs@[i].1 < nv,
            ei <= ne,
            edges@.len() == ei,
            forall|i: int| 0 <= i < ei ==> wf_edge(#[trigger] edges@[i], nv as int),
            forall|i: int|
                0 <= i < ei ==> (#[trigger] edges@[i]).vertex_indices@ == seq![
                    pairs@[i].0,
                    pairs@[i].1,
                ],
        decreases ne - ei,
    {
        edges.push(Edge::new(pairs[ei].0, pairs[ei].1));
        ei += 1;
    }
    proof {
        assert(vertices@.len() == nv);
    }
    let bare = Polyhedron { vertices, edges, faces };
    let out = populate_adjacency(bare);
    proof {
        assert forall|i: int, j: int|
            0 <= i < out.vertices@.len() && 0 <= j < out.vertices@.len() && i != j
                implies #[trigger] out.vertices@[i].pos != #[trigger] out.vertices@[j].pos by {
            assert(out.vertices@[i].pos == positions@[i]);
            assert(out.vertices@[j].pos == positions@[j]);
            if out.vertices@[i].pos == out.vertices@[j].pos {
                assert(vkeys@[i] == vkeys@[j]);
            }
        }
        assert forall|i: int|
            0 <= i < out.vertices@.len() implies bounded(
            #[trigger] out.vertices@[i].pos,
            2 * SCALE as int,
        ) by {
            assert(out.vertices@[i].pos == positions@[i]);
        }
        assert(mesh_positions(out) =~= positions@) by {
            assert forall|j: int|
                0 <= j < out.vertices@.len() implies #[trigger] mesh_positions(out)[j]
                    == positions@[j] by {
                assert(out.vertices@[j].pos == positions@[j]);
            }
        }
        assert forall|i: int|
            0 <= i < poly.faces@.len() implies #[trigger] children_follow(
            *poly,
            mesh_positions(out),
            out.faces@,
            i,
        ) by {
            assert(children_follow(*poly, positions@, faces@, i));
            assert(out.faces@ == faces@);
        }
        assert forall|e: int|
            0 <= e < out.edges@.len() implies (#[trigger] out.edges@[e]).vertex_indices@[0]
                <= out.edges@[e].vertex_indices@[1] by {
            assert(out.edges@[e].vertex_indices@ == seq![pairs@[e].0, pairs@[e].1]);
        }
        assert forall|e1: int, e2: int|
            0 <= e1 < out.edges@.len() && 0 <= e2 < out.edges@.len() && e1 != e2
                implies #[trigger] out.edges@[e1].vertex_indices@
                != #[trigger] out.edges@[e2].vertex_indices@ by {
            assert(out.edges@[e1].vertex_indices@ == seq![pairs@[e1].0, pairs@[e1].1]);
            assert(out.edges@[e2].vertex_indices@ == seq![pairs@[e2].0, pairs@[e2].1]);
            if out.edges@[e1].vertex_indices@ == out.edges@[e2].vertex_indices@ {
                assert(pairs@[e1].0 == pairs@[e2].0 && pairs@[e1].1 == pairs@[e2].1) by {
                    assert(seq![pairs@[e1].0, pairs@[e1].1][0] == seq![
                        pairs@[e2].0,
                        pairs@[e2].1,
                    ][0]);
                    assert(seq![pairs@[e1].0, pairs@[e1].1][1] == seq![
                        pairs@[e2].0,
                        pairs@[e2].1,
                    ][1]);
                }
                assert(ekeys@[e1] == ekeys@[e2]);
            }
        }
        assert forall|f: int|
            0 <= f < out.faces@.len() implies {
            let fc = #[trigger] out.faces@[f];
            &&& out.edges@[fc.edge_indices@[0] as int].vertex_indices@ == seq![
                canon(fc.vertex_indices@[0], fc.vertex_indices@[1]).0,
                canon(fc.vertex_indices@[0], fc.vertex_indices@[1]).1,
            ]
            &&& out.edges@[fc.edge_indices@[1] as int].vertex_indices@ == seq![
                canon(fc.vertex_indices@[1], fc.vertex_indices@[2]).0,
                canon(fc.vertex_indices@[1], fc.vertex_indices@[2]).1,
            ]
            &&& out.edges@[fc.edge_indices@[2] as int].vertex_indices@ == seq![
                canon(fc.vertex_indices@[2], fc.vertex_indices@[0]).0,
                canon(fc.vertex_indices@[2], fc.vertex_indices@[0]).1,
            ]
        } by {
            let fc = out.faces@[f];
            assert(fc == faces@[f]);
            assert(face_pairs_connect(fc, pairs@));
            assert(wf_face(fc, nv as int, pairs@.len() as int));
            assert(out.edges@[fc.edge_indices@[0] as int].vertex_indices@ == seq![
                pairs@[fc.edge_indices@[0] as int].0,
                pairs@[fc.edge_indices@[0] as int].1,
            ]);
            assert(out.edges@[fc.edge_indices@[1] as int].vertex_indices@ == seq![
                pairs@[fc.edge_indices@[1] as int].0,
                pairs@[fc.edge_indices@[1] as int].1,
            ]);
            assert(out.edges@[fc.edge_indices@[2] as int].vertex_indices@ == seq![
                pairs@[fc.edge_indices@[2] as int].0,
                pairs@[fc.edge_indices@[2] as int].1,
            ]);
        }
    }
    Ok(out)
}

/// Intern one parent face's six corner and midpoint positions, intern the
/// nine child edges under canonical keys, and append the four child faces:
/// three corner triangles and the central midpoint triangle.
#[verifier::rlimit(100)]
#[verifier::spinoff_prover]
fn subdivide_face(
    vkeys: &mut Vec<u128>,
    positions: &mut Vec<Vec3>,
    ekeys: &mut Vec<u128>,
    pairs: &mut Vec<(usize, usize)>,
    faces: &mut Vec<Face>,
    v1: Vec3,
    v2: Vec3,
    v3: Vec3,
    v12: Vec3,
    v23: Vec3,
    v31: Vec3,
)
    requires
        parallel_keyed(old(vkeys)@, old(positions)@),
        distinct_keys(old(vkeys)@),
        forall|i: int|
            0 <= i < old(positions)@.len() ==> bounded(
                #[trigger] old(positions)@[i],
                2_000_000_000,
            ),
        forall|i: int|
            0 <= i < old(positions)@.len() ==> bounded(
                #[trigger] old(positions)@[i],
                2 * SCALE as int,
            ),
        pair_keyed(old(ekeys)@, old(pairs)@),
        distinct_keys(old(ekeys)@),
        pairs_canonical(old(pairs)@),
        forall|i: int|
            0 <= i < old(pairs)@.len() ==> #[trigger] old(pairs)@[i].0 < old(positions)@.len()
                && old(pairs)@[i].1 < old(positions)@.len(),
        forall|i: int|
            0 <= i < old(faces)@.len() ==> wf_face(
                #[trigger] old(faces)@[i],
                old(positions)@.len() as int,
                old(pairs)@.len() as int,
            ),
        bounded(v1, 2 * SCALE as int),
        bounded(v2, 2 * SCALE as int),
        bounded(v3, 2 * SCALE as int),
        bounded(v12, 2 * SCALE as int),
        bounded(v23, 2 * SCALE as int),
        bounded(v31, 2 * SCALE as int),
    ensures
        parallel_keyed(final(vkeys)@, final(positions)@),
        distinct_keys(final(vkeys)@),
        forall|i: int|
            0 <= i < final(positions)@.len() ==> bounded(
                #[trigger] final(positions)@[i],
                2_000_000_000,
            ),
        forall|i: int|
            0 <= i < final(positions)@.len() ==> bounded(
                #[trigger] final(positions)@[i],
                2 * SCALE as int,
            ),
        pair_keyed(final(ekeys)@, final(pairs)@),
        distinct_keys(final(ekeys)@),
        pairs_canonical(final(pairs)@),
        final(ekeys)@.len() == final(pairs)@.len(),
        forall|j: int| 0 <= j < old(pairs)@.len() ==> final(pairs)@[j] == old(pairs)@[j],
        forall|i: int|
            0 <= i < final(pairs)@.len() ==> #[trigger] final(pairs)@[i].0
                < final(positions)@.len() && final(pairs)@[i].1 < final(positions)@.len(),
        forall|i: int|
            0 <= i < final(faces)@.len() ==> wf_face(
                #[trigger] final(faces)@[i],
                final(positions)@.len() as int,
                final(pairs)@.len() as int,
            ),
        final(faces)@.len() == old(faces)@.len() + 4,
        face_pairs_connect(final(faces)@[old(faces)@.len() as int], final(pairs)@),
        face_pairs_connect(final(faces)@[old(faces)@.len() as int + 1], final(pairs)@),
        face_pairs_connect(final(faces)@[old(faces)@.len() as int + 2], final(pairs)@),
        face_pairs_connect(final(faces)@[old(faces)@.len() as int + 3], final(pairs)@),
        old(positions)@.len() <= final(positions)@.len(),
        forall|j: int|
            0 <= j < old(positions)@.len() ==> #[trigger] final(positions)@[j] == old(
                positions,
            )@[j],
        forall|i: int|
            0 <= i < old(faces)@.len() ==> #[trigger] final(faces)@[i] == old(faces)@[i],
        ({
            let nf0 = old(faces)@.len() as int;
            let ps = final(positions)@;
            let fs = final(faces)@;
            &&& ps[fs[nf0].vertex_indices@[0] as int] == v1
            &&& ps[fs[nf0].vertex_indices@[1] as int] == v12
            &&& ps[fs[nf0].vertex_indices@[2] as int] == v31
            &&& ps[fs[nf0 + 1].vertex_indices@[0] as int] == v12
            &&& ps[fs[nf0 + 1].vertex_indices@[1] as int] == v2
            &&& ps[fs[nf0 + 1].vertex_indices@[2] as int] == v23
            &&& ps[fs[nf0 + 2].vertex_indices@[0] as int] == v23
            &&& ps[fs[nf0 + 2].vertex_indices@[1] as int] == v3
            &&& ps[fs[nf0 + 2].vertex_indices@[2] as int] == v31
            &&& ps[fs[nf0 + 3].vertex_indices@[0] as int] == v12
            &&& ps[fs[nf0 + 3].vertex_indices@[1] as int] == v23
            &&& ps[fs[nf0 + 3].vertex_indices@[2] as int] == v31
        }),
{
    let v1_idx = intern_vertex(vkeys, positions, v1);
    let v2_idx = intern_vertex(vkeys, positions, v2);
    let v3_idx = intern_vertex(vkeys, positions, v3);
    let v12_idx = intern_vertex(vkeys, positions, v12);
    let v23_idx = intern_vertex(vkeys, positions, v23);
    let v31_idx = intern_vertex(vkeys, positions, v31);
    proof {
        assert(positions@[v1_idx as int] == v1);
        assert(positions@[v2_idx as int] == v2);
        assert(positions@[v3_idx as int] == v3);
        assert(positions@[v12_idx as int] == v12);
        assert(positions@[v23_idx as int] == v23);
        assert(positions@[v31_idx as int] == v31);
    }
    let nv = positions.len();
    let eidx = intern_child_edges(
        ekeys,
        pairs,
        nv,
        v1_idx,
        v2_idx,
        v3_idx,
        v12_idx,
        v23_idx,
        v31_idx,
    );
    proof {
        assert(canon(v23_idx, v12_idx) == canon(v12_idx, v23_idx));
        assert(canon(v31_idx, v23_idx) == canon(v23_idx, v31_idx));
        assert(canon(v31_idx, v12_idx) == canon(v12_idx, v31_idx));
    }
    let ghost nf0 = faces@.len() as int;
    faces.push(Face::new(v1_idx, v12_idx, v31_idx, eidx[0], eidx[6], eidx[5]));
    faces.push(Face::new(v12_idx, v2_idx, v23_idx, eidx[1], eidx[2], eidx[7]));
    faces.push(Face::new(v23_idx, v3_idx, v31_idx, eidx[3], eidx[4], eidx[8]));
    faces.push(Face::new(v12_idx, v23_idx, v31_idx, eidx[7], eidx[8], eidx[6]));
    proof {
        assert(face_pairs_connect(faces@[nf0], pairs@));
        assert(face_pairs_connect(faces@[nf0 + 1], pairs@));
        assert(face_pairs_connect(faces@[nf0 + 2], pairs@));
        assert(face_pairs_connect(faces@[nf0 + 3], pairs@));
    }
}

/// Intern the nine edges of one subdivided face: the six half-edges between
/// a corner and a midpoint, then the three inner edges between midpoints.
/// Returns their indices, in that order.
#[verifier::rlimit(100)]
fn intern_child_edges(
    ekeys: &mut Vec<u128>,
    pairs: &mut Vec<(usize, usize)>,
    nv: usize,
    v1_idx: usize,
    v2_idx: usize,
    v3_idx: usize,
    v12_idx: usize,
    v23_idx: usize,
    v31_idx: usize,
) -> (eidx: [usize; 9])
    requires
        pair_keyed(old(ekeys)@, old(pairs)@),
        distinct_keys(old(ekeys)@),
        pairs_canonical(old(pairs)@),
        forall|i: int|
            0 <= i < old(pairs)@.len() ==> #[trigger] old(pairs)@[i].0 < nv && old(
                pairs,
            )@[i].1 < nv,
        v1_idx < nv,
        v2_idx < nv,
        v3_idx < nv,
        v12_idx < nv,
        v23_idx < nv,
        v31_idx < nv,
    ensures
        pair_keyed(final(ekeys)@, final(pairs)@),
        distinct_keys(final(ekeys)@),
        pairs_canonical(final(pairs)@),
        final(ekeys)@.len() == final(pairs)@.len(),
        forall|i: int|
            0 <= i < final(pairs)@.len() ==> #[trigger] final(pairs)@[i].0 < nv
                && final(pairs)@[i].1 < nv,
        old(pairs)@.len() <= final(pairs)@.len(),
        forall|j: int| 0 <= j < old(pairs)@.len() ==> final(pairs)@[j] == old(pairs)@[j],
        forall|j: int| 0 <= j < 9 ==> #[trigger] eidx@[j] < final(pairs)@.len(),
        final(pairs)@[eidx@[0] as int] == canon(v1_idx, v12_idx),
        final(pairs)@[eidx@[1] as int] == canon(v12_idx, v2_idx),
        final(pairs)@[eidx@[2] as int] == canon(v2_idx, v23_idx),
        final(pairs)@[eidx@[3] as int] == canon(v23_idx, v3_idx),
        final(pairs)@[eidx@[4] as int] == canon(v3_idx, v31_idx),
        final(pairs)@[eidx@[5] as int] == canon(v31_idx, v1_idx),
        final(pairs)@[eidx@[6] as int] == canon(v12_idx, v31_idx),
        final(pairs)@[eidx@[7] as int] == canon(v12_idx, v23_idx),
        final(pairs)@[eidx@[8] as int] == canon(v23_idx, v31_idx),
{
    let e1_12_idx = intern_canonical(ekeys, pairs, v1_idx, v12_idx);
    assert(forall|i: int|
        0 <= i < pairs@.len() ==> #[trigger] pairs@[i].0 < nv && pairs@[i].1 < nv);
    let e12_2_idx = intern_canonical(ekeys, pairs, v12_idx, v2_idx);
    assert(forall|i: int|
        0 <= i < pairs@.len() ==> #[trigger] pairs@[i].0 < nv && pairs@[i].1 < nv);
    let e2_23_idx = intern_canonical(ekeys, pairs, v2_idx, v23_idx);
    assert(forall|i: int|
        0 <= i < pairs@.len() ==> #[trigger] pairs@[i].0 < nv && pairs@[i].1 < nv);
    let e23_3_idx = intern_canonical(ekeys, pairs, v23_idx, v3_idx);
    assert(forall|i: int|
        0 <= i < pairs@.len() ==> #[trigger] pairs@[i].0 < nv && pairs@[i].1 < nv);
    let e3_31_idx = intern_canonical(ekeys, pairs, v3_idx, v31_idx);
    assert(forall|i: int|
        0 <= i < pairs@.len() ==> #[trigger] pairs@[i].0 < nv && pairs@[i].1 < nv);
    let e31_1_idx = intern_canonical(ekeys, pairs, v31_idx, v1_idx);
    assert(forall|i: int|
        0 <= i < pairs@.len() ==> #[trigger] pairs@[i].0 < nv && pairs@[i].1 < nv);
    let e12_31_idx = intern_canonical(ekeys, pairs, v12_idx, v31_idx);
    assert(forall|i: int|
        0 <= i < pairs@.len() ==> #[trigger] pairs@[i].0 < nv && pairs@[i].1 < nv);
    let e12_23_idx = intern_canonical(ekeys, pairs, v12_idx, v23_idx);
    assert(forall|i: int|
        0 <= i < pairs@.len() ==> #[trigger] pairs@[i].0 < nv && pairs@[i].1 < nv);
    let e23_31_idx = intern_canonical(ekeys, pairs, v23_idx, v31_idx);
    assert(forall|i: int|
        0 <= i < pairs@.len() ==> #[trigger] pairs@[i].0 < nv && pairs@[i].1 < nv);
    let eidx: [usize; 9] = [
        e1_12_idx,
        e12_2_idx,
        e2_23_idx,
        e23_3_idx,
        e3_31_idx,
        e31_1_idx,
        e12_31_idx,
        e12_23_idx,
        e23_31_idx,
    ];
    eidx
}

/// Intern an edge under its canonical (smaller endpoint first) key.
fn intern_canonical(keys: &mut Vec<u128>, pairs: &mut Vec<(usize, usize)>, a: usize, b: usize) -> (
    idx: usize)
    requires
        pair_keyed(old(keys)@, old(pairs)@),
        distinct_keys(old(keys)@),
    ensures
        pair_keyed(final(keys)@, final(pairs)@),
        distinct_keys(final(keys)@),
        final(keys)@.len() == final(pairs)@.len(),
        idx < final(pairs)@.len(),
        final(pairs)@[idx as int] == canon(a, b),
        final(pairs)@ == old(pairs)@ || final(pairs)@ == old(pairs)@.push((a, b))
            || final(pairs)@ == old(pairs)@.push((b, a)),
        old(pairs)@.len() <= final(pairs)@.len(),
        forall|j: int| 0 <= j < old(pairs)@.len() ==> final(pairs)@[j] == old(pairs)@[j],
        forall|j: int|
            0 <= j < final(pairs)@.len() ==> (0 <= j < old(pairs)@.len()
                && #[trigger] final(pairs)@[j] == old(pairs)@[j]) || final(pairs)@[j] == (a, b)
                || final(pairs)@[j] == (b, a),
        pairs_canonical(old(pairs)@) ==> pairs_canonical(final(pairs)@),
{
    if a < b {
        intern_edge(keys, pairs, a, b)
    } else {
        intern_edge(keys, pairs, b, a)
    }
}

/// Maximum accepted subdivision level; a deeper level is rejected before any
/// allocation is attempted.
pub const MAX_DETAIL_LEVEL: usize = 8;

/// Build an icosphere: the base icosahedron refined `detail_level` times.
/// The face count quadruples with each level.  Rejects levels beyond
/// [`MAX_DETAIL_LEVEL`] with [`WorldError::ConfigurationError`].
pub fn make_sphere(detail_level: usize) -> (r: Result<Polyhedron, WorldError>)
    ensures
        r == Err::<Polyhedron, WorldError>(WorldError::ConfigurationError) <==> detail_level
            > MAX_DETAIL_LEVEL,
        detail_level == 0 ==> r is Ok,
        r is Err ==> r == Err::<Polyhedron, WorldError>(WorldError::ConfigurationError) || r
            == Err::<Polyhedron, WorldError>(WorldError::NumericDegeneracy),
        r is Ok ==> {
            let q = r->Ok_0;
            &&& wf(q)
            &&& vertex_edges_sound(q)
            &&& adjacency_complete(q)
            &&& edges_canonical(q)
            &&& edges_distinct(q)
            &&& face_edges_connect(q)
            &&& coords_bounded(q, 2 * SCALE as int)
            &&& q.faces@.len() == 20 * pow4(detail_level as nat)
        },
{
    if detail_level > MAX_DETAIL_LEVEL {
        return Err(WorldError::ConfigurationError);
    }
    let mut sphere = make_icosahedron();
    let mut i: usize = 0;
    while i < detail_level
        invariant
            i <= detail_level,
            detail_level <= MAX_DETAIL_LEVEL,
            wf(sphere),
            vertex_edges_sound(sphere),
            adjacency_complete(sphere),
            edges_canonical(sphere),
            edges_distinct(sphere),
            face_edges_connect(sphere),
            coords_bounded(sphere, 2 * SCALE as int),
            sphere.faces@.len() == 20 * pow4(i as nat),
        decreases detail_level - i,
    {
        sphere = match refine(&sphere) {
            Ok(s) => s,
            Err(e) => {
                return Err(WorldError::NumericDegeneracy);
            },
        };
        proof {
            assert(pow4((i + 1) as nat) == 4 * pow4(i as nat));
        }
        i += 1;
    }
    Ok(sphere)
}

} // verus!
