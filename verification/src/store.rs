//! Arena that owns every vertex, face and edge.
//!
//! Handles ([`crate::Pointer`]) are indices into the arena, so handle
//! equality is identity of the entity instance.  Vertices are never removed;
//! faces and edges can be retired, after which they no longer resolve from a
//! back-link — exactly the behaviour of a non-owning link whose target was
//! destroyed.  Retired entities keep their slot, so handles never shift.
//!
//! Vertex ids are drawn from a Sidon sequence (all pairwise sums distinct):
//! `id(i) = i * 2^42 + i^2`.  The ids are monotonic and unique, and the sum
//! of two ids — the identity of an edge — determines the unordered endpoint
//! pair, which the boundary-edge bookkeeping of the engine relies on.

use vstd::prelude::*;

use crate::edge::Edge;
use crate::face::Face;
use crate::vertex::Vertex;
use crate::EdgePtr;
use crate::FacePtr;
use crate::VertexPtr;
use crate::spec_eptr;
use crate::spec_fptr;
use crate::spec_vptr;

verus! {

/// Largest number of vertices a store can hold; keeps every id below
/// `2^62`, so a sum of two ids always fits in `u64`.
pub const VERTEX_CAP: u64 = 1048576;

/// The vertex id for arena index `i`: entry `i` of the Sidon sequence
/// `i * 2^42 + i^2`.
pub open spec fn spec_vertex_id(i: int) -> int {
    i * 4398046511104 + i * i
}

/// Bounds of the id sequence below the cap.
pub proof fn lemma_vertex_id_bounds(i: int)
    requires
        0 <= i < VERTEX_CAP,
    ensures
        0 <= i * i < 1099511627776,
        0 <= spec_vertex_id(i) < 0x4000000000000000,
{
    assert(0 <= i * i < 1099511627776 && 0 <= i * 4398046511104 + i * i < 0x4000000000000000)
        by (nonlinear_arith)
        requires
            0 <= i < 1048576,
    ;
}

/// Two pairs of the id sequence with equal sums are the same unordered
/// pair: the sequence is Sidon, so `id_sum` identifies the endpoints.
pub proof fn lemma_id_sum_determines_pair(i: int, j: int, k: int, l: int)
    requires
        0 <= i < VERTEX_CAP,
        0 <= j < VERTEX_CAP,
        0 <= k < VERTEX_CAP,
        0 <= l < VERTEX_CAP,
        spec_vertex_id(i) + spec_vertex_id(j) == spec_vertex_id(k) + spec_vertex_id(l),
    ensures
        (i == k && j == l) || (i == l && j == k),
{
    lemma_vertex_id_bounds(i);
    lemma_vertex_id_bounds(j);
    lemma_vertex_id_bounds(k);
    lemma_vertex_id_bounds(l);
    // The squares occupy the low 42 bits and cannot carry into the shifted
    // index sum, so both components agree separately.
    assert((i + j) * 4398046511104 + (i * i + j * j) == (k + l) * 4398046511104 + (k * k + l * l))
        by (nonlinear_arith)
        requires
            spec_vertex_id(i) + spec_vertex_id(j) == spec_vertex_id(k) + spec_vertex_id(l),
    ;
    assert(i + j == k + l && i * i + j * j == k * k + l * l) by (nonlinear_arith)
        requires
            (i + j) * 4398046511104 + (i * i + j * j) == (k + l) * 4398046511104 + (k * k + l
                * l),
            0 <= i * i < 1099511627776,
            0 <= j * j < 1099511627776,
            0 <= k * k < 1099511627776,
            0 <= l * l < 1099511627776,
    ;
    // Same sum and same sum of squares give the same product, hence the
    // same unordered pair.
    assert(i * j == k * l) by (nonlinear_arith)
        requires
            i + j == k + l,
            i * i + j * j == k * k + l * l,
    ;
    assert((i - k) * (i - l) == 0) by (nonlinear_arith)
        requires
            i + j == k + l,
            i * j == k * l,
    ;
    assert(i == k || i == l) by (nonlinear_arith)
        requires
            (i - k) * (i - l) == 0,
    ;
    assert(j == l || j == k);
}

/// Ids are injective over the index range.
pub proof fn lemma_vertex_id_injective(i: int, j: int)
    requires
        0 <= i < VERTEX_CAP,
        0 <= j < VERTEX_CAP,
        spec_vertex_id(i) == spec_vertex_id(j),
    ensures
        i == j,
{
    lemma_id_sum_determines_pair(i, i, j, j);
}

/// The vertex id for arena index `i`.
pub fn vertex_id_at(i: usize) -> (r: u64)
    requires
        i < VERTEX_CAP,
    ensures
        r as int == spec_vertex_id(i as int),
{
    proof {
        lemma_vertex_id_bounds(i as int);
    }
    (i as u64) * 4398046511104 + (i as u64) * (i as u64)
}

/// The arena owning all entities.
pub struct Store {
    pub vertices: Vec<Vertex>,
    pub faces: Vec<Face>,
    /// Liveness of each face: `false` once retired.
    pub faces_alive: Vec<bool>,
    pub edges: Vec<Edge>,
    /// Liveness of each edge: `false` once retired.
    pub edges_alive: Vec<bool>,
}

impl Store {
    /// `p` names a vertex of this store.
    pub open spec fn valid_v(self, p: VertexPtr) -> bool {
        p.idx < self.vertices@.len()
    }

    /// `p` names a face slot of this store, live or retired.
    pub open spec fn valid_f(self, p: FacePtr) -> bool {
        p.idx < self.faces@.len()
    }

    /// `p` names an edge slot of this store, live or retired.
    pub open spec fn valid_e(self, p: EdgePtr) -> bool {
        p.idx < self.edges@.len()
    }

    /// The face `p` has not been retired.
    pub open spec fn spec_face_live(self, p: FacePtr) -> bool {
        self.faces_alive@[p.idx as int]
    }

    /// The edge `p` has not been retired.
    pub open spec fn spec_edge_live(self, p: EdgePtr) -> bool {
        self.edges_alive@[p.idx as int]
    }

    /// Invariant of one vertex slot: id and coordinates are in range, and
    /// the back-link lists mention each target at most once and only
    /// targets that really hold this vertex.
    pub open spec fn wf_vertex(self, i: int) -> bool {
        let v = self.vertices@[i];
        &&& v.id == spec_vertex_id(i)
        &&& v.point.in_range()
        &&& v.faces@.no_duplicates()
        &&& v.edges@.no_duplicates()
        &&& forall|j: int|
            0 <= j < v.faces@.len() ==> self.valid_f(#[trigger] v.faces@[j])
                && self.faces@[v.faces@[j].idx as int].has_vertex(spec_vptr(i))
        &&& forall|j: int|
            0 <= j < v.edges@.len() ==> self.valid_e(#[trigger] v.edges@[j])
                && self.edges@[v.edges@[j].idx as int].has_vertex(spec_vptr(i))
    }

    /// Invariant of one face slot: the slots are vertices of this store and
    /// each of them carries the back-link to this face.
    pub open spec fn wf_face(self, k: int) -> bool {
        let f = self.faces@[k];
        &&& self.valid_v(f.a)
        &&& self.valid_v(f.b)
        &&& self.valid_v(f.c)
        &&& self.vertices@[f.a.idx as int].faces@.contains(spec_fptr(k))
        &&& self.vertices@[f.b.idx as int].faces@.contains(spec_fptr(k))
        &&& self.vertices@[f.c.idx as int].faces@.contains(spec_fptr(k))
    }

    /// Invariant of one edge slot: the endpoints are vertices of this
    /// store, the identity is the sum of their ids, and each endpoint
    /// carries the back-link to this edge.
    pub open spec fn wf_edge(self, k: int) -> bool {
        let e = self.edges@[k];
        &&& self.valid_v(e.a)
        &&& self.valid_v(e.b)
        &&& e.id_sum == self.vertices@[e.a.idx as int].id + self.vertices@[e.b.idx as int].id
        &&& self.vertices@[e.a.idx as int].edges@.contains(spec_eptr(k))
        &&& self.vertices@[e.b.idx as int].edges@.contains(spec_eptr(k))
    }

    /// Well-formedness of the whole store.
    pub open spec fn wf(self) -> bool {
        &&& self.vertices@.len() <= VERTEX_CAP
        &&& self.faces@.len() == self.faces_alive@.len()
        &&& self.edges@.len() == self.edges_alive@.len()
        &&& forall|i: int| 0 <= i < self.vertices@.len() ==> #[trigger] self.wf_vertex(i)
        &&& forall|k: int| 0 <= k < self.faces@.len() ==> #[trigger] self.wf_face(k)
        &&& forall|k: int| 0 <= k < self.edges@.len() ==> #[trigger] self.wf_edge(k)
    }

    /// The face back-links of `v` whose targets still exist, in
    /// registration order.
    pub open spec fn live_face_backlinks(self, v: VertexPtr) -> Seq<FacePtr> {
        self.vertices@[v.idx as int].faces@.filter(|f: FacePtr| self.spec_face_live(f))
    }

    /// The edge back-links of `v` whose targets still exist, in
    /// registration order.
    pub open spec fn live_edge_backlinks(self, v: VertexPtr) -> Seq<EdgePtr> {
        self.vertices@[v.idx as int].edges@.filter(|e: EdgePtr| self.spec_edge_live(e))
    }

    /// `g` is a live face holding vertex `v`: what an upgrade of a face
    /// back-link of `v` can yield.
    pub open spec fn spec_vertex_face(self, v: VertexPtr, g: FacePtr) -> bool {
        &&& self.valid_f(g)
        &&& self.spec_face_live(g)
        &&& self.faces@[g.idx as int].has_vertex(v)
    }

    /// `g` is a live edge holding vertex `v`.
    pub open spec fn spec_vertex_edge(self, v: VertexPtr, g: EdgePtr) -> bool {
        &&& self.valid_e(g)
        &&& self.spec_edge_live(g)
        &&& self.edges@[g.idx as int].has_vertex(v)
    }

    /// `g` is adjacent to `f`: a live face other than `f` sharing at least
    /// one vertex with it.  Shared vertex, not necessarily a shared edge.
    pub open spec fn spec_adjacent(self, f: FacePtr, g: FacePtr) -> bool {
        &&& self.valid_f(g)
        &&& self.spec_face_live(g)
        &&& g != f
        &&& crate::face::spec_shares_vertex(
            self.faces@[f.idx as int],
            self.faces@[g.idx as int],
        )
    }

    /// The exact, unnormalised normal direction of face data `f`: the
    /// cross product of its edge vectors `(b - a)` and `(c - a)`.
    pub open spec fn spec_face_normal(self, f: Face) -> crate::vector3::Vector3 {
        let pa = self.vertices@[f.a.idx as int].point;
        let pb = self.vertices@[f.b.idx as int].point;
        let pc = self.vertices@[f.c.idx as int].point;
        let d0 = pb.spec_sub(pa);
        let d1 = pc.spec_sub(pa);
        crate::vector3::Vector3 {
            x: d0.spec_cross_x(d1) as i64,
            y: d0.spec_cross_y(d1) as i64,
            z: d0.spec_cross_z(d1) as i64,
        }
    }

    /// The face has no area: its two edge vectors are collinear, so the
    /// cross product vanishes.
    pub open spec fn spec_face_degenerate(self, f: Face) -> bool {
        self.spec_face_normal(f).is_zero()
    }

    /// The segment between two vertices is shorter than the fixed-point
    /// threshold `tol`: its squared length is below `tol` squared.  A
    /// non-positive threshold matches no segment at all.
    pub open spec fn spec_pair_short(self, u: VertexPtr, w: VertexPtr, tol: int) -> bool {
        let d = self.vertices@[w.idx as int].point.spec_sub(self.vertices@[u.idx as int].point);
        tol > 0 && d.spec_dot(d) < tol * tol
    }

    /// The data of the flipped face: the first two vertex slots swapped,
    /// so the winding runs the other way.
    pub open spec fn spec_flipped_data(self, fp: FacePtr) -> Face {
        let f = self.faces@[fp.idx as int];
        Face { a: f.b, b: f.a, c: f.c }
    }

    /// Some face adjacent to `fp` presents one of `fp`'s ordered boundary
    /// pairs in the same order: `fp` or that neighbour is flipped.
    pub open spec fn spec_adjacent_is_flipped(self, fp: FacePtr) -> bool {
        exists|gp: FacePtr|
            #[trigger] self.spec_adjacent(fp, gp) && crate::face::spec_same_winding_pair(
                self.faces@[fp.idx as int],
                self.faces@[gp.idx as int],
            )
    }

    /// The next edge connected to the head of `e`: among the first two
    /// surviving edge back-links of `e`'s vertex `b`, the first one that is
    /// not `e` itself; absent when `b` carries fewer than two surviving
    /// edges.
    pub open spec fn spec_next_edge(self, e: EdgePtr) -> Option<EdgePtr> {
        let links = self.live_edge_backlinks(self.edges@[e.idx as int].b);
        if links.len() > 1 {
            if links[0] != e {
                Some(links[0])
            } else if links[1] != e {
                Some(links[1])
            } else {
                None
            }
        } else {
            None
        }
    }

    /// In a well-formed store a face back-link sits on `v` exactly when its
    /// face holds `v`: back-links are sound and complete.
    pub proof fn lemma_face_backlink_iff_incident(self, v: VertexPtr, g: FacePtr)
        requires
            self.wf(),
            self.valid_v(v),
        ensures
            self.vertices@[v.idx as int].faces@.contains(g) <==> (self.valid_f(g)
                && self.faces@[g.idx as int].has_vertex(v)),
    {
        crate::lemma_vptr_eta(v);
        crate::lemma_fptr_eta(g);
        assert(self.wf_vertex(v.idx as int));
        if self.vertices@[v.idx as int].faces@.contains(g) {
            let j = choose|j: int|
                0 <= j < self.vertices@[v.idx as int].faces@.len() && self.vertices@[v.idx
                    as int].faces@[j] == g;
        }
        if self.valid_f(g) && self.faces@[g.idx as int].has_vertex(v) {
            assert(self.wf_face(g.idx as int));
        }
    }

    /// In a well-formed store an edge back-link sits on `v` exactly when
    /// its edge holds `v`.
    pub proof fn lemma_edge_backlink_iff_incident(self, v: VertexPtr, g: EdgePtr)
        requires
            self.wf(),
            self.valid_v(v),
        ensures
            self.vertices@[v.idx as int].edges@.contains(g) <==> (self.valid_e(g)
                && self.edges@[g.idx as int].has_vertex(v)),
    {
        crate::lemma_vptr_eta(v);
        crate::lemma_eptr_eta(g);
        assert(self.wf_vertex(v.idx as int));
        if self.vertices@[v.idx as int].edges@.contains(g) {
            let j = choose|j: int|
                0 <= j < self.vertices@[v.idx as int].edges@.len() && self.vertices@[v.idx
                    as int].edges@[j] == g;
        }
        if self.valid_e(g) && self.edges@[g.idx as int].has_vertex(v) {
            assert(self.wf_edge(g.idx as int));
        }
    }

    /// The vertex indices held by at least one surviving face.  Collapsing
    /// an edge removes its vanishing vertex from this set for good, which
    /// is why repeated collapsing terminates.
    pub open spec fn spec_live_support(self) -> Set<int> {
        Set::new(
            |v: int|
                0 <= v < self.vertices@.len() && exists|k: int|
                    0 <= k < self.faces@.len() && self.faces_alive@[k] && (
                    #[trigger] self.faces@[k]).has_vertex(spec_vptr(v)),
        )
    }

    /// The support is finite: it sits inside the index range.
    pub proof fn lemma_support_finite(self)
        ensures
            self.spec_live_support().finite(),
            self.spec_live_support().len() <= self.vertices@.len(),
    {
        let n = self.vertices@.len() as int;
        let range = vstd::set_lib::set_int_range(0, n);
        vstd::set_lib::lemma_int_range(0, n);
        assert(self.spec_live_support().subset_of(range));
        vstd::set_lib::lemma_set_subset_finite(range, self.spec_live_support());
        vstd::set_lib::lemma_len_subset(self.spec_live_support(), range);
    }

    /// New empty store.
    pub fn new() -> (r: Store)
        ensures
            r.wf(),
            r.vertices@.len() == 0,
            r.faces@.len() == 0,
            r.edges@.len() == 0,
    {
        Store {
            vertices: Vec::new(),
            faces: Vec::new(),
            faces_alive: Vec::new(),
            edges: Vec::new(),
            edges_alive: Vec::new(),
        }
    }

    /// The vertex behind a handle.
    pub fn vertex(&self, p: VertexPtr) -> (r: &Vertex)
        requires
            self.valid_v(p),
        ensures
            *r == self.vertices@[p.idx as int],
    {
        &self.vertices[p.idx]
    }

    /// The face behind a handle; its data stays readable after retirement.
    pub fn face(&self, p: FacePtr) -> (r: &Face)
        requires
            self.valid_f(p),
        ensures
            *r == self.faces@[p.idx as int],
    {
        &self.faces[p.idx]
    }

    /// The edge behind a handle; its data stays readable after retirement.
    pub fn edge(&self, p: EdgePtr) -> (r: &Edge)
        requires
            self.valid_e(p),
        ensures
            *r == self.edges@[p.idx as int],
    {
        &self.edges[p.idx]
    }

    /// Resolve a face back-link: does the face still exist?
    pub fn face_live(&self, p: FacePtr) -> (r: bool)
        requires
            self.wf(),
            self.valid_f(p),
        ensures
            r == self.spec_face_live(p),
    {
        self.faces_alive[p.idx]
    }

    /// Resolve an edge back-link: does the edge still exist?
    pub fn edge_live(&self, p: EdgePtr) -> (r: bool)
        requires
            self.wf(),
            self.valid_e(p),
        ensures
            r == self.spec_edge_live(p),
    {
        self.edges_alive[p.idx]
    }

    /// Number of vertices.
    pub fn n_vertices(&self) -> (r: usize)
        ensures
            r == self.vertices@.len(),
    {
        self.vertices.len()
    }

    /// The id the next vertex will receive.
    pub fn fresh_vertex_id(&self) -> (r: u64)
        requires
            self.vertices@.len() < VERTEX_CAP,
        ensures
            r as int == spec_vertex_id(self.vertices@.len() as int),
    {
        vertex_id_at(self.vertices.len())
    }

    /// The id of a vertex is below `2^62`.
    pub proof fn lemma_id_in_range(&self, i: int)
        requires
            self.wf(),
            0 <= i < self.vertices@.len(),
        ensures
            0 <= self.vertices@[i].id < 0x4000000000000000,
    {
        assert(self.wf_vertex(i));
        lemma_vertex_id_bounds(i);
    }

    /// Append a vertex carrying the next id and no back-links.
    pub fn push_vertex(&mut self, v: Vertex)
        requires
            old(self).wf(),
            old(self).vertices@.len() < VERTEX_CAP,
            v.id == spec_vertex_id(old(self).vertices@.len() as int),
            v.point.in_range(),
            v.faces@ == Seq::<FacePtr>::empty(),
            v.edges@ == Seq::<EdgePtr>::empty(),
        ensures
            final(self).wf(),
            final(self).vertices@ == old(self).vertices@.push(v),
            final(self).faces@ == old(self).faces@,
            final(self).faces_alive@ == old(self).faces_alive@,
            final(self).edges@ == old(self).edges@,
            final(self).edges_alive@ == old(self).edges_alive@,
    {
        let ghost pre = *self;
        let ghost n = self.vertices@.len() as int;
        self.vertices.push(v);
        proof {
            assert forall|i: int| 0 <= i < self.vertices@.len() implies #[trigger] self.wf_vertex(
                i,
            ) by {
                if i < n {
                    assert(pre.wf_vertex(i));
                    assert(self.vertices@[i] == pre.vertices@[i]);
                } else {
                    assert(self.vertices@[i] == v);
                }
            }
            assert forall|k: int| 0 <= k < self.faces@.len() implies #[trigger] self.wf_face(
                k,
            ) by {
                assert(pre.wf_face(k));
                let f = self.faces@[k];
                assert(self.vertices@[f.a.idx as int] == pre.vertices@[f.a.idx as int]);
                assert(self.vertices@[f.b.idx as int] == pre.vertices@[f.b.idx as int]);
                assert(self.vertices@[f.c.idx as int] == pre.vertices@[f.c.idx as int]);
            }
            assert forall|k: int| 0 <= k < self.edges@.len() implies #[trigger] self.wf_edge(
                k,
            ) by {
                assert(pre.wf_edge(k));
                let e = self.edges@[k];
                assert(self.vertices@[e.a.idx as int] == pre.vertices@[e.a.idx as int]);
                assert(self.vertices@[e.b.idx as int] == pre.vertices@[e.b.idx as int]);
            }
        }
    }

    /// Append one face back-link to a vertex.  A registration primitive:
    /// call it only while establishing the invariant of a new face.
    fn push_face_back_ref(&mut self, v: VertexPtr, f: FacePtr)
        requires
            old(self).valid_v(v),
        ensures
            final(self).vertices@.len() == old(self).vertices@.len(),
            forall|i: int|
                0 <= i < old(self).vertices@.len() && i != v.idx as int ==> final(self).vertices@[i] == old(self).vertices@[i],
            crate::vertex::same_but_face_links(
                final(self).vertices@[v.idx as int],
                old(self).vertices@[v.idx as int],
            ),
            final(self).vertices@[v.idx as int].faces@ == old(self).vertices@[v.idx as int].faces@
                .push(f),
            final(self).faces@ == old(self).faces@,
            final(self).faces_alive@ == old(self).faces_alive@,
            final(self).edges@ == old(self).edges@,
            final(self).edges_alive@ == old(self).edges_alive@,
    {
        self.vertices[v.idx].faces.push(f);
    }

    /// Append one edge back-link to a vertex.  A registration primitive:
    /// call it only while establishing the invariant of a new edge.
    fn push_edge_back_ref(&mut self, v: VertexPtr, e: EdgePtr)
        requires
            old(self).valid_v(v),
        ensures
            final(self).vertices@.len() == old(self).vertices@.len(),
            forall|i: int|
                0 <= i < old(self).vertices@.len() && i != v.idx as int ==> final(self).vertices@[i] == old(self).vertices@[i],
            crate::vertex::same_but_edge_links(
                final(self).vertices@[v.idx as int],
                old(self).vertices@[v.idx as int],
            ),
            final(self).vertices@[v.idx as int].edges@ == old(self).vertices@[v.idx as int].edges@
                .push(e),
            final(self).faces@ == old(self).faces@,
            final(self).faces_alive@ == old(self).faces_alive@,
            final(self).edges@ == old(self).edges@,
            final(self).edges_alive@ == old(self).edges_alive@,
    {
        self.vertices[v.idx].edges.push(e);
    }

    /// Append a face and register it on each of its distinct vertices.
    pub fn push_face(&mut self, f: Face)
        requires
            old(self).wf(),
            old(self).valid_v(f.a),
            old(self).valid_v(f.b),
            old(self).valid_v(f.c),
        ensures
            final(self).wf(),
            final(self).faces@ == old(self).faces@.push(f),
            final(self).faces_alive@ == old(self).faces_alive@.push(true),
            final(self).edges@ == old(self).edges@,
            final(self).edges_alive@ == old(self).edges_alive@,
            final(self).vertices@.len() == old(self).vertices@.len(),
            forall|i: int|
                0 <= i < old(self).vertices@.len() ==> crate::vertex::same_but_face_links(
                    final(self).vertices@[i],
                    old(self).vertices@[i],
                ),
            forall|i: int|
                0 <= i < old(self).vertices@.len() ==> final(self).vertices@[i].faces@ == (
                if f.has_vertex(spec_vptr(i)) {
                    old(self).vertices@[i].faces@.push(spec_fptr(old(self).faces@.len() as int))
                } else {
                    old(self).vertices@[i].faces@
                }),
    {
        let ghost pre = *self;
        let ghost kk = self.faces@.len() as int;
        let k = crate::fptr(self.faces.len());
        self.faces.push(f);
        self.faces_alive.push(true);
        self.push_face_back_ref(f.a, k);
        if f.b != f.a {
            self.push_face_back_ref(f.b, k);
        }
        if f.c != f.a && f.c != f.b {
            self.push_face_back_ref(f.c, k);
        }
        proof {
            // Per-vertex effect: exactly one appended link on each distinct
            // slot vertex, nothing else touched.
            assert forall|i: int| 0 <= i < pre.vertices@.len() implies self.vertices@[i].faces@
                == (if f.has_vertex(spec_vptr(i)) {
                pre.vertices@[i].faces@.push(spec_fptr(kk))
            } else {
                pre.vertices@[i].faces@
            }) by {
                crate::lemma_vptr_eta(f.a);
                crate::lemma_vptr_eta(f.b);
                crate::lemma_vptr_eta(f.c);
            }
            assert forall|i: int| 0 <= i < self.vertices@.len() implies #[trigger] self.wf_vertex(
                i,
            ) by {
                assert(pre.wf_vertex(i));
                let vold = pre.vertices@[i];
                let vnew = self.vertices@[i];
                if f.has_vertex(spec_vptr(i)) {
                    assert(vnew.faces@ == vold.faces@.push(spec_fptr(kk)));
                    // The fresh link exceeds every stored index, so the
                    // list stays duplicate-free.
                    assert forall|j1: int, j2: int|
                        0 <= j1 < vnew.faces@.len() && 0 <= j2 < vnew.faces@.len() && j1
                            != j2 implies vnew.faces@[j1] != vnew.faces@[j2] by {
                        if j1 < vold.faces@.len() && j2 < vold.faces@.len() {
                            assert(vold.faces@.no_duplicates());
                        } else if j1 < vold.faces@.len() {
                            assert(vold.faces@[j1].idx < kk);
                        } else {
                            assert(j2 < vold.faces@.len());
                            assert(vold.faces@[j2].idx < kk);
                        }
                    }
                    assert(vnew.faces@.no_duplicates());
                } else {
                    assert(vnew.faces@ == vold.faces@);
                }
                assert forall|j: int| 0 <= j < vnew.faces@.len() implies self.valid_f(
                    #[trigger] vnew.faces@[j],
                ) && self.faces@[vnew.faces@[j].idx as int].has_vertex(spec_vptr(i)) by {
                    if j < vold.faces@.len() {
                        assert(vnew.faces@[j] == vold.faces@[j]);
                        assert(self.faces@[vold.faces@[j].idx as int]
                            == pre.faces@[vold.faces@[j].idx as int]);
                    } else {
                        assert(vnew.faces@[j] == spec_fptr(kk));
                    }
                }
            }
            assert forall|k2: int| 0 <= k2 < self.faces@.len() implies #[trigger] self.wf_face(
                k2,
            ) by {
                if k2 < kk {
                    assert(pre.wf_face(k2));
                    let fo = self.faces@[k2];
                    assert(fo == pre.faces@[k2]);
                    // contains is preserved under push
                    assert(pre.vertices@[fo.a.idx as int].faces@.contains(spec_fptr(k2)));
                    assert(pre.vertices@[fo.b.idx as int].faces@.contains(spec_fptr(k2)));
                    assert(pre.vertices@[fo.c.idx as int].faces@.contains(spec_fptr(k2)));
                    lemma_push_keeps_contains(
                        pre.vertices@[fo.a.idx as int].faces@,
                        self.vertices@[fo.a.idx as int].faces@,
                        spec_fptr(k2),
                    );
                    lemma_push_keeps_contains(
                        pre.vertices@[fo.b.idx as int].faces@,
                        self.vertices@[fo.b.idx as int].faces@,
                        spec_fptr(k2),
                    );
                    lemma_push_keeps_contains(
                        pre.vertices@[fo.c.idx as int].faces@,
                        self.vertices@[fo.c.idx as int].faces@,
                        spec_fptr(k2),
                    );
                } else {
                    assert(self.faces@[k2] == f);
                    assert(self.vertices@[f.a.idx as int].faces@.last() == spec_fptr(kk));
                    assert(self.vertices@[f.b.idx as int].faces@.last() == spec_fptr(kk));
                    assert(self.vertices@[f.c.idx as int].faces@.last() == spec_fptr(kk));
                }
            }
            assert forall|k2: int| 0 <= k2 < self.edges@.len() implies #[trigger] self.wf_edge(
                k2,
            ) by {
                assert(pre.wf_edge(k2));
                let e = self.edges@[k2];
                assert(crate::vertex::same_but_face_links(
                    self.vertices@[e.a.idx as int],
                    pre.vertices@[e.a.idx as int],
                ));
                assert(crate::vertex::same_but_face_links(
                    self.vertices@[e.b.idx as int],
                    pre.vertices@[e.b.idx as int],
                ));
            }
        }
    }

    /// Append an edge and register it on each of its distinct endpoints.
    pub fn push_edge(&mut self, e: Edge)
        requires
            old(self).wf(),
            old(self).valid_v(e.a),
            old(self).valid_v(e.b),
            e.id_sum == old(self).vertices@[e.a.idx as int].id + old(self).vertices@[e.b.idx
                as int].id,
        ensures
            final(self).wf(),
            final(self).edges@ == old(self).edges@.push(e),
            final(self).edges_alive@ == old(self).edges_alive@.push(true),
            final(self).faces@ == old(self).faces@,
            final(self).faces_alive@ == old(self).faces_alive@,
            final(self).vertices@.len() == old(self).vertices@.len(),
            forall|i: int|
                0 <= i < old(self).vertices@.len() ==> crate::vertex::same_but_edge_links(
                    final(self).vertices@[i],
                    old(self).vertices@[i],
                ),
            forall|i: int|
                0 <= i < old(self).vertices@.len() ==> final(self).vertices@[i].edges@ == (
                if e.has_vertex(spec_vptr(i)) {
                    old(self).vertices@[i].edges@.push(spec_eptr(old(self).edges@.len() as int))
                } else {
                    old(self).vertices@[i].edges@
                }),
    {
        let ghost pre = *self;
        let ghost kk = self.edges@.len() as int;
        let k = crate::eptr(self.edges.len());
        self.edges.push(e);
        self.edges_alive.push(true);
        self.push_edge_back_ref(e.a, k);
        if e.b != e.a {
            self.push_edge_back_ref(e.b, k);
        }
        proof {
            assert forall|i: int| 0 <= i < pre.vertices@.len() implies self.vertices@[i].edges@
                == (if e.has_vertex(spec_vptr(i)) {
                pre.vertices@[i].edges@.push(spec_eptr(kk))
            } else {
                pre.vertices@[i].edges@
            }) by {
                crate::lemma_vptr_eta(e.a);
                crate::lemma_vptr_eta(e.b);
            }
            assert forall|i: int| 0 <= i < self.vertices@.len() implies #[trigger] self.wf_vertex(
                i,
            ) by {
                assert(pre.wf_vertex(i));
                let vold = pre.vertices@[i];
                let vnew = self.vertices@[i];
                if e.has_vertex(spec_vptr(i)) {
                    assert(vnew.edges@ == vold.edges@.push(spec_eptr(kk)));
                    assert forall|j1: int, j2: int|
                        0 <= j1 < vnew.edges@.len() && 0 <= j2 < vnew.edges@.len() && j1
                            != j2 implies vnew.edges@[j1] != vnew.edges@[j2] by {
                        if j1 < vold.edges@.len() && j2 < vold.edges@.len() {
                            assert(vold.edges@.no_duplicates());
                        } else if j1 < vold.edges@.len() {
                            assert(vold.edges@[j1].idx < kk);
                        } else {
                            assert(j2 < vold.edges@.len());
                            assert(vold.edges@[j2].idx < kk);
                        }
                    }
                    assert(vnew.edges@.no_duplicates());
                } else {
                    assert(vnew.edges@ == vold.edges@);
                }
                assert forall|j: int| 0 <= j < vnew.edges@.len() implies self.valid_e(
                    #[trigger] vnew.edges@[j],
                ) && self.edges@[vnew.edges@[j].idx as int].has_vertex(spec_vptr(i)) by {
                    if j < vold.edges@.len() {
                        assert(vnew.edges@[j] == vold.edges@[j]);
                        assert(self.edges@[vold.edges@[j].idx as int]
                            == pre.edges@[vold.edges@[j].idx as int]);
                    } else {
                        assert(vnew.edges@[j] == spec_eptr(kk));
                    }
                }
            }
            assert forall|k2: int| 0 <= k2 < self.faces@.len() implies #[trigger] self.wf_face(
                k2,
            ) by {
                assert(pre.wf_face(k2));
                let fo = self.faces@[k2];
                assert(crate::vertex::same_but_edge_links(
                    self.vertices@[fo.a.idx as int],
                    pre.vertices@[fo.a.idx as int],
                ));
                assert(crate::vertex::same_but_edge_links(
                    self.vertices@[fo.b.idx as int],
                    pre.vertices@[fo.b.idx as int],
                ));
                assert(crate::vertex::same_but_edge_links(
                    self.vertices@[fo.c.idx as int],
                    pre.vertices@[fo.c.idx as int],
                ));
            }
            assert forall|k2: int| 0 <= k2 < self.edges@.len() implies #[trigger] self.wf_edge(
                k2,
            ) by {
                if k2 < kk {
                    assert(pre.wf_edge(k2));
                    let eo = self.edges@[k2];
                    assert(eo == pre.edges@[k2]);
                    lemma_push_keeps_contains(
                        pre.vertices@[eo.a.idx as int].edges@,
                        self.vertices@[eo.a.idx as int].edges@,
                        spec_eptr(k2),
                    );
                    lemma_push_keeps_contains(
                        pre.vertices@[eo.b.idx as int].edges@,
                        self.vertices@[eo.b.idx as int].edges@,
                        spec_eptr(k2),
                    );
                } else {
                    assert(self.edges@[k2] == e);
                    assert(self.vertices@[e.a.idx as int].edges@.last() == spec_eptr(kk));
                    assert(self.vertices@[e.b.idx as int].edges@.last() == spec_eptr(kk));
                }
            }
        }
    }

    /// Retire a face: back-links to it stop resolving.  Its data stays
    /// readable through its handle.
    pub fn retire_face(&mut self, p: FacePtr)
        requires
            old(self).wf(),
            old(self).valid_f(p),
        ensures
            final(self).wf(),
            final(self).faces_alive@ == old(self).faces_alive@.update(p.idx as int, false),
            final(self).faces@ == old(self).faces@,
            final(self).edges@ == old(self).edges@,
            final(self).edges_alive@ == old(self).edges_alive@,
            final(self).vertices@ == old(self).vertices@,
    {
        let ghost pre = *self;
        self.faces_alive[p.idx] = false;
        proof {
            lemma_wf_ignores_liveness(pre, *self);
        }
    }

    /// Retire every edge from slot `n` on: the bulk cleanup for edges made
    /// during one operation and not handed out.
    #[verifier::loop_isolation(false)]
    pub fn retire_edges_from(&mut self, n: usize)
        requires
            old(self).wf(),
        ensures
            final(self).wf(),
            final(self).edges@ == old(self).edges@,
            final(self).faces@ == old(self).faces@,
            final(self).faces_alive@ == old(self).faces_alive@,
            final(self).vertices@ == old(self).vertices@,
            final(self).edges_alive@.len() == old(self).edges_alive@.len(),
            forall|j: int|
                0 <= j < old(self).edges_alive@.len() ==> final(self).edges_alive@[j] == (if j < n {
                    old(self).edges_alive@[j]
                } else {
                    false
                }),
    {
        let mut i: usize = n;
        while i < self.edges_alive.len()
            invariant
                self.wf(),
                n <= i,
                self.edges@ == old(self).edges@,
                self.faces@ == old(self).faces@,
                self.faces_alive@ == old(self).faces_alive@,
                self.vertices@ == old(self).vertices@,
                self.edges_alive@.len() == old(self).edges_alive@.len(),
                forall|j: int|
                    0 <= j < old(self).edges_alive@.len() ==> self.edges_alive@[j] == (if j < n || j
                        >= i {
                        old(self).edges_alive@[j]
                    } else {
                        false
                    }),
            decreases self.edges_alive@.len() - i,
        {
            self.retire_edge(crate::eptr(i));
            i = i + 1;
        }
    }

    /// Retire an edge: back-links to it stop resolving.  Its data stays
    /// readable through its handle.
    pub fn retire_edge(&mut self, p: EdgePtr)
        requires
            old(self).wf(),
            old(self).valid_e(p),
        ensures
            final(self).wf(),
            final(self).edges_alive@ == old(self).edges_alive@.update(p.idx as int, false),
            final(self).faces@ == old(self).faces@,
            final(self).faces_alive@ == old(self).faces_alive@,
            final(self).edges@ == old(self).edges@,
            final(self).vertices@ == old(self).vertices@,
    {
        let ghost pre = *self;
        self.edges_alive[p.idx] = false;
        proof {
            lemma_wf_ignores_liveness(pre, *self);
        }
    }
}

/// Two edges of a well-formed store carry the same `id_sum` exactly when
/// they join the same unordered vertex pair: the Sidon property of the id
/// sequence at work.
pub proof fn lemma_same_id_sum_same_pair(store: Store, e1: Edge, e2: Edge)
    requires
        store.wf(),
        store.valid_v(e1.a),
        store.valid_v(e1.b),
        store.valid_v(e2.a),
        store.valid_v(e2.b),
        e1.id_sum == store.vertices@[e1.a.idx as int].id + store.vertices@[e1.b.idx as int].id,
        e2.id_sum == store.vertices@[e2.a.idx as int].id + store.vertices@[e2.b.idx as int].id,
    ensures
        (e1.id_sum == e2.id_sum) <==> e1.joins(e2.a, e2.b),
{
    assert(store.wf_vertex(e1.a.idx as int));
    assert(store.wf_vertex(e1.b.idx as int));
    assert(store.wf_vertex(e2.a.idx as int));
    assert(store.wf_vertex(e2.b.idx as int));
    if e1.id_sum == e2.id_sum {
        lemma_id_sum_determines_pair(
            e1.a.idx as int,
            e1.b.idx as int,
            e2.a.idx as int,
            e2.b.idx as int,
        );
        crate::lemma_vptr_eta(e1.a);
        crate::lemma_vptr_eta(e1.b);
        crate::lemma_vptr_eta(e2.a);
        crate::lemma_vptr_eta(e2.b);
    }
}

/// The endpoint pairs of a list of edges, read from the store.
pub open spec fn spec_edge_endpoints(store: Store, edges: Seq<EdgePtr>) -> Seq<
    (VertexPtr, VertexPtr),
> {
    Seq::new(
        edges.len(),
        |j: int| (store.edges@[edges[j].idx as int].a, store.edges@[edges[j].idx as int].b),
    )
}

/// A duplicate-free list of face handles of one store has at most as many
/// entries as the store has face slots.
pub proof fn lemma_face_seq_len_bounded(store: Store, s: Seq<FacePtr>)
    requires
        s.no_duplicates(),
        forall|i: int| 0 <= i < s.len() ==> store.valid_f(#[trigger] s[i]),
    ensures
        s.len() <= store.faces@.len(),
{
    let f = |p: FacePtr| p.idx as int;
    let t = s.map_values(f);
    assert forall|x: FacePtr, y: FacePtr| #[trigger] f(x) == #[trigger] f(y) implies x == y by {
        crate::lemma_fptr_eta(x);
        crate::lemma_fptr_eta(y);
    }
    s.lemma_no_duplicates_injective(f);
    assert forall|i: int| 0 <= i < t.len() implies 0 <= #[trigger] t[i] < store.faces@.len() by {
        assert(t[i] == f(s[i]));
        assert(store.valid_f(s[i]));
    }
    crate::seqs::lemma_int_seq_len_bounded(t, store.faces@.len() as int);
}

/// A pushed element does not disturb membership of the old elements.
proof fn lemma_push_keeps_contains<A>(s1: Seq<A>, s2: Seq<A>, x: A)
    requires
        s1.contains(x),
        s1.len() <= s2.len(),
        forall|i: int| 0 <= i < s1.len() ==> s2[i] == s1[i],
    ensures
        s2.contains(x),
{
    let i = choose|i: int| 0 <= i < s1.len() && s1[i] == x;
    assert(s2[i] == x);
}

/// Liveness flags do not take part in well-formedness.
proof fn lemma_wf_ignores_liveness(s1: Store, s2: Store)
    requires
        s1.wf(),
        s2.vertices@ == s1.vertices@,
        s2.faces@ == s1.faces@,
        s2.edges@ == s1.edges@,
        s2.faces_alive@.len() == s1.faces_alive@.len(),
        s2.edges_alive@.len() == s1.edges_alive@.len(),
    ensures
        s2.wf(),
{
    assert forall|i: int| 0 <= i < s2.vertices@.len() implies #[trigger] s2.wf_vertex(i) by {
        assert(s1.wf_vertex(i));
    }
    assert forall|k: int| 0 <= k < s2.faces@.len() implies #[trigger] s2.wf_face(k) by {
        assert(s1.wf_face(k));
    }
    assert forall|k: int| 0 <= k < s2.edges@.len() implies #[trigger] s2.wf_edge(k) by {
        assert(s1.wf_edge(k));
    }
}

} // verus!
