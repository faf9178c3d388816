//! A selection of entities: three identity-keyed sets of handles.
//!
//! A mesh may stand for a whole surface or for an arbitrary subset; it may
//! hold faces whose vertices are not in its vertex set and the other way
//! round.  Membership is handle identity, kept duplicate-free in insertion
//! order, so every query of the engine is deterministic.

use vstd::prelude::*;

use crate::face::Face;
use crate::seqs::lemma_no_dup_push;
use crate::seqs::lemma_no_dup_remove_value;
use crate::store::Store;
use crate::store::lemma_same_id_sum_same_pair;
use crate::edge::spec_edge_created;
use crate::EdgePtr;
use crate::Error;
use crate::FacePtr;
use crate::VertexPtr;

verus! {

/// Identity-keyed sets of vertex, face and edge handles.
pub struct Mesh {
    pub vertices: Vec<VertexPtr>,
    pub faces: Vec<FacePtr>,
    pub edges: Vec<EdgePtr>,
}

impl Mesh {
    /// Each of the three sets mentions a handle at most once.
    pub open spec fn wf(self) -> bool {
        &&& self.vertices@.no_duplicates()
        &&& self.faces@.no_duplicates()
        &&& self.edges@.no_duplicates()
    }

    /// Every handle of the mesh names an entity of `store`.
    pub open spec fn valid_in(self, store: Store) -> bool {
        &&& forall|i: int|
            0 <= i < self.vertices@.len() ==> store.valid_v(#[trigger] self.vertices@[i])
        &&& forall|i: int| 0 <= i < self.faces@.len() ==> store.valid_f(#[trigger] self.faces@[i])
        &&& forall|i: int| 0 <= i < self.edges@.len() ==> store.valid_e(#[trigger] self.edges@[i])
    }

    /// New empty mesh.
    pub fn new() -> (r: Mesh)
        ensures
            r.wf(),
            r.vertices@ == Seq::<VertexPtr>::empty(),
            r.faces@ == Seq::<FacePtr>::empty(),
            r.edges@ == Seq::<EdgePtr>::empty(),
    {
        Mesh { vertices: Vec::new(), faces: Vec::new(), edges: Vec::new() }
    }

    /// All vertices of the mesh, in insertion order.
    #[verifier::loop_isolation(false)]
    pub fn vertex_list(&self) -> (r: Vec<VertexPtr>)
        ensures
            r@ == self.vertices@,
    {
        let mut out: Vec<VertexPtr> = Vec::new();
        let mut i: usize = 0;
        while i < self.vertices.len()
            invariant
                i <= self.vertices@.len(),
                out@ == self.vertices@.subrange(0, i as int),
            decreases self.vertices@.len() - i,
        {
            out.push(self.vertices[i]);
            i = i + 1;
            proof {
                assert(out@ =~= self.vertices@.subrange(0, i as int));
            }
        }
        proof {
            assert(out@ =~= self.vertices@);
        }
        out
    }

    /// All faces of the mesh, in insertion order.
    #[verifier::loop_isolation(false)]
    pub fn face_list(&self) -> (r: Vec<FacePtr>)
        ensures
            r@ == self.faces@,
    {
        let mut out: Vec<FacePtr> = Vec::new();
        let mut i: usize = 0;
        while i < self.faces.len()
            invariant
                i <= self.faces@.len(),
                out@ == self.faces@.subrange(0, i as int),
            decreases self.faces@.len() - i,
        {
            out.push(self.faces[i]);
            i = i + 1;
            proof {
                assert(out@ =~= self.faces@.subrange(0, i as int));
            }
        }
        proof {
            assert(out@ =~= self.faces@);
        }
        out
    }

    /// Is `v` a member of the vertex set?
    #[verifier::loop_isolation(false)]
    pub fn contains_vertex(&self, v: VertexPtr) -> (r: bool)
        ensures
            r == self.vertices@.contains(v),
    {
        let mut i: usize = 0;
        while i < self.vertices.len()
            invariant
                i <= self.vertices@.len(),
                forall|j: int| 0 <= j < i ==> self.vertices@[j] != v,
            decreases self.vertices@.len() - i,
        {
            if self.vertices[i] == v {
                return true;
            }
            i = i + 1;
        }
        false
    }

    /// Is `f` a member of the face set?
    #[verifier::loop_isolation(false)]
    pub fn contains_face(&self, f: FacePtr) -> (r: bool)
        ensures
            r == self.faces@.contains(f),
    {
        let mut i: usize = 0;
        while i < self.faces.len()
            invariant
                i <= self.faces@.len(),
                forall|j: int| 0 <= j < i ==> self.faces@[j] != f,
            decreases self.faces@.len() - i,
        {
            if self.faces[i] == f {
                return true;
            }
            i = i + 1;
        }
        false
    }

    /// Is `e` a member of the edge set?
    #[verifier::loop_isolation(false)]
    pub fn contains_edge(&self, e: EdgePtr) -> (r: bool)
        ensures
            r == self.edges@.contains(e),
    {
        let mut i: usize = 0;
        while i < self.edges.len()
            invariant
                i <= self.edges@.len(),
                forall|j: int| 0 <= j < i ==> self.edges@[j] != e,
            decreases self.edges@.len() - i,
        {
            if self.edges[i] == e {
                return true;
            }
            i = i + 1;
        }
        false
    }

    /// Insert a vertex handle; a handle already present is not repeated.
    pub fn insert_vertex(&mut self, v: VertexPtr)
        requires
            old(self).wf(),
        ensures
            final(self).wf(),
            final(self).vertices@ == (if old(self).vertices@.contains(v) {
                old(self).vertices@
            } else {
                old(self).vertices@.push(v)
            }),
            final(self).faces@ == old(self).faces@,
            final(self).edges@ == old(self).edges@,
            forall|y: VertexPtr| #[trigger]
                final(self).vertices@.contains(y) <==> (old(self).vertices@.contains(y) || y
                    == v),
    {
        if !self.contains_vertex(v) {
            proof {
                lemma_no_dup_push(self.vertices@, v);
            }
            self.vertices.push(v);
        }
        proof {
            assert forall|y: VertexPtr| #[trigger]
                self.vertices@.contains(y) <==> (old(self).vertices@.contains(y) || y == v) by {
                crate::seqs::lemma_push_contains_iff(old(self).vertices@, v, y);
            }
        }
    }

    /// Insert a face handle; a handle already present is not repeated.
    pub fn insert_face(&mut self, f: FacePtr)
        requires
            old(self).wf(),
        ensures
            final(self).wf(),
            final(self).faces@ == (if old(self).faces@.contains(f) {
                old(self).faces@
            } else {
                old(self).faces@.push(f)
            }),
            final(self).vertices@ == old(self).vertices@,
            final(self).edges@ == old(self).edges@,
            forall|y: FacePtr| #[trigger]
                final(self).faces@.contains(y) <==> (old(self).faces@.contains(y) || y == f),
    {
        if !self.contains_face(f) {
            proof {
                lemma_no_dup_push(self.faces@, f);
            }
            self.faces.push(f);
        }
        proof {
            assert forall|y: FacePtr| #[trigger]
                self.faces@.contains(y) <==> (old(self).faces@.contains(y) || y == f) by {
                crate::seqs::lemma_push_contains_iff(old(self).faces@, f, y);
            }
        }
    }

    /// Insert an edge handle; a handle already present is not repeated.
    pub fn insert_edge(&mut self, e: EdgePtr)
        requires
            old(self).wf(),
        ensures
            final(self).wf(),
            final(self).edges@ == (if old(self).edges@.contains(e) {
                old(self).edges@
            } else {
                old(self).edges@.push(e)
            }),
            final(self).vertices@ == old(self).vertices@,
            final(self).faces@ == old(self).faces@,
            forall|y: EdgePtr| #[trigger]
                final(self).edges@.contains(y) <==> (old(self).edges@.contains(y) || y == e),
    {
        if !self.contains_edge(e) {
            proof {
                lemma_no_dup_push(self.edges@, e);
            }
            self.edges.push(e);
        }
        proof {
            assert forall|y: EdgePtr| #[trigger]
                self.edges@.contains(y) <==> (old(self).edges@.contains(y) || y == e) by {
                crate::seqs::lemma_push_contains_iff(old(self).edges@, e, y);
            }
        }
    }

    /// A vertex is used by a face of this mesh.
    pub open spec fn spec_uses_vertex(self, store: Store, w: VertexPtr) -> bool {
        exists|i: int|
            0 <= i < self.faces@.len() && store.faces@[(#[trigger] self.faces@[i]).idx
                as int].has_vertex(w)
    }

    /// The set of vertices used by the faces of this mesh, as a mesh.
    #[verifier::loop_isolation(false)]
    pub fn face_vertices(&self, store: &Store) -> (r: Mesh)
        requires
            store.wf(),
            self.valid_in(*store),
        ensures
            r.wf(),
            r.faces@ == Seq::<FacePtr>::empty(),
            r.edges@ == Seq::<EdgePtr>::empty(),
            forall|w: VertexPtr| #[trigger]
                r.vertices@.contains(w) <==> self.spec_uses_vertex(*store, w),
    {
        let mut r = Mesh::new();
        let mut i: usize = 0;
        while i < self.faces.len()
            invariant
                store.wf(),
                self.valid_in(*store),
                i <= self.faces@.len(),
                r.wf(),
                r.faces@ == Seq::<FacePtr>::empty(),
                r.edges@ == Seq::<EdgePtr>::empty(),
                forall|w: VertexPtr| #[trigger]
                    r.vertices@.contains(w) <==> exists|j: int|
                        0 <= j < i && store.faces@[(#[trigger] self.faces@[j]).idx
                            as int].has_vertex(w),
            decreases self.faces@.len() - i,
        {
            let fp = self.faces[i];
            let f = *store.face(fp);
            let ghost mid0 = r.vertices@;
            r.insert_vertex(f.a);
            r.insert_vertex(f.b);
            r.insert_vertex(f.c);
            i = i + 1;
            proof {
                assert forall|w: VertexPtr| #[trigger] r.vertices@.contains(w) implies exists|
                    j: int,
                |
                    0 <= j < i && store.faces@[(#[trigger] self.faces@[j]).idx as int].has_vertex(
                        w,
                    ) by {
                    if mid0.contains(w) {
                        let j = choose|j: int|
                            0 <= j < i - 1 && store.faces@[(#[trigger] self.faces@[j]).idx
                                as int].has_vertex(w);
                        assert(0 <= j < i && store.faces@[(self.faces@[j]).idx
                            as int].has_vertex(w));
                    } else {
                        assert(f.has_vertex(w));
                        assert(0 <= i - 1 < i && store.faces@[(self.faces@[i - 1]).idx
                            as int].has_vertex(w));
                    }
                }
                assert forall|w: VertexPtr|
                    exists|j: int|
                        0 <= j < i && store.faces@[(#[trigger] self.faces@[j]).idx
                            as int].has_vertex(w) implies #[trigger] r.vertices@.contains(w) by {
                    let j = choose|j: int|
                        0 <= j < i && store.faces@[(#[trigger] self.faces@[j]).idx
                            as int].has_vertex(w);
                    if j < i - 1 {
                        assert(mid0.contains(w));
                    } else {
                        assert(f.has_vertex(w));
                    }
                }
            }
        }
        r
    }

    /// Remove a face handle from the face set.  The face itself is not
    /// touched: another mesh or the store may still hold it.
    #[verifier::loop_isolation(false)]
    pub fn remove_face(&mut self, f: FacePtr)
        requires
            old(self).wf(),
        ensures
            final(self).wf(),
            final(self).faces@ == old(self).faces@.remove_value(f),
            !final(self).faces@.contains(f),
            forall|y: FacePtr| #[trigger]
                final(self).faces@.contains(y) <==> old(self).faces@.contains(y) && y != f,
            final(self).vertices@ == old(self).vertices@,
            final(self).edges@ == old(self).edges@,
    {
        proof {
            lemma_no_dup_remove_value(self.faces@, f);
            self.faces@.index_of_first_ensures(f);
        }
        let ghost start = self.faces@;
        let mut i: usize = 0;
        while i < self.faces.len()
            invariant
                self.faces@ == start,
                self.vertices@ == old(self).vertices@,
                self.edges@ == old(self).edges@,
                i <= start.len(),
                forall|j: int| 0 <= j < i ==> start[j] != f,
            decreases start.len() - i,
        {
            if self.faces[i] == f {
                self.faces.remove(i);
                proof {
                    assert(start.contains(f)) by {
                        assert(start[i as int] == f);
                    }
                    let idx = start.index_of_first(f).unwrap();
                    if idx < i as int {
                        assert(start[idx] != f);
                    }
                    assert(idx == i as int);
                    assert(self.faces@ == start.remove_value(f));
                }
                return ;
            }
            i = i + 1;
        }
        proof {
            assert(!start.contains(f));
            assert(self.faces@ == start.remove_value(f));
        }
    }

    /// All faces of the mesh present every shared boundary pair in
    /// opposite order to every neighbour: no face is flipped against its
    /// surroundings.  Adjacency comes from the vertices' back-links, so a
    /// neighbour outside the mesh counts too.
    pub open spec fn spec_consistent_orientation(self, store: Store) -> bool {
        forall|i: int|
            0 <= i < self.faces@.len() ==> !store.spec_adjacent_is_flipped(
                #[trigger] self.faces@[i],
            )
    }

    /// Whether all faces of the mesh are consistently oriented: no face
    /// shares an ordered boundary pair with any of its neighbours.
    #[verifier::loop_isolation(false)]
    pub fn consistent_orientation(&self, store: &Store) -> (r: bool)
        requires
            store.wf(),
            self.valid_in(*store),
        ensures
            r == self.spec_consistent_orientation(*store),
    {
        let mut i: usize = 0;
        while i < self.faces.len()
            invariant
                i <= self.faces@.len(),
                forall|j: int|
                    0 <= j < i ==> !store.spec_adjacent_is_flipped(#[trigger] self.faces@[j]),
            decreases self.faces@.len() - i,
        {
            let fp = self.faces[i];
            if fp.adjacent_is_flipped(store) {
                return false;
            }
            i = i + 1;
        }
        true
    }

    /// Flip the sense of a face: retire nothing, construct the flipped
    /// face, and swap the handles in this mesh's face set.
    #[verifier::loop_isolation(false)]
    pub fn flip_face(&mut self, store: &mut Store, f: FacePtr)
        requires
            old(self).wf(),
            old(self).valid_in(*old(store)),
            old(store).wf(),
            old(store).valid_f(f),
        ensures
            final(store).wf(),
            final(self).wf(),
            final(self).valid_in(*final(store)),
            crate::face::spec_face_created(
                *old(store),
                *final(store),
                old(store).spec_flipped_data(f),
                crate::spec_fptr(old(store).faces@.len() as int),
            ),
            final(self).faces@ == old(self).faces@.remove_value(f).push(
                crate::spec_fptr(old(store).faces@.len() as int),
            ),
            final(self).vertices@ == old(self).vertices@,
            final(self).edges@ == old(self).edges@,
    {
        let n = store.faces.len();
        let f2 = f.flipped(store);
        self.remove_face(f);
        proof {
            lemma_no_dup_remove_value(old(self).faces@, f);
            assert(f2.idx == n);
            if self.faces@.contains(f2) {
                assert(old(self).faces@.contains(f2));
                let j = choose|j: int| 0 <= j < old(self).faces@.len() && old(self).faces@[j] == f2;
                assert(old(store).valid_f(old(self).faces@[j]));
                assert(old(self).faces@[j].idx < n);
                assert(false);
            }
        }
        self.insert_face(f2);
        proof {
            assert forall|i: int| 0 <= i < self.faces@.len() implies store.valid_f(
                #[trigger] self.faces@[i],
            ) by {
                crate::seqs::lemma_push_contains_iff(old(self).faces@.remove_value(f), f2, self.faces@[i]);
                assert(self.faces@.contains(self.faces@[i]));
                if self.faces@[i] != f2 {
                    assert(old(self).faces@.contains(self.faces@[i]));
                    let j = choose|j: int|
                        0 <= j < old(self).faces@.len() && old(self).faces@[j] == self.faces@[i];
                }
            }
        }
    }

    /// Remove a vertex handle from the vertex set, and with `delete_faces`
    /// also remove every surviving face built on it from the face set.
    #[verifier::loop_isolation(false)]
    pub fn remove_vertex(&mut self, store: &Store, v: VertexPtr, delete_faces: bool)
        requires
            old(self).wf(),
            store.wf(),
            store.valid_v(v),
        ensures
            final(self).wf(),
            final(self).vertices@ == old(self).vertices@.remove_value(v),
            final(self).edges@ == old(self).edges@,
            !delete_faces ==> final(self).faces@ == old(self).faces@,
            delete_faces ==> forall|g: FacePtr| #[trigger]
                final(self).faces@.contains(g) <==> (old(self).faces@.contains(g)
                    && !store.spec_vertex_face(v, g)),
    {
        if delete_faces {
            let adjacent = v.adjacent_faces(store);
            let ghost before = self.faces@;
            let mut i: usize = 0;
            while i < adjacent.faces.len()
                invariant
                    self.wf(),
                    adjacent.faces@ == store.live_face_backlinks(v),
                    self.vertices@ == old(self).vertices@,
                    self.edges@ == old(self).edges@,
                    i <= adjacent.faces@.len(),
                    forall|g: FacePtr| #[trigger]
                        self.faces@.contains(g) <==> (before.contains(g)
                            && !adjacent.faces@.subrange(0, i as int).contains(g)),
                decreases adjacent.faces@.len() - i,
            {
                let g = adjacent.faces[i];
                proof {
                    lemma_no_dup_remove_value(self.faces@, g);
                }
                let ghost mid = self.faces@;
                self.remove_face(g);
                i = i + 1;
                proof {
                    let pre = adjacent.faces@.subrange(0, i as int - 1);
                    let cur = adjacent.faces@.subrange(0, i as int);
                    assert(cur == pre.push(g)) by {
                        assert(cur =~= pre.push(g));
                    }
                    assert forall|y: FacePtr| #[trigger] self.faces@.contains(y) implies (
                    before.contains(y) && !cur.contains(y)) by {
                        assert(mid.contains(y) && y != g);
                        assert(!pre.contains(y));
                    }
                    assert forall|y: FacePtr|
                        before.contains(y) && !cur.contains(y) implies #[trigger] self.faces@
                        .contains(y) by {
                        assert(!pre.contains(y));
                        assert(y != g) by {
                            assert(cur[cur.len() - 1] == g);
                        }
                        assert(mid.contains(y));
                    }
                }
            }
            proof {
                assert forall|g: FacePtr| #[trigger]
                    self.faces@.contains(g) <==> (before.contains(g) && !store.spec_vertex_face(
                        v,
                        g,
                    )) by {
                    assert(adjacent.faces@.subrange(0, adjacent.faces@.len() as int)
                        =~= adjacent.faces@);
                    crate::seqs::lemma_filter_contains_iff(
                        store.vertices@[v.idx as int].faces@,
                        |f: FacePtr| store.spec_face_live(f),
                        g,
                    );
                    store.lemma_face_backlink_iff_incident(v, g);
                }
            }
        }
        proof {
            lemma_no_dup_remove_value(self.vertices@, v);
            self.vertices@.index_of_first_ensures(v);
        }
        let ghost faces_mid = self.faces@;
        let ghost start = self.vertices@;
        let mut i: usize = 0;
        while i < self.vertices.len()
            invariant
                self.vertices@ == start,
                self.faces@ == faces_mid,
                self.edges@ == old(self).edges@,
                i <= start.len(),
                forall|j: int| 0 <= j < i ==> start[j] != v,
            decreases start.len() - i,
        {
            if self.vertices[i] == v {
                self.vertices.remove(i);
                proof {
                    assert(start.contains(v)) by {
                        assert(start[i as int] == v);
                    }
                    let idx = start.index_of_first(v).unwrap();
                    if idx < i as int {
                        assert(start[idx] != v);
                    }
                    assert(idx == i as int);
                    assert(self.vertices@ == start.remove_value(v));
                }
                return ;
            }
            i = i + 1;
        }
        proof {
            assert(!start.contains(v));
            assert(self.vertices@ == start.remove_value(v));
        }
    }
}

/// The endpoints `x`, `y` are the unordered pair `{u, w}`.
pub open spec fn spec_pair_eq(x: VertexPtr, y: VertexPtr, u: VertexPtr, w: VertexPtr) -> bool {
    (x == u && y == w) || (x == w && y == u)
}

/// One face flips the parity of the unordered pair `{u, w}` once for each
/// of its three boundary edges joining the pair.
pub open spec fn spec_face_pair_flip(f: Face, u: VertexPtr, w: VertexPtr) -> bool {
    (spec_pair_eq(f.a, f.b, u, w) ^ spec_pair_eq(f.b, f.c, u, w)) ^ spec_pair_eq(f.c, f.a, u, w)
}

/// The unordered pair `{u, w}` is a boundary pair of the listed faces: it
/// occurs an odd number of times among their boundary edges, so it borders
/// an odd number of faces — for a surface without overlaps, exactly one.
pub open spec fn spec_boundary_parity(
    store: Store,
    faces: Seq<FacePtr>,
    u: VertexPtr,
    w: VertexPtr,
) -> bool
    decreases faces.len(),
{
    if faces.len() == 0 {
        false
    } else {
        spec_boundary_parity(store, faces.drop_last(), u, w) ^ spec_face_pair_flip(
            store.faces@[faces.last().idx as int],
            u,
            w,
        )
    }
}

/// Some bucketed edge joins the unordered pair `{u, w}`.
pub open spec fn spec_open_joins(
    store: Store,
    open: Seq<EdgePtr>,
    u: VertexPtr,
    w: VertexPtr,
) -> bool {
    exists|jj: int|
        0 <= jj < open.len() && store.edges@[(#[trigger] open[jj]).idx as int].joins(u, w)
}

/// The parity bucket is healthy: every entry is a live edge of the store
/// and no two entries carry the same direction-independent identity.
pub open spec fn spec_open_ok(store: Store, open: Seq<EdgePtr>) -> bool {
    &&& forall|jj: int|
        0 <= jj < open.len() ==> store.valid_e(#[trigger] open[jj]) && store.spec_edge_live(
            open[jj],
        )
    &&& forall|j1: int, j2: int|
        0 <= j1 < open.len() && 0 <= j2 < open.len() && j1 != j2 ==> store.edges@[(
        #[trigger] open[j1]).idx as int].id_sum != store.edges@[(#[trigger] open[j2]).idx
            as int].id_sum
}

/// Flip the parity bucket with one fresh edge: a bucketed edge with the
/// same identity means the pair is interior — both instances retire;
/// otherwise the edge joins the bucket.
#[verifier::loop_isolation(false)]
#[verifier::rlimit(60)]
fn parity_step(open: &mut Vec<EdgePtr>, store: &mut Store, e: EdgePtr)
    requires
        old(store).wf(),
        old(store).valid_e(e),
        old(store).spec_edge_live(e),
        !old(open)@.contains(e),
        spec_open_ok(*old(store), old(open)@),
    ensures
        final(store).wf(),
        final(store).edges@ == old(store).edges@,
        final(store).faces@ == old(store).faces@,
        final(store).faces_alive@ == old(store).faces_alive@,
        final(store).vertices@ == old(store).vertices@,
        spec_open_ok(*final(store), final(open)@),
        forall|j: int|
            0 <= j < old(store).edges_alive@.len() && final(store).edges_alive@[j] != old(
                store,
            ).edges_alive@[j] ==> (j == e.idx as int || exists|jj: int|
                0 <= jj < old(open)@.len() && (#[trigger] old(open)@[jj]).idx as int == j),
        forall|p: EdgePtr| #[trigger]
            final(open)@.contains(p) ==> old(open)@.contains(p) || p == e,
        forall|u: VertexPtr, w: VertexPtr|
            old(store).valid_v(u) && old(store).valid_v(w) ==> (#[trigger] spec_open_joins(
                *final(store),
                final(open)@,
                u,
                w,
            ) <==> (spec_open_joins(*old(store), old(open)@, u, w) ^ old(store).edges@[e.idx
                as int].joins(u, w))),
{
    proof {
        assert(store.wf_edge(e.idx as int));
    }
    let esum = store.edge(e).id_sum;
    let ghost open0 = open@;
    let mut jj: usize = 0;
    while jj < open.len()
        invariant
            *store == *old(store),
            open@ == open0,
            jj <= open0.len(),
            forall|j2: int|
                0 <= j2 < jj ==> store.edges@[(#[trigger] open0[j2]).idx as int].id_sum != esum,
        decreases open0.len() - jj,
    {
        proof {
            assert(store.valid_e(open0[jj as int]));
        }
        let m = open[jj];
        if store.edge(m).id_sum == esum {
            open.remove(jj);
            store.retire_edge(m);
            store.retire_edge(e);
            proof {
                open0.remove_ensures(jj as int);
                assert(store.wf_edge(m.idx as int));
                assert(store.wf_edge(e.idx as int));
                lemma_same_id_sum_same_pair(
                    *store,
                    store.edges@[m.idx as int],
                    store.edges@[e.idx as int],
                );
                let ed = store.edges@[e.idx as int];
                let md = store.edges@[m.idx as int];
                assert(md.joins(ed.a, ed.b));
                assert forall|j1: int, j2: int|
                    0 <= j1 < open@.len() && 0 <= j2 < open@.len() && j1 != j2 implies store.edges@[
                    (#[trigger] open@[j1]).idx as int].id_sum != store.edges@[(
                #[trigger] open@[j2]).idx as int].id_sum by {
                    let k1: int = if j1 < jj {
                        j1
                    } else {
                        j1 + 1
                    };
                    let k2: int = if j2 < jj {
                        j2
                    } else {
                        j2 + 1
                    };
                    assert(open@[j1] == open0[k1] && open@[j2] == open0[k2]);
                }
                assert forall|u: VertexPtr, w: VertexPtr|
                    store.valid_v(u) && store.valid_v(w) implies (#[trigger] spec_open_joins(
                    *store,
                    open@,
                    u,
                    w,
                ) <==> (spec_open_joins(*old(store), open0, u, w) ^ ed.joins(u, w))) by {
                    if spec_open_joins(*store, open@, u, w) {
                        let j1 = choose|j1: int|
                            0 <= j1 < open@.len() && store.edges@[(#[trigger] open@[j1]).idx
                                as int].joins(u, w);
                        let k1: int = if j1 < jj {
                            j1
                        } else {
                            j1 + 1
                        };
                        assert(open@[j1] == open0[k1]);
                        assert(spec_open_joins(*old(store), open0, u, w));
                        // A second member joining the same pair would repeat
                        // the identity `esum`.
                        if ed.joins(u, w) {
                            assert(store.wf_edge(open0[k1].idx as int));
                            lemma_same_id_sum_same_pair(
                                *store,
                                store.edges@[open0[k1].idx as int],
                                ed,
                            );
                            assert(false);
                        }
                    } else {
                        if spec_open_joins(*old(store), open0, u, w) && !ed.joins(u, w) {
                            let k1 = choose|k1: int|
                                0 <= k1 < open0.len() && store.edges@[(#[trigger] open0[k1]).idx
                                    as int].joins(u, w);
                            assert(store.wf_edge(open0[k1].idx as int));
                            assert(k1 != jj) by {
                                if k1 == jj {
                                    lemma_same_id_sum_same_pair(
                                        *store,
                                        store.edges@[open0[k1].idx as int],
                                        ed,
                                    );
                                }
                            }
                            let j1: int = if k1 < jj {
                                k1
                            } else {
                                k1 - 1
                            };
                            assert(open@[j1] == open0[k1]);
                            assert(spec_open_joins(*store, open@, u, w));
                        }
                        if !spec_open_joins(*old(store), open0, u, w) && ed.joins(u, w) {
                            assert(spec_pair_eq(ed.a, ed.b, u, w));
                            assert(md.joins(u, w));
                            assert(store.edges@[(open0[jj as int]).idx as int].joins(u, w));
                            assert(spec_open_joins(*old(store), open0, u, w));
                        }
                    }
                }
            }
            return ;
        }
        jj = jj + 1;
    }
    open.push(e);
    proof {
        assert forall|u: VertexPtr, w: VertexPtr|
            store.valid_v(u) && store.valid_v(w) implies (#[trigger] spec_open_joins(
            *store,
            open@,
            u,
            w,
        ) <==> (spec_open_joins(*old(store), open0, u, w) ^ store.edges@[e.idx
            as int].joins(u, w))) by {
            let ed = store.edges@[e.idx as int];
            if spec_open_joins(*store, open@, u, w) {
                let j1 = choose|j1: int|
                    0 <= j1 < open@.len() && store.edges@[(#[trigger] open@[j1]).idx
                        as int].joins(u, w);
                if j1 < open0.len() {
                    assert(open@[j1] == open0[j1]);
                    assert(spec_open_joins(*old(store), open0, u, w));
                    if ed.joins(u, w) {
                        assert(store.wf_edge(open0[j1].idx as int));
                        assert(store.wf_edge(e.idx as int));
                        lemma_same_id_sum_same_pair(*store, store.edges@[open0[j1].idx as int], ed);
                        assert(false);
                    }
                } else {
                    assert(open@[j1] == e);
                    if spec_open_joins(*old(store), open0, u, w) {
                        let k1 = choose|k1: int|
                            0 <= k1 < open0.len() && store.edges@[(#[trigger] open0[k1]).idx
                                as int].joins(u, w);
                        assert(store.wf_edge(open0[k1].idx as int));
                        assert(store.wf_edge(e.idx as int));
                        lemma_same_id_sum_same_pair(*store, store.edges@[open0[k1].idx as int], ed);
                        assert(false);
                    }
                }
            } else {
                if spec_open_joins(*old(store), open0, u, w) {
                    let j1 = choose|j1: int|
                        0 <= j1 < open0.len() && store.edges@[(#[trigger] open0[j1]).idx
                            as int].joins(u, w);
                    assert(open@[j1] == open0[j1]);
                    assert(spec_open_joins(*store, open@, u, w));
                }
                if ed.joins(u, w) {
                    assert(open@[open@.len() - 1] == e);
                    assert(spec_open_joins(*store, open@, u, w));
                }
            }
        }
        assert forall|j1: int, j2: int|
            0 <= j1 < open@.len() && 0 <= j2 < open@.len() && j1 != j2 implies store.edges@[(
        #[trigger] open@[j1]).idx as int].id_sum != store.edges@[(#[trigger] open@[j2]).idx
            as int].id_sum by {
            if j1 < open0.len() && j2 < open0.len() {
                assert(open@[j1] == open0[j1] && open@[j2] == open0[j2]);
            } else if j1 < open0.len() {
                assert(open@[j1] == open0[j1] && open@[j2] == e);
            } else {
                assert(open@[j1] == e && open@[j2] == open0[j2]);
            }
        }
    }
}

/// Bucket membership of a pair only reads the bucketed edges' data, so it
/// survives a store change that keeps that data.
proof fn lemma_open_joins_stable(
    s1: Store,
    s2: Store,
    open: Seq<EdgePtr>,
    u: VertexPtr,
    w: VertexPtr,
)
    requires
        forall|jj: int|
            0 <= jj < open.len() ==> s1.valid_e(#[trigger] open[jj]) && s2.valid_e(open[jj])
                && s2.edges@[open[jj].idx as int] == s1.edges@[open[jj].idx as int],
    ensures
        spec_open_joins(s2, open, u, w) == spec_open_joins(s1, open, u, w),
{
    if spec_open_joins(s2, open, u, w) {
        let jj = choose|jj: int|
            0 <= jj < open.len() && s2.edges@[(#[trigger] open[jj]).idx as int].joins(u, w);
        assert(s1.edges@[open[jj].idx as int].joins(u, w));
    }
    if spec_open_joins(s1, open, u, w) {
        let jj = choose|jj: int|
            0 <= jj < open.len() && s1.edges@[(#[trigger] open[jj]).idx as int].joins(u, w);
        assert(s2.edges@[open[jj].idx as int].joins(u, w));
    }
}

/// The first entry of `ps`, from position `from` on, that touches vertex
/// `v`; `ps.len()` when none does.
pub open spec fn spec_find_touch(
    ps: Seq<(VertexPtr, VertexPtr)>,
    v: VertexPtr,
    from: int,
) -> int
    decreases ps.len() - from,
{
    if !(0 <= from < ps.len()) {
        ps.len() as int
    } else if ps[from].0 == v || ps[from].1 == v {
        from
    } else {
        spec_find_touch(ps, v, from + 1)
    }
}

/// One walk over the remaining boundary pairs, starting at position `cur`:
/// drop the current pair, step to the first remaining pair that touches its
/// head vertex, and close one loop whenever no such pair remains; then
/// start afresh.  This is the loop count of the boundary walk, defined over
/// the pair list alone.
pub open spec fn spec_walk_loops(rem: Seq<(VertexPtr, VertexPtr)>, cur: int) -> int
    decreases rem.len(),
{
    if !(0 <= cur < rem.len()) {
        0
    } else {
        let p = rem[cur];
        let rem2 = rem.remove(cur);
        let nxt = spec_find_touch(rem2, p.1, 0);
        if nxt < rem2.len() {
            spec_walk_loops(rem2, nxt)
        } else if rem2.len() > 0 {
            1 + spec_walk_loops(rem2, 0)
        } else {
            1
        }
    }
}

/// The number of loops the boundary walk closes over a pair list.
pub open spec fn spec_loop_count(ps: Seq<(VertexPtr, VertexPtr)>) -> int {
    if ps.len() == 0 {
        0
    } else {
        spec_walk_loops(ps, 0)
    }
}

/// The position of the first pair touching `v`, or the length when none
/// does.
#[verifier::loop_isolation(false)]
fn find_touch(rem: &Vec<(VertexPtr, VertexPtr)>, v: VertexPtr) -> (r: usize)
    ensures
        r as int == spec_find_touch(rem@, v, 0),
{
    let mut i: usize = 0;
    while i < rem.len()
        invariant
            i <= rem@.len(),
            spec_find_touch(rem@, v, 0) == spec_find_touch(rem@, v, i as int),
        decreases rem@.len() - i,
    {
        let p = rem[i];
        if p.0 == v || p.1 == v {
            return i;
        }
        i = i + 1;
    }
    rem.len()
}

/// Count the loops the boundary walk closes over `pairs`: walk from pair
/// to pair through shared vertices, one loop per walk that dies out.
#[verifier::loop_isolation(false)]
pub fn count_loops(pairs: &Vec<(VertexPtr, VertexPtr)>) -> (r: usize)
    ensures
        r as int == spec_loop_count(pairs@),
{
    if pairs.len() == 0 {
        return 0;
    }
    let mut rem: Vec<(VertexPtr, VertexPtr)> = Vec::new();
    let mut k: usize = 0;
    while k < pairs.len()
        invariant
            k <= pairs@.len(),
            rem@ == pairs@.subrange(0, k as int),
        decreases pairs@.len() - k,
    {
        rem.push(pairs[k]);
        k = k + 1;
        proof {
            assert(rem@ =~= pairs@.subrange(0, k as int));
        }
    }
    proof {
        assert(rem@ =~= pairs@);
    }
    let mut cur: usize = 0;
    let mut count: usize = 0;
    while rem.len() > 0
        invariant
            rem@.len() > 0 ==> cur < rem@.len(),
            count + rem@.len() <= pairs@.len(),
            count + (if rem@.len() > 0 {
                spec_walk_loops(rem@, cur as int)
            } else {
                0
            }) == spec_loop_count(pairs@),
        decreases rem@.len(),
    {
        let ghost rem0 = rem@;
        let p = rem[cur];
        rem.remove(cur);
        proof {
            assert(rem@ == rem0.remove(cur as int));
        }
        let nxt = find_touch(&rem, p.1);
        if nxt < rem.len() {
            cur = nxt;
        } else {
            count = count + 1;
            cur = 0;
        }
    }
    count
}

/// The found position sits between the start of the search and the end of
/// the list.
proof fn lemma_find_touch_bounds(ps: Seq<(VertexPtr, VertexPtr)>, v: VertexPtr, from: int)
    requires
        0 <= from <= ps.len(),
    ensures
        from <= spec_find_touch(ps, v, from) <= ps.len(),
    decreases ps.len() - from,
{
    if from < ps.len() && !(ps[from].0 == v || ps[from].1 == v) {
        lemma_find_touch_bounds(ps, v, from + 1);
    }
}

/// A walk started inside the remaining pairs closes at least one loop.
proof fn lemma_walk_loops_at_least_one(rem: Seq<(VertexPtr, VertexPtr)>, cur: int)
    requires
        0 <= cur < rem.len(),
    ensures
        spec_walk_loops(rem, cur) >= 1,
    decreases rem.len(),
{
    let p = rem[cur];
    let rem2 = rem.remove(cur);
    let nxt = spec_find_touch(rem2, p.1, 0);
    lemma_find_touch_bounds(rem2, p.1, 0);
    if nxt < rem2.len() {
        lemma_walk_loops_at_least_one(rem2, nxt);
    } else if rem2.len() > 0 {
        lemma_walk_loops_at_least_one(rem2, 0);
    }
}

/// Any pair with odd boundary parity over valid faces is a pair of valid
/// vertices.
proof fn lemma_parity_endpoints_valid(
    store: Store,
    faces: Seq<FacePtr>,
    u: VertexPtr,
    w: VertexPtr,
)
    requires
        store.wf(),
        forall|i: int| 0 <= i < faces.len() ==> store.valid_f(#[trigger] faces[i]),
        spec_boundary_parity(store, faces, u, w),
    ensures
        store.valid_v(u),
        store.valid_v(w),
    decreases faces.len(),
{
    if faces.len() > 0 {
        assert(faces[faces.len() - 1] == faces.last());
        if spec_face_pair_flip(store.faces@[faces.last().idx as int], u, w) {
            let k = faces.last().idx as int;
            assert(store.wf_face(k));
        } else {
            assert forall|i: int| 0 <= i < faces.drop_last().len() implies store.valid_f(
                #[trigger] faces.drop_last()[i],
            ) by {
                assert(faces.drop_last()[i] == faces[i]);
            }
            lemma_parity_endpoints_valid(store, faces.drop_last(), u, w);
        }
    }
}

impl Mesh {
    /// The number of loops bounding the surface held in this mesh's face
    /// set, together with a mesh of the boundary-loop vertices.
    ///
    /// Every face contributes its three edges; a pair of vertices joined by
    /// an odd number of them is a boundary edge.  The surviving edges are
    /// walked from neighbour to neighbour; each walk that dies out closes
    /// one loop.  Fails with [`Error::EmptyCollection`] exactly when no
    /// boundary pair survives — a closed surface reports "no edges" rather
    /// than a loop count.  A boundary vertex on more than two boundary
    /// edges makes the walk stop early, so loops through such junctions may
    /// be counted more than once: a documented limit, not a failure.
    #[verifier::loop_isolation(false)]
    #[verifier::rlimit(100)]
    #[verifier::spinoff_prover]
    pub fn surface_bounding_loop_count(&self, store: &mut Store) -> (r: Result<(usize, Mesh), Error>)
        requires
            old(store).wf(),
            self.wf(),
            self.valid_in(*old(store)),
        ensures
            final(store).wf(),
            final(store).faces@ == old(store).faces@,
            final(store).faces_alive@ == old(store).faces_alive@,
            final(store).vertices@.len() == old(store).vertices@.len(),
            forall|i: int|
                0 <= i < old(store).vertices@.len() ==> crate::vertex::same_but_edge_links(
                    final(store).vertices@[i],
                    old(store).vertices@[i],
                ),
            forall|j: int|
                0 <= j < old(store).edges_alive@.len() ==> final(store).edges_alive@[j] == old(
                    store,
                ).edges_alive@[j],
            forall|j: int|
                old(store).edges_alive@.len() <= j < final(store).edges_alive@.len()
                    ==> !final(store).edges_alive@[j],
            (r is Err) == !(exists|u: VertexPtr, w: VertexPtr|
                #[trigger] spec_boundary_parity(*old(store), self.faces@, u, w)),
            r matches Err(e) ==> e == Error::EmptyCollection,
            r matches Ok(p) ==> exists|ps: Seq<(VertexPtr, VertexPtr)>|
                #![trigger spec_loop_count(ps)]
                (p.0 as int == spec_loop_count(ps) && (forall|j: int|
                    0 <= j < ps.len() ==> spec_boundary_parity(
                        *old(store),
                        self.faces@,
                        (#[trigger] ps[j]).0,
                        ps[j].1,
                    )) && (forall|u: VertexPtr, w: VertexPtr|
                    #[trigger] spec_boundary_parity(*old(store), self.faces@, u, w)
                        ==> exists|j: int|
                        0 <= j < ps.len() && spec_pair_eq(
                            (#[trigger] ps[j]).0,
                            ps[j].1,
                            u,
                            w,
                        )) && (forall|j1: int, j2: int|
                    #![trigger ps[j1], ps[j2]]
                    0 <= j1 < ps.len() && 0 <= j2 < ps.len() && j1 != j2 ==> !spec_pair_eq(
                        ps[j1].0,
                        ps[j1].1,
                        ps[j2].0,
                        ps[j2].1,
                    ))),
            r matches Ok(p) ==> p.0 >= 1 && p.1.wf() && p.1.faces@ == Seq::<FacePtr>::empty()
                && p.1.edges@ == Seq::<EdgePtr>::empty() && forall|x: VertexPtr| #[trigger]
                p.1.vertices@.contains(x) <==> exists|u: VertexPtr|
                    #![trigger spec_boundary_parity(*old(store), self.faces@, u, x)]
                    #![trigger spec_boundary_parity(*old(store), self.faces@, x, u)]
                    spec_boundary_parity(*old(store), self.faces@, u, x) || spec_boundary_parity(
                        *old(store),
                        self.faces@,
                        x,
                        u,
                    ),
    {
        let ne0 = store.edges.len();
        let mut open: Vec<EdgePtr> = Vec::new();
        let mut i: usize = 0;
        while i < self.faces.len()
            invariant
                store.wf(),
                store.faces@ == old(store).faces@,
                store.faces_alive@ == old(store).faces_alive@,
                store.vertices@.len() == old(store).vertices@.len(),
                forall|ii: int|
                    0 <= ii < old(store).vertices@.len() ==> crate::vertex::same_but_edge_links(
                        #[trigger] store.vertices@[ii],
                        old(store).vertices@[ii],
                    ),
                ne0 <= store.edges@.len(),
                forall|j: int|
                    0 <= j < ne0 ==> #[trigger] store.edges_alive@[j] == old(
                        store,
                    ).edges_alive@[j],
                i <= self.faces@.len(),
                spec_open_ok(*store, open@),
                forall|jj: int| 0 <= jj < open@.len() ==> (#[trigger] open@[jj]).idx >= ne0,
                forall|u: VertexPtr, w: VertexPtr|
                    store.valid_v(u) && store.valid_v(w) ==> (#[trigger] spec_open_joins(
                        *store,
                        open@,
                        u,
                        w,
                    ) <==> spec_boundary_parity(
                        *old(store),
                        self.faces@.subrange(0, i as int),
                        u,
                        w,
                    )),
            decreases self.faces@.len() - i,
        {
            let fp = self.faces[i];
            proof {
                assert(store.valid_f(self.faces@[i as int]));
            }
            let ghost s0 = *store;
            let ghost open_in = open@;
            let nb = store.edges.len();
            let es = fp.edges(store);
            let na = store.edges.len();
            let ghost fd = s0.faces@[fp.idx as int];
            proof {
                assert(na == nb + 3);
                assert(es@[0].idx == nb && es@[1].idx == nb + 1 && es@[2].idx == nb + 2);
                assert forall|jj: int| 0 <= jj < open@.len() implies (#[trigger] open@[jj]).idx
                    < nb && store.valid_e(open@[jj]) && store.spec_edge_live(open@[jj])
                    && store.edges@[open@[jj].idx as int] == s0.edges@[open@[jj].idx as int] by {
                    assert(s0.valid_e(open@[jj]) && s0.spec_edge_live(open@[jj]));
                }
                assert(spec_open_ok(*store, open@));
                assert(!open@.contains(es[0]) && !open@.contains(es[1]) && !open@.contains(es[2]))
                    by {
                    if open@.contains(es[0]) {
                        let jj = choose|jj: int| 0 <= jj < open@.len() && open@[jj] == es@[0];
                    }
                    if open@.contains(es[1]) {
                        let jj = choose|jj: int| 0 <= jj < open@.len() && open@[jj] == es@[1];
                    }
                    if open@.contains(es[2]) {
                        let jj = choose|jj: int| 0 <= jj < open@.len() && open@[jj] == es@[2];
                    }
                }
                assert(store.spec_edge_live(es[0]) && store.spec_edge_live(es[1])
                    && store.spec_edge_live(es[2]));
                assert(store.wf_edge(es[0].idx as int));
                assert(store.wf_edge(es[1].idx as int));
                assert(store.wf_edge(es[2].idx as int));
            }
            let ghost sa = *store;
            let ghost open_a = open@;
            parity_step(&mut open, store, es[0]);
            let ghost sb = *store;
            let ghost open_b = open@;
            proof {
                assert(store.spec_edge_live(es[1]) && store.spec_edge_live(es[2])) by {
                    let j1 = es@[1].idx as int;
                    if store.edges_alive@[j1] != sa.edges_alive@[j1] {
                        if exists|jj: int|
                            0 <= jj < open_a.len() && (#[trigger] open_a[jj]).idx as int == j1 {
                            let jj = choose|jj: int|
                                0 <= jj < open_a.len() && (#[trigger] open_a[jj]).idx as int == j1;
                            assert(false);
                        }
                    }
                    let j2 = es@[2].idx as int;
                    if store.edges_alive@[j2] != sa.edges_alive@[j2] {
                        if exists|jj: int|
                            0 <= jj < open_a.len() && (#[trigger] open_a[jj]).idx as int == j2 {
                            let jj = choose|jj: int|
                                0 <= jj < open_a.len() && (#[trigger] open_a[jj]).idx as int == j2;
                            assert(false);
                        }
                    }
                }
                assert(!open@.contains(es[1]) && !open@.contains(es[2])) by {
                    if open@.contains(es[1]) {
                        let jj = choose|jj: int| 0 <= jj < open@.len() && open@[jj] == es@[1];
                        assert(open@.contains(open@[jj]));
                        assert(open_a.contains(es@[1]) || es@[1] == es@[0]);
                    }
                    if open@.contains(es[2]) {
                        let jj = choose|jj: int| 0 <= jj < open@.len() && open@[jj] == es@[2];
                        assert(open@.contains(open@[jj]));
                        assert(open_a.contains(es@[2]) || es@[2] == es@[0]);
                    }
                }
            }
            parity_step(&mut open, store, es[1]);
            let ghost sc = *store;
            let ghost open_c = open@;
            proof {
                assert(store.spec_edge_live(es[2])) by {
                    let j2 = es@[2].idx as int;
                    if store.edges_alive@[j2] != sb.edges_alive@[j2] {
                        if exists|jj: int|
                            0 <= jj < open_b.len() && (#[trigger] open_b[jj]).idx as int == j2 {
                            let jj = choose|jj: int|
                                0 <= jj < open_b.len() && (#[trigger] open_b[jj]).idx as int == j2;
                            assert(open_b.contains(open_b[jj]));
                            assert(open_a.contains(open_b[jj]) || open_b[jj] == es@[0]);
                            assert(false);
                        }
                    }
                }
                assert(!open@.contains(es[2])) by {
                    if open@.contains(es[2]) {
                        let jj = choose|jj: int| 0 <= jj < open@.len() && open@[jj] == es@[2];
                        assert(open@.contains(open@[jj]));
                        assert(open_b.contains(es@[2]) || es@[2] == es@[1]);
                        assert(open_b.contains(es@[2]));
                        assert(open_a.contains(es@[2]) || es@[2] == es@[0]);
                    }
                }
            }
            parity_step(&mut open, store, es[2]);
            i = i + 1;
            proof {
                // untouched below ne0, and every bucket entry above it
                assert forall|j: int| 0 <= j < ne0 implies #[trigger] store.edges_alive@[j] == old(
                    store,
                ).edges_alive@[j] by {
                    assert(sa.edges_alive@[j] == old(store).edges_alive@[j]);
                    if sb.edges_alive@[j] != sa.edges_alive@[j] {
                        if exists|jj: int|
                            0 <= jj < open_a.len() && (#[trigger] open_a[jj]).idx as int == j {
                            let jj = choose|jj: int|
                                0 <= jj < open_a.len() && (#[trigger] open_a[jj]).idx as int == j;
                            assert(open_a.contains(open_a[jj]));
                            assert(false);
                        }
                        assert(false);
                    }
                    if sc.edges_alive@[j] != sb.edges_alive@[j] {
                        if exists|jj: int|
                            0 <= jj < open_b.len() && (#[trigger] open_b[jj]).idx as int == j {
                            let jj = choose|jj: int|
                                0 <= jj < open_b.len() && (#[trigger] open_b[jj]).idx as int == j;
                            assert(open_b.contains(open_b[jj]));
                            assert(open_a.contains(open_b[jj]) || open_b[jj] == es@[0]);
                            assert(false);
                        }
                        assert(false);
                    }
                    if store.edges_alive@[j] != sc.edges_alive@[j] {
                        if exists|jj: int|
                            0 <= jj < open_c.len() && (#[trigger] open_c[jj]).idx as int == j {
                            let jj = choose|jj: int|
                                0 <= jj < open_c.len() && (#[trigger] open_c[jj]).idx as int == j;
                            assert(open_c.contains(open_c[jj]));
                            assert(open_b.contains(open_c[jj]) || open_c[jj] == es@[1]);
                            if open_b.contains(open_c[jj]) {
                                assert(open_a.contains(open_c[jj]) || open_c[jj] == es@[0]);
                            }
                            assert(false);
                        }
                        assert(false);
                    }
                }
                assert forall|jj: int| 0 <= jj < open@.len() implies (#[trigger] open@[jj]).idx
                    >= ne0 by {
                    assert(open@.contains(open@[jj]));
                    if open_c.contains(open@[jj]) {
                        if open_b.contains(open@[jj]) {
                            if open_a.contains(open@[jj]) {
                            } else {
                                assert(open@[jj] == es@[0]);
                            }
                        } else {
                            assert(open@[jj] == es@[1]);
                        }
                    } else {
                        assert(open@[jj] == es@[2]);
                    }
                }
                // the three flips of this face fold into one parity step
                let pre = self.faces@.subrange(0, i as int - 1);
                let cur = self.faces@.subrange(0, i as int);
                assert(cur.drop_last() =~= pre);
                assert(cur.last() == self.faces@[i as int - 1]);
                let e0 = sa.edges@[es@[0].idx as int];
                let e1 = sa.edges@[es@[1].idx as int];
                let e2 = sa.edges@[es@[2].idx as int];
                assert(e0.a == fd.a && e0.b == fd.b && e1.a == fd.b && e1.b == fd.c && e2.a == fd.c
                    && e2.b == fd.a);
                assert forall|u: VertexPtr, w: VertexPtr|
                    store.valid_v(u) && store.valid_v(w) implies (#[trigger] spec_open_joins(
                    *store,
                    open@,
                    u,
                    w,
                ) <==> spec_boundary_parity(*old(store), cur, u, w)) by {
                    assert(spec_open_joins(sb, open_b, u, w) <==> (spec_open_joins(sa, open_a, u, w)
                        ^ e0.joins(u, w)));
                    assert(spec_open_joins(sc, open_c, u, w) <==> (spec_open_joins(sb, open_b, u, w)
                        ^ e1.joins(u, w)));
                    assert(spec_open_joins(*store, open@, u, w) <==> (spec_open_joins(
                        sc,
                        open_c,
                        u,
                        w,
                    ) ^ e2.joins(u, w)));
                    lemma_open_joins_stable(s0, sa, open_in, u, w);
                    assert(spec_open_joins(sa, open_a, u, w) <==> spec_boundary_parity(
                        *old(store),
                        pre,
                        u,
                        w,
                    ));
                    assert(e0.joins(u, w) == spec_pair_eq(fd.a, fd.b, u, w));
                    assert(e1.joins(u, w) == spec_pair_eq(fd.b, fd.c, u, w));
                    assert(e2.joins(u, w) == spec_pair_eq(fd.c, fd.a, u, w));
                    assert(spec_boundary_parity(*old(store), cur, u, w) == (spec_boundary_parity(
                        *old(store),
                        pre,
                        u,
                        w,
                    ) ^ spec_face_pair_flip(old(store).faces@[fp.idx as int], u, w)));
                }
            }
        }
        proof {
            assert(self.faces@.subrange(0, self.faces@.len() as int) =~= self.faces@);
        }
        if open.len() == 0 {
            proof {
                if exists|u: VertexPtr, w: VertexPtr|
                    #[trigger] spec_boundary_parity(*old(store), self.faces@, u, w) {
                    let (u, w) = choose|u: VertexPtr, w: VertexPtr|
                        #[trigger] spec_boundary_parity(*old(store), self.faces@, u, w);
                    lemma_parity_endpoints_valid(*old(store), self.faces@, u, w);
                    assert(spec_open_joins(*store, open@, u, w));
                    assert(false);
                }
            }
            store.retire_edges_from(ne0);
            return Err(Error::EmptyCollection);
        }
        proof {
            assert(store.wf_edge(open@[0].idx as int));
            let e0 = store.edges@[open@[0].idx as int];
            assert(e0.joins(e0.a, e0.b));
            assert(spec_open_joins(*store, open@, e0.a, e0.b));
            assert(spec_boundary_parity(*old(store), self.faces@, e0.a, e0.b));
        }
        // Walk the boundary pairs, closing one loop whenever the walk can
        // no longer continue among the remaining ones.
        let ghost walk_store = *store;
        let mut bpairs: Vec<(VertexPtr, VertexPtr)> = Vec::new();
        let mut k: usize = 0;
        while k < open.len()
            invariant
                *store == walk_store,
                k <= open@.len(),
                bpairs@.len() == k,
                forall|j: int|
                    0 <= j < k ==> #[trigger] bpairs@[j] == (
                    store.edges@[open@[j].idx as int].a,
                    store.edges@[open@[j].idx as int].b,
                ),
            decreases open@.len() - k,
        {
            proof {
                assert(store.valid_e(open@[k as int]));
            }
            let ed = *store.edge(open[k]);
            bpairs.push((ed.a, ed.b));
            k = k + 1;
        }
        let count = count_loops(&bpairs);
        proof {
            assert(count >= 1) by {
                assert(bpairs@.len() == open@.len());
                assert(bpairs@.len() > 0);
                lemma_walk_loops_at_least_one(bpairs@, 0);
            }
        }
        // a mesh of the boundary-loop vertices, for inspection
        let mut m = Mesh::new();
        let mut k2: usize = 0;
        while k2 < open.len()
            invariant
                *store == walk_store,
                k2 <= open@.len(),
                m.wf(),
                m.faces@ == Seq::<FacePtr>::empty(),
                m.edges@ == Seq::<EdgePtr>::empty(),
                forall|x: VertexPtr| #[trigger]
                    m.vertices@.contains(x) <==> exists|jj: int|
                        0 <= jj < k2 && store.edges@[(#[trigger] open@[jj]).idx
                            as int].has_vertex(x),
            decreases open@.len() - k2,
        {
            let ep = open[k2];
            proof {
                assert(store.valid_e(open@[k2 as int]));
            }
            let ed = *store.edge(ep);
            let ghost mv0 = m.vertices@;
            m.insert_vertex(ed.a);
            m.insert_vertex(ed.b);
            k2 = k2 + 1;
            proof {
                assert forall|x: VertexPtr| #[trigger] m.vertices@.contains(x) implies exists|
                    jj: int,
                |
                    0 <= jj < k2 && store.edges@[(#[trigger] open@[jj]).idx as int].has_vertex(
                        x,
                    ) by {
                    if mv0.contains(x) {
                        let jj = choose|jj: int|
                            0 <= jj < k2 - 1 && store.edges@[(#[trigger] open@[jj]).idx
                                as int].has_vertex(x);
                        assert(0 <= jj < k2 && store.edges@[(open@[jj]).idx as int].has_vertex(x));
                    } else {
                        assert(ed.has_vertex(x));
                        assert(store.edges@[(open@[k2 - 1]).idx as int].has_vertex(x));
                    }
                }
                assert forall|x: VertexPtr|
                    exists|jj: int|
                        0 <= jj < k2 && store.edges@[(#[trigger] open@[jj]).idx as int].has_vertex(
                            x,
                        ) implies #[trigger] m.vertices@.contains(x) by {
                    let jj = choose|jj: int|
                        0 <= jj < k2 && store.edges@[(#[trigger] open@[jj]).idx as int].has_vertex(
                            x,
                        );
                    if jj < k2 - 1 {
                        assert(mv0.contains(x));
                    } else {
                        assert(ed.has_vertex(x));
                    }
                }
            }
        }
        proof {
            assert forall|x: VertexPtr| #[trigger] m.vertices@.contains(x) implies exists|
                u: VertexPtr,
            |
                #![trigger spec_boundary_parity(*old(store), self.faces@, u, x)]
                #![trigger spec_boundary_parity(*old(store), self.faces@, x, u)]
                spec_boundary_parity(*old(store), self.faces@, u, x) || spec_boundary_parity(
                    *old(store),
                    self.faces@,
                    x,
                    u,
                ) by {
                let jj = choose|jj: int|
                    0 <= jj < open@.len() && store.edges@[(#[trigger] open@[jj]).idx
                        as int].has_vertex(x);
                assert(store.wf_edge(open@[jj].idx as int));
                let ed = store.edges@[open@[jj].idx as int];
                assert(ed.joins(ed.a, ed.b));
                assert(spec_open_joins(*store, open@, ed.a, ed.b));
                if ed.a == x {
                    assert(spec_boundary_parity(*old(store), self.faces@, x, ed.b));
                } else {
                    assert(spec_boundary_parity(*old(store), self.faces@, ed.a, x));
                }
            }
            assert forall|x: VertexPtr|
                exists|u: VertexPtr|
                    #![trigger spec_boundary_parity(*old(store), self.faces@, u, x)]
                    #![trigger spec_boundary_parity(*old(store), self.faces@, x, u)]
                    (spec_boundary_parity(*old(store), self.faces@, u, x) || spec_boundary_parity(
                        *old(store),
                        self.faces@,
                        x,
                        u,
                    )) implies #[trigger] m.vertices@.contains(x) by {
                let u = choose|u: VertexPtr|
                    #![trigger spec_boundary_parity(*old(store), self.faces@, u, x)]
                    #![trigger spec_boundary_parity(*old(store), self.faces@, x, u)]
                    (spec_boundary_parity(*old(store), self.faces@, u, x) || spec_boundary_parity(
                        *old(store),
                        self.faces@,
                        x,
                        u,
                    ));
                if spec_boundary_parity(*old(store), self.faces@, u, x) {
                    lemma_parity_endpoints_valid(*old(store), self.faces@, u, x);
                    assert(spec_open_joins(*store, open@, u, x));
                    let jj = choose|jj: int|
                        0 <= jj < open@.len() && store.edges@[(#[trigger] open@[jj]).idx
                            as int].joins(u, x);
                    assert(store.edges@[(open@[jj]).idx as int].has_vertex(x));
                } else {
                    lemma_parity_endpoints_valid(*old(store), self.faces@, x, u);
                    assert(spec_open_joins(*store, open@, x, u));
                    let jj = choose|jj: int|
                        0 <= jj < open@.len() && store.edges@[(#[trigger] open@[jj]).idx
                            as int].joins(x, u);
                    assert(store.edges@[(open@[jj]).idx as int].has_vertex(x));
                }
            }
        }
        proof {
            // the returned count is the walk's loop count over the
            // boundary pairs, which are exactly the odd-parity pairs
            assert(count as int == spec_loop_count(bpairs@));
            assert forall|j: int| 0 <= j < bpairs@.len() implies spec_boundary_parity(
                *old(store),
                self.faces@,
                (#[trigger] bpairs@[j]).0,
                bpairs@[j].1,
            ) by {
                assert(store.valid_e(open@[j]));
                assert(store.wf_edge(open@[j].idx as int));
                let ed = store.edges@[open@[j].idx as int];
                assert(ed.joins(ed.a, ed.b));
                assert(spec_open_joins(*store, open@, ed.a, ed.b));
            }
            assert forall|u: VertexPtr, w: VertexPtr|
                #[trigger] spec_boundary_parity(*old(store), self.faces@, u, w) implies exists|
                j: int,
            |
                0 <= j < bpairs@.len() && spec_pair_eq(
                    (#[trigger] bpairs@[j]).0,
                    bpairs@[j].1,
                    u,
                    w,
                ) by {
                lemma_parity_endpoints_valid(*old(store), self.faces@, u, w);
                assert(spec_open_joins(*store, open@, u, w));
                let jj = choose|jj: int|
                    0 <= jj < open@.len() && store.edges@[(#[trigger] open@[jj]).idx
                        as int].joins(u, w);
                assert(spec_pair_eq((bpairs@[jj]).0, bpairs@[jj].1, u, w));
            }
            assert forall|j1: int, j2: int|
                #![trigger bpairs@[j1], bpairs@[j2]]
                0 <= j1 < bpairs@.len() && 0 <= j2 < bpairs@.len() && j1 != j2 implies !spec_pair_eq(
                bpairs@[j1].0,
                bpairs@[j1].1,
                bpairs@[j2].0,
                bpairs@[j2].1,
            ) by {
                assert(store.valid_e(open@[j1]) && store.valid_e(open@[j2]));
                assert(store.wf_edge(open@[j1].idx as int));
                assert(store.wf_edge(open@[j2].idx as int));
                let e1 = store.edges@[open@[j1].idx as int];
                let e2 = store.edges@[open@[j2].idx as int];
                if spec_pair_eq(e1.a, e1.b, e2.a, e2.b) {
                    lemma_same_id_sum_same_pair(*store, e1, e2);
                }
            }
        }
        store.retire_edges_from(ne0);
        Ok((count, m))
    }
}

/// Face data `sub` stands in some slot of `faces`, and while that slot
/// survives it is a member of the mesh `m`.
pub open spec fn spec_substitute_bucketed(
    faces: Seq<Face>,
    alive: Seq<bool>,
    m: Mesh,
    sub: Face,
) -> bool {
    exists|k: int|
        0 <= k < faces.len() && (#[trigger] faces[k]) == sub && (alive[k] ==> m.faces@.contains(
            crate::spec_fptr(k),
        ))
}

/// The pair `(a, b)` accounts for a dead face: the face held the vanishing
/// vertex `a`, and replacing `a` by the kept vertex `b` either collapses
/// the face to a line (or replaces a vertex by itself, as on an already
/// degenerate face) — in which case nothing is owed — or the substitute
/// face stands among `faces` and, while it survives, sits in the mesh `m`.
pub open spec fn spec_substitute_account(
    faces: Seq<Face>,
    alive: Seq<bool>,
    m: Mesh,
    fdata: Face,
    a: VertexPtr,
    b: VertexPtr,
) -> bool {
    fdata.has_vertex(a) && (a == b || fdata.spec_substituted(a, b).has_repeated_vertex()
        || spec_substitute_bucketed(faces, alive, m, fdata.spec_substituted(a, b)))
}

/// A face that died during a collapse is accounted for: some vanishing
/// vertex it held was replaced by a kept one, and unless that substitution
/// collapsed the face to a line, the substitute face exists among `faces`
/// and, while it survives, sits in the mesh `m`.
pub open spec fn spec_collapse_substituted(
    faces: Seq<Face>,
    alive: Seq<bool>,
    m: Mesh,
    fdata: Face,
) -> bool {
    exists|a: VertexPtr, b: VertexPtr|
        #[trigger] spec_substitute_account(faces, alive, m, fdata, a, b)
}

/// The account of a dead face survives a collapse step: face data is
/// only appended, liveness only drops, and a bucketed substitute that
/// stays live stays in the mesh.
proof fn lemma_substituted_carries(
    f0: Seq<Face>,
    l0: Seq<bool>,
    m0: Mesh,
    fdata: Face,
    f1: Seq<Face>,
    l1: Seq<bool>,
    m1: Mesh,
)
    requires
        spec_collapse_substituted(f0, l0, m0, fdata),
        f0.len() <= f1.len(),
        forall|k: int| 0 <= k < f0.len() ==> #[trigger] f1[k] == f0[k],
        forall|k: int| 0 <= k < f0.len() && #[trigger] l1[k] ==> l0[k],
        forall|k: int|
            0 <= k < f0.len() && #[trigger] l1[k] && m0.faces@.contains(crate::spec_fptr(k))
                ==> m1.faces@.contains(crate::spec_fptr(k)),
    ensures
        spec_collapse_substituted(f1, l1, m1, fdata),
{
    let (a0, b0) = choose|a0: VertexPtr, b0: VertexPtr|
        #[trigger] spec_substitute_account(f0, l0, m0, fdata, a0, b0);
    assert(spec_substitute_account(f0, l0, m0, fdata, a0, b0));
    if !(a0 == b0 || fdata.spec_substituted(a0, b0).has_repeated_vertex()) {
        let sub = fdata.spec_substituted(a0, b0);
        let k0 = choose|k: int|
            0 <= k < f0.len() && (#[trigger] f0[k]) == sub && (l0[k] ==> m0.faces@.contains(
                crate::spec_fptr(k),
            ));
        assert(f1[k0] == sub);
        assert(l1[k0] ==> m1.faces@.contains(crate::spec_fptr(k0)));
        assert(spec_substitute_bucketed(f1, l1, m1, sub));
    }
    assert(spec_substitute_account(f1, l1, m1, fdata, a0, b0));
}

impl Mesh {
    /// Collapse every edge shorter than the fixed-point `threshold`,
    /// consuming the mesh and returning the collapsed one.
    ///
    /// Whenever some face of the mesh has a short edge among its first two
    /// — `a` to `b`, then `a` to `c`; the third edge is deliberately never
    /// inspected — vertex `a` of that edge vanishes: every surviving face
    /// built on it retires, and a substitute with `b` in place of `a` takes
    /// its seat in the mesh unless the substitution would collapse it to a
    /// line.  The vanished vertex is not forcibly removed from the mesh's
    /// vertex set: pruning vertices that no face references any more is the
    /// caller's business.  On return no face of the mesh has a short edge
    /// in the inspected positions.
    #[verifier::loop_isolation(false)]
    #[verifier::rlimit(100)]
    #[verifier::spinoff_prover]
    pub fn collapse_edges(self, store: &mut Store, threshold: i64) -> (r: Mesh)
        requires
            old(store).wf(),
            self.wf(),
            self.valid_in(*old(store)),
            forall|i: int|
                0 <= i < self.faces@.len() ==> old(store).spec_face_live(
                    #[trigger] self.faces@[i],
                ),
        ensures
            final(store).wf(),
            r.wf(),
            r.valid_in(*final(store)),
            r.edges@ == self.edges@,
            r.vertices@ == self.vertices@,
            final(store).vertices@.len() == old(store).vertices@.len(),
            forall|i: int|
                0 <= i < old(store).vertices@.len() ==> (#[trigger] final(store).vertices@[i]).point
                    == old(store).vertices@[i].point,
            old(store).faces@.len() <= final(store).faces@.len(),
            forall|k: int|
                0 <= k < old(store).faces@.len() ==> #[trigger] final(store).faces@[k] == old(
                    store,
                ).faces@[k],
            forall|i: int|
                0 <= i < self.faces@.len() && final(store).spec_face_live(#[trigger] self.faces@[i])
                    ==> r.faces@.contains(self.faces@[i]),
            forall|i: int|
                0 <= i < self.faces@.len() && !final(store).spec_face_live(
                    #[trigger] self.faces@[i],
                ) ==> spec_collapse_substituted(
                    final(store).faces@,
                    final(store).faces_alive@,
                    r,
                    old(store).faces@[(self.faces@[i]).idx as int],
                ),
            forall|i: int|
                0 <= i < r.faces@.len() ==> final(store).spec_face_live(#[trigger] r.faces@[i]),
            forall|i: int|
                0 <= i < r.faces@.len() ==> !final(store).spec_pair_short(
                    final(store).faces@[(#[trigger] r.faces@[i]).idx as int].a,
                    final(store).faces@[r.faces@[i].idx as int].b,
                    threshold as int,
                ) && !final(store).spec_pair_short(
                    final(store).faces@[r.faces@[i].idx as int].a,
                    final(store).faces@[r.faces@[i].idx as int].c,
                    threshold as int,
                ),
    {
        let mut mesh = self;
        loop
            invariant
                store.wf(),
                mesh.wf(),
                mesh.valid_in(*store),
                mesh.edges@ == self.edges@,
                store.vertices@.len() == old(store).vertices@.len(),
                forall|i: int|
                    0 <= i < old(store).vertices@.len() ==> (#[trigger] store.vertices@[i]).point
                        == old(store).vertices@[i].point,
                mesh.vertices@ == self.vertices@,
                old(store).faces@.len() <= store.faces@.len(),
                forall|k: int|
                    0 <= k < old(store).faces@.len() ==> #[trigger] store.faces@[k] == old(
                        store,
                    ).faces@[k],
                forall|i: int|
                    0 <= i < self.faces@.len() && store.spec_face_live(#[trigger] self.faces@[i])
                        ==> mesh.faces@.contains(self.faces@[i]),
                forall|i: int|
                    0 <= i < self.faces@.len() && !store.spec_face_live(#[trigger] self.faces@[i])
                        ==> spec_collapse_substituted(
                        store.faces@,
                        store.faces_alive@,
                        mesh,
                        old(store).faces@[(self.faces@[i]).idx as int],
                    ),
                forall|i: int|
                    0 <= i < mesh.faces@.len() ==> store.spec_face_live(#[trigger] mesh.faces@[i]),
            decreases store.spec_live_support().len(),
        {
            let ghost s_iter = *store;
            let mut found: Option<EdgePtr> = None;
            let mut fpk: FacePtr = crate::fptr(0);
            let mut i: usize = 0;
            while i < mesh.faces.len() && found.is_none()
                invariant
                    store.wf(),
                    i <= mesh.faces@.len(),
                    s_iter.edges@.len() <= store.edges@.len(),
                    found.is_none() ==> *store == s_iter,
                    found.is_none() ==> forall|j: int|
                        0 <= j < i ==> !store.spec_pair_short(
                            store.faces@[(#[trigger] mesh.faces@[j]).idx as int].a,
                            store.faces@[mesh.faces@[j].idx as int].b,
                            threshold as int,
                        ) && !store.spec_pair_short(
                            store.faces@[mesh.faces@[j].idx as int].a,
                            store.faces@[mesh.faces@[j].idx as int].c,
                            threshold as int,
                        ),
                    found matches Some(ep) ==> store.valid_e(ep) && mesh.faces@.contains(fpk)
                        && store.valid_f(fpk) && store.faces@[fpk.idx as int].has_vertex(
                        store.edges@[ep.idx as int].a,
                    ) && store.faces@[fpk.idx as int].has_vertex(store.edges@[ep.idx as int].b)
                        && store.faces@ == s_iter.faces@ && store.faces_alive@
                        == s_iter.faces_alive@ && store.vertices@.len() == s_iter.vertices@.len()
                        && (forall|ii: int|
                        0 <= ii < s_iter.vertices@.len() ==> (
                        #[trigger] store.vertices@[ii]).point == s_iter.vertices@[ii].point),
                decreases mesh.faces@.len() - i,
            {
                let fp = mesh.faces[i];
                proof {
                    assert(store.valid_f(mesh.faces@[i as int]));
                    assert(store.wf_face(fp.idx as int));
                    assert(mesh.faces@.contains(mesh.faces@[i as int]));
                }
                let fd = *store.face(fp);
                let ghost s_scan = *store;
                let nbe = store.edges.len();
                match fd.short_edge(store, threshold) {
                    Some(ep) => {
                        found = Some(ep);
                        fpk = fp;
                        proof {
                            assert(spec_edge_created(s_scan, *store, fd.a, fd.b, ep)
                                || spec_edge_created(s_scan, *store, fd.a, fd.c, ep));
                            assert(ep.idx == nbe);
                            assert(store.edges@[nbe as int].a == fd.a);
                            assert(store.edges@[nbe as int].b == fd.b || store.edges@[nbe
                                as int].b == fd.c);
                            assert forall|ii: int|
                                0 <= ii < s_iter.vertices@.len() implies (
                            #[trigger] store.vertices@[ii]).point
                                == s_iter.vertices@[ii].point by {
                                assert(crate::vertex::same_but_edge_links(
                                    store.vertices@[ii],
                                    s_scan.vertices@[ii],
                                ));
                            }
                        }
                    },
                    None => {},
                }
                i = i + 1;
            }
            match found {
                None => {
                    return mesh;
                },
                Some(ep) => {
                    let ed = *store.edge(ep);
                    let ghost s_entry = *store;
                    proof {
                        // the vanishing vertex is in the support: the found
                        // face is live and holds both endpoints
                        assert(store.wf_edge(ep.idx as int));
                        assert(store.spec_face_live(fpk));
                        assert(store.faces@[fpk.idx as int].has_vertex(ed.a)
                            && store.faces@[fpk.idx as int].has_vertex(ed.b));
                        crate::lemma_vptr_eta(ed.a);
                        crate::lemma_fptr_eta(fpk);
                        assert(store.spec_live_support().contains(ed.a.idx as int)) by {
                            assert(store.faces_alive@[fpk.idx as int]);
                            assert(store.faces@[fpk.idx as int].has_vertex(
                                crate::spec_vptr(ed.a.idx as int),
                            ));
                        }
                    }
                    proof {
                        assert forall|ii: int| 0 <= ii < mesh.vertices@.len() implies store.valid_v(
                            #[trigger] mesh.vertices@[ii],
                        ) by {
                            assert(s_iter.valid_v(mesh.vertices@[ii]));
                        }
                    }
                    let adj = ed.a.adjacent_faces(store);
                    let nfc = store.faces.len();
                    proof {
                        ed.a.lemma_adjacent_faces_valid(store, adj);
                        assert forall|ii: int| 0 <= ii < mesh.faces@.len() implies store.valid_f(
                            #[trigger] mesh.faces@[ii],
                        ) by {}
                        assert forall|ii: int| 0 <= ii < mesh.edges@.len() implies store.valid_e(
                            #[trigger] mesh.edges@[ii],
                        ) by {
                            assert(s_iter.valid_e(mesh.edges@[ii]));
                            assert(s_iter.edges@.len() <= store.edges@.len());
                        }
                        assert(mesh.valid_in(*store));
                        assert(adj.faces@.subrange(0, adj.faces@.len() as int) =~= adj.faces@);
                        assert forall|k: int|
                            0 <= k < store.faces@.len() && store.spec_face_live(crate::spec_fptr(k))
                                && (#[trigger] store.faces@[k]).has_vertex(ed.a) implies adj.faces@
                            .subrange(0, adj.faces@.len() as int).contains(crate::spec_fptr(k)) by {
                            assert(k < nfc);
                            assert(crate::spec_fptr(k).idx as int == k);
                            ed.a.lemma_live_backlink_is_vertex_face(store, crate::spec_fptr(k));
                        }
                    }
                    let mut t: usize = 0;
                    while t < adj.faces.len()
                        invariant
                            store.wf(),
                            mesh.wf(),
                            mesh.valid_in(*store),
                            mesh.edges@ == self.edges@,
                            store.vertices@.len() == s_entry.vertices@.len(),
                            forall|ii: int|
                                0 <= ii < s_entry.vertices@.len() ==> (
                                #[trigger] store.vertices@[ii]).point
                                    == s_entry.vertices@[ii].point,
                            t <= adj.faces@.len(),
                            s_entry.faces@.len() <= store.faces@.len(),
                            forall|k: int|
                                0 <= k < s_entry.faces@.len() ==> #[trigger] store.faces@[k]
                                    == s_entry.faces@[k],
                            forall|k: int|
                                0 <= k < s_entry.faces@.len() ==> (
                                #[trigger] store.faces_alive@[k] ==> s_entry.faces_alive@[k]),
                            forall|k: int|
                                s_entry.faces@.len() <= k < store.faces@.len()
                                    ==> !(#[trigger] store.faces@[k]).has_vertex(ed.a)
                                    && s_entry.spec_live_support().contains(
                                    store.faces@[k].a.idx as int,
                                ) && s_entry.spec_live_support().contains(
                                    store.faces@[k].b.idx as int,
                                ) && s_entry.spec_live_support().contains(
                                    store.faces@[k].c.idx as int,
                                ),
                            forall|k: int|
                                0 <= k < store.faces@.len() && store.spec_face_live(
                                    crate::spec_fptr(k),
                                ) && (#[trigger] store.faces@[k]).has_vertex(ed.a)
                                    ==> adj.faces@.subrange(t as int, adj.faces@.len() as int)
                                    .contains(crate::spec_fptr(k)),
                            forall|i2: int|
                                0 <= i2 < mesh.faces@.len() ==> store.spec_face_live(
                                    #[trigger] mesh.faces@[i2],
                                ),
                            mesh.vertices@ == self.vertices@,
                            old(store).faces@.len() <= store.faces@.len(),
                            forall|k: int|
                                0 <= k < old(store).faces@.len() ==> #[trigger] store.faces@[k]
                                    == old(store).faces@[k],
                            forall|i2: int|
                                0 <= i2 < self.faces@.len() && store.spec_face_live(
                                    #[trigger] self.faces@[i2],
                                ) ==> mesh.faces@.contains(self.faces@[i2]),
                            forall|i2: int|
                                0 <= i2 < self.faces@.len() && !store.spec_face_live(
                                    #[trigger] self.faces@[i2],
                                ) ==> spec_collapse_substituted(
                                    store.faces@,
                                    store.faces_alive@,
                                    mesh,
                                    old(store).faces@[(self.faces@[i2]).idx as int],
                                ),
                        decreases adj.faces@.len() - t,
                    {
                        let g = adj.faces[t];
                        let ghost st0 = *store;
                        let ghost me0 = mesh;
                        let ghost mt0 = mesh.faces@;
                        proof {
                            assert(adj.faces@.contains(adj.faces@[t as int]));
                            ed.a.lemma_live_backlink_is_vertex_face(store, g);
                            assert(store.wf_face(g.idx as int));
                        }
                        proof {
                            // `g` sat in the back-link list when the
                            // adjacency was taken, so it was a live holder
                            // of the vanishing vertex at entry
                            crate::seqs::lemma_filter_contains_iff(
                                s_entry.vertices@[ed.a.idx as int].faces@,
                                |f: FacePtr| s_entry.spec_face_live(f),
                                g,
                            );
                            s_entry.lemma_face_backlink_iff_incident(ed.a, g);
                            assert(s_entry.spec_face_live(g));
                            assert(s_entry.faces@[g.idx as int].has_vertex(ed.a));
                        }
                        mesh.remove_face(g);
                        store.retire_face(g);
                        let gd = *store.face(g);
                        let ghost s_mid = *store;
                        let nfb = store.faces.len();
                        let newf = gd.replace_vertex(store, ed.a, ed.b);
                        proof {
                            crate::lemma_vptr_eta(gd.a);
                            crate::lemma_vptr_eta(gd.b);
                            crate::lemma_vptr_eta(gd.c);
                            crate::lemma_vptr_eta(ed.b);
                            assert(gd == s_entry.faces@[g.idx as int]);
                            assert(s_entry.wf_face(g.idx as int));
                            assert(s_entry.spec_live_support().contains(gd.a.idx as int)) by {
                                assert(s_entry.faces_alive@[g.idx as int]);
                                assert(s_entry.faces@[g.idx as int].has_vertex(
                                    crate::spec_vptr(gd.a.idx as int),
                                ));
                            }
                            assert(s_entry.spec_live_support().contains(gd.b.idx as int)) by {
                                assert(s_entry.faces@[g.idx as int].has_vertex(
                                    crate::spec_vptr(gd.b.idx as int),
                                ));
                            }
                            assert(s_entry.spec_live_support().contains(gd.c.idx as int)) by {
                                assert(s_entry.faces@[g.idx as int].has_vertex(
                                    crate::spec_vptr(gd.c.idx as int),
                                ));
                            }
                            assert(s_entry.spec_live_support().contains(ed.b.idx as int)) by {
                                assert(s_entry.faces_alive@[fpk.idx as int]);
                                assert(s_entry.faces@[fpk.idx as int].has_vertex(
                                    crate::spec_vptr(ed.b.idx as int),
                                ));
                            }
                        }
                        match newf {
                            Some(nf) => {
                                proof {
                                    assert(nf.idx == nfb);
                                    assert(store.spec_face_live(nf));
                                }
                                mesh.insert_face(nf);
                            },
                            None => {},
                        }
                        t = t + 1;
                        proof {
                            crate::lemma_fptr_eta(g);
                            // input faces stay while they live
                            assert forall|i2: int|
                                0 <= i2 < self.faces@.len() && store.spec_face_live(
                                    #[trigger] self.faces@[i2],
                                ) implies mesh.faces@.contains(self.faces@[i2]) by {
                                let f = self.faces@[i2];
                                crate::lemma_fptr_eta(f);
                                assert(f.idx != g.idx);
                                assert(f != g);
                                assert(st0.spec_face_live(f));
                                assert(mt0.contains(f));
                                lemma_no_dup_remove_value(mt0, g);
                                assert(mt0.remove_value(g).contains(f));
                            }
                            // and the dead ones stay accounted for
                            assert forall|i2: int|
                                0 <= i2 < self.faces@.len() && !store.spec_face_live(
                                    #[trigger] self.faces@[i2],
                                ) implies spec_collapse_substituted(
                                store.faces@,
                                store.faces_alive@,
                                mesh,
                                old(store).faces@[(self.faces@[i2]).idx as int],
                            ) by {
                                let f = self.faces@[i2];
                                let fdata = old(store).faces@[f.idx as int];
                                crate::lemma_fptr_eta(f);
                                if st0.spec_face_live(f) {
                                    // it died in this step, so it is the face
                                    // just retired; its substitute accounts
                                    assert(f.idx == g.idx);
                                    assert(f == g);
                                    assert(st0.faces@[g.idx as int] == fdata);
                                    assert(fdata == gd);
                                    assert(fdata.has_vertex(ed.a));
                                    match newf {
                                        Some(nf) => {
                                            crate::lemma_fptr_eta(nf);
                                            assert(store.faces@[nf.idx as int]
                                                == fdata.spec_substituted(ed.a, ed.b));
                                            assert(store.spec_face_live(nf));
                                            assert(mesh.faces@.contains(nf));
                                            assert(spec_substitute_bucketed(
                                                store.faces@,
                                                store.faces_alive@,
                                                mesh,
                                                fdata.spec_substituted(ed.a, ed.b),
                                            ));
                                        },
                                        None => {
                                            assert(ed.a == ed.b || fdata.spec_substituted(
                                                ed.a,
                                                ed.b,
                                            ).has_repeated_vertex());
                                        },
                                    }
                                    assert(spec_substitute_account(
                                        store.faces@,
                                        store.faces_alive@,
                                        mesh,
                                        fdata,
                                        ed.a,
                                        ed.b,
                                    ));
                                } else {
                                    // already dead: its account survives the step
                                    assert forall|k: int|
                                        0 <= k < st0.faces@.len()
                                            && #[trigger] store.faces_alive@[k]
                                            && me0.faces@.contains(crate::spec_fptr(k)) implies
                                        mesh.faces@.contains(crate::spec_fptr(k)) by {
                                        assert(k != g.idx as int);
                                        assert(crate::spec_fptr(k).idx as int == k);
                                        assert(crate::spec_fptr(k) != g);
                                        lemma_no_dup_remove_value(mt0, g);
                                        assert(mt0.remove_value(g).contains(crate::spec_fptr(k)));
                                    }
                                    assert forall|k: int|
                                        0 <= k < st0.faces@.len()
                                            && #[trigger] store.faces_alive@[k] implies
                                        st0.faces_alive@[k] by {
                                        assert(k != g.idx as int);
                                    }
                                    lemma_substituted_carries(
                                        st0.faces@,
                                        st0.faces_alive@,
                                        me0,
                                        fdata,
                                        store.faces@,
                                        store.faces_alive@,
                                        mesh,
                                    );
                                }
                            }
                            assert forall|i2: int|
                                0 <= i2 < mesh.faces@.len() implies store.spec_face_live(
                                #[trigger] mesh.faces@[i2],
                            ) by {
                                let p = mesh.faces@[i2];
                                assert(mesh.faces@.contains(p));
                                lemma_no_dup_remove_value(mt0, g);
                                if mt0.remove_value(g).contains(p) {
                                    assert(mt0.contains(p) && p != g);
                                    crate::lemma_fptr_eta(p);
                                    crate::lemma_fptr_eta(g);
                                    assert(p.idx != g.idx);
                                    assert(st0.spec_face_live(p));
                                    assert(st0.valid_f(p));
                                } else {
                                    assert(store.spec_face_live(p));
                                }
                            }
                            assert forall|ii: int|
                                0 <= ii < mesh.faces@.len() implies store.valid_f(
                                #[trigger] mesh.faces@[ii],
                            ) by {
                                assert(mesh.faces@.contains(mesh.faces@[ii]));
                                lemma_no_dup_remove_value(mt0, g);
                                if mt0.remove_value(g).contains(mesh.faces@[ii]) {
                                    let j = choose|j: int|
                                        0 <= j < mt0.len() && mt0[j] == mesh.faces@[ii];
                                    assert(st0.valid_f(mt0[j]));
                                    assert(st0.faces@.len() <= store.faces@.len());
                                }
                            }
                            assert forall|ii: int|
                                0 <= ii < mesh.vertices@.len() implies store.valid_v(
                                #[trigger] mesh.vertices@[ii],
                            ) by {
                                assert(st0.valid_v(mesh.vertices@[ii]));
                            }
                            assert forall|ii: int|
                                0 <= ii < mesh.edges@.len() implies store.valid_e(
                                #[trigger] mesh.edges@[ii],
                            ) by {
                                assert(st0.valid_e(mesh.edges@[ii]));
                                assert(st0.edges@.len() <= store.edges@.len());
                            }
                            assert(mesh.valid_in(*store));
                            assert forall|k: int|
                                0 <= k < store.faces@.len() && store.spec_face_live(
                                    crate::spec_fptr(k),
                                ) && (#[trigger] store.faces@[k]).has_vertex(ed.a) implies adj
                                .faces@.subrange(t as int, adj.faces@.len() as int).contains(
                                crate::spec_fptr(k),
                            ) by {
                                crate::lemma_fptr_eta(g);
                                if k < s_mid.faces@.len() {
                                    assert(adj.faces@.subrange(
                                        t as int - 1,
                                        adj.faces@.len() as int,
                                    ).contains(crate::spec_fptr(k)));
                                    let jx = choose|jx: int|
                                        t - 1 <= jx < adj.faces@.len() && adj.faces@[jx]
                                            == crate::spec_fptr(k);
                                    assert(jx != t - 1) by {
                                        if jx == t - 1 {
                                            assert(crate::spec_fptr(k) == g);
                                        }
                                    }
                                    assert(adj.faces@.subrange(
                                        t as int,
                                        adj.faces@.len() as int,
                                    )[jx - t] == crate::spec_fptr(k));
                                }
                            }
                        }
                    }
                    proof {
                        // no surviving face holds the vanished vertex, so
                        // the support lost it and nothing joined
                        let sup0 = s_entry.spec_live_support();
                        let sup1 = store.spec_live_support();
                        let a = ed.a.idx as int;
                        assert(adj.faces@.subrange(
                            adj.faces@.len() as int,
                            adj.faces@.len() as int,
                        ) =~= Seq::<FacePtr>::empty());
                        assert forall|v: int| sup1.contains(v) implies sup0.contains(v) && v
                            != a by {
                            let k = choose|k: int|
                                0 <= k < store.faces@.len() && store.faces_alive@[k] && (
                                #[trigger] store.faces@[k]).has_vertex(crate::spec_vptr(v));
                            assert(!store.faces@[k].has_vertex(ed.a)) by {
                                if store.faces@[k].has_vertex(ed.a) {
                                    assert(store.spec_face_live(crate::spec_fptr(k)));
                                }
                            }
                            crate::lemma_vptr_eta(ed.a);
                            if k < s_entry.faces@.len() {
                                assert(s_entry.faces_alive@[k]);
                                assert(sup0.contains(v));
                            } else {
                                let fk = store.faces@[k];
                                assert(fk.a == crate::spec_vptr(v) || fk.b == crate::spec_vptr(v)
                                    || fk.c == crate::spec_vptr(v));
                                assert(sup0.contains(v));
                            }
                        }
                        assert(sup0.contains(a));
                        assert(!sup1.contains(a)) by {
                            if sup1.contains(a) {
                                let k = choose|k: int|
                                    0 <= k < store.faces@.len() && store.faces_alive@[k] && (
                                    #[trigger] store.faces@[k]).has_vertex(crate::spec_vptr(a));
                                crate::lemma_vptr_eta(ed.a);
                                assert(store.spec_face_live(crate::spec_fptr(k)));
                            }
                        }
                        s_entry.lemma_support_finite();
                        store.lemma_support_finite();
                        assert(sup1.subset_of(sup0.remove(a)));
                        vstd::set_lib::lemma_set_subset_finite(sup0, sup0.remove(a));
                        vstd::set_lib::lemma_len_subset(sup1, sup0.remove(a));
                        assert(sup0.remove(a).len() < sup0.len()) by {
                            assert(sup0.remove(a).insert(a) =~= sup0);
                        }
                        assert(sup1.len() < sup0.len());
                        assert(s_iter.spec_live_support() =~= sup0);
                    }
                },
            }
        }
    }
}

impl Default for Mesh {
    /// New empty mesh.
    fn default() -> (r: Mesh)
        ensures
            r.wf(),
            r.vertices@ == Seq::<VertexPtr>::empty(),
            r.faces@ == Seq::<FacePtr>::empty(),
            r.edges@ == Seq::<EdgePtr>::empty(),
    {
        Mesh::new()
    }
}

} // verus!
