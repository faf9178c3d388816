//! Identity-bearing point in space.
//!
//! A vertex remembers, append-only, every face and edge that was built on
//! it.  Those back-links are non-owning: the target may have been retired
//! since, and every reader filters the lists against liveness (see
//! [`crate::store::Store`]).

use vstd::prelude::*;

use crate::mesh::Mesh;
use crate::store::Store;
use crate::store::VERTEX_CAP;
use crate::store::spec_vertex_id;
use crate::vector3::Vector3;
use crate::EdgePtr;
use crate::FacePtr;
use crate::VertexPtr;
use crate::spec_vptr;
use crate::vptr;

verus! {

/// A point of the mesh with identity and append-only back-links.
pub struct Vertex {
    /// Unique identity, assigned at construction, immutable afterwards.
    ///
    /// Ids are drawn from a sequence with pairwise-distinct sums (a Sidon
    /// sequence), so the sum of two ids identifies the unordered pair; edge
    /// identities rely on this.
    pub id: u64,
    /// Fixed-point coordinates.
    pub point: Vector3,
    /// Back-links to every face constructed on this vertex, in construction
    /// order, possibly retired since.
    pub faces: Vec<FacePtr>,
    /// Back-links to every edge constructed on this vertex, in construction
    /// order, possibly retired since.
    pub edges: Vec<EdgePtr>,
}

/// Two vertices agree on everything but the face back-link list.
pub open spec fn same_but_face_links(v1: Vertex, v2: Vertex) -> bool {
    &&& v1.id == v2.id
    &&& v1.point == v2.point
    &&& v1.edges@ == v2.edges@
}

/// Two vertices agree on everything but the edge back-link list.
pub open spec fn same_but_edge_links(v1: Vertex, v2: Vertex) -> bool {
    &&& v1.id == v2.id
    &&& v1.point == v2.point
    &&& v1.faces@ == v2.faces@
}

impl Vertex {
    /// Construct a new vertex from coordinates and add it to the store.
    ///
    /// The new vertex has no back-links yet; its id is the next entry of the
    /// store's id sequence.
    pub fn new(store: &mut Store, point: Vector3) -> (r: VertexPtr)
        requires
            old(store).wf(),
            old(store).vertices@.len() < VERTEX_CAP,
            point.in_range(),
        ensures
            final(store).wf(),
            r == spec_vptr(old(store).vertices@.len() as int),
            final(store).vertices@.len() == old(store).vertices@.len() + 1,
            forall|i: int|
                0 <= i < old(store).vertices@.len() ==> final(store).vertices@[i] == old(store).vertices@[i],
            final(store).vertices@[r.idx as int].id == spec_vertex_id(r.idx as int),
            final(store).vertices@[r.idx as int].point == point,
            final(store).vertices@[r.idx as int].faces@ == Seq::<FacePtr>::empty(),
            final(store).vertices@[r.idx as int].edges@ == Seq::<EdgePtr>::empty(),
            final(store).faces@ == old(store).faces@,
            final(store).faces_alive@ == old(store).faces_alive@,
            final(store).edges@ == old(store).edges@,
            final(store).edges_alive@ == old(store).edges_alive@,
    {
        let i = store.vertices.len();
        let id = store.fresh_vertex_id();
        let v = Vertex { id, point, faces: Vec::new(), edges: Vec::new() };
        store.push_vertex(v);
        vptr(i)
    }

    /// The coordinates of this vertex.
    pub fn point(&self) -> (r: &Vector3)
        ensures
            *r == self.point,
    {
        &self.point
    }
}

impl crate::Pointer<crate::VertexTag> {
    /// The faces built on this vertex that still exist, as a mesh:
    /// upgrade every face back-link and discard the dead ones.
    #[verifier::loop_isolation(false)]
    pub fn adjacent_faces(&self, store: &Store) -> (r: Mesh)
        requires
            store.wf(),
            store.valid_v(*self),
        ensures
            r.wf(),
            r.faces@ == store.live_face_backlinks(*self),
            r.vertices@ == Seq::<VertexPtr>::empty(),
            r.edges@ == Seq::<crate::EdgePtr>::empty(),
    {
        proof {
            assert(store.wf_vertex(self.idx as int));
        }
        let ghost pred = |f: FacePtr| store.spec_face_live(f);
        let ghost links = store.vertices@[self.idx as int].faces@;
        let mut m = Mesh::new();
        let v = store.vertex(*self);
        let mut j: usize = 0;
        while j < v.faces.len()
            invariant
                store.wf(),
                store.valid_v(*self),
                *v == store.vertices@[self.idx as int],
                links == v.faces@,
                j <= links.len(),
                m.faces@ == links.subrange(0, j as int).filter(pred),
                m.vertices@ == Seq::<VertexPtr>::empty(),
                m.edges@ == Seq::<crate::EdgePtr>::empty(),
            decreases links.len() - j,
        {
            let f = v.faces[j];
            proof {
                assert(store.wf_vertex(self.idx as int));
                assert(store.valid_f(links[j as int]));
                crate::seqs::lemma_filter_push(links.subrange(0, j as int), f, pred);
                assert(links.subrange(0, j as int + 1) =~= links.subrange(0, j as int).push(f));
            }
            if store.face_live(f) {
                m.faces.push(f);
            }
            j = j + 1;
        }
        proof {
            assert(links.subrange(0, links.len() as int) =~= links);
            assert(store.wf_vertex(self.idx as int));
            crate::seqs::lemma_filter_no_duplicates(links, pred);
        }
        m
    }

    /// The edges built on this vertex that still exist, in registration
    /// order: upgrade every edge back-link and discard the dead ones.
    #[verifier::loop_isolation(false)]
    pub fn adjacent_edges(&self, store: &Store) -> (r: Vec<crate::EdgePtr>)
        requires
            store.wf(),
            store.valid_v(*self),
        ensures
            r@ == store.live_edge_backlinks(*self),
            r@.no_duplicates(),
    {
        proof {
            assert(store.wf_vertex(self.idx as int));
        }
        let ghost pred = |e: crate::EdgePtr| store.spec_edge_live(e);
        let ghost links = store.vertices@[self.idx as int].edges@;
        let mut out: Vec<crate::EdgePtr> = Vec::new();
        let v = store.vertex(*self);
        let mut j: usize = 0;
        while j < v.edges.len()
            invariant
                store.wf(),
                store.valid_v(*self),
                *v == store.vertices@[self.idx as int],
                links == v.edges@,
                j <= links.len(),
                out@ == links.subrange(0, j as int).filter(pred),
            decreases links.len() - j,
        {
            let e = v.edges[j];
            proof {
                assert(store.wf_vertex(self.idx as int));
                assert(store.valid_e(links[j as int]));
                crate::seqs::lemma_filter_push(links.subrange(0, j as int), e, pred);
                assert(links.subrange(0, j as int + 1) =~= links.subrange(0, j as int).push(e));
            }
            if store.edge_live(e) {
                out.push(e);
            }
            j = j + 1;
        }
        proof {
            assert(links.subrange(0, links.len() as int) =~= links);
            assert(store.wf_vertex(self.idx as int));
            crate::seqs::lemma_filter_no_duplicates(links, pred);
        }
        out
    }

    /// The vertices used by the surviving faces of this vertex, this vertex
    /// included whenever a face still holds it.
    pub fn adjacent_vertices(&self, store: &Store) -> (r: Mesh)
        requires
            store.wf(),
            store.valid_v(*self),
        ensures
            r.wf(),
            r.faces@ == Seq::<FacePtr>::empty(),
            r.edges@ == Seq::<crate::EdgePtr>::empty(),
            forall|w: VertexPtr| #[trigger]
                r.vertices@.contains(w) <==> exists|g: FacePtr|
                    #[trigger] store.spec_vertex_face(*self, g) && store.faces@[g.idx
                        as int].has_vertex(w),
    {
        let m = self.adjacent_faces(store);
        proof {
            self.lemma_adjacent_faces_valid(store, m);
        }
        let mut r = m.face_vertices(store);
        proof {
            assert forall|w: VertexPtr| #[trigger] r.vertices@.contains(w) implies exists|
                g: FacePtr,
            |
                #[trigger] store.spec_vertex_face(*self, g) && store.faces@[g.idx
                    as int].has_vertex(w) by {
                let i = choose|i: int|
                    0 <= i < m.faces@.len() && store.faces@[(#[trigger] m.faces@[i]).idx
                        as int].has_vertex(w);
                let g = m.faces@[i];
                self.lemma_live_backlink_is_vertex_face(store, g);
            }
            assert forall|w: VertexPtr|
                exists|g: FacePtr|
                    #[trigger] store.spec_vertex_face(*self, g) && store.faces@[g.idx
                        as int].has_vertex(w) implies #[trigger] r.vertices@.contains(w) by {
                let g = choose|g: FacePtr|
                    #[trigger] store.spec_vertex_face(*self, g) && store.faces@[g.idx
                        as int].has_vertex(w);
                self.lemma_live_backlink_is_vertex_face(store, g);
                let i = choose|i: int| 0 <= i < m.faces@.len() && m.faces@[i] == g;
                assert(store.faces@[(m.faces@[i]).idx as int].has_vertex(w));
            }
        }
        r
    }

    /// The surviving faces of this vertex together with all their vertices.
    pub fn adjacent_vertices_and_faces(&self, store: &Store) -> (r: Mesh)
        requires
            store.wf(),
            store.valid_v(*self),
        ensures
            r.wf(),
            r.faces@ == store.live_face_backlinks(*self),
            r.edges@ == Seq::<crate::EdgePtr>::empty(),
            forall|w: VertexPtr| #[trigger]
                r.vertices@.contains(w) <==> exists|g: FacePtr|
                    #[trigger] store.spec_vertex_face(*self, g) && store.faces@[g.idx
                        as int].has_vertex(w),
    {
        let m = self.adjacent_faces(store);
        let mut r = self.adjacent_vertices(store);
        let faces = m.face_list();
        r.faces = faces;
        proof {
            assert(store.wf_vertex(self.idx as int));
            crate::seqs::lemma_filter_no_duplicates(
                store.vertices@[self.idx as int].faces@,
                |f: FacePtr| store.spec_face_live(f),
            );
        }
        r
    }

    /// A mesh holding the live face back-links of this vertex and nothing
    /// else only names entities of the store.
    pub proof fn lemma_adjacent_faces_valid(self, store: &Store, m: Mesh)
        requires
            store.wf(),
            store.valid_v(self),
            m.faces@ == store.live_face_backlinks(self),
            m.vertices@ == Seq::<VertexPtr>::empty(),
            m.edges@ == Seq::<crate::EdgePtr>::empty(),
        ensures
            m.valid_in(*store),
    {
        let links = store.vertices@[self.idx as int].faces@;
        assert forall|i: int| 0 <= i < m.faces@.len() implies store.valid_f(
            #[trigger] m.faces@[i],
        ) by {
            assert(m.faces@.contains(m.faces@[i]));
            crate::seqs::lemma_filter_elem(
                links,
                |f: FacePtr| store.spec_face_live(f),
                m.faces@[i],
            );
            assert(store.wf_vertex(self.idx as int));
            let j = choose|j: int| 0 <= j < links.len() && links[j] == m.faces@[i];
        }
    }

    /// A handle in the live face back-links is exactly a live face holding
    /// this vertex.
    pub proof fn lemma_live_backlink_is_vertex_face(self, store: &Store, g: FacePtr)
        requires
            store.wf(),
            store.valid_v(self),
        ensures
            store.live_face_backlinks(self).contains(g) <==> store.spec_vertex_face(self, g),
    {
        crate::seqs::lemma_filter_contains_iff(
            store.vertices@[self.idx as int].faces@,
            |f: FacePtr| store.spec_face_live(f),
            g,
        );
        store.lemma_face_backlink_iff_incident(self, g);
    }
}

} // verus!
