//! Ordered pair of vertex handles with a direction-independent identity.
//!
//! The stored direction is `a` to `b`.  `id_sum`, the sum of the two
//! endpoint vertex ids, identifies the edge independently of direction;
//! because vertex ids form a Sidon sequence, equal sums mean equal
//! unordered endpoint pairs.  Edges are created on demand by face
//! operations and are not cached: several edge instances may stand for the
//! same topological edge, and algorithms that need canonical edges group
//! them by `id_sum`.

use vstd::prelude::*;

use crate::store::Store;
use crate::EdgePtr;
use crate::VertexPtr;
use crate::eptr;
use crate::spec_eptr;
use crate::spec_vptr;

verus! {

/// A directed edge owning its two endpoints.
#[derive(Clone, Copy, Debug, PartialEq, Eq, Structural)]
pub struct Edge {
    /// Sum of the endpoint vertex ids: the direction-independent identity.
    pub id_sum: u64,
    pub a: VertexPtr,
    pub b: VertexPtr,
}

impl Edge {
    /// One of the two endpoints is `v`.
    pub open spec fn has_vertex(self, v: VertexPtr) -> bool {
        self.a == v || self.b == v
    }

    /// The endpoints of this edge are `u` and `w`, in either direction.
    pub open spec fn joins(self, u: VertexPtr, w: VertexPtr) -> bool {
        (self.a == u && self.b == w) || (self.a == w && self.b == u)
    }
}

/// The id an edge from `a` to `b` receives in `store`: the sum of the two
/// endpoint vertex ids.
pub open spec fn spec_id_sum(store: Store, a: VertexPtr, b: VertexPtr) -> int {
    store.vertices@[a.idx as int].id + store.vertices@[b.idx as int].id
}

/// The whole effect of constructing the edge `a` to `b`: `post` is `pre`
/// with one live edge appended and the back-link registered on each
/// distinct endpoint; nothing else moves.
pub open spec fn spec_edge_created(
    pre: Store,
    post: Store,
    a: VertexPtr,
    b: VertexPtr,
    r: EdgePtr,
) -> bool {
    &&& r == spec_eptr(pre.edges@.len() as int)
    &&& post.edges@ == pre.edges@.push(
        Edge { id_sum: spec_id_sum(pre, a, b) as u64, a, b },
    )
    &&& post.edges_alive@ == pre.edges_alive@.push(true)
    &&& post.faces@ == pre.faces@
    &&& post.faces_alive@ == pre.faces_alive@
    &&& post.vertices@.len() == pre.vertices@.len()
    &&& forall|i: int|
        0 <= i < pre.vertices@.len() ==> crate::vertex::same_but_edge_links(
            post.vertices@[i],
            pre.vertices@[i],
        )
    &&& forall|i: int|
        0 <= i < pre.vertices@.len() ==> post.vertices@[i].edges@ == (if i == a.idx as int || i
            == b.idx as int {
            pre.vertices@[i].edges@.push(spec_eptr(pre.edges@.len() as int))
        } else {
            pre.vertices@[i].edges@
        })
}

impl Edge {
    /// Construct a new edge from two vertices and add it to the store.
    ///
    /// Registers a back-link on each distinct endpoint, so the edge is
    /// immediately visible to the edge adjacency of its vertices.
    pub fn new(store: &mut Store, a: VertexPtr, b: VertexPtr) -> (r: EdgePtr)
        requires
            old(store).wf(),
            old(store).valid_v(a),
            old(store).valid_v(b),
        ensures
            final(store).wf(),
            spec_edge_created(*old(store), *final(store), a, b, r),
    {
        let ghost pre = *store;
        let r = eptr(store.edges.len());
        let ida = store.vertex(a).id;
        let idb = store.vertex(b).id;
        proof {
            store.lemma_id_in_range(a.idx as int);
            store.lemma_id_in_range(b.idx as int);
        }
        store.push_edge(Edge { id_sum: ida + idb, a, b });
        proof {
            crate::lemma_vptr_eta(a);
            crate::lemma_vptr_eta(b);
            assert forall|i: int| 0 <= i < pre.vertices@.len() implies store.vertices@[i].edges@
                == (if i == a.idx as int || i == b.idx as int {
                pre.vertices@[i].edges@.push(spec_eptr(pre.edges@.len() as int))
            } else {
                pre.vertices@[i].edges@
            }) by {
                let e = Edge { id_sum: (ida + idb) as u64, a, b };
                if i == a.idx as int || i == b.idx as int {
                    assert(e.has_vertex(spec_vptr(i)));
                } else {
                    assert(spec_vptr(i).idx == i as usize);
                    assert(!e.has_vertex(spec_vptr(i)));
                }
            }
        }
        r
    }
}

impl crate::Pointer<crate::EdgeTag> {
    /// Get the next edge connected to vertex `b` of this edge: the first of
    /// the first two surviving edges of `b` that is not this edge itself.
    pub fn next_edge(&self, store: &Store) -> (r: Option<Self>)
        requires
            store.wf(),
            store.valid_e(*self),
        ensures
            r == store.spec_next_edge(*self),
    {
        proof {
            assert(store.wf_edge(self.idx as int));
        }
        let b = store.edge(*self).b;
        let edges = b.adjacent_edges(store);
        if edges.len() > 1 {
            if edges[0] != *self {
                return Some(edges[0]);
            } else if edges[1] != *self {
                return Some(edges[1]);
            }
        }
        None
    }
}

} // verus!
