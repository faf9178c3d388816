//! Engine-wide laws, each proved once and for all rather than sampled by
//! tests: what adjacency returns, that it is stable, and that flipping a
//! face breaks the orientation of a consistent surface.

use vstd::prelude::*;

use crate::face::Face;
use crate::face::spec_face_created;
use crate::face::spec_same_winding_pair;
use crate::face::spec_shares_vertex;
use crate::mesh::Mesh;
use crate::store::Store;
use crate::FacePtr;
use crate::VertexPtr;

verus! {

/// The face presents the ordered vertex pair `(u, w)` on its boundary:
/// walking the winding, `w` follows `u`.
pub open spec fn spec_has_ordered_pair(f: Face, u: VertexPtr, w: VertexPtr) -> bool {
    ||| (f.a == u && f.b == w)
    ||| (f.b == u && f.c == w)
    ||| (f.c == u && f.a == w)
}

/// A vertex's adjacency is exact: the faces returned for `v` are precisely
/// the surviving faces that hold `v` — no extras, no omissions.
pub proof fn lemma_adjacent_faces_exact(store: Store, v: VertexPtr, m: Mesh, g: FacePtr)
    requires
        store.wf(),
        store.valid_v(v),
        m.faces@ == store.live_face_backlinks(v),
    ensures
        m.faces@.contains(g) <==> store.spec_vertex_face(v, g),
{
    crate::seqs::lemma_filter_contains_iff(
        store.vertices@[v.idx as int].faces@,
        |f: FacePtr| store.spec_face_live(f),
        g,
    );
    store.lemma_face_backlink_iff_incident(v, g);
}

/// A freshly constructed face holding `v` resolves from `v` at once: it is
/// among what `adjacent_faces(v)` returns afterwards.
pub proof fn lemma_new_face_adjacent(
    pre: Store,
    post: Store,
    f: Face,
    r: FacePtr,
    v: VertexPtr,
)
    requires
        pre.wf(),
        spec_face_created(pre, post, f, r),
        r.idx as int == pre.faces@.len(),
        f.has_vertex(v),
    ensures
        post.spec_vertex_face(v, r),
{
    assert(post.faces_alive@[r.idx as int]);
    assert(post.faces@[r.idx as int] == f);
}

/// Adjacency is stable: two queries for the same vertex against the same
/// store yield the same faces, in the same order.
pub proof fn lemma_adjacent_faces_idempotent(store: Store, v: VertexPtr, m1: Mesh, m2: Mesh)
    requires
        m1.faces@ == store.live_face_backlinks(v),
        m2.faces@ == store.live_face_backlinks(v),
    ensures
        m1.faces@ == m2.faces@,
{
}

/// Face-level adjacency is stable too: two queries for the same face
/// against the same store yield equal sets of neighbours.
pub proof fn lemma_face_adjacency_idempotent(store: Store, f: FacePtr, m1: Mesh, m2: Mesh)
    requires
        forall|g: FacePtr| #[trigger] m1.faces@.contains(g) <==> store.spec_adjacent(f, g),
        forall|g: FacePtr| #[trigger] m2.faces@.contains(g) <==> store.spec_adjacent(f, g),
    ensures
        m1.faces@.to_set() == m2.faces@.to_set(),
{
    broadcast use vstd::seq_lib::group_seq_properties;

    assert forall|g: FacePtr| #[trigger] m1.faces@.to_set().contains(g) implies m2.faces@.to_set()
        .contains(g) by {
        assert(m1.faces@.contains(g));
        assert(m2.faces@.contains(g));
    }
    assert forall|g: FacePtr| #[trigger] m2.faces@.to_set().contains(g) implies m1.faces@.to_set()
        .contains(g) by {
        assert(m2.faces@.contains(g));
        assert(m1.faces@.contains(g));
    }
    assert(m1.faces@.to_set() =~= m2.faces@.to_set());
}

/// Flipping one face of a consistently oriented mesh breaks the
/// consistency, whenever the face shares an edge with a surviving
/// neighbour in opposite order — as every face of a well-formed closed
/// surface does.  The flipped copy presents that edge in the neighbour's
/// own order, so the new mesh fails the orientation check.
pub proof fn lemma_flip_breaks_orientation(
    pre: Store,
    post: Store,
    m_pre: Mesh,
    m_post: Mesh,
    f: FacePtr,
    f2: FacePtr,
    g: FacePtr,
    u: VertexPtr,
    w: VertexPtr,
)
    requires
        pre.wf(),
        m_pre.spec_consistent_orientation(pre),
        m_pre.faces@.contains(f),
        pre.valid_f(f),
        pre.spec_adjacent(f, g),
        spec_has_ordered_pair(pre.faces@[f.idx as int], u, w),
        spec_has_ordered_pair(pre.faces@[g.idx as int], w, u),
        spec_face_created(pre, post, pre.spec_flipped_data(f), f2),
        f2.idx as int == pre.faces@.len(),
        m_post.faces@ == m_pre.faces@.remove_value(f).push(f2),
    ensures
        !m_post.spec_consistent_orientation(post),
{
    let fd = pre.faces@[f.idx as int];
    let gd = pre.faces@[g.idx as int];
    let f2d = pre.spec_flipped_data(f);
    assert(post.faces@[f2.idx as int] == f2d);
    assert(post.faces@[g.idx as int] == gd);
    assert(post.faces_alive@[g.idx as int] == pre.faces_alive@[g.idx as int]);
    // the flipped data presents the shared pair in the same order as the
    // neighbour
    assert(spec_has_ordered_pair(f2d, w, u));
    assert(spec_same_winding_pair(f2d, gd));
    assert(spec_shares_vertex(f2d, gd));
    assert(post.spec_adjacent(f2, g)) by {
        assert(g != f2);
    }
    assert(post.spec_adjacent_is_flipped(f2));
    let last = m_post.faces@.len() - 1;
    assert(m_post.faces@[last] == f2);
    assert(!m_post.spec_consistent_orientation(post));
}

} // verus!
