//! Conversions from plain handle collections into a [`Mesh`].

use vstd::prelude::*;

use crate::mesh::Mesh;
use crate::EdgePtr;
use crate::FacePtr;
use crate::VertexPtr;

verus! {

/// Turn a collection of handles into a mesh holding them as a set.
pub trait IntoMesh: Sized {
    /// The vertex handles the mesh will hold.
    spec fn spec_vertex_part(self) -> Seq<VertexPtr>;

    /// The face handles the mesh will hold.
    spec fn spec_face_part(self) -> Seq<FacePtr>;

    /// Convert to a mesh; repeated handles fold into one member.
    fn into_mesh(self) -> (r: Mesh)
        ensures
            r.wf(),
            r.edges@ == Seq::<EdgePtr>::empty(),
            forall|y: VertexPtr| #[trigger]
                r.vertices@.contains(y) <==> self.spec_vertex_part().contains(y),
            forall|y: FacePtr| #[trigger]
                r.faces@.contains(y) <==> self.spec_face_part().contains(y),
    ;
}

impl IntoMesh for Vec<VertexPtr> {
    open spec fn spec_vertex_part(self) -> Seq<VertexPtr> {
        self@
    }

    open spec fn spec_face_part(self) -> Seq<FacePtr> {
        Seq::empty()
    }

    /// Convert vertices to a mesh.
    #[verifier::loop_isolation(false)]
    fn into_mesh(self) -> (r: Mesh) {
        let mut r = Mesh::new();
        let mut i: usize = 0;
        while i < self.len()
            invariant
                i <= self@.len(),
                r.wf(),
                r.faces@ == Seq::<FacePtr>::empty(),
                r.edges@ == Seq::<EdgePtr>::empty(),
                forall|y: VertexPtr| #[trigger]
                    r.vertices@.contains(y) <==> self@.subrange(0, i as int).contains(y),
            decreases self@.len() - i,
        {
            let ghost before = r.vertices@;
            r.insert_vertex(self[i]);
            i = i + 1;
            proof {
                let pre = self@.subrange(0, i as int - 1);
                let cur = self@.subrange(0, i as int);
                assert(cur =~= pre.push(self@[i as int - 1]));
                assert forall|y: VertexPtr| #[trigger] r.vertices@.contains(y) <==> cur.contains(
                    y,
                ) by {
                    crate::seqs::lemma_push_contains_iff(pre, self@[i as int - 1], y);
                }
            }
        }
        proof {
            assert(self@.subrange(0, self@.len() as int) =~= self@);
        }
        r
    }
}

impl IntoMesh for Vec<FacePtr> {
    open spec fn spec_vertex_part(self) -> Seq<VertexPtr> {
        Seq::empty()
    }

    open spec fn spec_face_part(self) -> Seq<FacePtr> {
        self@
    }

    /// Convert faces to a mesh.
    #[verifier::loop_isolation(false)]
    fn into_mesh(self) -> (r: Mesh) {
        let mut r = Mesh::new();
        let mut i: usize = 0;
        while i < self.len()
            invariant
                i <= self@.len(),
                r.wf(),
                r.vertices@ == Seq::<VertexPtr>::empty(),
                r.edges@ == Seq::<EdgePtr>::empty(),
                forall|y: FacePtr| #[trigger]
                    r.faces@.contains(y) <==> self@.subrange(0, i as int).contains(y),
            decreases self@.len() - i,
        {
            r.insert_face(self[i]);
            i = i + 1;
            proof {
                let pre = self@.subrange(0, i as int - 1);
                let cur = self@.subrange(0, i as int);
                assert(cur =~= pre.push(self@[i as int - 1]));
                assert forall|y: FacePtr| #[trigger] r.faces@.contains(y) <==> cur.contains(y) by {
                    crate::seqs::lemma_push_contains_iff(pre, self@[i as int - 1], y);
                }
            }
        }
        proof {
            assert(self@.subrange(0, self@.len() as int) =~= self@);
        }
        r
    }
}

} // verus!
