//! Oriented triangle: an ordered triple of vertex handles.
//!
//! The stored order is the winding and defines the normal direction by the
//! right-hand rule.  A face is immutable after construction; every
//! topological edit retires it and constructs a replacement, because other
//! structures may hold identity-based references to the original.

use vstd::prelude::*;

use crate::edge::Edge;
use crate::edge::spec_edge_created;
use crate::edge::spec_id_sum;
use crate::mesh::Mesh;
use crate::store::Store;
use crate::vector3::Vector3;
use crate::EdgePtr;
use crate::Error;
use crate::FacePtr;
use crate::VertexPtr;
use crate::fptr;
use crate::spec_fptr;
use crate::spec_vptr;

verus! {

/// A triangle holding its three vertices in winding order.
#[derive(Clone, Copy, Debug, PartialEq, Eq, Structural)]
pub struct Face {
    pub a: VertexPtr,
    pub b: VertexPtr,
    pub c: VertexPtr,
}

impl Face {
    /// One of the three slots holds `v`.
    pub open spec fn has_vertex(self, v: VertexPtr) -> bool {
        self.a == v || self.b == v || self.c == v
    }

    /// Two of the three slots hold the same vertex: the triangle has
    /// collapsed to an edge or a point.
    pub open spec fn has_repeated_vertex(self) -> bool {
        self.a == self.b || self.a == self.c || self.b == self.c
    }

    /// The face with every slot holding `o` replaced by `n`.
    pub open spec fn spec_substituted(self, o: VertexPtr, n: VertexPtr) -> Face {
        Face {
            a: if self.a == o {
                n
            } else {
                self.a
            },
            b: if self.b == o {
                n
            } else {
                self.b
            },
            c: if self.c == o {
                n
            } else {
                self.c
            },
        }
    }
}

/// The two faces hold at least one common vertex.
pub open spec fn spec_shares_vertex(f: Face, g: Face) -> bool {
    f.has_vertex(g.a) || f.has_vertex(g.b) || f.has_vertex(g.c)
}

/// One of the three ordered boundary pairs of `f` — `(a,b)`, `(b,c)`,
/// `(c,a)` — is also an ordered boundary pair of `g`.
///
/// A well-oriented surface presents a shared edge in opposite order from
/// its two incident faces; a pair shared in the same order means one of the
/// two faces is flipped or overlapping.  The nine cases are the three pairs
/// of `f` against the three of `g`.
pub open spec fn spec_same_winding_pair(f: Face, g: Face) -> bool {
    ||| (f.a == g.a && f.b == g.b)
    ||| (f.b == g.b && f.c == g.c)
    ||| (f.c == g.c && f.a == g.a)
    ||| (f.a == g.b && f.b == g.c)
    ||| (f.b == g.c && f.c == g.a)
    ||| (f.c == g.a && f.a == g.b)
    ||| (f.a == g.c && f.b == g.a)
    ||| (f.b == g.a && f.c == g.b)
    ||| (f.c == g.b && f.a == g.c)
}

/// The whole effect of constructing a face: `post` is `pre` with one live
/// face appended and the back-link registered on each distinct slot vertex;
/// nothing else moves.
pub open spec fn spec_face_created(pre: Store, post: Store, f: Face, r: FacePtr) -> bool {
    &&& r == spec_fptr(pre.faces@.len() as int)
    &&& post.faces@ == pre.faces@.push(f)
    &&& post.faces_alive@ == pre.faces_alive@.push(true)
    &&& post.edges@ == pre.edges@
    &&& post.edges_alive@ == pre.edges_alive@
    &&& post.vertices@.len() == pre.vertices@.len()
    &&& forall|i: int|
        0 <= i < pre.vertices@.len() ==> crate::vertex::same_but_face_links(
            post.vertices@[i],
            pre.vertices@[i],
        )
    &&& forall|i: int|
        0 <= i < pre.vertices@.len() ==> post.vertices@[i].faces@ == (if f.has_vertex(
            spec_vptr(i),
        ) {
            pre.vertices@[i].faces@.push(spec_fptr(pre.faces@.len() as int))
        } else {
            pre.vertices@[i].faces@
        })
}

impl Face {
    /// Construct a new face from vertices and add it to the store.
    ///
    /// Registers a back-link on each distinct vertex of the triple, so the
    /// face is immediately visible to adjacency queries of its vertices.
    pub fn new(store: &mut Store, vertices: [VertexPtr; 3]) -> (r: FacePtr)
        requires
            old(store).wf(),
            old(store).valid_v(vertices[0]),
            old(store).valid_v(vertices[1]),
            old(store).valid_v(vertices[2]),
        ensures
            final(store).wf(),
            spec_face_created(
                *old(store),
                *final(store),
                Face { a: vertices[0], b: vertices[1], c: vertices[2] },
                r,
            ),
    {
        let a = vertices[0];
        let b = vertices[1];
        let c = vertices[2];
        let r = fptr(store.faces.len());
        store.push_face(Face { a, b, c });
        r
    }

    /// Get vertices `a`, `b` and `c` of this face, in winding order.
    pub fn vertices(&self) -> (r: [VertexPtr; 3])
        ensures
            r@ == seq![self.a, self.b, self.c],
    {
        let r = [self.a, self.b, self.c];
        proof {
            assert(r@ =~= seq![self.a, self.b, self.c]);
        }
        r
    }

    /// The first short edge of this face, if any: the edge `a` to `b` when
    /// that one is shorter than `tol`, else the edge `a` to `c` when that
    /// one is.  Only those two edges are inspected, never `b` to `c`; the
    /// edge collapse relies on this order.  The threshold is a fixed-point
    /// length; a non-positive threshold never matches.
    pub fn short_edge(&self, store: &mut Store, tol: i64) -> (r: Option<EdgePtr>)
        requires
            old(store).wf(),
            old(store).valid_v(self.a),
            old(store).valid_v(self.b),
            old(store).valid_v(self.c),
        ensures
            final(store).wf(),
            old(store).spec_pair_short(self.a, self.b, tol as int) ==> (r matches Some(e)
                && spec_edge_created(*old(store), *final(store), self.a, self.b, e)),
            !old(store).spec_pair_short(self.a, self.b, tol as int) && old(store).spec_pair_short(
                self.a,
                self.c,
                tol as int,
            ) ==> (r matches Some(e) && spec_edge_created(
                *old(store),
                *final(store),
                self.a,
                self.c,
                e,
            )),
            !old(store).spec_pair_short(self.a, self.b, tol as int) && !old(store).spec_pair_short(self.a, self.c, tol as int) ==> (r == None::<EdgePtr> && *final(store) == *old(store)),
    {
        proof {
            assert(store.wf_vertex(self.a.idx as int));
            assert(store.wf_vertex(self.b.idx as int));
            assert(store.wf_vertex(self.c.idx as int));
        }
        let pa = *store.vertex(self.a).point();
        let pb = *store.vertex(self.b).point();
        let pc = *store.vertex(self.c).point();
        if tol > 0 {
            proof {
                assert((tol as int) * (tol as int) < 0x80000000000000000000000000000000)
                    by (nonlinear_arith)
                    requires
                        0 < (tol as int) && (tol as int) < 0x8000000000000000,
                ;
            }
            let t2 = (tol as i128) * (tol as i128);
            if pb.sub(&pa).length_sq() < t2 {
                return Some(Edge::new(store, self.a, self.b));
            }
            if pc.sub(&pa).length_sq() < t2 {
                return Some(Edge::new(store, self.a, self.c));
            }
        }
        None
    }

    /// Create a new face with `o` replaced by `n` everywhere it occurs.
    /// No face is produced when the replacement would leave two slots
    /// holding the same vertex: the face has collapsed and must disappear
    /// rather than degenerate.
    pub fn replace_vertex(&self, store: &mut Store, o: VertexPtr, n: VertexPtr) -> (r: Option<
        FacePtr,
    >)
        requires
            old(store).wf(),
            old(store).valid_v(self.a),
            old(store).valid_v(self.b),
            old(store).valid_v(self.c),
            old(store).valid_v(n),
        ensures
            final(store).wf(),
            o == n || self.spec_substituted(o, n).has_repeated_vertex() ==> (r == None::<FacePtr>
                && *final(store) == *old(store)),
            o != n && !self.spec_substituted(o, n).has_repeated_vertex() ==> (r matches Some(fp)
                && spec_face_created(*old(store), *final(store), self.spec_substituted(o, n), fp)),
    {
        if o == n {
            return None;
        }
        let na = if self.a == o {
            n
        } else {
            self.a
        };
        let nb = if self.b == o {
            n
        } else {
            self.b
        };
        let nc = if self.c == o {
            n
        } else {
            self.c
        };
        if na == nb || na == nc || nb == nc {
            return None;
        }
        Some(Face::new(store, [na, nb, nc]))
    }

    /// Normal direction of the face: the exact cross product of its two
    /// edge vectors `(b - a)` and `(c - a)`, unnormalised.  Fails exactly
    /// when the cross product is the zero vector, that is, when the two
    /// edge vectors are collinear and the triangle has no area.
    pub fn normal(&self, store: &Store) -> (r: Result<Vector3, Error>)
        requires
            store.wf(),
            store.valid_v(self.a),
            store.valid_v(self.b),
            store.valid_v(self.c),
        ensures
            r == (if store.spec_face_degenerate(*self) {
                Err::<Vector3, Error>(Error::DegenerateGeometry)
            } else {
                Ok::<Vector3, Error>(store.spec_face_normal(*self))
            }),
    {
        proof {
            assert(store.wf_vertex(self.a.idx as int));
            assert(store.wf_vertex(self.b.idx as int));
            assert(store.wf_vertex(self.c.idx as int));
        }
        let pa = *store.vertex(self.a).point();
        let pb = *store.vertex(self.b).point();
        let pc = *store.vertex(self.c).point();
        let d0 = pb.sub(&pa);
        let d1 = pc.sub(&pa);
        let n = d0.cross(&d1);
        if n.x == 0 && n.y == 0 && n.z == 0 {
            Err(Error::DegenerateGeometry)
        } else {
            Ok(n)
        }
    }
}

/// Insert into `r` every live face of `v` other than `skip`.
#[verifier::loop_isolation(false)]
fn insert_live_faces_of(r: &mut Mesh, store: &Store, v: VertexPtr, skip: FacePtr)
    requires
        old(r).wf(),
        store.wf(),
        store.valid_v(v),
    ensures
        final(r).wf(),
        final(r).vertices@ == old(r).vertices@,
        final(r).edges@ == old(r).edges@,
        forall|g: FacePtr| #[trigger]
            final(r).faces@.contains(g) <==> (old(r).faces@.contains(g) || (
            store.spec_vertex_face(v, g) && g != skip)),
{
    let m = v.adjacent_faces(store);
    let mut i: usize = 0;
    while i < m.faces.len()
        invariant
            r.wf(),
            r.vertices@ == old(r).vertices@,
            r.edges@ == old(r).edges@,
            i <= m.faces@.len(),
            forall|g: FacePtr| #[trigger]
                r.faces@.contains(g) <==> (old(r).faces@.contains(g) || (m.faces@.subrange(
                    0,
                    i as int,
                ).contains(g) && g != skip)),
        decreases m.faces@.len() - i,
    {
        let g = m.faces[i];
        let ghost before = r.faces@;
        if g != skip {
            r.insert_face(g);
        }
        i = i + 1;
        proof {
            let pre = m.faces@.subrange(0, i as int - 1);
            let cur = m.faces@.subrange(0, i as int);
            assert(cur =~= pre.push(g));
            assert forall|y: FacePtr| #[trigger]
                r.faces@.contains(y) <==> (old(r).faces@.contains(y) || (cur.contains(y) && y
                    != skip)) by {
                crate::seqs::lemma_push_contains_iff(pre, g, y);
            }
        }
    }
    proof {
        assert(m.faces@.subrange(0, m.faces@.len() as int) =~= m.faces@);
        assert forall|g: FacePtr| #[trigger]
            r.faces@.contains(g) <==> (old(r).faces@.contains(g) || (store.spec_vertex_face(
                v,
                g,
            ) && g != skip)) by {
            v.lemma_live_backlink_is_vertex_face(store, g);
        }
    }
}

impl crate::Pointer<crate::FaceTag> {
    /// The faces sharing at least one vertex with this face, excluding the
    /// face itself, as a mesh.  Shared vertex, not necessarily a shared
    /// edge: callers that need edge adjacency must check the shared
    /// vertex-pair count themselves.
    pub fn adjacent_faces(&self, store: &Store) -> (r: Mesh)
        requires
            store.wf(),
            store.valid_f(*self),
        ensures
            r.wf(),
            r.vertices@ == Seq::<VertexPtr>::empty(),
            r.edges@ == Seq::<EdgePtr>::empty(),
            forall|g: FacePtr| #[trigger]
                r.faces@.contains(g) <==> store.spec_adjacent(*self, g),
    {
        proof {
            assert(store.wf_face(self.idx as int));
        }
        let f = *store.face(*self);
        let mut r = Mesh::new();
        insert_live_faces_of(&mut r, store, f.a, *self);
        insert_live_faces_of(&mut r, store, f.b, *self);
        insert_live_faces_of(&mut r, store, f.c, *self);
        proof {
            assert forall|g: FacePtr| #[trigger]
                r.faces@.contains(g) <==> store.spec_adjacent(*self, g) by {
                if store.spec_adjacent(*self, g) {
                    let gd = store.faces@[g.idx as int];
                    assert(f.has_vertex(gd.a) || f.has_vertex(gd.b) || f.has_vertex(gd.c));
                    assert(store.spec_vertex_face(f.a, g) || store.spec_vertex_face(f.b, g)
                        || store.spec_vertex_face(f.c, g));
                }
            }
        }
        r
    }

    /// Flip the sense of this face: construct a new face with the first two
    /// vertex slots swapped, so the normal points the other way.  The
    /// original face is left in place; retiring it is the caller's business.
    pub fn flipped(&self, store: &mut Store) -> (r: FacePtr)
        requires
            old(store).wf(),
            old(store).valid_f(*self),
        ensures
            final(store).wf(),
            spec_face_created(
                *old(store),
                *final(store),
                old(store).spec_flipped_data(*self),
                r,
            ),
    {
        proof {
            assert(store.wf_face(self.idx as int));
        }
        let f = *store.face(*self);
        Face::new(store, [f.b, f.a, f.c])
    }

    /// Does some face adjacent to this one present one of this face's
    /// ordered boundary pairs in the same order?  On a well-oriented
    /// surface every shared edge appears in opposite order in its two
    /// faces, so a same-order pair means a flipped or overlapping
    /// neighbour.
    #[verifier::loop_isolation(false)]
    pub fn adjacent_is_flipped(&self, store: &Store) -> (r: bool)
        requires
            store.wf(),
            store.valid_f(*self),
        ensures
            r == store.spec_adjacent_is_flipped(*self),
    {
        let m = self.adjacent_faces(store);
        let f = *store.face(*self);
        let mut i: usize = 0;
        while i < m.faces.len()
            invariant
                i <= m.faces@.len(),
                forall|j: int|
                    0 <= j < i ==> !spec_same_winding_pair(
                        store.faces@[self.idx as int],
                        store.faces@[(#[trigger] m.faces@[j]).idx as int],
                    ),
            decreases m.faces@.len() - i,
        {
            let gp = m.faces[i];
            proof {
                assert(m.faces@.contains(m.faces@[i as int]));
                assert(store.spec_adjacent(*self, gp));
            }
            let g = *store.face(gp);
            if (f.a == g.a && f.b == g.b) || (f.b == g.b && f.c == g.c) || (f.c == g.c && f.a
                == g.a) || (f.a == g.b && f.b == g.c) || (f.b == g.c && f.c == g.a) || (f.c == g.a
                && f.a == g.b) || (f.a == g.c && f.b == g.a) || (f.b == g.a && f.c == g.b) || (f.c
                == g.b && f.a == g.c) {
                proof {
                    assert(spec_same_winding_pair(
                        store.faces@[self.idx as int],
                        store.faces@[gp.idx as int],
                    ));
                    assert(store.spec_adjacent_is_flipped(*self));
                }
                return true;
            }
            i = i + 1;
        }
        proof {
            if store.spec_adjacent_is_flipped(*self) {
                let gp = choose|gp: FacePtr|
                    #[trigger] store.spec_adjacent(*self, gp) && spec_same_winding_pair(
                        store.faces@[self.idx as int],
                        store.faces@[gp.idx as int],
                    );
                assert(m.faces@.contains(gp));
                let j = choose|j: int| 0 <= j < m.faces@.len() && m.faces@[j] == gp;
                assert(false);
            }
        }
        false
    }

    /// Make the three boundary edges of this face, in winding order:
    /// `a` to `b`, `b` to `c`, `c` to `a`.  Each call constructs fresh edge
    /// instances and registers them on the vertices.
    pub fn edges(&self, store: &mut Store) -> (r: [EdgePtr; 3])
        requires
            old(store).wf(),
            old(store).valid_f(*self),
        ensures
            final(store).wf(),
            spec_face_edges_created(
                *old(store),
                *final(store),
                old(store).faces@[self.idx as int],
                r,
            ),
    {
        proof {
            assert(store.wf_face(self.idx as int));
        }
        let f = *store.face(*self);
        let ghost s0 = *store;
        let e0 = Edge::new(store, f.a, f.b);
        let ghost s1 = *store;
        let e1 = Edge::new(store, f.b, f.c);
        let ghost s2 = *store;
        let e2 = Edge::new(store, f.c, f.a);
        let r = [e0, e1, e2];
        proof {
            assert(r@ =~= seq![e0, e1, e2]);
            assert(spec_id_sum(s1, f.b, f.c) == spec_id_sum(s0, f.b, f.c));
            assert(spec_id_sum(s2, f.c, f.a) == spec_id_sum(s0, f.c, f.a));
        }
        r
    }
}

/// The caller's verdict of the angle test for an unordered face pair: the
/// pair is listed in the relation, in either order.
///
/// The engine works in exact integer arithmetic and a normal-to-normal
/// angle is not an integer quantity, so angle-bounded growth takes the
/// verdicts as data: the caller lists every adjacent pair whose normals
/// stand at no more than the chosen angle.
pub open spec fn spec_within(rel: Seq<(FacePtr, FacePtr)>, f: FacePtr, g: FacePtr) -> bool {
    rel.contains((f, g)) || rel.contains((g, f))
}

/// `s` is closed under angle-bounded growth over `store` and the verdict
/// relation `rel`: with a member face it also holds every neighbour with a
/// sound normal that the verdicts allow.
pub open spec fn spec_growth_closed(
    store: Store,
    rel: Seq<(FacePtr, FacePtr)>,
    s: Set<FacePtr>,
) -> bool {
    forall|f: FacePtr, g: FacePtr|
        s.contains(f) && #[trigger] store.spec_adjacent(f, g) && spec_within(rel, f, g)
            && !store.spec_face_degenerate(store.faces@[g.idx as int]) ==> s.contains(g)
}

/// The face belongs to the angle-bounded region of `start`: it lies in
/// every grow-closed set that holds `start`, that is, in the least one.
pub open spec fn spec_in_growth(
    store: Store,
    rel: Seq<(FacePtr, FacePtr)>,
    start: FacePtr,
    f: FacePtr,
) -> bool {
    forall|s: Set<FacePtr>|
        #[trigger] spec_growth_closed(store, rel, s) && s.contains(start) ==> s.contains(f)
}

/// The traversal of the region of `start` meets a face without a sound
/// normal: the start itself, or some neighbour of a face of the region.
/// Growth fails with [`Error::DegenerateGeometry`] exactly then.
pub open spec fn spec_growth_blocked(
    store: Store,
    rel: Seq<(FacePtr, FacePtr)>,
    start: FacePtr,
) -> bool {
    ||| store.spec_face_degenerate(store.faces@[start.idx as int])
    ||| exists|f: FacePtr, g: FacePtr|
        spec_in_growth(store, rel, start, f) && #[trigger] store.spec_adjacent(f, g)
            && store.spec_face_degenerate(store.faces@[g.idx as int])
}

/// `u` and `w` are two distinct vertices held by both faces: the edge the
/// two faces have in common.
pub open spec fn spec_common_pair(f: Face, g: Face, u: VertexPtr, w: VertexPtr) -> bool {
    u != w && f.has_vertex(u) && f.has_vertex(w) && g.has_vertex(u) && g.has_vertex(w)
}

/// Every recorded pair is witnessed: it is the common edge of a selected
/// face and a neighbour that the verdicts rejected.
pub open spec fn spec_boundary_pairs_sound(
    store: Store,
    rel: Seq<(FacePtr, FacePtr)>,
    faces: Seq<FacePtr>,
    pairs: Seq<(VertexPtr, VertexPtr)>,
) -> bool {
    forall|k: int|
        0 <= k < pairs.len() ==> store.valid_v((#[trigger] pairs[k]).0) && store.valid_v(
            pairs[k].1,
        ) && exists|f: FacePtr, g: FacePtr|
            faces.contains(f) && #[trigger] store.spec_adjacent(f, g) && !spec_within(rel, f, g)
                && spec_common_pair(
                store.faces@[f.idx as int],
                store.faces@[g.idx as int],
                pairs[k].0,
                pairs[k].1,
            )
}

/// Every rejected crossing out of the region that has a common edge left a
/// record: a selected face, a neighbour the verdicts rejected that lies
/// outside the region, and a shared vertex pair appear among the records.
pub open spec fn spec_boundary_pairs_complete(
    store: Store,
    rel: Seq<(FacePtr, FacePtr)>,
    start: FacePtr,
    faces: Seq<FacePtr>,
    pairs: Seq<(VertexPtr, VertexPtr)>,
) -> bool {
    forall|f: FacePtr, g: FacePtr|
        faces.contains(f) && #[trigger] store.spec_adjacent(f, g) && !spec_within(rel, f, g)
            && !spec_in_growth(store, rel, start, g) && (exists|u: VertexPtr, w: VertexPtr|
            spec_common_pair(
                store.faces@[f.idx as int],
                store.faces@[g.idx as int],
                u,
                w,
            )) ==> exists|k: int|
            0 <= k < pairs.len() && spec_common_pair(
                store.faces@[f.idx as int],
                store.faces@[g.idx as int],
                (#[trigger] pairs[k]).0,
                pairs[k].1,
            )
}

impl Face {
    /// One of the three slots holds `v`.
    pub fn contains_vertex(&self, v: VertexPtr) -> (r: bool)
        ensures
            r == self.has_vertex(v),
    {
        self.a == v || self.b == v || self.c == v
    }
}

/// A pair of distinct vertices common to both faces, if there is one.
fn common_pair(f: &Face, g: &Face) -> (r: Option<(VertexPtr, VertexPtr)>)
    ensures
        r matches Some(p) ==> spec_common_pair(*f, *g, p.0, p.1),
        r == None::<(VertexPtr, VertexPtr)> ==> forall|u: VertexPtr, w: VertexPtr|
            !spec_common_pair(*f, *g, u, w),
{
    if f.a != f.b && g.contains_vertex(f.a) && g.contains_vertex(f.b) {
        Some((f.a, f.b))
    } else if f.b != f.c && g.contains_vertex(f.b) && g.contains_vertex(f.c) {
        Some((f.b, f.c))
    } else if f.c != f.a && g.contains_vertex(f.c) && g.contains_vertex(f.a) {
        Some((f.c, f.a))
    } else {
        None
    }
}

/// Look the unordered pair up in the caller's verdict relation.
#[verifier::loop_isolation(false)]
fn pair_within(rel: &Vec<(FacePtr, FacePtr)>, f: FacePtr, g: FacePtr) -> (r: bool)
    ensures
        r == spec_within(rel@, f, g),
{
    let mut i: usize = 0;
    while i < rel.len()
        invariant
            i <= rel@.len(),
            forall|j: int| 0 <= j < i ==> rel@[j] != (f, g) && rel@[j] != (g, f),
        decreases rel@.len() - i,
    {
        let p = rel[i];
        if (p.0 == f && p.1 == g) || (p.0 == g && p.1 == f) {
            proof {
                assert(rel@[i as int] == (f, g) || rel@[i as int] == (g, f));
            }
            return true;
        }
        proof {
            assert(rel@[i as int] =~= (p.0, p.1));
        }
        i = i + 1;
    }
    false
}

impl crate::Pointer<crate::FaceTag> {
    /// Walk the angle-bounded region of this face and insert every face of
    /// it into `mesh`, which may already hold a partial selection: faces
    /// already present are treated as visited, growth is monotone, and this
    /// face itself ends up in the mesh.  A neighbour whose verdict in
    /// `within` rejects the step is not entered; the vertex pair of the
    /// edge shared with it, when there is one, is recorded in the returned
    /// list instead.  Starting from an empty mesh the result is exactly the
    /// angle-bounded region, and the walk fails with
    /// [`Error::DegenerateGeometry`] exactly when it meets a face without a
    /// sound normal — such a face is never silently treated as flat or as a
    /// wall.
    #[verifier::loop_isolation(false)]
    #[verifier::rlimit(100)]
    #[verifier::spinoff_prover]
    pub fn insert_adjacent_with_max_angle(
        &self,
        store: &Store,
        mesh: &mut Mesh,
        within: &Vec<(FacePtr, FacePtr)>,
    ) -> (r: Result<Vec<(VertexPtr, VertexPtr)>, Error>)
        requires
            store.wf(),
            store.valid_f(*self),
            old(mesh).wf(),
            old(mesh).valid_in(*store),
        ensures
            final(mesh).wf(),
            final(mesh).vertices@ == old(mesh).vertices@,
            final(mesh).edges@ == old(mesh).edges@,
            forall|g: FacePtr| #[trigger]
                old(mesh).faces@.contains(g) ==> final(mesh).faces@.contains(g),
            final(mesh).faces@.contains(*self),
            forall|g: FacePtr| #[trigger]
                final(mesh).faces@.contains(g) ==> store.valid_f(g),
            r matches Err(e) ==> e == Error::DegenerateGeometry,
            old(mesh).faces@ == Seq::<FacePtr>::empty() ==> ((r is Err) == spec_growth_blocked(
                *store,
                within@,
                *self,
            )),
            old(mesh).faces@ == Seq::<FacePtr>::empty() ==> (r is Ok ==> forall|g: FacePtr|
                #[trigger]
                final(mesh).faces@.contains(g) <==> spec_in_growth(*store, within@, *self, g)),
            r matches Ok(pairs) ==> spec_boundary_pairs_sound(
                *store,
                within@,
                final(mesh).faces@,
                pairs@,
            ),
            old(mesh).faces@ == Seq::<FacePtr>::empty() ==> (r matches Ok(pairs)
                ==> spec_boundary_pairs_complete(
                *store,
                within@,
                *self,
                final(mesh).faces@,
                pairs@,
            )),
    {
        let ghost rel = within@;
        let ghost start = *self;
        let ghost fresh = (old(mesh).faces@ == Seq::<FacePtr>::empty());
        let mut pairs: Vec<(VertexPtr, VertexPtr)> = Vec::new();
        let mut work: Vec<FacePtr> = Vec::new();
        work.push(*self);
        proof {
            assert(work@[0] == start);
            assert(work@.contains(start));
            crate::store::lemma_face_seq_len_bounded(*store, mesh.faces@);
        }
        while work.len() > 0
            invariant
                mesh.wf(),
                mesh.vertices@ == old(mesh).vertices@,
                mesh.edges@ == old(mesh).edges@,
                forall|g: FacePtr| #[trigger]
                    old(mesh).faces@.contains(g) ==> mesh.faces@.contains(g),
                mesh.faces@.len() <= store.faces@.len(),
                forall|i: int| 0 <= i < mesh.faces@.len() ==> store.valid_f(#[trigger] mesh.faces@[i]),
                fresh ==> forall|i: int|
                    0 <= i < mesh.faces@.len() ==> spec_in_growth(
                        *store,
                        rel,
                        start,
                        #[trigger] mesh.faces@[i],
                    ),
                forall|j: int|
                    0 <= j < work@.len() ==> store.valid_f(#[trigger] work@[j]) && (work@[j]
                        == start || !store.spec_face_degenerate(
                        store.faces@[work@[j].idx as int],
                    )),
                fresh ==> forall|j: int|
                    0 <= j < work@.len() ==> spec_in_growth(*store, rel, start, #[trigger] work@[j]),
                fresh ==> forall|g: FacePtr| #[trigger]
                    mesh.faces@.contains(g) ==> !store.spec_face_degenerate(
                        store.faces@[g.idx as int],
                    ),
                fresh ==> forall|g: FacePtr, h: FacePtr|
                    mesh.faces@.contains(g) && #[trigger] store.spec_adjacent(g, h)
                        ==> !store.spec_face_degenerate(store.faces@[h.idx as int]),
                fresh ==> forall|g: FacePtr, h: FacePtr|
                    mesh.faces@.contains(g) && #[trigger] store.spec_adjacent(g, h)
                        && spec_within(rel, g, h) && !store.spec_face_degenerate(
                        store.faces@[h.idx as int],
                    ) ==> mesh.faces@.contains(h) || work@.contains(h),
                mesh.faces@.contains(start) || (work@.len() == 1 && work@[0] == start),
                forall|k: int|
                    0 <= k < pairs@.len() ==> store.valid_v((#[trigger] pairs@[k]).0)
                        && store.valid_v(pairs@[k].1) && exists|f: FacePtr, g: FacePtr|
                        mesh.faces@.contains(f) && #[trigger] store.spec_adjacent(f, g)
                            && !spec_within(rel, f, g) && spec_common_pair(
                            store.faces@[f.idx as int],
                            store.faces@[g.idx as int],
                            pairs@[k].0,
                            pairs@[k].1,
                        ),
                fresh ==> forall|f: FacePtr, g: FacePtr|
                    mesh.faces@.contains(f) && #[trigger] store.spec_adjacent(f, g)
                        && !spec_within(rel, f, g) && !spec_in_growth(*store, rel, start, g) && (
                    exists|u: VertexPtr, w: VertexPtr|
                        spec_common_pair(
                            store.faces@[f.idx as int],
                            store.faces@[g.idx as int],
                            u,
                            w,
                        )) ==> exists|k: int|
                        0 <= k < pairs@.len() && spec_common_pair(
                            store.faces@[f.idx as int],
                            store.faces@[g.idx as int],
                            (#[trigger] pairs@[k]).0,
                            pairs@[k].1,
                        ),
            decreases store.faces@.len() - mesh.faces@.len(), work@.len(),
        {
            let ghost work0 = work@;
            let fp = work.pop().unwrap();
            proof {
                assert(work0[work0.len() - 1] == fp);
                assert forall|h: FacePtr| work@.contains(h) implies work0.contains(h) by {
                    let j = choose|j: int| 0 <= j < work@.len() && work@[j] == h;
                    assert(work0[j] == h);
                }
                assert forall|h: FacePtr| work0.contains(h) implies work@.contains(h) || h
                    == fp by {
                    let j = choose|j: int| 0 <= j < work0.len() && work0[j] == h;
                    if j < work0.len() - 1 {
                        assert(work@[j] == h);
                    }
                }
            }
            if !mesh.contains_face(fp) {
                let ghost mesh0 = mesh.faces@;
                mesh.insert_face(fp);
                proof {
                    crate::seqs::lemma_no_dup_push(mesh0, fp);
                    crate::store::lemma_face_seq_len_bounded(*store, mesh.faces@);
                    assert forall|h: FacePtr| mesh0.contains(h) || h == fp implies #[trigger]
                        mesh.faces@.contains(h) by {
                        crate::seqs::lemma_push_contains_iff(mesh0, fp, h);
                    }
                }
                let fd = *store.face(fp);
                proof {
                    assert(store.wf_face(fp.idx as int));
                }
                if fd.normal(store).is_err() {
                    proof {
                        assert(fp == start);
                        if fresh {
                            assert(spec_growth_blocked(*store, rel, start));
                        }
                    }
                    return Err(Error::DegenerateGeometry);
                }
                let adj = fp.adjacent_faces(store);
                let mut j: usize = 0;
                while j < adj.faces.len()
                    invariant
                        mesh.wf(),
                        mesh.vertices@ == old(mesh).vertices@,
                        mesh.edges@ == old(mesh).edges@,
                        mesh.faces@ == mesh0.push(fp),
                        j <= adj.faces@.len(),
                        fresh ==> forall|jj: int|
                            0 <= jj < j ==> !store.spec_face_degenerate(
                                store.faces@[(#[trigger] adj.faces@[jj]).idx as int],
                            ),
                        forall|jj: int|
                            0 <= jj < j && spec_within(rel, fp, #[trigger] adj.faces@[jj])
                                ==> mesh.faces@.contains(adj.faces@[jj]) || work@.contains(
                                adj.faces@[jj],
                            ),
                        forall|jj: int|
                            0 <= jj < j && !spec_within(rel, fp, #[trigger] adj.faces@[jj])
                                && !mesh0.contains(adj.faces@[jj]) && (
                            exists|u: VertexPtr, w: VertexPtr|
                                spec_common_pair(
                                    store.faces@[fp.idx as int],
                                    store.faces@[(adj.faces@[jj]).idx as int],
                                    u,
                                    w,
                                )) ==> exists|k: int|
                                0 <= k < pairs@.len() && spec_common_pair(
                                    store.faces@[fp.idx as int],
                                    store.faces@[(adj.faces@[jj]).idx as int],
                                    (#[trigger] pairs@[k]).0,
                                    pairs@[k].1,
                                ),
                        forall|j2: int|
                            0 <= j2 < work@.len() ==> store.valid_f(#[trigger] work@[j2]) && (
                            work@[j2] == start || !store.spec_face_degenerate(
                                store.faces@[work@[j2].idx as int],
                            )),
                        fresh ==> forall|j2: int|
                            0 <= j2 < work@.len() ==> spec_in_growth(
                                *store,
                                rel,
                                start,
                                #[trigger] work@[j2],
                            ),
                        fresh ==> forall|g: FacePtr, h: FacePtr|
                            mesh0.contains(g) && #[trigger] store.spec_adjacent(g, h)
                                && spec_within(rel, g, h) && !store.spec_face_degenerate(
                                store.faces@[h.idx as int],
                            ) ==> mesh.faces@.contains(h) || work@.contains(h),
                        mesh.faces@.contains(start),
                        forall|k: int|
                            0 <= k < pairs@.len() ==> store.valid_v((#[trigger] pairs@[k]).0)
                                && store.valid_v(pairs@[k].1) && exists|f: FacePtr, g: FacePtr|
                                mesh.faces@.contains(f) && #[trigger] store.spec_adjacent(f, g)
                                    && !spec_within(rel, f, g) && spec_common_pair(
                                    store.faces@[f.idx as int],
                                    store.faces@[g.idx as int],
                                    pairs@[k].0,
                                    pairs@[k].1,
                                ),
                        fresh ==> forall|f: FacePtr, g: FacePtr|
                            mesh0.contains(f) && #[trigger] store.spec_adjacent(f, g)
                                && !spec_within(rel, f, g) && !spec_in_growth(
                                *store,
                                rel,
                                start,
                                g,
                            ) && (exists|u: VertexPtr, w: VertexPtr|
                                spec_common_pair(
                                    store.faces@[f.idx as int],
                                    store.faces@[g.idx as int],
                                    u,
                                    w,
                                )) ==> exists|k: int|
                                0 <= k < pairs@.len() && spec_common_pair(
                                    store.faces@[f.idx as int],
                                    store.faces@[g.idx as int],
                                    (#[trigger] pairs@[k]).0,
                                    pairs@[k].1,
                                ),
                    decreases adj.faces@.len() - j,
                {
                    let gp = adj.faces[j];
                    proof {
                        assert(adj.faces@.contains(adj.faces@[j as int]));
                        assert(store.spec_adjacent(fp, gp));
                    }
                    if !mesh.contains_face(gp) {
                        let gd = *store.face(gp);
                        proof {
                            assert(store.wf_face(gp.idx as int));
                        }
                        if gd.normal(store).is_err() {
                            proof {
                                assert(mesh.faces@.contains(fp));
                                if fresh {
                                    assert(spec_in_growth(*store, rel, start, fp));
                                    assert(spec_growth_blocked(*store, rel, start));
                                }
                            }
                            return Err(Error::DegenerateGeometry);
                        }
                        if pair_within(within, fp, gp) {
                            proof {
                                if fresh {
                                    assert forall|s: Set<FacePtr>|
                                        #[trigger] spec_growth_closed(*store, rel, s) && s.contains(
                                            start,
                                        ) implies s.contains(gp) by {
                                        assert(s.contains(fp));
                                    }
                                }
                            }
                            let ghost workb = work@;
                            work.push(gp);
                            proof {
                                assert(work@ == workb.push(gp));
                                assert(work@[work@.len() - 1] == gp);
                                assert(work@.contains(gp));
                                assert forall|h: FacePtr|
                                    workb.contains(h) || h == gp implies work@.contains(h) by {
                                    crate::seqs::lemma_push_contains_iff(workb, gp, h);
                                }
                            }
                        } else {
                            let cp = common_pair(&fd, &gd);
                            if let Some(p) = cp {
                                let ghost pairsb = pairs@;
                                pairs.push(p);
                                proof {
                                    assert(store.wf_face(fp.idx as int));
                                    assert(pairs@ == pairsb.push(p));
                                    assert(pairs@[pairs@.len() - 1] == p);
                                    assert(mesh.faces@.contains(fp));
                                    // Entries recorded earlier keep their
                                    // place and their witnesses.
                                    assert forall|k: int|
                                        0 <= k < pairsb.len() implies #[trigger] pairs@[k]
                                        == pairsb[k] by {}
                                    assert forall|jj: int|
                                        0 <= jj < j + 1 && !spec_within(
                                            rel,
                                            fp,
                                            #[trigger] adj.faces@[jj],
                                        ) && !mesh0.contains(adj.faces@[jj]) && (
                                        exists|u: VertexPtr, w: VertexPtr|
                                            spec_common_pair(
                                                store.faces@[fp.idx as int],
                                                store.faces@[(adj.faces@[jj]).idx as int],
                                                u,
                                                w,
                                            )) implies exists|k: int|
                                            0 <= k < pairs@.len() && spec_common_pair(
                                                store.faces@[fp.idx as int],
                                                store.faces@[(adj.faces@[jj]).idx as int],
                                                (#[trigger] pairs@[k]).0,
                                                pairs@[k].1,
                                            ) by {
                                        if jj == j as int {
                                            assert(adj.faces@[jj] == gp);
                                            assert(spec_common_pair(
                                                store.faces@[fp.idx as int],
                                                store.faces@[gp.idx as int],
                                                (pairs@[pairs@.len() - 1]).0,
                                                pairs@[pairs@.len() - 1].1,
                                            ));
                                        } else {
                                            let k0 = choose|k: int|
                                                0 <= k < pairsb.len() && spec_common_pair(
                                                    store.faces@[fp.idx as int],
                                                    store.faces@[(adj.faces@[jj]).idx as int],
                                                    (#[trigger] pairsb[k]).0,
                                                    pairsb[k].1,
                                                );
                                            assert(pairs@[k0] == pairsb[k0]);
                                        }
                                    }
                                    if fresh {
                                        assert forall|f: FacePtr, g: FacePtr|
                                            mesh0.contains(f) && #[trigger] store.spec_adjacent(
                                                f,
                                                g,
                                            ) && !spec_within(rel, f, g) && !spec_in_growth(
                                            *store,
                                            rel,
                                            start,
                                            g,
                                        ) && (exists|u: VertexPtr, w: VertexPtr|
                                            spec_common_pair(
                                                store.faces@[f.idx as int],
                                                store.faces@[g.idx as int],
                                                u,
                                                w,
                                            )) implies exists|k: int|
                                            0 <= k < pairs@.len() && spec_common_pair(
                                                store.faces@[f.idx as int],
                                                store.faces@[g.idx as int],
                                                (#[trigger] pairs@[k]).0,
                                                pairs@[k].1,
                                            ) by {
                                            let k0 = choose|k: int|
                                                0 <= k < pairsb.len() && spec_common_pair(
                                                    store.faces@[f.idx as int],
                                                    store.faces@[g.idx as int],
                                                    (#[trigger] pairsb[k]).0,
                                                    pairsb[k].1,
                                                );
                                            assert(pairs@[k0] == pairsb[k0]);
                                        }
                                    }
                                    assert forall|k: int|
                                        0 <= k < pairs@.len() implies store.valid_v(
                                        (#[trigger] pairs@[k]).0,
                                    ) && store.valid_v(pairs@[k].1) && exists|f: FacePtr, g: FacePtr|
                                        mesh.faces@.contains(f) && #[trigger] store.spec_adjacent(
                                            f,
                                            g,
                                        ) && !spec_within(rel, f, g) && spec_common_pair(
                                            store.faces@[f.idx as int],
                                            store.faces@[g.idx as int],
                                            pairs@[k].0,
                                            pairs@[k].1,
                                        ) by {
                                        if k < pairsb.len() {
                                            assert(pairs@[k] == pairsb[k]);
                                        } else {
                                            assert(pairs@[k] == p);
                                            assert(store.spec_adjacent(fp, gp) && !spec_within(
                                                rel,
                                                fp,
                                                gp,
                                            ) && spec_common_pair(
                                                store.faces@[fp.idx as int],
                                                store.faces@[gp.idx as int],
                                                pairs@[k].0,
                                                pairs@[k].1,
                                            ));
                                        }
                                    }
                                }
                            } else {
                                proof {
                                    assert(forall|u: VertexPtr, w: VertexPtr|
                                        !spec_common_pair(
                                            store.faces@[fp.idx as int],
                                            store.faces@[gp.idx as int],
                                            u,
                                            w,
                                        ));
                                }
                            }
                        }
                    }
                    proof {
                        assert(adj.faces@[j as int] == gp);
                        if !mesh.faces@.contains(gp) {
                            if spec_within(rel, fp, gp) {
                                assert(work@.contains(gp));
                            } else {
                                if exists|u: VertexPtr, w: VertexPtr|
                                    spec_common_pair(
                                        store.faces@[fp.idx as int],
                                        store.faces@[gp.idx as int],
                                        u,
                                        w,
                                    ) {
                                    assert(exists|k: int|
                                        0 <= k < pairs@.len() && spec_common_pair(
                                            store.faces@[fp.idx as int],
                                            store.faces@[gp.idx as int],
                                            (#[trigger] pairs@[k]).0,
                                            pairs@[k].1,
                                        ));
                                }
                            }
                        }
                    }
                    j = j + 1;
                }
                proof {
                    if fresh {
                    // Every neighbour of `fp` sits somewhere in the
                    // adjacency list, so the per-index facts cover them all.
                    assert forall|h: FacePtr| #[trigger]
                        store.spec_adjacent(fp, h) implies !store.spec_face_degenerate(
                        store.faces@[h.idx as int],
                    ) by {
                        assert(adj.faces@.contains(h));
                        let jj = choose|jj: int| 0 <= jj < adj.faces@.len() && adj.faces@[jj] == h;
                        if mesh0.push(fp).contains(h) {
                            if mesh0.contains(h) {
                            } else {
                                assert(h == fp);
                            }
                        }
                    }
                    assert forall|g: FacePtr, h: FacePtr|
                        mesh.faces@.contains(g) && #[trigger] store.spec_adjacent(g, h)
                            && spec_within(rel, g, h) && !store.spec_face_degenerate(
                            store.faces@[h.idx as int],
                        ) implies mesh.faces@.contains(h) || work@.contains(h) by {
                        if g == fp {
                            assert(adj.faces@.contains(h));
                            let jj = choose|jj: int|
                                0 <= jj < adj.faces@.len() && adj.faces@[jj] == h;
                        } else {
                            assert(mesh0.contains(g));
                        }
                    }
                    assert forall|f: FacePtr, g: FacePtr|
                        mesh.faces@.contains(f) && #[trigger] store.spec_adjacent(f, g)
                            && !spec_within(rel, f, g) && !spec_in_growth(*store, rel, start, g)
                            && (exists|u: VertexPtr, w: VertexPtr|
                            spec_common_pair(
                                store.faces@[f.idx as int],
                                store.faces@[g.idx as int],
                                u,
                                w,
                            )) implies exists|k: int|
                            0 <= k < pairs@.len() && spec_common_pair(
                                store.faces@[f.idx as int],
                                store.faces@[g.idx as int],
                                (#[trigger] pairs@[k]).0,
                                pairs@[k].1,
                            ) by {
                        if f == fp {
                            assert(adj.faces@.contains(g));
                            let jj = choose|jj: int|
                                0 <= jj < adj.faces@.len() && adj.faces@[jj] == g;
                            assert(!mesh0.contains(g)) by {
                                if mesh0.contains(g) {
                                    assert(spec_in_growth(*store, rel, start, g));
                                }
                            }
                        } else {
                            assert(mesh0.contains(f));
                        }
                    }
                    }
                    assert forall|k: int|
                        0 <= k < pairs@.len() implies store.valid_v((#[trigger] pairs@[k]).0)
                        && store.valid_v(pairs@[k].1) && exists|f: FacePtr, g: FacePtr|
                        mesh.faces@.contains(f) && #[trigger] store.spec_adjacent(f, g)
                            && !spec_within(rel, f, g) && spec_common_pair(
                            store.faces@[f.idx as int],
                            store.faces@[g.idx as int],
                            pairs@[k].0,
                            pairs@[k].1,
                        ) by {}
                }
            }
        }
        proof {
            assert(spec_boundary_pairs_sound(*store, within@, mesh.faces@, pairs@));
            if fresh {
            let ghost s = Set::new(|p: FacePtr| mesh.faces@.contains(p));
            assert(spec_growth_closed(*store, rel, s)) by {
                assert forall|f: FacePtr, g: FacePtr|
                    s.contains(f) && #[trigger] store.spec_adjacent(f, g) && spec_within(
                        rel,
                        f,
                        g,
                    ) && !store.spec_face_degenerate(store.faces@[g.idx as int]) implies s.contains(
                    g,
                ) by {
                    assert(mesh.faces@.contains(f));
                }
            }
            assert(s.contains(start));
            assert forall|g: FacePtr|
                spec_in_growth(*store, rel, start, g) implies #[trigger] mesh.faces@.contains(
                g,
            ) by {
                assert(spec_growth_closed(*store, rel, s) && s.contains(start) ==> s.contains(g));
            }
            assert(spec_boundary_pairs_complete(*store, within@, *self, mesh.faces@, pairs@));
            assert(!spec_growth_blocked(*store, rel, start)) by {
                assert(mesh.faces@.contains(start));
                if exists|f: FacePtr, g: FacePtr|
                    spec_in_growth(*store, rel, start, f) && #[trigger] store.spec_adjacent(f, g)
                        && store.spec_face_degenerate(store.faces@[g.idx as int]) {
                    let (f, g) = choose|f: FacePtr, g: FacePtr|
                        spec_in_growth(*store, rel, start, f) && #[trigger] store.spec_adjacent(
                            f,
                            g,
                        ) && store.spec_face_degenerate(store.faces@[g.idx as int]);
                    assert(mesh.faces@.contains(f));
                }
            }
            }
        }
        Ok(pairs)
    }
}

impl crate::Pointer<crate::FaceTag> {
    /// Grow a selection from this face, stopping at crossings the angle
    /// verdicts in `within` reject.  Returns a mesh holding the faces of
    /// the angle-bounded region and, as its edge set, a fresh edge for each
    /// recorded boundary crossing that shares a full edge.  Fails with
    /// [`Error::DegenerateGeometry`] exactly when the walk meets a face
    /// without a sound normal.
    #[verifier::loop_isolation(false)]
    pub fn grow_selection_with_max_angle(
        &self,
        store: &mut Store,
        within: &Vec<(FacePtr, FacePtr)>,
    ) -> (r: Result<Mesh, Error>)
        requires
            old(store).wf(),
            old(store).valid_f(*self),
        ensures
            final(store).wf(),
            final(store).faces@ == old(store).faces@,
            final(store).faces_alive@ == old(store).faces_alive@,
            final(store).vertices@.len() == old(store).vertices@.len(),
            forall|i: int|
                0 <= i < old(store).vertices@.len() ==> crate::vertex::same_but_edge_links(
                    final(store).vertices@[i],
                    old(store).vertices@[i],
                ),
            r matches Err(e) ==> e == Error::DegenerateGeometry,
            (r is Err) == spec_growth_blocked(*old(store), within@, *self),
            r matches Ok(m) ==> m.wf() && m.vertices@ == Seq::<VertexPtr>::empty() && (
            forall|g: FacePtr| #[trigger]
                m.faces@.contains(g) <==> spec_in_growth(*old(store), within@, *self, g)) && (
            forall|j: int|
                0 <= j < m.edges@.len() ==> final(store).valid_e(#[trigger] m.edges@[j]))
                && spec_boundary_pairs_sound(
                *old(store),
                within@,
                m.faces@,
                crate::store::spec_edge_endpoints(*final(store), m.edges@),
            ) && spec_boundary_pairs_complete(
                *old(store),
                within@,
                *self,
                m.faces@,
                crate::store::spec_edge_endpoints(*final(store), m.edges@),
            ),
    {
        let mut mesh = Mesh::new();
        let pairs = match self.insert_adjacent_with_max_angle(&*store, &mut mesh, within) {
            Ok(ps) => ps,
            Err(e) => {
                return Err(e);
            },
        };
        let ghost mfaces = mesh.faces@;
        let mut k: usize = 0;
        while k < pairs.len()
            invariant
                store.wf(),
                store.faces@ == old(store).faces@,
                store.faces_alive@ == old(store).faces_alive@,
                store.vertices@.len() == old(store).vertices@.len(),
                forall|i: int|
                    0 <= i < old(store).vertices@.len() ==> crate::vertex::same_but_edge_links(
                        #[trigger] store.vertices@[i],
                        old(store).vertices@[i],
                    ),
                k <= pairs@.len(),
                mesh.wf(),
                mesh.vertices@ == Seq::<VertexPtr>::empty(),
                mesh.faces@ == mfaces,
                mesh.edges@.len() == k,
                forall|jj: int|
                    0 <= jj < k ==> store.valid_e(#[trigger] mesh.edges@[jj])
                        && store.edges@[mesh.edges@[jj].idx as int].a == pairs@[jj].0
                        && store.edges@[mesh.edges@[jj].idx as int].b == pairs@[jj].1,
            decreases pairs@.len() - k,
        {
            let p = pairs[k];
            proof {
                assert(old(store).valid_v(pairs@[k as int].0) && old(store).valid_v(
                    pairs@[k as int].1,
                ));
            }
            let ghost s0 = *store;
            let n = store.edges.len();
            let e = Edge::new(store, p.0, p.1);
            proof {
                assert(e.idx == n);
                if mesh.edges@.contains(e) {
                    let jj = choose|jj: int| 0 <= jj < mesh.edges@.len() && mesh.edges@[jj] == e;
                    assert(s0.valid_e(mesh.edges@[jj]));
                    assert(mesh.edges@[jj].idx < n);
                    assert(false);
                }
                assert forall|i: int|
                    0 <= i < old(store).vertices@.len() implies crate::vertex::same_but_edge_links(
                    #[trigger] store.vertices@[i],
                    old(store).vertices@[i],
                ) by {
                    assert(crate::vertex::same_but_edge_links(
                        store.vertices@[i],
                        s0.vertices@[i],
                    ));
                }
            }
            mesh.insert_edge(e);
            k = k + 1;
            proof {
                assert forall|jj: int| 0 <= jj < k implies store.valid_e(#[trigger] mesh.edges@[jj])
                    && store.edges@[mesh.edges@[jj].idx as int].a == pairs@[jj].0
                    && store.edges@[mesh.edges@[jj].idx as int].b == pairs@[jj].1 by {
                    if jj < k - 1 {
                        assert(s0.valid_e(mesh.edges@[jj]));
                        assert(store.edges@[mesh.edges@[jj].idx as int]
                            == s0.edges@[mesh.edges@[jj].idx as int]);
                    } else {
                        assert(mesh.edges@[jj] == e);
                    }
                }
            }
        }
        proof {
            let eps = crate::store::spec_edge_endpoints(*store, mesh.edges@);
            assert(eps =~= pairs@);
            assert(spec_boundary_pairs_sound(*old(store), within@, mesh.faces@, eps));
            assert(spec_boundary_pairs_complete(*old(store), within@, *self, mesh.faces@, eps));
        }
        Ok(mesh)
    }
}

/// The whole effect of making the three boundary edges of face data `f`:
/// three live edges appended, from `a` to `b`, `b` to `c` and `c` to `a`;
/// faces and vertex identities untouched.
pub open spec fn spec_face_edges_created(
    pre: Store,
    post: Store,
    f: Face,
    r: [EdgePtr; 3],
) -> bool {
    let n = pre.edges@.len() as int;
    &&& r@ == seq![
        crate::spec_eptr(n),
        crate::spec_eptr(n + 1),
        crate::spec_eptr(n + 2),
    ]
    &&& post.edges@ == pre.edges@.push(
        Edge { id_sum: spec_id_sum(pre, f.a, f.b) as u64, a: f.a, b: f.b },
    ).push(Edge { id_sum: spec_id_sum(pre, f.b, f.c) as u64, a: f.b, b: f.c }).push(
        Edge { id_sum: spec_id_sum(pre, f.c, f.a) as u64, a: f.c, b: f.a },
    )
    &&& post.edges_alive@ == pre.edges_alive@.push(true).push(true).push(true)
    &&& post.faces@ == pre.faces@
    &&& post.faces_alive@ == pre.faces_alive@
    &&& post.vertices@.len() == pre.vertices@.len()
    &&& forall|i: int|
        0 <= i < pre.vertices@.len() ==> crate::vertex::same_but_edge_links(
            post.vertices@[i],
            pre.vertices@[i],
        )
}

} // verus!
