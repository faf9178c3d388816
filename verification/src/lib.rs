//! Topology engine for triangulated surface meshes.
//!
//! The engine keeps every vertex, face and edge in a central [`Store`]
//! (an arena).  Entities refer to each other through [`Pointer`] handles:
//! small copyable indices with identity semantics, so two handles are equal
//! exactly when they name the same entity instance.  Downward links (a face
//! or edge owning its vertices) are plain handles into the store; upward
//! links (a vertex remembering the faces and edges built on it) are
//! append-only back-link lists whose targets may have been retired, and are
//! therefore filtered against liveness every time they are read.
//!
//! Coordinates are exact fixed-point integers with six implied decimal
//! places, so all geometric tests of the engine (degeneracy of a face,
//! shortness of an edge) are exact integer arithmetic.  Normalised vectors
//! and angle thresholds involve irrational values and stay outside the
//! engine: angle-bounded growth takes the angle verdicts as an explicit
//! relation prepared by the caller.

use vstd::prelude::*;

pub mod convert;
pub mod edge;
pub mod face;
pub mod laws;
pub mod mesh;
pub mod seqs;
pub mod store;
pub mod text;
pub mod vector3;
pub mod vertex;

verus! {

/// Typed error of the engine.
#[derive(Clone, Copy, Debug, PartialEq, Eq, Structural)]
pub enum Error {
    /// A zero-area face was asked for a normal direction.
    DegenerateGeometry,
    /// An operation that needs at least one entity found none.
    EmptyCollection,
    /// A text record does not match the expected pattern or exceeds the
    /// ranges the engine can represent.
    MalformedInput,
}

/// Marker for handles to vertices.
#[derive(Clone, Copy, Debug, PartialEq, Eq, Structural)]
pub struct VertexTag;

/// Marker for handles to faces.
#[derive(Clone, Copy, Debug, PartialEq, Eq, Structural)]
pub struct FaceTag;

/// Marker for handles to edges.
#[derive(Clone, Copy, Debug, PartialEq, Eq, Structural)]
pub struct EdgeTag;

/// Identity-bearing handle to an entity of a [`store::Store`].
///
/// Two handles are equal exactly when they name the same entity instance,
/// never when two distinct entities happen to hold equal contents.
#[derive(Clone, Copy, Debug, PartialEq, Eq, Structural)]
#[verifier::ext_equal]
pub struct Pointer<K> {
    /// Index of the entity in the store's arena for kind `K`.
    pub idx: usize,
    /// Zero-sized kind marker.
    pub tag: K,
}

impl<K> Pointer<K> {
    /// New handle from an arena index.
    pub fn new(idx: usize, tag: K) -> (r: Self)
        ensures
            r.idx == idx,
            r.tag == tag,
    {
        Pointer { idx, tag }
    }
}

/// Handle to a vertex.
pub type VertexPtr = Pointer<VertexTag>;

/// Handle to a face.
pub type FacePtr = Pointer<FaceTag>;

/// Handle to an edge.
pub type EdgePtr = Pointer<EdgeTag>;

/// The vertex handle for arena index `i`.
pub open spec fn spec_vptr(i: int) -> VertexPtr {
    Pointer { idx: i as usize, tag: VertexTag }
}

/// The face handle for arena index `i`.
pub open spec fn spec_fptr(i: int) -> FacePtr {
    Pointer { idx: i as usize, tag: FaceTag }
}

/// The edge handle for arena index `i`.
pub open spec fn spec_eptr(i: int) -> EdgePtr {
    Pointer { idx: i as usize, tag: EdgeTag }
}

/// The vertex handle for arena index `i`.
pub fn vptr(i: usize) -> (r: VertexPtr)
    ensures
        r == spec_vptr(i as int),
{
    Pointer::new(i, VertexTag)
}

/// The face handle for arena index `i`.
pub fn fptr(i: usize) -> (r: FacePtr)
    ensures
        r == spec_fptr(i as int),
{
    Pointer::new(i, FaceTag)
}

/// The edge handle for arena index `i`.
pub fn eptr(i: usize) -> (r: EdgePtr)
    ensures
        r == spec_eptr(i as int),
{
    Pointer::new(i, EdgeTag)
}

/// Every vertex handle is the handle of its own index.
pub proof fn lemma_vptr_eta(p: VertexPtr)
    ensures
        p == spec_vptr(p.idx as int),
{
    assert(p =~= spec_vptr(p.idx as int));
}

/// Every face handle is the handle of its own index.
pub proof fn lemma_fptr_eta(p: FacePtr)
    ensures
        p == spec_fptr(p.idx as int),
{
    assert(p =~= spec_fptr(p.idx as int));
}

/// Every edge handle is the handle of its own index.
pub proof fn lemma_eptr_eta(p: EdgePtr)
    ensures
        p == spec_eptr(p.idx as int),
{
    assert(p =~= spec_eptr(p.idx as int));
}

} // verus!
