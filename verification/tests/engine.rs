//! End-to-end checks of the topology engine on concrete meshes.

use meshtopo::edge::Edge;
use meshtopo::face::Face;
use meshtopo::mesh::Mesh;
use meshtopo::store::Store;
use meshtopo::vector3::Vector3;
use meshtopo::vertex::Vertex;
use meshtopo::convert::IntoMesh;
use meshtopo::Error;
use meshtopo::FacePtr;
use meshtopo::VertexPtr;

/// One model unit in fixed-point coordinates.
const UNIT: i64 = 1_000_000;

fn vert(store: &mut Store, x: i64, y: i64, z: i64) -> VertexPtr {
    Vertex::new(store, Vector3::new(x, y, z))
}

/// A tetrahedron with consistently wound faces, as a mesh over the store.
fn tetrahedron(store: &mut Store) -> (Mesh, Vec<VertexPtr>, Vec<FacePtr>) {
    let v0 = vert(store, 0, 0, 0);
    let v1 = vert(store, UNIT, 0, 0);
    let v2 = vert(store, 0, UNIT, 0);
    let v3 = vert(store, 0, 0, UNIT);
    let f0 = Face::new(store, [v0, v2, v1]);
    let f1 = Face::new(store, [v0, v1, v3]);
    let f2 = Face::new(store, [v1, v2, v3]);
    let f3 = Face::new(store, [v0, v3, v2]);
    let mut m = Mesh::new();
    for v in [v0, v1, v2, v3] {
        m.insert_vertex(v);
    }
    for f in [f0, f1, f2, f3] {
        m.insert_face(f);
    }
    (m, vec![v0, v1, v2, v3], vec![f0, f1, f2, f3])
}

/// A unit cube of twelve consistently wound triangles.
fn cube(store: &mut Store) -> (Mesh, Vec<VertexPtr>, Vec<FacePtr>) {
    let c = [
        (0, 0, 0),
        (UNIT, 0, 0),
        (UNIT, UNIT, 0),
        (0, UNIT, 0),
        (0, 0, UNIT),
        (UNIT, 0, UNIT),
        (UNIT, UNIT, UNIT),
        (0, UNIT, UNIT),
    ];
    let vs: Vec<VertexPtr> = c.iter().map(|&(x, y, z)| vert(store, x, y, z)).collect();
    let quads = [
        (0, 3, 2, 1), // bottom, normal -z
        (4, 5, 6, 7), // top, normal +z
        (0, 1, 5, 4), // front, normal -y
        (2, 3, 7, 6), // back, normal +y
        (0, 4, 7, 3), // left, normal -x
        (1, 2, 6, 5), // right, normal +x
    ];
    let mut m = Mesh::new();
    for v in &vs {
        m.insert_vertex(*v);
    }
    let mut fs = Vec::new();
    for &(a, b, cc, d) in &quads {
        let f1 = Face::new(store, [vs[a], vs[b], vs[cc]]);
        let f2 = Face::new(store, [vs[a], vs[cc], vs[d]]);
        m.insert_face(f1);
        m.insert_face(f2);
        fs.push(f1);
        fs.push(f2);
    }
    (m, vs, fs)
}

/// The unit normal of a face, in floating point, for test-side angle math.
fn unit_normal(store: &Store, f: FacePtr) -> [f64; 3] {
    let fd = *store.face(f);
    let n = fd.normal(store).expect("non-degenerate");
    let (x, y, z) = (n.x as f64, n.y as f64, n.z as f64);
    let len = (x * x + y * y + z * z).sqrt();
    [x / len, y / len, z / len]
}

/// The angle verdicts for every face pair of `fs` within `max_deg` degrees.
fn within_angle(store: &Store, fs: &[FacePtr], max_deg: f64) -> Vec<(FacePtr, FacePtr)> {
    let mut rel = Vec::new();
    for i in 0..fs.len() {
        for j in (i + 1)..fs.len() {
            let n1 = unit_normal(store, fs[i]);
            let n2 = unit_normal(store, fs[j]);
            let dot = n1[0] * n2[0] + n1[1] * n2[1] + n1[2] * n2[2];
            let angle = dot.clamp(-1.0, 1.0).acos().to_degrees();
            if angle <= max_deg {
                rel.push((fs[i], fs[j]));
            }
        }
    }
    rel
}

#[test]
fn normal_is_exact_cross_product() {
    let mut store = Store::new();
    let a = vert(&mut store, 0, 0, 0);
    let b = vert(&mut store, UNIT, 0, 0);
    let c = vert(&mut store, 0, UNIT, 0);
    let f = Face::new(&mut store, [a, b, c]);
    let fd = *store.face(f);
    let n = fd.normal(&store).expect("non-degenerate");
    assert_eq!(n.x, 0);
    assert_eq!(n.y, 0);
    assert_eq!(n.z, UNIT * UNIT);
}

#[test]
fn normal_unit_length_after_normalisation() {
    let mut store = Store::new();
    let a = vert(&mut store, 123_000, -456_000, 789_000);
    let b = vert(&mut store, UNIT, 250_000, 0);
    let c = vert(&mut store, -300_000, UNIT, 444_000);
    let f = Face::new(&mut store, [a, b, c]);
    let n = unit_normal(&store, f);
    let len = (n[0] * n[0] + n[1] * n[1] + n[2] * n[2]).sqrt();
    assert!((len - 1.0).abs() < 1e-6);
}

#[test]
fn normal_fails_on_collinear_edges() {
    let mut store = Store::new();
    let a = vert(&mut store, 0, 0, 0);
    let b = vert(&mut store, UNIT, 0, 0);
    let c = vert(&mut store, 2 * UNIT, 0, 0);
    let f = Face::new(&mut store, [a, b, c]);
    let fd = *store.face(f);
    assert_eq!(fd.normal(&store), Err(Error::DegenerateGeometry));
}

#[test]
fn adjacency_is_exactly_the_constructing_faces() {
    let mut store = Store::new();
    let v = vert(&mut store, 0, 0, 0);
    let p = vert(&mut store, UNIT, 0, 0);
    let q = vert(&mut store, 0, UNIT, 0);
    let r = vert(&mut store, 0, 0, UNIT);
    let f1 = Face::new(&mut store, [v, p, q]);
    let f2 = Face::new(&mut store, [v, q, r]);
    let other = Face::new(&mut store, [p, q, r]); // not built on v
    let m = v.adjacent_faces(&store);
    assert_eq!(m.faces.len(), 2);
    assert!(m.faces.contains(&f1));
    assert!(m.faces.contains(&f2));
    assert!(!m.faces.contains(&other));
}

#[test]
fn adjacency_is_idempotent() {
    let mut store = Store::new();
    let v = vert(&mut store, 0, 0, 0);
    let p = vert(&mut store, UNIT, 0, 0);
    let q = vert(&mut store, 0, UNIT, 0);
    let _ = Face::new(&mut store, [v, p, q]);
    let _ = Face::new(&mut store, [q, p, v]);
    let m1 = v.adjacent_faces(&store);
    let m2 = v.adjacent_faces(&store);
    assert_eq!(m1.faces, m2.faces);
}

#[test]
fn adjacent_vertices_cover_the_faces() {
    let mut store = Store::new();
    let v = vert(&mut store, 0, 0, 0);
    let p = vert(&mut store, UNIT, 0, 0);
    let q = vert(&mut store, 0, UNIT, 0);
    let r = vert(&mut store, 0, 0, UNIT);
    let _ = Face::new(&mut store, [v, p, q]);
    let _ = Face::new(&mut store, [v, q, r]);
    let m = v.adjacent_vertices(&store);
    assert_eq!(m.vertices.len(), 4);
    for w in [v, p, q, r] {
        assert!(m.vertices.contains(&w));
    }
}

#[test]
fn tetrahedron_is_consistently_oriented() {
    let mut store = Store::new();
    let (m, _, _) = tetrahedron(&mut store);
    assert!(m.consistent_orientation(&store));
}

#[test]
fn flipping_a_face_breaks_orientation() {
    let mut store = Store::new();
    let (mut m, _, fs) = tetrahedron(&mut store);
    assert!(m.consistent_orientation(&store));
    m.flip_face(&mut store, fs[0]);
    assert!(!m.consistent_orientation(&store));
}

#[test]
fn flipped_swaps_the_first_two_slots() {
    let mut store = Store::new();
    let a = vert(&mut store, 0, 0, 0);
    let b = vert(&mut store, UNIT, 0, 0);
    let c = vert(&mut store, 0, UNIT, 0);
    let f = Face::new(&mut store, [a, b, c]);
    let g = f.flipped(&mut store);
    let gd = *store.face(g);
    assert_eq!(gd.a, b);
    assert_eq!(gd.b, a);
    assert_eq!(gd.c, c);
    assert_ne!(f, g);
}

#[test]
fn closed_tetrahedron_reports_no_boundary_edges() {
    let mut store = Store::new();
    let (m, _, _) = tetrahedron(&mut store);
    assert_eq!(
        m.surface_bounding_loop_count(&mut store).map(|p| p.0),
        Err(Error::EmptyCollection)
    );
}

#[test]
fn one_hole_makes_one_boundary_loop() {
    let mut store = Store::new();
    let (mut m, _, fs) = tetrahedron(&mut store);
    m.remove_face(fs[0]);
    let (count, loop_mesh) = m.surface_bounding_loop_count(&mut store).expect("open mesh");
    assert_eq!(count, 1);
    assert_eq!(loop_mesh.vertices.len(), 3);
}

#[test]
fn quad_has_four_boundary_vertices_in_one_loop() {
    let mut store = Store::new();
    let v0 = vert(&mut store, 0, 0, 0);
    let v1 = vert(&mut store, UNIT, 0, 0);
    let v2 = vert(&mut store, UNIT, UNIT, 0);
    let v3 = vert(&mut store, 0, UNIT, 0);
    let f1 = Face::new(&mut store, [v0, v1, v2]);
    let f2 = Face::new(&mut store, [v0, v2, v3]);
    let mut m = Mesh::new();
    m.insert_face(f1);
    m.insert_face(f2);
    let (count, loop_mesh) = m.surface_bounding_loop_count(&mut store).expect("open mesh");
    assert_eq!(count, 1);
    assert_eq!(loop_mesh.vertices.len(), 4);
    for v in [v0, v1, v2, v3] {
        assert!(loop_mesh.vertices.contains(&v));
    }
}

#[test]
fn two_separate_holes_make_two_loops() {
    let mut store = Store::new();
    let mut m = Mesh::new();
    for base in [0, 10] {
        let v0 = vert(&mut store, base * UNIT, 0, 0);
        let v1 = vert(&mut store, (base + 1) * UNIT, 0, 0);
        let v2 = vert(&mut store, (base + 1) * UNIT, UNIT, 0);
        let v3 = vert(&mut store, base * UNIT, UNIT, 0);
        m.insert_face(Face::new(&mut store, [v0, v1, v2]));
        m.insert_face(Face::new(&mut store, [v0, v2, v3]));
    }
    let (count, loop_mesh) = m.surface_bounding_loop_count(&mut store).expect("open mesh");
    assert_eq!(count, 2);
    assert_eq!(loop_mesh.vertices.len(), 8);
}

#[test]
fn grow_selection_stops_at_sharp_angles() {
    let mut store = Store::new();
    let (_, _, fs) = cube(&mut store);
    let rel = within_angle(&store, &fs, 45.0);
    let sel = fs[0]
        .grow_selection_with_max_angle(&mut store, &rel)
        .expect("no degenerate faces");
    // the start triangle and its coplanar partner; the four edges of the
    // square they form are the recorded boundary
    assert_eq!(sel.faces.len(), 2);
    assert!(sel.faces.contains(&fs[0]));
    assert!(sel.faces.contains(&fs[1]));
    assert_eq!(sel.edges.len(), 4);
}

#[test]
fn grow_selection_covers_the_cube_past_ninety_degrees() {
    let mut store = Store::new();
    let (_, _, fs) = cube(&mut store);
    let rel = within_angle(&store, &fs, 91.0);
    let sel = fs[0]
        .grow_selection_with_max_angle(&mut store, &rel)
        .expect("no degenerate faces");
    assert_eq!(sel.faces.len(), 12);
    assert_eq!(sel.edges.len(), 0);
}

#[test]
fn grow_selection_fails_on_degenerate_neighbour() {
    let mut store = Store::new();
    let a = vert(&mut store, 0, 0, 0);
    let b = vert(&mut store, UNIT, 0, 0);
    let c = vert(&mut store, 0, UNIT, 0);
    let d = vert(&mut store, 2 * UNIT, 0, 0); // collinear with a and b
    let f = Face::new(&mut store, [a, b, c]);
    let _bad = Face::new(&mut store, [a, b, d]);
    let rel: Vec<(FacePtr, FacePtr)> = Vec::new();
    assert_eq!(
        f.grow_selection_with_max_angle(&mut store, &rel).map(|m| m.faces.len()),
        Err(Error::DegenerateGeometry)
    );
}

#[test]
fn collapse_merges_a_short_edge() {
    let mut store = Store::new();
    let a = vert(&mut store, 0, 0, 0);
    let b = vert(&mut store, 1, 0, 0); // one millionth of a unit away
    let c = vert(&mut store, UNIT, UNIT, 0);
    let d = vert(&mut store, -UNIT, UNIT, 0);
    let f1 = Face::new(&mut store, [a, b, c]);
    let f2 = Face::new(&mut store, [a, c, d]);
    let mut m = Mesh::new();
    for v in [a, b, c, d] {
        m.insert_vertex(v);
    }
    m.insert_face(f1);
    m.insert_face(f2);
    let m = m.collapse_edges(&mut store, 10);
    // the face holding both endpoints degenerates and disappears; the other
    // is rebuilt on the kept endpoint
    assert_eq!(m.faces.len(), 1);
    let kept = *store.face(m.faces[0]);
    assert_eq!(kept.a, b);
    assert_eq!(kept.b, c);
    assert_eq!(kept.c, d);
    // the vanished vertex is not forcibly removed; pruning is the caller's
    assert_eq!(m.vertices.len(), 4);
    assert!(m.vertices.contains(&a));
}

#[test]
fn collapse_never_inspects_the_third_edge() {
    let mut store = Store::new();
    // only the edge b-c is short; the checked edges a-b and a-c are long
    let a = vert(&mut store, 0, 0, 0);
    let b = vert(&mut store, UNIT, 0, 0);
    let c = vert(&mut store, UNIT, 1, 0);
    let f = Face::new(&mut store, [a, b, c]);
    let mut m = Mesh::new();
    m.insert_face(f);
    let m = m.collapse_edges(&mut store, 10);
    assert_eq!(m.faces.len(), 1);
    assert_eq!(m.faces[0], f);
}

#[test]
fn collapse_leaves_long_edges_alone() {
    let mut store = Store::new();
    let (m, _, fs) = tetrahedron(&mut store);
    let m = m.collapse_edges(&mut store, 10);
    assert_eq!(m.faces.len(), 4);
    for f in fs {
        assert!(m.faces.contains(&f));
    }
}

#[test]
fn next_edge_walks_to_the_neighbour() {
    let mut store = Store::new();
    let a = vert(&mut store, 0, 0, 0);
    let b = vert(&mut store, UNIT, 0, 0);
    let c = vert(&mut store, 0, UNIT, 0);
    let e1 = Edge::new(&mut store, a, b);
    let e2 = Edge::new(&mut store, b, c);
    assert_eq!(e1.next_edge(&store), Some(e2));
    assert_eq!(e2.next_edge(&store), None);
}

#[test]
fn edge_identity_ignores_direction() {
    let mut store = Store::new();
    let a = vert(&mut store, 0, 0, 0);
    let b = vert(&mut store, UNIT, 0, 0);
    let c = vert(&mut store, 0, UNIT, 0);
    let e1 = Edge::new(&mut store, a, b);
    let e2 = Edge::new(&mut store, b, a);
    let e3 = Edge::new(&mut store, a, c);
    assert_eq!(store.edge(e1).id_sum, store.edge(e2).id_sum);
    assert_ne!(store.edge(e1).id_sum, store.edge(e3).id_sum);
    assert_ne!(e1, e2); // two instances of the same topological edge
}

#[test]
fn cube_is_consistently_oriented() {
    let mut store = Store::new();
    let (m, _, _) = cube(&mut store);
    assert!(m.consistent_orientation(&store));
}

#[test]
fn flipped_cube_face_is_not_consistently_oriented() {
    let mut store = Store::new();
    let (mut m, _, fs) = cube(&mut store);
    m.flip_face(&mut store, fs[7]);
    assert!(!m.consistent_orientation(&store));
}

#[test]
fn vertex_and_face_lists_return_members_in_order() {
    let mut store = Store::new();
    let (m, vs, fs) = tetrahedron(&mut store);
    assert_eq!(m.vertex_list(), vs);
    assert_eq!(m.face_list(), fs);
}

#[test]
fn collections_convert_into_meshes() {
    let mut store = Store::new();
    let (_, vs, fs) = tetrahedron(&mut store);
    let vm = vs.clone().into_mesh();
    assert_eq!(vm.vertices.len(), 4);
    assert_eq!(vm.faces.len(), 0);
    let fm = fs.clone().into_mesh();
    assert_eq!(fm.faces.len(), 4);
    assert_eq!(fm.vertices.len(), 0);
    // repeated handles fold into one member
    let mut doubled = vs.clone();
    doubled.extend(vs.iter().copied());
    assert_eq!(doubled.into_mesh().vertices.len(), 4);
}

#[test]
fn adjacent_vertices_and_faces_carries_both() {
    let mut store = Store::new();
    let v = vert(&mut store, 0, 0, 0);
    let p = vert(&mut store, UNIT, 0, 0);
    let q = vert(&mut store, 0, UNIT, 0);
    let f = Face::new(&mut store, [v, p, q]);
    let m = v.adjacent_vertices_and_faces(&store);
    assert_eq!(m.faces, vec![f]);
    assert_eq!(m.vertices.len(), 3);
}

#[test]
fn adjacent_faces_forgets_retired_faces() {
    let mut store = Store::new();
    let v = vert(&mut store, 0, 0, 0);
    let p = vert(&mut store, UNIT, 0, 0);
    let q = vert(&mut store, 0, UNIT, 0);
    let r = vert(&mut store, UNIT, UNIT, 0);
    let f1 = Face::new(&mut store, [v, p, q]);
    let f2 = Face::new(&mut store, [v, q, r]);
    // a collapse retires every face on the vanishing vertex; the back-links
    // stay behind as dangling entries and are filtered on read
    let mut m = Mesh::new();
    m.insert_face(f1);
    m.insert_face(f2);
    let near = vert(&mut store, 1, 0, 0);
    let f3 = Face::new(&mut store, [v, near, p]);
    m.insert_face(f3);
    let m2 = m.collapse_edges(&mut store, 10);
    assert!(m2.faces.len() < 3);
    let adj = v.adjacent_faces(&store);
    assert!(!adj.faces.contains(&f3));
}

#[test]
fn remove_vertex_can_drop_connected_faces() {
    let mut store = Store::new();
    let (mut m, vs, _) = tetrahedron(&mut store);
    let before = m.vertices.len();
    m.remove_vertex(&store, vs[0], true);
    assert_eq!(m.vertices.len(), before - 1);
    assert_eq!(m.faces.len(), 1); // only the face not built on vs[0]
}

#[test]
fn remove_vertex_alone_keeps_faces() {
    let mut store = Store::new();
    let (mut m, vs, _) = tetrahedron(&mut store);
    m.remove_vertex(&store, vs[0], false);
    assert_eq!(m.vertices.len(), 3);
    assert_eq!(m.faces.len(), 4);
}
