//! Checks of the text form: reading records into a mesh and rendering a
//! mesh back to bytes.

use meshtopo::face::Face;
use meshtopo::mesh::Mesh;
use meshtopo::store::Store;
use meshtopo::vector3::Vector3;
use meshtopo::vertex::Vertex;
use meshtopo::Error;

const UNIT: i64 = 1_000_000;

#[test]
fn read_vertices_parses_fixed_point_records() {
    let mut store = Store::new();
    let mut m = Mesh::new();
    let data = b"v 1.000000 2.500000 -3.250000\nv 0.5 0.0 0.1\nnot a record\n";
    let list = m.read_vertices(&mut store, data).expect("well within limits");
    assert_eq!(list.len(), 2);
    assert_eq!(m.vertices.len(), 2);
    let p0 = *store.vertex(list[0]).point();
    assert_eq!(p0, Vector3::new(1_000_000, 2_500_000, -3_250_000));
    let p1 = *store.vertex(list[1]).point();
    assert_eq!(p1, Vector3::new(500_000, 0, 100_000));
}

#[test]
fn read_tris_builds_faces_from_indices() {
    let mut store = Store::new();
    let mut m = Mesh::new();
    let data = b"v 0.0 0.0 0.0\nv 1.0 0.0 0.0\nv 0.0 1.0 0.0\nf 1 2 3\n";
    let list = m.read_vertices(&mut store, data).expect("three vertices");
    m.read_tris(&mut store, data, &list).expect("indices in range");
    assert_eq!(m.faces.len(), 1);
    let fd = *store.face(m.faces[0]);
    assert_eq!(fd.a, list[0]);
    assert_eq!(fd.b, list[1]);
    assert_eq!(fd.c, list[2]);
}

#[test]
fn read_quads_splits_on_the_first_diagonal() {
    let mut store = Store::new();
    let mut m = Mesh::new();
    let data = b"v 0.0 0.0 0.0\nv 1.0 0.0 0.0\nv 1.0 1.0 0.0\nv 0.0 1.0 0.0\nf 1 2 3 4\n";
    let list = m.read_vertices(&mut store, data).expect("four vertices");
    m.read_quads(&mut store, data, &list).expect("indices in range");
    assert_eq!(m.faces.len(), 2);
    let f1 = *store.face(m.faces[0]);
    let f2 = *store.face(m.faces[1]);
    // both triangles share the diagonal from the first to the third vertex
    assert_eq!((f1.a, f1.b, f1.c), (list[0], list[1], list[2]));
    assert_eq!((f2.a, f2.b, f2.c), (list[0], list[2], list[3]));
}

#[test]
fn read_tris_rejects_an_index_out_of_range() {
    let mut store = Store::new();
    let mut m = Mesh::new();
    let data = b"v 0.0 0.0 0.0\nv 1.0 0.0 0.0\nv 0.0 1.0 0.0\nf 1 2 4\n";
    let list = m.read_vertices(&mut store, data).expect("three vertices");
    assert_eq!(m.read_tris(&mut store, data, &list), Err(Error::MalformedInput));
}

#[test]
fn read_skips_lines_that_match_no_record() {
    let mut store = Store::new();
    let mut m = Mesh::new();
    let data = b"# comment\nv 1.0 2.0\nv a.b 1.0 1.0\nf 1 2\nv 3.0 4.0 5.0\n";
    let list = m.read_vertices(&mut store, data).expect("one good record");
    assert_eq!(list.len(), 1);
    let p = *store.vertex(list[0]).point();
    assert_eq!(p, Vector3::new(3 * UNIT, 4 * UNIT, 5 * UNIT));
}

#[test]
fn write_renders_vertices_and_faces() {
    let mut store = Store::new();
    let a = Vertex::new(&mut store, Vector3::new(0, 0, 0));
    let b = Vertex::new(&mut store, Vector3::new(UNIT, 0, 0));
    let c = Vertex::new(&mut store, Vector3::new(0, UNIT, 0));
    let lone = Vertex::new(&mut store, Vector3::new(-UNIT, 0, 2_500_000));
    let f = Face::new(&mut store, [a, b, c]);
    let mut m = Mesh::new();
    for v in [a, b, c, lone] {
        m.insert_vertex(v);
    }
    m.insert_face(f);
    let out = m.write(&store);
    let text = String::from_utf8(out).expect("ascii output");
    let expected = "Test Export\n\n# Vertices\n\
                    v 0.000000 0.000000 0.000000\n\
                    v 1.000000 0.000000 0.000000\n\
                    v 0.000000 1.000000 0.000000\n\
                    v -1.000000 0.000000 2.500000\n\
                    \n\n# Faces\nf 1 2 3\n";
    assert_eq!(text, expected);
}

#[test]
fn write_then_read_round_trips_the_shape() {
    let mut store = Store::new();
    let a = Vertex::new(&mut store, Vector3::new(0, 0, 0));
    let b = Vertex::new(&mut store, Vector3::new(UNIT, 0, 0));
    let c = Vertex::new(&mut store, Vector3::new(0, UNIT, 0));
    let d = Vertex::new(&mut store, Vector3::new(0, 0, UNIT));
    let f1 = Face::new(&mut store, [a, b, c]);
    let f2 = Face::new(&mut store, [a, c, d]);
    let mut m = Mesh::new();
    for v in [a, b, c, d] {
        m.insert_vertex(v);
    }
    m.insert_face(f1);
    m.insert_face(f2);
    let out = m.write(&store);

    let mut store2 = Store::new();
    let mut m2 = Mesh::new();
    let list = m2.read_vertices(&mut store2, &out).expect("within limits");
    m2.read_tris(&mut store2, &out, &list).expect("indices in range");
    assert_eq!(m2.vertices.len(), 4);
    assert_eq!(m2.faces.len(), 2);
    let p = *store2.vertex(list[0]).point();
    assert_eq!(p, *store.vertex(a).point());
}

#[test]
fn coordinates_beyond_the_range_are_malformed() {
    let mut store = Store::new();
    let mut m = Mesh::new();
    let data = b"v 5000.0 0.0 0.0\nv 1.0 1.0 1.0\n";
    assert_eq!(m.read_vertices(&mut store, data), Err(Error::MalformedInput));
}
