use stl_splitter::error::MeshError;
use stl_splitter::mesh::{Mesh, Triangle, Vertex};

fn v(x: f32, y: f32, z: f32) -> Vertex {
    Vertex { x: x.to_bits(), y: y.to_bits(), z: z.to_bits() }
}

fn tri(a: Vertex, b: Vertex, c: Vertex) -> Triangle {
    Triangle { normal: v(0.0, 0.0, 1.0), v0: a, v1: b, v2: c }
}

fn fv(bits: u32) -> f32 {
    f32::from_bits(bits)
}

#[test]
fn save_writes_exact_binary_layout() {
    let t = tri(v(1.0, 2.0, 3.0), v(4.0, 5.0, 6.0), v(7.0, 8.0, 9.0));
    let bytes = Mesh::save(&vec![t]);
    let mut expected: Vec<u8> = vec![0u8; 80];
    expected.extend_from_slice(&1u32.to_le_bytes());
    for c in [0.0f32, 0.0, 1.0, 1.0, 2.0, 3.0, 4.0, 5.0, 6.0, 7.0, 8.0, 9.0] {
        expected.extend_from_slice(&c.to_le_bytes());
    }
    expected.extend_from_slice(&0u16.to_le_bytes());
    assert_eq!(bytes, expected);
}

#[test]
fn save_accepts_empty_list() {
    let bytes = Mesh::save(&vec![]);
    assert_eq!(bytes.len(), 84);
    assert_eq!(&bytes[80..84], &[0u8, 0, 0, 0]);
}

#[test]
fn save_then_load_roundtrips_vertices() {
    let triangles = vec![
        tri(v(1.0, 2.0, 3.0), v(4.0, 5.0, 6.0), v(7.0, 8.0, 9.0)),
        tri(v(-1.5, 2.25, 0.125), v(10.0, -20.0, 30.5), v(0.75, 0.5, -0.25)),
    ];
    let bytes = Mesh::save(&triangles);
    let reloaded = Mesh::load(&bytes).expect("reload");
    assert_eq!(reloaded.triangles.len(), triangles.len());
    for (got, want) in reloaded.triangles.iter().zip(triangles.iter()) {
        assert_eq!(got.v0, want.v0);
        assert_eq!(got.v1, want.v1);
        assert_eq!(got.v2, want.v2);
        assert_eq!(got.normal, v(0.0, 0.0, 1.0));
    }
}

#[test]
fn load_replaces_normals_with_placeholder() {
    let odd_normal = Vertex { x: 5.5f32.to_bits(), y: 6.5f32.to_bits(), z: 7.5f32.to_bits() };
    let t = Triangle {
        normal: odd_normal,
        v0: v(1.0, 2.0, 3.0),
        v1: v(4.0, 5.0, 6.0),
        v2: v(7.0, 8.0, 9.0),
    };
    let bytes = Mesh::save(&vec![t]);
    let reloaded = Mesh::load(&bytes).expect("reload");
    assert_eq!(reloaded.triangles[0].normal, v(0.0, 0.0, 1.0));
}

#[test]
fn load_ascii_stl() {
    let text = b"solid foobar
facet normal 0.1 0.2 0.3
    outer loop
        vertex 1 2 3
        vertex 4 5 6
        vertex 7 8 9
    endloop
endfacet
endsolid foobar";
    let mesh = Mesh::load(text).expect("ascii load");
    assert_eq!(mesh.triangles.len(), 1);
    let t = &mesh.triangles[0];
    assert_eq!((fv(t.v0.x), fv(t.v0.y), fv(t.v0.z)), (1.0, 2.0, 3.0));
    assert_eq!((fv(t.v1.x), fv(t.v1.y), fv(t.v1.z)), (4.0, 5.0, 6.0));
    assert_eq!((fv(t.v2.x), fv(t.v2.y), fv(t.v2.z)), (7.0, 8.0, 9.0));
    assert_eq!(t.normal, v(0.0, 0.0, 1.0));
}

#[test]
fn load_garbage_is_malformed_input() {
    assert_eq!(Mesh::load(b"not a mesh at all").unwrap_err(), MeshError::MalformedInput);
}

#[test]
fn load_ragged_vertex_count_is_malformed_input() {
    // Two facets sharing two corners decode to four distinct vertices,
    // which no whole number of triangles can use up.
    let shared_a = v(0.0, 0.0, 0.0);
    let shared_b = v(1.0, 0.0, 0.0);
    let triangles = vec![
        tri(shared_a, shared_b, v(0.0, 1.0, 0.0)),
        tri(shared_a, shared_b, v(0.0, -1.0, 0.0)),
    ];
    let bytes = Mesh::save(&triangles);
    assert_eq!(Mesh::load(&bytes).unwrap_err(), MeshError::MalformedInput);
}

#[test]
fn load_zero_vertices_is_empty_mesh() {
    let bytes = Mesh::save(&vec![]);
    assert_eq!(Mesh::load(&bytes).unwrap_err(), MeshError::EmptyMesh);
}

#[test]
fn end_to_end_unit_cube_split() {
    // Twelve triangles spanning the unit cube, none straddling the plane
    // z = 0.5: six lie within z in [0.5, 1], six within z in [0, 0.5].
    let triangles = vec![
        // top face, z = 1
        tri(v(0.0, 0.0, 1.0), v(1.0, 0.0, 1.0), v(1.0, 1.0, 1.0)),
        tri(v(0.0, 0.0, 1.0), v(1.0, 1.0, 1.0), v(0.0, 1.0, 1.0)),
        // upper halves of the side walls, z in [0.5, 1]
        tri(v(0.0, 0.0, 0.5), v(1.0, 0.0, 0.5), v(1.0, 0.0, 1.0)),
        tri(v(1.0, 0.0, 0.5), v(1.0, 1.0, 0.5), v(1.0, 1.0, 1.0)),
        tri(v(1.0, 1.0, 0.5), v(0.0, 1.0, 0.5), v(0.0, 1.0, 1.0)),
        tri(v(0.0, 1.0, 0.5), v(0.0, 0.0, 0.5), v(0.0, 0.0, 1.0)),
        // bottom face, z = 0
        tri(v(0.0, 0.0, 0.0), v(1.0, 1.0, 0.0), v(1.0, 0.0, 0.0)),
        tri(v(0.0, 0.0, 0.0), v(0.0, 1.0, 0.0), v(1.0, 1.0, 0.0)),
        // lower halves of the side walls, z in [0, 0.5]
        tri(v(0.0, 0.0, 0.0), v(1.0, 0.0, 0.0), v(1.0, 0.0, 0.5)),
        tri(v(1.0, 0.0, 0.0), v(1.0, 1.0, 0.0), v(1.0, 1.0, 0.5)),
        tri(v(1.0, 1.0, 0.0), v(0.0, 1.0, 0.0), v(0.0, 1.0, 0.5)),
        tri(v(0.0, 1.0, 0.0), v(0.0, 0.0, 0.0), v(0.0, 0.0, 0.5)),
    ];
    let mesh = Mesh { triangles };
    let (mn, mx) = mesh.get_dimensions();
    assert_eq!((fv(mn.x), fv(mn.y), fv(mn.z)), (0.0, 0.0, 0.0));
    assert_eq!((fv(mx.x), fv(mx.y), fv(mx.z)), (1.0, 1.0, 1.0));
    let z_split = (fv(mn.z) + fv(mx.z)) / 2.0;
    assert_eq!(z_split, 0.5);
    let (upper, lower) = mesh.split(z_split.to_bits());
    assert_eq!(upper.len(), 6);
    assert_eq!(lower.len(), 6);
    assert_eq!(mesh.triangles.len() - upper.len() - lower.len(), 0);
    for t in &upper {
        for w in [&t.v0, &t.v1, &t.v2] {
            assert!(fv(w.z) >= 0.5 && fv(w.z) <= 1.0);
        }
    }
    for t in &lower {
        for w in [&t.v0, &t.v1, &t.v2] {
            assert!(fv(w.z) >= 0.0 && fv(w.z) <= 0.5);
        }
    }
    let upper_bytes = Mesh::save(&upper);
    let lower_bytes = Mesh::save(&lower);
    assert_eq!(upper_bytes.len(), 84 + 50 * 6);
    assert_eq!(lower_bytes.len(), 84 + 50 * 6);
    assert_eq!(&upper_bytes[80..84], &[6u8, 0, 0, 0]);
    assert_eq!(&lower_bytes[80..84], &[6u8, 0, 0, 0]);
}

#[test]
fn saved_bytes_read_back_through_stl_io() {
    let triangles = vec![tri(v(1.0, 2.0, 3.0), v(4.0, 5.0, 6.0), v(7.0, 8.0, 9.0))];
    let bytes = Mesh::save(&triangles);
    let mut cursor = std::io::Cursor::new(&bytes[..]);
    let parsed = stl_io::read_stl(&mut cursor).expect("stl_io read");
    assert_eq!(parsed.vertices.len(), 3);
    assert_eq!(parsed.faces.len(), 1);
    assert_eq!(parsed.vertices[0][0], 1.0);
    assert_eq!(parsed.vertices[1][1], 5.0);
    assert_eq!(parsed.vertices[2][2], 9.0);
}
