use stl_splitter::mesh::{Mesh, Triangle, Vertex};
use stl_splitter::order::coord_le_exec;

fn v(x: f32, y: f32, z: f32) -> Vertex {
    Vertex { x: x.to_bits(), y: y.to_bits(), z: z.to_bits() }
}

fn tri(a: Vertex, b: Vertex, c: Vertex) -> Triangle {
    Triangle { normal: v(0.0, 0.0, 1.0), v0: a, v1: b, v2: c }
}

fn fv(bits: u32) -> f32 {
    f32::from_bits(bits)
}

#[test]
fn coord_order_matches_float_order() {
    let samples: [f32; 7] = [-1000.25, -2.5, -0.5, 0.0, 0.5, 2.5, 1000.25];
    for i in 0..samples.len() {
        for j in 0..samples.len() {
            let le = coord_le_exec(samples[i].to_bits(), samples[j].to_bits());
            assert_eq!(le, samples[i] <= samples[j], "{} <= {}", samples[i], samples[j]);
        }
    }
}

#[test]
fn bbox_of_known_mesh() {
    let m = Mesh {
        triangles: vec![
            tri(v(0.0, 1.0, 2.0), v(-3.0, 4.0, 5.0), v(6.0, -7.0, 8.0)),
            tri(v(1.5, 2.5, -9.0), v(0.25, 0.75, 1.0), v(2.0, 3.0, 4.0)),
        ],
    };
    let (mn, mx) = m.get_dimensions();
    assert_eq!((fv(mn.x), fv(mn.y), fv(mn.z)), (-3.0, -7.0, -9.0));
    assert_eq!((fv(mx.x), fv(mx.y), fv(mx.z)), (6.0, 4.0, 8.0));
}

#[test]
fn bbox_shifts_with_translation() {
    let base = vec![
        tri(v(0.0, 1.0, 2.0), v(-3.0, 4.0, 5.0), v(6.0, -7.0, 8.0)),
        tri(v(1.5, 2.5, -9.0), v(0.25, 0.75, 1.0), v(2.0, 3.0, 4.0)),
    ];
    let (dx, dy, dz): (f32, f32, f32) = (10.0, -20.0, 0.5);
    let shifted: Vec<Triangle> = base
        .iter()
        .map(|t| {
            let mv = |w: &Vertex| v(fv(w.x) + dx, fv(w.y) + dy, fv(w.z) + dz);
            Triangle { normal: t.normal, v0: mv(&t.v0), v1: mv(&t.v1), v2: mv(&t.v2) }
        })
        .collect();
    let (mn, mx) = Mesh { triangles: base }.get_dimensions();
    let (smn, smx) = Mesh { triangles: shifted }.get_dimensions();
    assert_eq!(fv(smn.x), fv(mn.x) + dx);
    assert_eq!(fv(smn.y), fv(mn.y) + dy);
    assert_eq!(fv(smn.z), fv(mn.z) + dz);
    assert_eq!(fv(smx.x), fv(mx.x) + dx);
    assert_eq!(fv(smx.y), fv(mx.y) + dy);
    assert_eq!(fv(smx.z), fv(mx.z) + dz);
}

#[test]
fn split_partitions_every_triangle() {
    let upper_tri = tri(v(0.0, 0.0, 1.0), v(1.0, 0.0, 2.0), v(0.0, 1.0, 3.0));
    let lower_tri = tri(v(0.0, 0.0, -1.0), v(1.0, 0.0, -2.0), v(0.0, 1.0, 0.0));
    let straddler = tri(v(0.0, 0.0, -1.0), v(1.0, 0.0, 1.0), v(0.0, 1.0, 2.0));
    let m = Mesh { triangles: vec![upper_tri, lower_tri, straddler, upper_tri, straddler] };
    let z: f32 = 0.25;
    let (upper, lower) = m.split(z.to_bits());
    let dropped = m.triangles.len() - upper.len() - lower.len();
    assert_eq!(upper.len(), 2);
    assert_eq!(lower.len(), 1);
    assert_eq!(dropped, 2);
    assert_eq!(upper.len() + lower.len() + dropped, m.triangles.len());
}

#[test]
fn split_sides_hold_and_are_disjoint() {
    let m = Mesh {
        triangles: vec![
            tri(v(0.0, 0.0, 1.0), v(1.0, 0.0, 2.0), v(0.0, 1.0, 3.0)),
            tri(v(0.0, 0.0, -1.0), v(1.0, 0.0, -2.0), v(0.0, 1.0, 0.0)),
            tri(v(0.0, 0.0, -1.0), v(1.0, 0.0, 1.0), v(0.0, 1.0, 2.0)),
            tri(v(0.0, 0.0, 0.5), v(1.0, 0.0, 0.5), v(0.0, 1.0, 0.5)),
        ],
    };
    let z: f32 = 0.5;
    let (upper, lower) = m.split(z.to_bits());
    for t in &upper {
        for w in [&t.v0, &t.v1, &t.v2] {
            assert!(fv(w.z) >= z);
        }
    }
    for t in &lower {
        for w in [&t.v0, &t.v1, &t.v2] {
            assert!(fv(w.z) <= z);
        }
    }
    for t in &upper {
        assert!(!lower.contains(t));
    }
}

#[test]
fn plane_triangle_is_classified_upper() {
    let z: f32 = 1.25;
    let plane_tri = tri(v(0.0, 0.0, 1.25), v(1.0, 0.0, 1.25), v(0.0, 1.0, 1.25));
    let m = Mesh { triangles: vec![plane_tri] };
    let (upper, lower) = m.split(z.to_bits());
    assert_eq!(upper.len(), 1);
    assert_eq!(lower.len(), 0);
    assert_eq!(upper[0], plane_tri);
}

#[test]
fn split_preserves_source_order() {
    let a = tri(v(0.0, 0.0, 1.0), v(1.0, 0.0, 1.0), v(0.0, 1.0, 1.0));
    let b = tri(v(0.0, 0.0, 2.0), v(1.0, 0.0, 2.0), v(0.0, 1.0, 2.0));
    let c = tri(v(0.0, 0.0, 3.0), v(1.0, 0.0, 3.0), v(0.0, 1.0, 3.0));
    let m = Mesh { triangles: vec![c, a, b] };
    let z: f32 = 0.0;
    let (upper, lower) = m.split(z.to_bits());
    assert_eq!(upper, vec![c, a, b]);
    assert!(lower.is_empty());
}
