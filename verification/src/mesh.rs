use vstd::prelude::*;
use crate::order::{coord_le, lemma_coord_le_antisym};

verus! {

/// One corner of a triangle, or a direction vector.
///
/// Each component is the raw 32-bit pattern of the single-precision value
/// stored in a mesh file.  Numeric comparisons between components go through
/// the coordinate order of `crate::order`.
#[derive(Clone, Copy, Debug, PartialEq, Eq, Structural)]
pub struct Vertex {
    pub x: u32,
    pub y: u32,
    pub z: u32,
}

/// One facet of a mesh: a normal vector and exactly three vertices.
#[derive(Clone, Copy, Debug, PartialEq, Eq, Structural)]
pub struct Triangle {
    pub normal: Vertex,
    pub v0: Vertex,
    pub v1: Vertex,
    pub v2: Vertex,
}

/// An ordered list of triangles.  A well-formed mesh holds at least one
/// triangle; the loader never produces an empty one.
#[derive(Debug)]
pub struct Mesh {
    pub triangles: Vec<Triangle>,
}

/// The placeholder normal `(0, 0, 1)` that the loader assigns to every
/// triangle, discarding whatever the source file carried.
pub open spec fn spec_default_normal() -> Vertex {
    Vertex { x: 0, y: 0, z: 0x3F80_0000 }
}

/// Builds the placeholder normal `(0, 0, 1)`.
pub fn default_normal() -> (r: Vertex)
    ensures
        r == spec_default_normal(),
{
    Vertex { x: 0, y: 0, z: 0x3F80_0000 }
}

/// The three vertices of a triangle, in order.
pub open spec fn tri_verts(t: Triangle) -> Seq<Vertex> {
    seq![t.v0, t.v1, t.v2]
}

/// All vertices of a triangle list, flattened in order.
pub open spec fn all_verts(s: Seq<Triangle>) -> Seq<Vertex>
    decreases s.len(),
{
    if s.len() == 0 {
        Seq::empty()
    } else {
        all_verts(s.drop_last()) + tri_verts(s.last())
    }
}

/// The triangle that chunk `i` of a flat vertex list yields: its three
/// consecutive vertices, under the placeholder normal.
pub open spec fn tri_of(vs: Seq<Vertex>, i: int) -> Triangle {
    Triangle { normal: spec_default_normal(), v0: vs[3 * i], v1: vs[3 * i + 1], v2: vs[3 * i + 2] }
}

/// Groups a flat vertex list into consecutive chunks of three, one triangle
/// per chunk.
pub open spec fn group_triangles(vs: Seq<Vertex>) -> Seq<Triangle> {
    Seq::new(vs.len() / 3, |i: int| tri_of(vs, i))
}

impl Mesh {
    /// A mesh is well formed when it holds at least one triangle.
    pub open spec fn wf(&self) -> bool {
        self.triangles@.len() >= 1
    }
}

/// Grouping a flat vertex list into triangles loses no vertex and changes
/// none: flattening the triangles back gives the original list.  This is
/// the verified half of the round trip through a mesh file; the file
/// encoding itself is byte-exact and keeps every coordinate pattern.
pub proof fn lemma_group_preserves_vertices(vs: Seq<Vertex>)
    requires
        vs.len() % 3 == 0,
    ensures
        all_verts(group_triangles(vs)) == vs,
    decreases vs.len(),
{
    let g = group_triangles(vs);
    if vs.len() == 0 {
        assert(all_verts(g) =~= vs);
    } else {
        let n = vs.len() as int;
        assert(n >= 3);
        let shorter = vs.take(n - 3);
        assert(shorter.len() % 3 == 0);
        lemma_group_preserves_vertices(shorter);
        let gs = group_triangles(shorter);
        assert(g.len() == n / 3);
        assert(g.drop_last() =~= gs);
        assert(g.last() == tri_of(vs, n / 3 - 1));
        assert(3 * (n / 3 - 1) == n - 3);
        assert(all_verts(g) == all_verts(gs) + tri_verts(g.last()));
        assert(all_verts(g) =~= vs);
    }
}

/// `v` lies at or below `w` in every axis of the coordinate order.
pub open spec fn vert_lb(w: Vertex, v: Vertex) -> bool {
    coord_le(v.x, w.x) && coord_le(v.y, w.y) && coord_le(v.z, w.z)
}

/// `v` lies at or above `w` in every axis of the coordinate order.
pub open spec fn vert_ub(w: Vertex, v: Vertex) -> bool {
    coord_le(w.x, v.x) && coord_le(w.y, v.y) && coord_le(w.z, v.z)
}

/// `v` lies at or below all three vertices of `t` in every axis.
pub open spec fn tri_lb(t: Triangle, v: Vertex) -> bool {
    vert_lb(t.v0, v) && vert_lb(t.v1, v) && vert_lb(t.v2, v)
}

/// `v` lies at or above all three vertices of `t` in every axis.
pub open spec fn tri_ub(t: Triangle, v: Vertex) -> bool {
    vert_ub(t.v0, v) && vert_ub(t.v1, v) && vert_ub(t.v2, v)
}

/// Some vertex of `t` has `c` as its x component.
pub open spec fn tri_has_x(t: Triangle, c: u32) -> bool {
    t.v0.x == c || t.v1.x == c || t.v2.x == c
}

/// Some vertex of `t` has `c` as its y component.
pub open spec fn tri_has_y(t: Triangle, c: u32) -> bool {
    t.v0.y == c || t.v1.y == c || t.v2.y == c
}

/// Some vertex of `t` has `c` as its z component.
pub open spec fn tri_has_z(t: Triangle, c: u32) -> bool {
    t.v0.z == c || t.v1.z == c || t.v2.z == c
}

/// `v` is the minimum corner of the bounding box of `s`: componentwise at
/// or below every vertex, and each component attained by some vertex.
pub open spec fn is_bbox_min(s: Seq<Triangle>, v: Vertex) -> bool {
    &&& forall|i: int| 0 <= i < s.len() ==> #[trigger] tri_lb(s[i], v)
    &&& exists|i: int| 0 <= i < s.len() && #[trigger] tri_has_x(s[i], v.x)
    &&& exists|i: int| 0 <= i < s.len() && #[trigger] tri_has_y(s[i], v.y)
    &&& exists|i: int| 0 <= i < s.len() && #[trigger] tri_has_z(s[i], v.z)
}

/// `v` is the maximum corner of the bounding box of `s`.
pub open spec fn is_bbox_max(s: Seq<Triangle>, v: Vertex) -> bool {
    &&& forall|i: int| 0 <= i < s.len() ==> #[trigger] tri_ub(s[i], v)
    &&& exists|i: int| 0 <= i < s.len() && #[trigger] tri_has_x(s[i], v.x)
    &&& exists|i: int| 0 <= i < s.len() && #[trigger] tri_has_y(s[i], v.y)
    &&& exists|i: int| 0 <= i < s.len() && #[trigger] tri_has_z(s[i], v.z)
}

impl Mesh {
    /// Computes the axis-aligned bounding box of the mesh: the componentwise
    /// minimum and maximum over all vertices of all triangles, in the
    /// coordinate order.
    pub fn get_dimensions(&self) -> (r: (Vertex, Vertex))
        requires
            self.wf(),
        ensures
            is_bbox_min(self.triangles@, r.0),
            is_bbox_max(self.triangles@, r.1),
    {
        let ts = &self.triangles;
        let first = ts[0].v0;
        let mut mn = first;
        let mut mx = first;
        let n = ts.len();
        proof {
            assert(tri_has_x(ts@[0], first.x));
            assert(tri_has_y(ts@[0], first.y));
            assert(tri_has_z(ts@[0], first.z));
        }
        let mut ti: usize = 0;
        while ti < n
            invariant
                n == ts@.len(),
                n >= 1,
                0 <= ti <= n,
                forall|i: int| 0 <= i < ti ==> #[trigger] tri_lb(ts@[i], mn),
                forall|i: int| 0 <= i < ti ==> #[trigger] tri_ub(ts@[i], mx),
                exists|i: int| 0 <= i < n && #[trigger] tri_has_x(ts@[i], mn.x),
                exists|i: int| 0 <= i < n && #[trigger] tri_has_y(ts@[i], mn.y),
                exists|i: int| 0 <= i < n && #[trigger] tri_has_z(ts@[i], mn.z),
                exists|i: int| 0 <= i < n && #[trigger] tri_has_x(ts@[i], mx.x),
                exists|i: int| 0 <= i < n && #[trigger] tri_has_y(ts@[i], mx.y),
                exists|i: int| 0 <= i < n && #[trigger] tri_has_z(ts@[i], mx.z),
            decreases n - ti,
        {
            let t = ts[ti];
            let ghost mn0 = mn;
            let ghost mx0 = mx;
            mn = vert_min(mn, t.v0);
            mn = vert_min(mn, t.v1);
            mn = vert_min(mn, t.v2);
            mx = vert_max(mx, t.v0);
            mx = vert_max(mx, t.v1);
            mx = vert_max(mx, t.v2);
            proof {
                assert forall|i: int| 0 <= i < ti + 1 implies #[trigger] tri_lb(ts@[i], mn) by {
                    if i < ti {
                        assert(tri_lb(ts@[i], mn0));
                    } else {
                        assert(ts@[i] == t);
                    }
                }
                assert forall|i: int| 0 <= i < ti + 1 implies #[trigger] tri_ub(ts@[i], mx) by {
                    if i < ti {
                        assert(tri_ub(ts@[i], mx0));
                    } else {
                        assert(ts@[i] == t);
                    }
                }
                if mn.x == mn0.x {
                    let w = choose|i: int| 0 <= i < n && #[trigger] tri_has_x(ts@[i], mn0.x);
                    assert(tri_has_x(ts@[w], mn.x));
                } else {
                    assert(tri_has_x(ts@[ti as int], mn.x));
                }
                if mn.y == mn0.y {
                    let w = choose|i: int| 0 <= i < n && #[trigger] tri_has_y(ts@[i], mn0.y);
                    assert(tri_has_y(ts@[w], mn.y));
                } else {
                    assert(tri_has_y(ts@[ti as int], mn.y));
                }
                if mn.z == mn0.z {
                    let w = choose|i: int| 0 <= i < n && #[trigger] tri_has_z(ts@[i], mn0.z);
                    assert(tri_has_z(ts@[w], mn.z));
                } else {
                    assert(tri_has_z(ts@[ti as int], mn.z));
                }
                if mx.x == mx0.x {
                    let w = choose|i: int| 0 <= i < n && #[trigger] tri_has_x(ts@[i], mx0.x);
                    assert(tri_has_x(ts@[w], mx.x));
                } else {
                    assert(tri_has_x(ts@[ti as int], mx.x));
                }
                if mx.y == mx0.y {
                    let w = choose|i: int| 0 <= i < n && #[trigger] tri_has_y(ts@[i], mx0.y);
                    assert(tri_has_y(ts@[w], mx.y));
                } else {
                    assert(tri_has_y(ts@[ti as int], mx.y));
                }
                if mx.z == mx0.z {
                    let w = choose|i: int| 0 <= i < n && #[trigger] tri_has_z(ts@[i], mx0.z);
                    assert(tri_has_z(ts@[w], mx.z));
                } else {
                    assert(tri_has_z(ts@[ti as int], mx.z));
                }
            }
            ti = ti + 1;
        }
        (mn, mx)
    }
}

/// Componentwise minimum of two vertices in the coordinate order.  Each
/// resulting component is one of the two inputs' components and is at or
/// below both.
pub fn vert_min(a: Vertex, b: Vertex) -> (r: Vertex)
    ensures
        vert_lb(a, r) && vert_lb(b, r),
        (r.x == a.x || r.x == b.x) && (r.y == a.y || r.y == b.y) && (r.z == a.z || r.z == b.z),
{
    Vertex {
        x: if crate::order::coord_le_exec(a.x, b.x) {
            a.x
        } else {
            b.x
        },
        y: if crate::order::coord_le_exec(a.y, b.y) {
            a.y
        } else {
            b.y
        },
        z: if crate::order::coord_le_exec(a.z, b.z) {
            a.z
        } else {
            b.z
        },
    }
}

/// Componentwise maximum of two vertices in the coordinate order.
pub fn vert_max(a: Vertex, b: Vertex) -> (r: Vertex)
    ensures
        vert_ub(a, r) && vert_ub(b, r),
        (r.x == a.x || r.x == b.x) && (r.y == a.y || r.y == b.y) && (r.z == a.z || r.z == b.z),
{
    Vertex {
        x: if crate::order::coord_le_exec(a.x, b.x) {
            b.x
        } else {
            a.x
        },
        y: if crate::order::coord_le_exec(a.y, b.y) {
            b.y
        } else {
            a.y
        },
        z: if crate::order::coord_le_exec(a.z, b.z) {
            b.z
        } else {
            a.z
        },
    }
}

/// A coordinate map preserves the coordinate order.  Adding a constant
/// (finite) offset to the encoded values is such a map on each axis.
pub open spec fn monotone_map(f: spec_fn(u32) -> u32) -> bool {
    forall|a: u32, b: u32| coord_le(a, b) ==> #[trigger] coord_le(f(a), f(b))
}

/// `v` with each axis sent through its map.
pub open spec fn map_vert(
    v: Vertex,
    fx: spec_fn(u32) -> u32,
    fy: spec_fn(u32) -> u32,
    fz: spec_fn(u32) -> u32,
) -> Vertex {
    Vertex { x: fx(v.x), y: fy(v.y), z: fz(v.z) }
}

/// `t` with every vertex sent through the axis maps; the normal is carried
/// unchanged, as no comparison reads it.
pub open spec fn map_tri(
    t: Triangle,
    fx: spec_fn(u32) -> u32,
    fy: spec_fn(u32) -> u32,
    fz: spec_fn(u32) -> u32,
) -> Triangle {
    Triangle {
        normal: t.normal,
        v0: map_vert(t.v0, fx, fy, fz),
        v1: map_vert(t.v1, fx, fy, fz),
        v2: map_vert(t.v2, fx, fy, fz),
    }
}

/// `s` with every triangle sent through the axis maps.
pub open spec fn map_mesh(
    s: Seq<Triangle>,
    fx: spec_fn(u32) -> u32,
    fy: spec_fn(u32) -> u32,
    fz: spec_fn(u32) -> u32,
) -> Seq<Triangle> {
    Seq::new(s.len(), |i: int| map_tri(s[i], fx, fy, fz))
}

/// The bounding box commutes with componentwise order-preserving
/// coordinate maps: shifting every vertex of a mesh by such maps shifts
/// the two corners by exactly the same maps.  Translation by a constant
/// vector is order-preserving on each axis, so a translated mesh's
/// bounding box is the translated bounding box.
pub proof fn lemma_bbox_monotone_map(
    s: Seq<Triangle>,
    fx: spec_fn(u32) -> u32,
    fy: spec_fn(u32) -> u32,
    fz: spec_fn(u32) -> u32,
    mn: Vertex,
    mx: Vertex,
)
    requires
        s.len() >= 1,
        monotone_map(fx),
        monotone_map(fy),
        monotone_map(fz),
        is_bbox_min(s, mn),
        is_bbox_max(s, mx),
    ensures
        is_bbox_min(map_mesh(s, fx, fy, fz), map_vert(mn, fx, fy, fz)),
        is_bbox_max(map_mesh(s, fx, fy, fz), map_vert(mx, fx, fy, fz)),
{
    let m = map_mesh(s, fx, fy, fz);
    let mnm = map_vert(mn, fx, fy, fz);
    let mxm = map_vert(mx, fx, fy, fz);
    assert forall|i: int| 0 <= i < m.len() implies #[trigger] tri_lb(m[i], mnm) by {
        assert(tri_lb(s[i], mn));
        assert(m[i] == map_tri(s[i], fx, fy, fz));
        assert(coord_le(fx(mn.x), fx(s[i].v0.x)));
        assert(coord_le(fy(mn.y), fy(s[i].v0.y)));
        assert(coord_le(fz(mn.z), fz(s[i].v0.z)));
        assert(coord_le(fx(mn.x), fx(s[i].v1.x)));
        assert(coord_le(fy(mn.y), fy(s[i].v1.y)));
        assert(coord_le(fz(mn.z), fz(s[i].v1.z)));
        assert(coord_le(fx(mn.x), fx(s[i].v2.x)));
        assert(coord_le(fy(mn.y), fy(s[i].v2.y)));
        assert(coord_le(fz(mn.z), fz(s[i].v2.z)));
    }
    assert forall|i: int| 0 <= i < m.len() implies #[trigger] tri_ub(m[i], mxm) by {
        assert(tri_ub(s[i], mx));
        assert(m[i] == map_tri(s[i], fx, fy, fz));
        assert(coord_le(fx(s[i].v0.x), fx(mx.x)));
        assert(coord_le(fy(s[i].v0.y), fy(mx.y)));
        assert(coord_le(fz(s[i].v0.z), fz(mx.z)));
        assert(coord_le(fx(s[i].v1.x), fx(mx.x)));
        assert(coord_le(fy(s[i].v1.y), fy(mx.y)));
        assert(coord_le(fz(s[i].v1.z), fz(mx.z)));
        assert(coord_le(fx(s[i].v2.x), fx(mx.x)));
        assert(coord_le(fy(s[i].v2.y), fy(mx.y)));
        assert(coord_le(fz(s[i].v2.z), fz(mx.z)));
    }
    let wnx = choose|i: int| 0 <= i < s.len() && #[trigger] tri_has_x(s[i], mn.x);
    assert(m[wnx] == map_tri(s[wnx], fx, fy, fz));
    assert(tri_has_x(m[wnx], mnm.x));
    let wny = choose|i: int| 0 <= i < s.len() && #[trigger] tri_has_y(s[i], mn.y);
    assert(m[wny] == map_tri(s[wny], fx, fy, fz));
    assert(tri_has_y(m[wny], mnm.y));
    let wnz = choose|i: int| 0 <= i < s.len() && #[trigger] tri_has_z(s[i], mn.z);
    assert(m[wnz] == map_tri(s[wnz], fx, fy, fz));
    assert(tri_has_z(m[wnz], mnm.z));
    let wxx = choose|i: int| 0 <= i < s.len() && #[trigger] tri_has_x(s[i], mx.x);
    assert(m[wxx] == map_tri(s[wxx], fx, fy, fz));
    assert(tri_has_x(m[wxx], mxm.x));
    let wxy = choose|i: int| 0 <= i < s.len() && #[trigger] tri_has_y(s[i], mx.y);
    assert(m[wxy] == map_tri(s[wxy], fx, fy, fz));
    assert(tri_has_y(m[wxy], mxm.y));
    let wxz = choose|i: int| 0 <= i < s.len() && #[trigger] tri_has_z(s[i], mx.z);
    assert(m[wxz] == map_tri(s[wxz], fx, fy, fz));
    assert(tri_has_z(m[wxz], mxm.z));
}

/// The minimum corner is uniquely determined: any two vertices that both
/// satisfy its characterization are equal.
pub proof fn lemma_bbox_min_unique(s: Seq<Triangle>, a: Vertex, b: Vertex)
    requires
        s.len() >= 1,
        is_bbox_min(s, a),
        is_bbox_min(s, b),
    ensures
        a == b,
{
    let ix = choose|i: int| 0 <= i < s.len() && #[trigger] tri_has_x(s[i], b.x);
    assert(tri_lb(s[ix], a));
    let jx = choose|i: int| 0 <= i < s.len() && #[trigger] tri_has_x(s[i], a.x);
    assert(tri_lb(s[jx], b));
    lemma_coord_le_antisym(a.x, b.x);
    let iy = choose|i: int| 0 <= i < s.len() && #[trigger] tri_has_y(s[i], b.y);
    assert(tri_lb(s[iy], a));
    let jy = choose|i: int| 0 <= i < s.len() && #[trigger] tri_has_y(s[i], a.y);
    assert(tri_lb(s[jy], b));
    lemma_coord_le_antisym(a.y, b.y);
    let iz = choose|i: int| 0 <= i < s.len() && #[trigger] tri_has_z(s[i], b.z);
    assert(tri_lb(s[iz], a));
    let jz = choose|i: int| 0 <= i < s.len() && #[trigger] tri_has_z(s[i], a.z);
    assert(tri_lb(s[jz], b));
    lemma_coord_le_antisym(a.z, b.z);
}

/// The maximum corner is uniquely determined: any two vertices that both
/// satisfy its characterization are equal.
pub proof fn lemma_bbox_max_unique(s: Seq<Triangle>, a: Vertex, b: Vertex)
    requires
        s.len() >= 1,
        is_bbox_max(s, a),
        is_bbox_max(s, b),
    ensures
        a == b,
{
    let ix = choose|i: int| 0 <= i < s.len() && #[trigger] tri_has_x(s[i], b.x);
    assert(tri_ub(s[ix], a));
    let jx = choose|i: int| 0 <= i < s.len() && #[trigger] tri_has_x(s[i], a.x);
    assert(tri_ub(s[jx], b));
    lemma_coord_le_antisym(a.x, b.x);
    let iy = choose|i: int| 0 <= i < s.len() && #[trigger] tri_has_y(s[i], b.y);
    assert(tri_ub(s[iy], a));
    let jy = choose|i: int| 0 <= i < s.len() && #[trigger] tri_has_y(s[i], a.y);
    assert(tri_ub(s[jy], b));
    lemma_coord_le_antisym(a.y, b.y);
    let iz = choose|i: int| 0 <= i < s.len() && #[trigger] tri_has_z(s[i], b.z);
    assert(tri_ub(s[iz], a));
    let jz = choose|i: int| 0 <= i < s.len() && #[trigger] tri_has_z(s[i], a.z);
    assert(tri_ub(s[jz], b));
    lemma_coord_le_antisym(a.z, b.z);
}

} // verus!
