use vstd::prelude::*;
use crate::error::MeshError;
use crate::mesh::{group_triangles, tri_of, Mesh, Triangle, Vertex};

verus! {

/// What decoding a mesh file yields: `None` when the bytes are not a
/// well-formed STL stream (ASCII or binary), otherwise the stream's flat
/// vertex list, each vertex as the raw bit patterns of its three
/// coordinates.  The decoder indexes the mesh, so the list holds each
/// distinct vertex once, in first-appearance order.  The result depends on
/// the bytes alone.
pub uninterp spec fn stl_parse(data: Seq<u8>) -> Option<Seq<(u32, u32, u32)>>;

/// The coordinate bit patterns of a vertex list, vertex by vertex.
pub open spec fn vertex_patterns(vs: Seq<Vertex>) -> Seq<(u32, u32, u32)> {
    vs.map_values(|v: Vertex| (v.x, v.y, v.z))
}

/// The vertex list a pattern list stands for.
pub open spec fn verts_of_patterns(ps: Seq<(u32, u32, u32)>) -> Seq<Vertex> {
    ps.map_values(|p: (u32, u32, u32)| Vertex { x: p.0, y: p.1, z: p.2 })
}

/// Relies on `stl_io::read_stl`: it decodes an ASCII or binary STL stream
/// into an indexed mesh whose vertex list holds each distinct vertex once,
/// in first-appearance order, and fails on a malformed stream; the result
/// is a function of the bytes alone.  The wrapper hands that vertex list
/// back as raw coordinate bit patterns, `None` where the parse failed.
#[verifier::external_body]
fn read_stl_vertices(data: &[u8]) -> (r: Option<Vec<Vertex>>)
    ensures
        match r {
            Option::Some(vs) => stl_parse(data@) == Option::Some(vertex_patterns(vs@)),
            Option::None => stl_parse(data@) is None,
        },
{
    let mut cursor = std::io::Cursor::new(data);
    match stl_io::read_stl(&mut cursor) {
        Ok(mesh) => Some(
            mesh.vertices
                .iter()
                .map(|v| Vertex { x: v.0[0].to_bits(), y: v.0[1].to_bits(), z: v.0[2].to_bits() })
                .collect(),
        ),
        Err(_) => None,
    }
}

/// What loading a decoded pattern list yields: the decode failure and a
/// ragged vertex count are malformed input, zero vertices are an empty
/// mesh, and otherwise the vertices grouped in threes become the triangle
/// list, every triangle under the placeholder normal.
pub open spec fn load_result(p: Option<Seq<(u32, u32, u32)>>) -> Result<Seq<Triangle>, MeshError> {
    match p {
        Option::None => Result::Err(MeshError::MalformedInput),
        Option::Some(vs) => if vs.len() % 3 != 0 {
            Result::Err(MeshError::MalformedInput)
        } else if vs.len() == 0 {
            Result::Err(MeshError::EmptyMesh)
        } else {
            Result::Ok(group_triangles(verts_of_patterns(vs)))
        },
    }
}

impl Mesh {
    /// Decodes the bytes of a mesh file into a mesh.
    ///
    /// The file's flat vertex list is grouped into consecutive chunks of
    /// three, one triangle per chunk, and every triangle receives the
    /// placeholder normal `(0, 0, 1)` in place of whatever the file
    /// carried.  Fails with `MalformedInput` when the bytes do not decode
    /// or the vertex count is not a multiple of three, and with
    /// `EmptyMesh` when zero triangles result.
    pub fn load(data: &[u8]) -> (r: Result<Mesh, MeshError>)
        ensures
            match r {
                Result::Ok(m) => load_result(stl_parse(data@)) == Result::<
                    Seq<Triangle>,
                    MeshError,
                >::Ok(m.triangles@) && m.wf(),
                Result::Err(e) => load_result(stl_parse(data@)) == Result::<
                    Seq<Triangle>,
                    MeshError,
                >::Err(e),
            },
    {
        match read_stl_vertices(data) {
            Option::None => Result::Err(MeshError::MalformedInput),
            Option::Some(verts) => {
                if verts.len() % 3 != 0 {
                    return Result::Err(MeshError::MalformedInput);
                }
                if verts.len() == 0 {
                    return Result::Err(MeshError::EmptyMesh);
                }
                let n_tris = verts.len() / 3;
                let mut triangles: Vec<Triangle> = Vec::new();
                let mut i: usize = 0;
                proof {
                    assert(verts@.len() == 3 * n_tris) by (nonlinear_arith)
                        requires
                            verts@.len() % 3 == 0,
                            n_tris == verts@.len() / 3,
                    ;
                }
                while i < n_tris
                    invariant
                        verts@.len() == 3 * n_tris,
                        verts@.len() <= usize::MAX,
                        0 <= i <= n_tris,
                        triangles@.len() == i,
                        forall|j: int| 0 <= j < i ==> triangles@[j] == tri_of(verts@, j),
                    decreases n_tris - i,
                {
                    assert(3 * i + 2 < verts@.len());
                    let v0 = verts[3 * i];
                    let v1 = verts[3 * i + 1];
                    let v2 = verts[3 * i + 2];
                    triangles.push(
                        Triangle { normal: crate::mesh::default_normal(), v0, v1, v2 },
                    );
                    i = i + 1;
                }
                proof {
                    let ps = vertex_patterns(verts@);
                    assert(verts_of_patterns(ps) =~= verts@);
                    assert(ps.len() == verts@.len());
                    assert(triangles@ =~= group_triangles(verts@));
                }
                Result::Ok(Mesh { triangles })
            },
        }
    }
}

/// A decoded vertex list whose length is not a multiple of three loads as
/// malformed input, whatever its vertices hold.
pub proof fn lemma_load_rejects_ragged(vs: Seq<(u32, u32, u32)>)
    requires
        vs.len() % 3 != 0,
    ensures
        load_result(Option::Some(vs)) == Result::<Seq<Triangle>, MeshError>::Err(
            MeshError::MalformedInput,
        ),
{
}

/// A decoded vertex list with no vertices loads as an empty mesh.
pub proof fn lemma_load_rejects_empty(vs: Seq<(u32, u32, u32)>)
    requires
        vs.len() == 0,
    ensures
        load_result(Option::Some(vs)) == Result::<Seq<Triangle>, MeshError>::Err(
            MeshError::EmptyMesh,
        ),
{
}

/// A run of `n` zero bytes.
pub open spec fn zero_bytes(n: int) -> Seq<u8> {
    Seq::new(n as nat, |j: int| 0u8)
}

/// The four bytes of `x`, least significant first.
pub open spec fn le_bytes_u32(x: u32) -> Seq<u8> {
    seq![
        (x % 0x100) as u8,
        ((x / 0x100) % 0x100) as u8,
        ((x / 0x10000) % 0x100) as u8,
        ((x / 0x1000000) % 0x100) as u8,
    ]
}

/// The 12 bytes of one vertex or vector: its three coordinate patterns,
/// each little-endian.
pub open spec fn vert_bytes(v: Vertex) -> Seq<u8> {
    le_bytes_u32(v.x) + le_bytes_u32(v.y) + le_bytes_u32(v.z)
}

/// The 50 bytes of one facet in file order: the normal's three coordinate
/// patterns, the three vertices' patterns, and a zero attribute count.
pub open spec fn facet_bytes(t: Triangle) -> Seq<u8> {
    vert_bytes(t.normal) + vert_bytes(t.v0) + vert_bytes(t.v1) + vert_bytes(t.v2) + seq![0u8, 0u8]
}

/// The facet records of a triangle list, in order.
pub open spec fn facets_bytes(ts: Seq<Triangle>) -> Seq<u8>
    decreases ts.len(),
{
    if ts.len() == 0 {
        Seq::empty()
    } else {
        facets_bytes(ts.drop_last()) + facet_bytes(ts.last())
    }
}

/// The binary STL encoding of a triangle list: an 80-byte zero header, the
/// facet count as a little-endian 32-bit value, then 50 bytes per facet.
pub open spec fn stl_bytes(ts: Seq<Triangle>) -> Seq<u8> {
    zero_bytes(80) + le_bytes_u32(ts.len() as u32) + facets_bytes(ts)
}

/// One vertex record occupies exactly 12 bytes.
pub proof fn lemma_vert_bytes_len(v: Vertex)
    ensures
        vert_bytes(v).len() == 12,
{
    assert(le_bytes_u32(v.x).len() == 4);
    assert(le_bytes_u32(v.y).len() == 4);
    assert(le_bytes_u32(v.z).len() == 4);
}

/// One facet record occupies exactly 50 bytes.
pub proof fn lemma_facet_bytes_len(t: Triangle)
    ensures
        facet_bytes(t).len() == 50,
{
    lemma_vert_bytes_len(t.normal);
    lemma_vert_bytes_len(t.v0);
    lemma_vert_bytes_len(t.v1);
    lemma_vert_bytes_len(t.v2);
}

/// The facet records of `n` triangles occupy exactly `50 * n` bytes.
pub proof fn lemma_facets_bytes_len(ts: Seq<Triangle>)
    ensures
        facets_bytes(ts).len() == 50 * ts.len(),
    decreases ts.len(),
{
    if ts.len() > 0 {
        lemma_facet_bytes_len(ts.last());
        lemma_facets_bytes_len(ts.drop_last());
    }
}

/// A serialized triangle list occupies exactly `84 + 50 * n` bytes: the
/// header, the counter, and one record per triangle.
pub proof fn lemma_stl_bytes_len(ts: Seq<Triangle>)
    ensures
        stl_bytes(ts).len() == 84 + 50 * ts.len(),
{
    lemma_facets_bytes_len(ts);
}

/// Appends the four little-endian bytes of `x`.
fn push_le_u32(out: &mut Vec<u8>, x: u32)
    ensures
        final(out)@ == old(out)@ + le_bytes_u32(x),
{
    out.push((x % 0x100) as u8);
    out.push(((x / 0x100) % 0x100) as u8);
    out.push(((x / 0x10000) % 0x100) as u8);
    out.push(((x / 0x1000000) % 0x100) as u8);
    proof {
        assert(out@ =~= old(out)@ + le_bytes_u32(x));
    }
}

/// Appends the 12-byte record of one vertex or vector.
fn push_vert(out: &mut Vec<u8>, v: &Vertex)
    ensures
        final(out)@ == old(out)@ + vert_bytes(*v),
{
    push_le_u32(out, v.x);
    push_le_u32(out, v.y);
    push_le_u32(out, v.z);
    proof {
        assert(out@ =~= old(out)@ + vert_bytes(*v));
    }
}

/// Appends the 50-byte record of one facet.
fn push_facet(out: &mut Vec<u8>, t: &Triangle)
    ensures
        final(out)@ == old(out)@ + facet_bytes(*t),
{
    push_vert(out, &t.normal);
    push_vert(out, &t.v0);
    push_vert(out, &t.v1);
    push_vert(out, &t.v2);
    out.push(0u8);
    out.push(0u8);
    proof {
        assert(out@ =~= old(out)@ + facet_bytes(*t));
    }
}

impl Mesh {
    /// Serializes a triangle list as a binary STL byte stream: the exact
    /// bytes are the 80-byte zero header, the little-endian facet count,
    /// and one 50-byte record per triangle in order, so every coordinate
    /// pattern is carried into the file unchanged.  The list may be empty;
    /// the count must fit the format's 32-bit counter.
    pub fn save(triangles: &Vec<Triangle>) -> (r: Vec<u8>)
        requires
            triangles@.len() <= 0xFFFF_FFFF,
        ensures
            r@ == stl_bytes(triangles@),
    {
        let mut out: Vec<u8> = Vec::new();
        let mut k: usize = 0;
        while k < 80
            invariant
                0 <= k <= 80,
                out@ == zero_bytes(k as int),
            decreases 80 - k,
        {
            out.push(0u8);
            proof {
                assert(out@ =~= zero_bytes(k as int + 1));
            }
            k = k + 1;
        }
        let count = triangles.len() as u32;
        push_le_u32(&mut out, count);
        let n = triangles.len();
        let mut i: usize = 0;
        proof {
            assert(triangles@.take(0) =~= Seq::<Triangle>::empty());
        }
        while i < n
            invariant
                n == triangles@.len(),
                n <= 0xFFFF_FFFF,
                count == n as u32,
                0 <= i <= n,
                out@ == zero_bytes(80) + le_bytes_u32(count) + facets_bytes(
                    triangles@.take(i as int),
                ),
            decreases n - i,
        {
            push_facet(&mut out, &triangles[i]);
            proof {
                let s = triangles@;
                assert(s.take(i as int + 1).drop_last() =~= s.take(i as int));
                assert(s.take(i as int + 1).last() == s[i as int]);
                assert(out@ =~= zero_bytes(80) + le_bytes_u32(count) + facets_bytes(
                    s.take(i as int + 1),
                ));
            }
            i = i + 1;
        }
        proof {
            assert(triangles@.take(n as int) =~= triangles@);
        }
        out
    }
}

} // verus!
