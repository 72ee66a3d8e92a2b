use vstd::prelude::*;
use crate::mesh::{Mesh, Triangle};
use crate::order::{coord_le, coord_le_exec};

verus! {

/// All three vertices of `t` lie at or above the cutting height `z`.
pub open spec fn tri_at_or_above(t: Triangle, z: u32) -> bool {
    coord_le(z, t.v0.z) && coord_le(z, t.v1.z) && coord_le(z, t.v2.z)
}

/// All three vertices of `t` lie at or below the cutting height `z`.
pub open spec fn tri_at_or_below(t: Triangle, z: u32) -> bool {
    coord_le(t.v0.z, z) && coord_le(t.v1.z, z) && coord_le(t.v2.z, z)
}

/// `t` is classified into the upper output.  The at-or-above test comes
/// first, so a triangle lying entirely in the plane counts as upper.
pub open spec fn in_upper(t: Triangle, z: u32) -> bool {
    tri_at_or_above(t, z)
}

/// `t` is classified into the lower output: not upper, but entirely at or
/// below the plane.
pub open spec fn in_lower(t: Triangle, z: u32) -> bool {
    !tri_at_or_above(t, z) && tri_at_or_below(t, z)
}

/// `t` belongs to neither output: its vertices lie strictly on both sides
/// of the plane.
pub open spec fn straddles(t: Triangle, z: u32) -> bool {
    !tri_at_or_above(t, z) && !tri_at_or_below(t, z)
}

/// The triangles of `s` classified as upper, in source order.
pub open spec fn upper_part(s: Seq<Triangle>, z: u32) -> Seq<Triangle>
    decreases s.len(),
{
    if s.len() == 0 {
        Seq::empty()
    } else {
        upper_part(s.drop_last(), z) + if in_upper(s.last(), z) {
            seq![s.last()]
        } else {
            Seq::empty()
        }
    }
}

/// The triangles of `s` classified as lower, in source order.
pub open spec fn lower_part(s: Seq<Triangle>, z: u32) -> Seq<Triangle>
    decreases s.len(),
{
    if s.len() == 0 {
        Seq::empty()
    } else {
        lower_part(s.drop_last(), z) + if in_lower(s.last(), z) {
            seq![s.last()]
        } else {
            Seq::empty()
        }
    }
}

/// The triangles of `s` that straddle the plane, in source order.
pub open spec fn dropped_part(s: Seq<Triangle>, z: u32) -> Seq<Triangle>
    decreases s.len(),
{
    if s.len() == 0 {
        Seq::empty()
    } else {
        dropped_part(s.drop_last(), z) + if straddles(s.last(), z) {
            seq![s.last()]
        } else {
            Seq::empty()
        }
    }
}

/// Decides whether all three vertices of `t` lie at or above `z`.
pub fn tri_at_or_above_exec(t: &Triangle, z: u32) -> (r: bool)
    ensures
        r == tri_at_or_above(*t, z),
{
    coord_le_exec(z, t.v0.z) && coord_le_exec(z, t.v1.z) && coord_le_exec(z, t.v2.z)
}

/// Decides whether all three vertices of `t` lie at or below `z`.
pub fn tri_at_or_below_exec(t: &Triangle, z: u32) -> (r: bool)
    ensures
        r == tri_at_or_below(*t, z),
{
    coord_le_exec(t.v0.z, z) && coord_le_exec(t.v1.z, z) && coord_le_exec(t.v2.z, z)
}

impl Mesh {
    /// Partitions the triangles of the mesh against the horizontal plane at
    /// height `z_height`: triangles entirely at or above the plane go to the
    /// first output, the rest of the triangles entirely at or below it go to
    /// the second, and straddling triangles go to neither.  Source order is
    /// preserved in both outputs.
    pub fn split(&self, z_height: u32) -> (r: (Vec<Triangle>, Vec<Triangle>))
        ensures
            r.0@ == upper_part(self.triangles@, z_height),
            r.1@ == lower_part(self.triangles@, z_height),
    {
        let mut upper: Vec<Triangle> = Vec::new();
        let mut lower: Vec<Triangle> = Vec::new();
        let n = self.triangles.len();
        let mut i: usize = 0;
        while i < n
            invariant
                n == self.triangles@.len(),
                0 <= i <= n,
                upper@ == upper_part(self.triangles@.take(i as int), z_height),
                lower@ == lower_part(self.triangles@.take(i as int), z_height),
            decreases n - i,
        {
            let t = self.triangles[i];
            if tri_at_or_above_exec(&t, z_height) {
                upper.push(t);
            } else if tri_at_or_below_exec(&t, z_height) {
                lower.push(t);
            }
            proof {
                let s = self.triangles@;
                assert(s.take(i as int + 1).drop_last() =~= s.take(i as int));
                assert(s.take(i as int + 1).last() == t);
                assert(upper@ =~= upper_part(s.take(i as int + 1), z_height));
                assert(lower@ =~= lower_part(s.take(i as int + 1), z_height));
            }
            i = i + 1;
        }
        proof {
            assert(self.triangles@.take(n as int) =~= self.triangles@);
        }
        (upper, lower)
    }
}

/// Every triangle of the source is classified exactly once: the upper,
/// lower and dropped groups together count the whole mesh.
pub proof fn lemma_split_partition(s: Seq<Triangle>, z: u32)
    ensures
        upper_part(s, z).len() + lower_part(s, z).len() + dropped_part(s, z).len() == s.len(),
    decreases s.len(),
{
    if s.len() > 0 {
        lemma_split_partition(s.drop_last(), z);
    }
}

/// Soundness of the classification: every triangle of the upper output has
/// all vertex heights at or above the plane, every triangle of the lower
/// output has them at or below and is not an upper triangle, and both
/// outputs take their triangles from the source.
pub proof fn lemma_split_sides(s: Seq<Triangle>, z: u32)
    ensures
        forall|i: int|
            0 <= i < upper_part(s, z).len() ==> in_upper(#[trigger] upper_part(s, z)[i], z)
                && s.contains(upper_part(s, z)[i]),
        forall|i: int|
            0 <= i < lower_part(s, z).len() ==> in_lower(#[trigger] lower_part(s, z)[i], z)
                && s.contains(lower_part(s, z)[i]),
    decreases s.len(),
{
    if s.len() > 0 {
        let shorter = s.drop_last();
        lemma_split_sides(shorter, z);
        assert forall|i: int|
            0 <= i < upper_part(s, z).len() implies in_upper(
            #[trigger] upper_part(s, z)[i],
            z,
        ) && s.contains(upper_part(s, z)[i]) by {
            let up = upper_part(shorter, z);
            if i < up.len() {
                assert(upper_part(s, z)[i] == up[i]);
                let w = choose|j: int| 0 <= j < shorter.len() && shorter[j] == up[i];
                assert(s[w] == upper_part(s, z)[i]);
            } else {
                assert(upper_part(s, z)[i] == s.last());
                assert(s[s.len() - 1] == s.last());
            }
        }
        assert forall|i: int|
            0 <= i < lower_part(s, z).len() implies in_lower(
            #[trigger] lower_part(s, z)[i],
            z,
        ) && s.contains(lower_part(s, z)[i]) by {
            let lo = lower_part(shorter, z);
            if i < lo.len() {
                assert(lower_part(s, z)[i] == lo[i]);
                let w = choose|j: int| 0 <= j < shorter.len() && shorter[j] == lo[i];
                assert(s[w] == lower_part(s, z)[i]);
            } else {
                assert(lower_part(s, z)[i] == s.last());
                assert(s[s.len() - 1] == s.last());
            }
        }
    }
}

/// No triangle value lands in both outputs: the upper and lower groups are
/// disjoint.
pub proof fn lemma_split_disjoint(s: Seq<Triangle>, z: u32, t: Triangle)
    requires
        upper_part(s, z).contains(t),
    ensures
        !lower_part(s, z).contains(t),
{
    lemma_split_sides(s, z);
    let i = choose|i: int| 0 <= i < upper_part(s, z).len() && upper_part(s, z)[i] == t;
    assert(in_upper(upper_part(s, z)[i], z));
    if lower_part(s, z).contains(t) {
        let j = choose|j: int| 0 <= j < lower_part(s, z).len() && lower_part(s, z)[j] == t;
        assert(in_lower(lower_part(s, z)[j], z));
    }
}

/// Completeness of the classification: a source triangle that the
/// classification sends to a group is found in that group's output.
pub proof fn lemma_split_complete(s: Seq<Triangle>, z: u32, i: int)
    requires
        0 <= i < s.len(),
    ensures
        in_upper(s[i], z) ==> upper_part(s, z).contains(s[i]),
        in_lower(s[i], z) ==> lower_part(s, z).contains(s[i]),
    decreases s.len(),
{
    let shorter = s.drop_last();
    if i < s.len() - 1 {
        lemma_split_complete(shorter, z, i);
        assert(shorter[i] == s[i]);
        if in_upper(s[i], z) {
            let w = choose|j: int|
                0 <= j < upper_part(shorter, z).len() && upper_part(shorter, z)[j] == s[i];
            assert(upper_part(s, z)[w] == s[i]);
        }
        if in_lower(s[i], z) {
            let w = choose|j: int|
                0 <= j < lower_part(shorter, z).len() && lower_part(shorter, z)[j] == s[i];
            assert(lower_part(s, z)[w] == s[i]);
        }
    } else {
        assert(s[i] == s.last());
        if in_upper(s[i], z) {
            assert(upper_part(s, z).last() == s.last());
        }
        if in_lower(s[i], z) {
            assert(lower_part(s, z).last() == s.last());
        }
    }
}

/// A triangle whose three vertices lie exactly at the cutting height is an
/// upper triangle, never a lower or dropped one: the at-or-above test wins.
pub proof fn lemma_plane_triangle_is_upper(t: Triangle, z: u32)
    requires
        t.v0.z == z,
        t.v1.z == z,
        t.v2.z == z,
    ensures
        in_upper(t, z),
        !in_lower(t, z),
        !straddles(t, z),
{
}

} // verus!
