use vstd::prelude::*;

verus! {

/// The failures this library and its surrounding tooling distinguish.
///
/// `MalformedInput` covers an unreadable, corrupt or structurally invalid
/// source file, including a decoded vertex list whose length is not a
/// multiple of three.  `EmptyMesh` marks a file that decodes to zero
/// triangles.  `NoInputSelected` and `IOError` arise only in the
/// surrounding command-line tooling (no input file resolvable; a directory
/// or file could not be created or written) but belong to the same taxonomy.
#[derive(Clone, Copy, Debug, PartialEq, Eq, Structural)]
pub enum MeshError {
    MalformedInput,
    EmptyMesh,
    NoInputSelected,
    IOError,
}

} // verus!
