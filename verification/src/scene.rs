//! Scene building blocks that reference streamed resources.

use vstd::prelude::*;

use crate::res::Mesh;
use crate::res::Texture;

verus! {

/// A mesh drawn with a texture: the pair of handles a textured draw
/// references.
pub struct TexturedMesh {
    pub mesh: Mesh,
    pub texture: Texture,
}

impl TexturedMesh {
    pub fn new(mesh: Mesh, texture: Texture) -> (r: TexturedMesh)
        ensures
            r.mesh == mesh,
            r.texture == texture,
    {
        TexturedMesh { mesh, texture }
    }
}

} // verus!
