//! Images and the keys under which they are known.

use vstd::prelude::*;

verus! {

/// Identity of a texture resource: two requests name the same resource
/// exactly when their keys are equal. Paths are compared character by
/// character, without normalisation.
pub enum ResourceKey {
    /// The asset at this path.
    AssetPath(Seq<char>),
    /// The constant colour with these four bytes: red, green, blue, alpha.
    PlaceholderColor(Seq<u8>),
}

/// A map slot of a mesh as the scene loader hands it over: either a texture
/// file, or a constant RGBA colour standing in for a missing texture.
#[derive(Debug, PartialEq, Eq, Hash)]
pub enum MeshMaterialMap {
    Asset { path: String },
    Placeholder([u8; 4]),
}

impl View for MeshMaterialMap {
    type V = ResourceKey;

    open spec fn view(&self) -> ResourceKey {
        match self {
            MeshMaterialMap::Asset { path } => ResourceKey::AssetPath(path@),
            MeshMaterialMap::Placeholder(rgba) => ResourceKey::PlaceholderColor(rgba@),
        }
    }
}

impl Clone for MeshMaterialMap {
    fn clone(&self) -> (res: Self)
        ensures
            res == *self,
    {
        match self {
            MeshMaterialMap::Asset { path } => MeshMaterialMap::Asset { path: path.clone() },
            MeshMaterialMap::Placeholder(rgba) => MeshMaterialMap::Placeholder(*rgba),
        }
    }
}

/// Decoded RGBA8 pixels, row by row, with the image's width and height.
#[derive(Debug, PartialEq, Eq)]
pub struct RawRgba8Image {
    pub data: Vec<u8>,
    pub dimensions: [u32; 2],
}

impl RawRgba8Image {
    /// The image is a single pixel of the colour `rgba`.
    pub open spec fn is_placeholder(&self, rgba: Seq<u8>) -> bool {
        &&& self.data@ == rgba
        &&& self.dimensions@ == seq![1u32, 1u32]
    }

    /// The 1x1 image that stands in for a missing texture.
    pub fn placeholder(rgba: &[u8; 4]) -> (image: RawRgba8Image)
        ensures
            image.is_placeholder(rgba@),
    {
        let mut data: Vec<u8> = Vec::new();
        let mut i: usize = 0;
        while i < 4
            invariant
                i <= 4,
                data@ == rgba@.take(i as int),
            decreases 4 - i,
        {
            data.push(rgba[i]);
            i += 1;
        }
        let dimensions: [u32; 2] = [1, 1];
        assert(data@ =~= rgba@);
        assert(dimensions@ =~= seq![1u32, 1u32]);
        RawRgba8Image { data, dimensions }
    }
}

} // verus!
