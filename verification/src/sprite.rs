use vstd::prelude::*;

verus! {

/// Handle of a sprite inside the current atlas generation: the position of
/// the image in the order it was submitted to the [`crate::sprite::SpriteLoadOptions`]
/// owner's builder.
pub type SpriteIndex = usize;

/// Options applied to an image when it is loaded into the sprite atlas.
#[derive(Debug, Clone, Copy, PartialEq, Eq, Structural, Default)]
pub struct SpriteLoadOptions {
    /// Premultiplied images are unpremultiplied before storage, since the
    /// renderer composites all sprites as non-premultiplied.
    pub premultiplied: bool,
}

/// Where a sprite's two triangles live in the shared index buffer.
#[derive(Debug, Clone, Copy, PartialEq, Eq, Structural, Hash)]
pub struct SpriteDrawData {
    /// First slot of this sprite's half-open index-buffer range.
    pub index_start: u32,
    /// One past the last slot of this sprite's index-buffer range.
    pub index_end: u32,
}

impl SpriteDrawData {
    /// The half-open index-buffer range `[start, end)` that draws this sprite.
    pub fn indices(&self) -> (r: (u32, u32))
        ensures
            r.0 == self.index_start,
            r.1 == self.index_end,
    {
        (self.index_start, self.index_end)
    }
}

} // verus!
