//! The choices that a render pass is made with.

use vstd::prelude::*;

verus! {

/// How splats are filtered.
#[derive(Clone, Copy, Debug, PartialEq, Eq, Structural)]
pub enum SplatRenderMode {
    Default,
    Mip,
}

/// What the rasterizer does besides drawing.
#[derive(Clone, Copy, Debug, Hash, PartialEq, Eq, Structural)]
pub enum RasterPass {
    /// Draw only, with a hard cutoff of faint splats.
    Forward,
    /// Also keep what a backward pass needs.
    Backward,
    /// As [`RasterPass::Backward`], with a smooth cutoff. Makes gradients agree
    /// with finite differences at the cutoff.
    BackwardSmoothCutoff,
}

/// How the image comes out.
#[derive(Clone, Copy, Debug, PartialEq, Eq, Structural)]
pub enum TextureMode {
    /// Four bytes for each pixel.
    Packed,
    /// Four singles for each pixel.
    Float,
}

impl Default for RasterPass {
    fn default() -> (r: RasterPass)
        ensures
            r == RasterPass::Forward,
    {
        RasterPass::Forward
    }
}

impl Default for TextureMode {
    fn default() -> (r: TextureMode)
        ensures
            r == TextureMode::Float,
    {
        TextureMode::Float
    }
}

impl RasterPass {
    /// The pass keeps what a backward pass needs.
    pub fn bwd_info(self) -> (r: bool)
        ensures
            r == (self != RasterPass::Forward),
    {
        !matches!(self, RasterPass::Forward)
    }

    /// The pass fades faint splats out smoothly.
    pub fn smooth_cutoff(self) -> (r: bool)
        ensures
            r == (self == RasterPass::BackwardSmoothCutoff),
    {
        matches!(self, RasterPass::BackwardSmoothCutoff)
    }

    /// The pass that draws an image of the given kind: an image of singles
    /// needs the bookkeeping of a backward pass, a packed one does not.
    pub fn for_texture(mode: TextureMode) -> (r: RasterPass)
        ensures
            r == match mode {
                TextureMode::Float => RasterPass::Backward,
                TextureMode::Packed => RasterPass::Forward,
            },
    {
        match mode {
            TextureMode::Float => RasterPass::Backward,
            TextureMode::Packed => RasterPass::Forward,
        }
    }
}

impl SplatRenderMode {
    /// The mode of splats that are, or are not, filtered.
    pub fn for_mip(render_mip: bool) -> (r: SplatRenderMode)
        ensures
            r == if render_mip {
                SplatRenderMode::Mip
            } else {
                SplatRenderMode::Default
            },
    {
        if render_mip {
            SplatRenderMode::Mip
        } else {
            SplatRenderMode::Default
        }
    }
}

} // verus!
